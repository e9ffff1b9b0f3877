//! Verified core logic of the X3 / Atlas Sphere chain components: the sBPF
//! interpreter, the bytecode verifier, the cross-VM and Ethereum bridges, the
//! fee market, the dispute court, the HotStuff block application step, swap
//! routing and route finding, position accounting, swarm metrics, and the
//! request decisions of the node, sidecar, gateway and coordinator services.

pub mod accounting;
pub mod bpf_runtime;
pub mod bytecode;
pub mod bytes;
pub mod court;
pub mod cross_vm;
pub mod eth_bridge;
pub mod eth_rpc;
pub mod evm;
pub mod fees;
pub mod gateway;
pub mod gpu_query;
pub mod hashing;
pub mod strmap;
pub mod text;
pub mod hotstuff;
pub mod metrics;
pub mod mir_opt;
pub mod node;
pub mod persistence;
pub mod positions;
pub mod route_optimizer;
pub mod routing;
pub mod rpc;
pub mod scale;
pub mod sidecar;
pub mod svm;
