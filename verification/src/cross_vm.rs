//! Cross-VM bridge: atomic EVM <-> SVM operations with limit checks, replay
//! protection and a two-phase commit (prepare -> commit / abort).

use vstd::prelude::*;
use std::collections::HashSet;
use vstd::std_specs::iter::IteratorSpec;
use crate::bytes::{le_bytes, push_bytes, push_str, push_u128_le, push_u64_le, utf8};

verus! {

broadcast use vstd::std_specs::hash::group_hash_axioms;

/// Maximum single transfer amount (10 billion units with 9 decimals).
pub const DEFAULT_MAX_TRANSFER_AMOUNT: u128 = 10_000_000_000_000_000_000u128;

/// Maximum batch size per execution.
pub const MAX_BATCH_SIZE: usize = 64usize;

/// Largest message payload that the bridge relays.
pub const MAX_MESSAGE_LEN: usize = 1024usize;

/// Runtime dispatch error.
#[derive(Clone, Copy, Debug)]
pub enum DispatchError {
    /// A failure described by a static message.
    Other(&'static str),
}

/// Error returned when bytes do not decode to a value.
#[derive(Clone, Copy, Debug, PartialEq, Eq, Structural)]
pub enum CodecError {
    /// The input ended before the value was complete.
    NotEnoughData,
    /// The variant index names no variant.
    InvalidVariant,
    /// A compact length was not in its shortest form.
    OutOfRange,
}

/// VM type identifier.
#[derive(Clone, Copy, Debug, PartialEq, Eq, Structural)]
pub enum VmType {
    /// Ethereum Virtual Machine
    Evm,
    /// Solana Virtual Machine
    Svm,
    /// X3 Native
    X3,
}

/// The variant index of `t` in its encoding.
pub open spec fn vm_type_index(t: VmType) -> u8 {
    match t {
        VmType::Evm => 0,
        VmType::Svm => 1,
        VmType::X3 => 2,
    }
}

/// The value whose variant index is `b`, if any.
pub open spec fn vm_type_of_index(b: u8) -> Option<VmType> {
    if b == 0 {
        Some(VmType::Evm)
    } else if b == 1 {
        Some(VmType::Svm)
    } else if b == 2 {
        Some(VmType::X3)
    } else {
        None
    }
}

impl VmType {
    /// The SCALE encoding of the value: its variant index as one byte.
    pub fn encode(&self) -> (out: Vec<u8>)
        ensures
            out@ == seq![vm_type_index(*self)],
    {
        let b: u8 = match self {
            VmType::Evm => 0,
            VmType::Svm => 1,
            VmType::X3 => 2,
        };
        let mut out: Vec<u8> = Vec::new();
        out.push(b);
        out
    }

    /// Decodes a value from the front of `input` and advances `input` past
    /// the byte it read.
    pub fn decode(input: &mut &[u8]) -> (r: Result<VmType, CodecError>)
        ensures
            old(input)@.len() == 0 ==> r == Err::<VmType, CodecError>(CodecError::NotEnoughData)
                && final(input)@ == old(input)@,
            old(input)@.len() > 0 ==> final(input)@ == old(input)@.drop_first() && match vm_type_of_index(old(input)@[0]) {
                Some(t) => r == Ok::<VmType, CodecError>(t),
                None => r == Err::<VmType, CodecError>(CodecError::InvalidVariant),
            },
    {
        let bytes: &[u8] = *input;
        if bytes.len() == 0 {
            return Err(CodecError::NotEnoughData);
        }
        let b = bytes[0];
        let rest = vstd::slice::slice_subrange(bytes, 1, bytes.len());
        *input = rest;
        assert(rest@ =~= old(input)@.drop_first());
        if b == 0 {
            Ok(VmType::Evm)
        } else if b == 1 {
            Ok(VmType::Svm)
        } else if b == 2 {
            Ok(VmType::X3)
        } else {
            Err(CodecError::InvalidVariant)
        }
    }
}

/// Bridge configuration controlling limits and safety.
#[derive(Clone, Copy, Debug)]
pub struct BridgeConfig {
    /// Maximum transfer amount per operation
    pub max_transfer_amount: u128,
    /// Whether the bridge is paused (circuit breaker)
    pub paused: bool,
    /// Maximum batch size
    pub max_batch_size: u32,
    /// Cumulative transfer volume this epoch
    pub epoch_volume: u128,
    /// Maximum volume per epoch before circuit breaker trips
    pub max_epoch_volume: u128,
}

/// The default configuration.
pub open spec fn default_config() -> BridgeConfig {
    BridgeConfig {
        max_transfer_amount: DEFAULT_MAX_TRANSFER_AMOUNT,
        paused: false,
        max_batch_size: 64,
        epoch_volume: 0,
        max_epoch_volume: u128::MAX,
    }
}

impl Default for BridgeConfig {
    fn default() -> (c: Self)
        ensures
            c == default_config(),
    {
        BridgeConfig {
            max_transfer_amount: DEFAULT_MAX_TRANSFER_AMOUNT,
            paused: false,
            max_batch_size: 64u32,
            epoch_volume: 0,
            max_epoch_volume: u128::MAX,
        }
    }
}

/// Cross-VM operation types.
#[derive(Clone, Debug, PartialEq, Eq)]
#[allow(inconsistent_fields)]
pub enum CrossVmOperation {
    /// Transfer tokens from SVM to EVM
    TransferToEvm { source: Vec<u8>, destination: [u8; 20], amount: u128 },
    /// Transfer tokens from EVM to SVM
    TransferToSvm { source: [u8; 20], destination: Vec<u8>, amount: u128 },
    /// Call EVM contract from SVM
    CallEvm { caller: Vec<u8>, contract: [u8; 20], input: Vec<u8>, value: u128 },
    /// Call SVM pallet from EVM
    CallSvm { caller: [u8; 20], pallet_index: u8, call_index: u8, input: Vec<u8> },
    /// Atomic swap between EVM and SVM assets
    AtomicSwap {
        evm_party: [u8; 20],
        svm_party: Vec<u8>,
        evm_asset: [u8; 20],
        svm_asset: Vec<u8>,
        evm_amount: u128,
        svm_amount: u128,
    },
    /// Arbitrary message from an SVM sender to an EVM contract
    MessageToEvm { sender: Vec<u8>, target_contract: [u8; 20], message: Vec<u8>, nonce: u64 },
    /// Arbitrary message from an EVM sender to an SVM program
    MessageToSvm { sender: [u8; 20], target_program: Vec<u8>, message: Vec<u8>, nonce: u64 },
}

/// Mathematical model of a [`CrossVmOperation`]: byte vectors become sequences.
pub enum OperationModel {
    TransferToEvm { source: Seq<u8>, destination: Seq<u8>, amount: u128 },
    TransferToSvm { source: Seq<u8>, destination: Seq<u8>, amount: u128 },
    CallEvm { caller: Seq<u8>, contract: Seq<u8>, input: Seq<u8>, value: u128 },
    CallSvm { caller: Seq<u8>, pallet_index: u8, call_index: u8, input: Seq<u8> },
    AtomicSwap {
        evm_party: Seq<u8>,
        svm_party: Seq<u8>,
        evm_asset: Seq<u8>,
        svm_asset: Seq<u8>,
        evm_amount: u128,
        svm_amount: u128,
    },
    MessageToEvm { sender: Seq<u8>, target_contract: Seq<u8>, message: Seq<u8>, nonce: u64 },
    MessageToSvm { sender: Seq<u8>, target_program: Seq<u8>, message: Seq<u8>, nonce: u64 },
}

impl View for CrossVmOperation {
    type V = OperationModel;

    open spec fn view(&self) -> OperationModel {
        match self {
            CrossVmOperation::TransferToEvm { source, destination, amount } =>
                OperationModel::TransferToEvm { source: source@, destination: destination@, amount: *amount },
            CrossVmOperation::TransferToSvm { source, destination, amount } =>
                OperationModel::TransferToSvm { source: source@, destination: destination@, amount: *amount },
            CrossVmOperation::CallEvm { caller, contract, input, value } =>
                OperationModel::CallEvm { caller: caller@, contract: contract@, input: input@, value: *value },
            CrossVmOperation::CallSvm { caller, pallet_index, call_index, input } =>
                OperationModel::CallSvm {
                    caller: caller@,
                    pallet_index: *pallet_index,
                    call_index: *call_index,
                    input: input@,
                },
            CrossVmOperation::AtomicSwap { evm_party, svm_party, evm_asset, svm_asset, evm_amount, svm_amount } =>
                OperationModel::AtomicSwap {
                    evm_party: evm_party@,
                    svm_party: svm_party@,
                    evm_asset: evm_asset@,
                    svm_asset: svm_asset@,
                    evm_amount: *evm_amount,
                    svm_amount: *svm_amount,
                },
            CrossVmOperation::MessageToEvm { sender, target_contract, message, nonce } =>
                OperationModel::MessageToEvm {
                    sender: sender@,
                    target_contract: target_contract@,
                    message: message@,
                    nonce: *nonce,
                },
            CrossVmOperation::MessageToSvm { sender, target_program, message, nonce } =>
                OperationModel::MessageToSvm {
                    sender: sender@,
                    target_program: target_program@,
                    message: message@,
                    nonce: *nonce,
                },
        }
    }
}

/// Cross-VM operation result.
#[derive(Clone, Debug)]
pub struct CrossVmResult {
    /// Operation succeeded
    pub success: bool,
    /// Operation output
    pub output: Vec<u8>,
    /// Gas used
    pub gas_used: u64,
    /// Error message if failed
    pub error: Option<Vec<u8>>,
}

/// Mathematical model of a [`CrossVmResult`].
pub struct ResultModel {
    pub success: bool,
    pub output: Seq<u8>,
    pub gas_used: u64,
    pub error: Option<Seq<u8>>,
}

impl View for CrossVmResult {
    type V = ResultModel;

    open spec fn view(&self) -> ResultModel {
        ResultModel {
            success: self.success,
            output: self.output@,
            gas_used: self.gas_used,
            error: match self.error {
                Some(e) => Some(e@),
                None => None,
            },
        }
    }
}

/// A successful result with `output` and `gas_used`.
pub open spec fn success_model(output: Seq<u8>, gas_used: u64) -> ResultModel {
    ResultModel { success: true, output, gas_used, error: None }
}

impl CrossVmResult {
    /// Create successful result.
    pub fn success(output: Vec<u8>, gas_used: u64) -> (r: Self)
        ensures
            r@ == success_model(output@, gas_used),
    {
        CrossVmResult { success: true, output, gas_used, error: None }
    }

    /// Create failed result.
    pub fn failed(error: Vec<u8>, gas_used: u64) -> (r: Self)
        ensures
            r@ == (ResultModel { success: false, output: Seq::empty(), gas_used, error: Some(error@) }),
    {
        CrossVmResult { success: false, output: Vec::new(), gas_used, error: Some(error) }
    }
}

/// Cross-VM operation state.
#[derive(Clone, Debug)]
pub enum OperationState {
    /// Pending execution
    Pending,
    /// Being executed
    Executing,
    /// Successfully completed
    Completed,
    /// Failed with error
    Failed(Vec<u8>),
    /// Rolled back
    RolledBack,
}

/// Mathematical model of an [`OperationState`].
pub enum StateModel {
    Pending,
    Executing,
    Completed,
    Failed(Seq<u8>),
    RolledBack,
}

impl View for OperationState {
    type V = StateModel;

    open spec fn view(&self) -> StateModel {
        match self {
            OperationState::Pending => StateModel::Pending,
            OperationState::Executing => StateModel::Executing,
            OperationState::Completed => StateModel::Completed,
            OperationState::Failed(m) => StateModel::Failed(m@),
            OperationState::RolledBack => StateModel::RolledBack,
        }
    }
}

/// Two-phase commit phase for atomic cross-VM operations.
#[derive(Clone, Debug, PartialEq, Eq)]
pub enum TwoPhaseCommitPhase {
    /// Operation queued but not yet prepared
    Init,
    /// Both VMs have reserved resources, ready to commit
    Prepared,
    /// Both VMs have finalized state changes
    Committed,
    /// One or both VMs rejected; all reservations released
    Aborted(Vec<u8>),
}

/// Mathematical model of a [`TwoPhaseCommitPhase`].
pub enum PhaseModel {
    Init,
    Prepared,
    Committed,
    Aborted(Seq<u8>),
}

impl View for TwoPhaseCommitPhase {
    type V = PhaseModel;

    open spec fn view(&self) -> PhaseModel {
        match self {
            TwoPhaseCommitPhase::Init => PhaseModel::Init,
            TwoPhaseCommitPhase::Prepared => PhaseModel::Prepared,
            TwoPhaseCommitPhase::Committed => PhaseModel::Committed,
            TwoPhaseCommitPhase::Aborted(m) => PhaseModel::Aborted(m@),
        }
    }
}

/// Prepared operation holding lock receipts from both VMs.
#[derive(Clone, Debug)]
pub struct PreparedOperation {
    /// Unique operation nonce
    pub nonce: u64,
    /// The operation being executed
    pub operation: CrossVmOperation,
    /// Current 2PC phase
    pub phase: TwoPhaseCommitPhase,
    /// Gas reserved for the EVM leg
    pub evm_gas_reserved: u64,
    /// Compute units reserved for the SVM leg
    pub svm_compute_reserved: u64,
    /// Source VM lock receipt
    pub source_lock_receipt: Vec<u8>,
    /// Destination VM lock receipt
    pub dest_lock_receipt: Vec<u8>,
}

/// Mathematical model of a [`PreparedOperation`].
pub struct PreparedModel {
    pub nonce: u64,
    pub operation: OperationModel,
    pub phase: PhaseModel,
    pub evm_gas_reserved: u64,
    pub svm_compute_reserved: u64,
    pub source_lock_receipt: Seq<u8>,
    pub dest_lock_receipt: Seq<u8>,
}

impl View for PreparedOperation {
    type V = PreparedModel;

    open spec fn view(&self) -> PreparedModel {
        PreparedModel {
            nonce: self.nonce,
            operation: self.operation@,
            phase: self.phase@,
            evm_gas_reserved: self.evm_gas_reserved,
            svm_compute_reserved: self.svm_compute_reserved,
            source_lock_receipt: self.source_lock_receipt@,
            dest_lock_receipt: self.dest_lock_receipt@,
        }
    }
}

/// Cross-VM event emitted during bridge operations.
#[derive(Clone, Debug, PartialEq, Eq)]
pub enum CrossVmEvent {
    /// Transfer initiated between VMs
    TransferInitiated { operation_id: u64, source_vm: VmType, dest_vm: VmType, amount: u128 },
    /// Transfer completed
    TransferCompleted { operation_id: u64, gas_used: u64 },
    /// Transfer failed
    TransferFailed { operation_id: u64, reason: Vec<u8> },
    /// Atomic swap executed
    AtomicSwapExecuted { evm_amount: u128, svm_amount: u128, gas_used: u64 },
    /// Prepare phase completed: resources locked on both VMs
    PrepareCompleted { nonce: u64, evm_gas_reserved: u64, svm_compute_reserved: u64 },
    /// Commit phase completed: state finalized on both VMs
    CommitCompleted { nonce: u64, total_gas_used: u64 },
    /// Reservations released, no state changes
    Aborted { nonce: u64, reason: Vec<u8> },
    /// Circuit breaker tripped
    CircuitBreakerTripped { epoch_volume: u128, max_epoch_volume: u128 },
}

/// Mathematical model of a [`CrossVmEvent`].
pub enum EventModel {
    TransferInitiated { operation_id: u64, source_vm: VmType, dest_vm: VmType, amount: u128 },
    TransferCompleted { operation_id: u64, gas_used: u64 },
    TransferFailed { operation_id: u64, reason: Seq<u8> },
    AtomicSwapExecuted { evm_amount: u128, svm_amount: u128, gas_used: u64 },
    PrepareCompleted { nonce: u64, evm_gas_reserved: u64, svm_compute_reserved: u64 },
    CommitCompleted { nonce: u64, total_gas_used: u64 },
    Aborted { nonce: u64, reason: Seq<u8> },
    CircuitBreakerTripped { epoch_volume: u128, max_epoch_volume: u128 },
}

impl View for CrossVmEvent {
    type V = EventModel;

    open spec fn view(&self) -> EventModel {
        match self {
            CrossVmEvent::TransferInitiated { operation_id, source_vm, dest_vm, amount } =>
                EventModel::TransferInitiated {
                    operation_id: *operation_id,
                    source_vm: *source_vm,
                    dest_vm: *dest_vm,
                    amount: *amount,
                },
            CrossVmEvent::TransferCompleted { operation_id, gas_used } =>
                EventModel::TransferCompleted { operation_id: *operation_id, gas_used: *gas_used },
            CrossVmEvent::TransferFailed { operation_id, reason } =>
                EventModel::TransferFailed { operation_id: *operation_id, reason: reason@ },
            CrossVmEvent::AtomicSwapExecuted { evm_amount, svm_amount, gas_used } =>
                EventModel::AtomicSwapExecuted {
                    evm_amount: *evm_amount,
                    svm_amount: *svm_amount,
                    gas_used: *gas_used,
                },
            CrossVmEvent::PrepareCompleted { nonce, evm_gas_reserved, svm_compute_reserved } =>
                EventModel::PrepareCompleted {
                    nonce: *nonce,
                    evm_gas_reserved: *evm_gas_reserved,
                    svm_compute_reserved: *svm_compute_reserved,
                },
            CrossVmEvent::CommitCompleted { nonce, total_gas_used } =>
                EventModel::CommitCompleted { nonce: *nonce, total_gas_used: *total_gas_used },
            CrossVmEvent::Aborted { nonce, reason } => EventModel::Aborted { nonce: *nonce, reason: reason@ },
            CrossVmEvent::CircuitBreakerTripped { epoch_volume, max_epoch_volume } =>
                EventModel::CircuitBreakerTripped {
                    epoch_volume: *epoch_volume,
                    max_epoch_volume: *max_epoch_volume,
                },
        }
    }
}

/// VM executor dispatcher: the runtime side that actually runs EVM
/// transactions and SVM instructions. Implemented by the embedding runtime;
/// the bridge assumes nothing of what it returns.
pub trait CrossVmDispatcher {
    /// Execute an EVM transaction.
    fn execute_evm_tx(&self, caller: &[u8; 20], target: &[u8; 20], input: &[u8], value: u128) -> Result<CrossVmResult, DispatchError>;

    /// Execute an SVM instruction.
    fn execute_svm_tx(&self, caller: &[u8; 32], program_id: &[u8; 32], input: &[u8]) -> Result<CrossVmResult, DispatchError>;

    /// Get the EVM balance for an address.
    fn get_evm_balance(&self, address: &[u8; 20]) -> u128;

    /// Get the SVM lamport balance for a pubkey.
    fn get_svm_balance(&self, pubkey: &[u8; 32]) -> u64;
}

/// Dispatcher used when no runtime dispatcher is configured: synthetic
/// successful results and unlimited balances.
pub struct NoOpDispatcher;

impl CrossVmDispatcher for NoOpDispatcher {
    fn execute_evm_tx(&self, _caller: &[u8; 20], _target: &[u8; 20], _input: &[u8], _value: u128) -> (r: Result<CrossVmResult, DispatchError>)
        ensures
            r matches Ok(res) && res@ == success_model(Seq::empty(), 21_000),
    {
        Ok(CrossVmResult::success(Vec::new(), 21_000))
    }

    fn execute_svm_tx(&self, _caller: &[u8; 32], _program_id: &[u8; 32], _input: &[u8]) -> (r: Result<CrossVmResult, DispatchError>)
        ensures
            r matches Ok(res) && res@ == success_model(Seq::empty(), 5_000),
    {
        Ok(CrossVmResult::success(Vec::new(), 5_000))
    }

    fn get_evm_balance(&self, _address: &[u8; 20]) -> (b: u128)
        ensures
            b == u128::MAX,
    {
        u128::MAX
    }

    fn get_svm_balance(&self, _pubkey: &[u8; 32]) -> (b: u64)
        ensures
            b == u64::MAX,
    {
        u64::MAX
    }
}

/// Outcome of checking an operation before it is queued: address lengths,
/// nonzero amounts and message sizes.
pub open spec fn validation(op: OperationModel) -> Result<(), DispatchError> {
    match op {
        OperationModel::TransferToEvm { source, amount, .. } =>
            if amount == 0 {
                Err(DispatchError::Other("Transfer amount must be nonzero"))
            } else if source.len() != 32 {
                Err(DispatchError::Other("Invalid SVM source address length"))
            } else {
                Ok(())
            },
        OperationModel::TransferToSvm { destination, amount, .. } =>
            if amount == 0 {
                Err(DispatchError::Other("Transfer amount must be nonzero"))
            } else if destination.len() != 32 {
                Err(DispatchError::Other("Invalid SVM destination address length"))
            } else {
                Ok(())
            },
        OperationModel::CallEvm { caller, .. } =>
            if caller.len() != 32 {
                Err(DispatchError::Other("Invalid SVM caller address length"))
            } else {
                Ok(())
            },
        OperationModel::CallSvm { .. } => Ok(()),
        OperationModel::AtomicSwap { svm_party, evm_amount, svm_amount, .. } =>
            if evm_amount == 0 || svm_amount == 0 {
                Err(DispatchError::Other("Swap amounts must be nonzero"))
            } else if svm_party.len() != 32 {
                Err(DispatchError::Other("Invalid SVM party address length"))
            } else {
                Ok(())
            },
        OperationModel::MessageToEvm { sender, message, .. } =>
            if sender.len() != 32 {
                Err(DispatchError::Other("MessageToEvm: sender must be 32-byte SVM pubkey"))
            } else if message.len() == 0 {
                Err(DispatchError::Other("MessageToEvm: message must not be empty"))
            } else if message.len() > 1024 {
                Err(DispatchError::Other("MessageToEvm: payload exceeds 1024 bytes"))
            } else {
                Ok(())
            },
        OperationModel::MessageToSvm { target_program, message, .. } =>
            if target_program.len() != 32 {
                Err(DispatchError::Other("MessageToSvm: target_program must be 32-byte SVM pubkey"))
            } else if message.len() == 0 {
                Err(DispatchError::Other("MessageToSvm: message must not be empty"))
            } else if message.len() > 1024 {
                Err(DispatchError::Other("MessageToSvm: payload exceeds 1024 bytes"))
            } else {
                Ok(())
            },
    }
}

/// The operation passes [`validation`].
pub open spec fn valid_op(op: OperationModel) -> bool {
    validation(op) is Ok
}

/// The amount an operation moves (zero for calls into SVM and messages).
pub open spec fn transfer_amount(op: OperationModel) -> u128 {
    match op {
        OperationModel::TransferToEvm { amount, .. } => amount,
        OperationModel::TransferToSvm { amount, .. } => amount,
        OperationModel::CallEvm { value, .. } => value,
        OperationModel::AtomicSwap { evm_amount, svm_amount, .. } =>
            if evm_amount >= svm_amount { evm_amount } else { svm_amount },
        _ => 0,
    }
}

/// Gas and compute reserved for an operation in the prepare phase.
pub open spec fn reservations(op: OperationModel) -> (u64, u64) {
    match op {
        OperationModel::TransferToEvm { .. } => (25_000, 5_000),
        OperationModel::TransferToSvm { .. } => (25_000, 5_000),
        OperationModel::CallEvm { .. } => (100_000, 0),
        OperationModel::CallSvm { .. } => (0, 200_000),
        OperationModel::AtomicSwap { .. } => (200_000, 200_000),
        OperationModel::MessageToEvm { .. } => (50_000, 0),
        OperationModel::MessageToSvm { .. } => (0, 50_000),
    }
}

/// Bytes of `tag` followed by the 16 little-endian bytes of `amount`.
pub open spec fn tagged_amount(tag: &str, amount: u128) -> Seq<u8> {
    utf8(tag) + le_bytes(amount as nat, 16)
}

/// The ledger line `<tag><party>:<amount LE>`.
pub open spec fn ledger_line(tag: &str, party: Seq<u8>, amount: u128) -> Seq<u8> {
    utf8(tag) + party + utf8(":") + le_bytes(amount as nat, 16)
}

/// The relay record `<from><sender><to><target>:nonce=<nonce LE>:payload=<message>`.
pub open spec fn relay_record(from: &str, sender: Seq<u8>, to: &str, target: Seq<u8>, nonce: u64, message: Seq<u8>) -> Seq<u8> {
    utf8(from) + sender + utf8(to) + target + utf8(":nonce=") + le_bytes(nonce as nat, 8) + utf8(":payload=") + message
}

/// What executing an operation inside the bridge gives, for the operations
/// that the bridge settles itself (transfers, swaps and messages); `None` for
/// the contract calls, which the dispatcher runs.
pub open spec fn local_outcome(op: OperationModel) -> Option<Result<ResultModel, DispatchError>> {
    match op {
        OperationModel::TransferToEvm { source, destination, amount } =>
            Some(Ok(success_model(
                ledger_line("SVM:withdraw:", source, amount) + ledger_line("EVM:deposit:", destination, amount),
                25_000,
            ))),
        OperationModel::TransferToSvm { source, destination, amount } =>
            Some(Ok(success_model(
                ledger_line("EVM:withdraw:", source, amount) + ledger_line("SVM:deposit:", destination, amount),
                25_000,
            ))),
        OperationModel::AtomicSwap { evm_party, svm_party, evm_amount, svm_amount, .. } =>
            Some(Ok(success_model(
                ledger_line("EVM:withdraw:", evm_party, evm_amount) + ledger_line("SVM:deposit:", svm_party, svm_amount)
                    + ledger_line("SVM:withdraw:", svm_party, svm_amount) + ledger_line("EVM:deposit:", evm_party, evm_amount),
                200_000,
            ))),
        OperationModel::MessageToEvm { sender, target_contract, message, nonce } =>
            if message.len() > 1024 {
                Some(Err(DispatchError::Other("MessageToEvm: payload exceeds 1024 bytes")))
            } else {
                Some(Ok(success_model(relay_record("SVM:msg:", sender, "->EVM:", target_contract, nonce, message), 50_000)))
            },
        OperationModel::MessageToSvm { sender, target_program, message, nonce } =>
            if message.len() > 1024 {
                Some(Err(DispatchError::Other("MessageToSvm: payload exceeds 1024 bytes")))
            } else {
                Some(Ok(success_model(relay_record("EVM:msg:", sender, "->SVM:", target_program, nonce, message), 50_000)))
            },
        _ => None,
    }
}

/// Model of a dispatch outcome.
pub open spec fn outcome_model(r: Result<CrossVmResult, DispatchError>) -> Result<ResultModel, DispatchError> {
    match r {
        Ok(x) => Ok(x@),
        Err(e) => Err(e),
    }
}

/// The source-side lock receipt of an operation whose lock succeeded.
pub open spec fn lock_receipt(op: OperationModel) -> Seq<u8> {
    match op {
        OperationModel::TransferToEvm { source, amount, .. } => utf8("SVM_LOCK:") + source + le_bytes(amount as nat, 16),
        OperationModel::TransferToSvm { source, amount, .. } => utf8("EVM_LOCK:") + source + le_bytes(amount as nat, 16),
        OperationModel::AtomicSwap { evm_party, evm_amount, .. } => utf8("SWAP_LOCK:") + evm_party + le_bytes(evm_amount as nat, 16),
        _ => utf8("NO_LOCK_REQUIRED"),
    }
}

/// Operations whose prepare phase locks a balance (and so may fail).
pub open spec fn needs_lock(op: OperationModel) -> bool {
    ||| op is TransferToEvm
    ||| op is TransferToSvm
    ||| op is AtomicSwap
}

/// The first 32 bytes of `b`, zero-padded: the SVM key that a byte string names.
pub open spec fn svm_key_of(b: Seq<u8>) -> Seq<u8> {
    Seq::new(32, |i: int| if i < b.len() { b[i] } else { 0u8 })
}

/// The last 20 bytes of `b` when it has at least 20, else 20 zero bytes: the
/// EVM address that an SVM key maps to.
pub open spec fn evm_tail_of(b: Seq<u8>) -> Seq<u8> {
    if b.len() >= 20 { b.subrange(b.len() - 20, b.len() as int) } else { Seq::new(20, |i: int| 0u8) }
}

/// The 20-byte EVM address zero-extended on the left to a 32-byte SVM key.
pub open spec fn svm_key_of_evm(a: Seq<u8>) -> Seq<u8> {
    Seq::new(32, |i: int| if i < 12 { 0u8 } else { a[i - 12] })
}

impl CrossVmOperation {
    /// A copy of the operation.
    pub fn duplicate(&self) -> (r: CrossVmOperation)
        ensures
            r@ == self@,
    {
        match self {
            CrossVmOperation::TransferToEvm { source, destination, amount } =>
                CrossVmOperation::TransferToEvm { source: copy_bytes(source), destination: *destination, amount: *amount },
            CrossVmOperation::TransferToSvm { source, destination, amount } =>
                CrossVmOperation::TransferToSvm { source: *source, destination: copy_bytes(destination), amount: *amount },
            CrossVmOperation::CallEvm { caller, contract, input, value } =>
                CrossVmOperation::CallEvm {
                    caller: copy_bytes(caller),
                    contract: *contract,
                    input: copy_bytes(input),
                    value: *value,
                },
            CrossVmOperation::CallSvm { caller, pallet_index, call_index, input } =>
                CrossVmOperation::CallSvm {
                    caller: *caller,
                    pallet_index: *pallet_index,
                    call_index: *call_index,
                    input: copy_bytes(input),
                },
            CrossVmOperation::AtomicSwap { evm_party, svm_party, evm_asset, svm_asset, evm_amount, svm_amount } =>
                CrossVmOperation::AtomicSwap {
                    evm_party: *evm_party,
                    svm_party: copy_bytes(svm_party),
                    evm_asset: *evm_asset,
                    svm_asset: copy_bytes(svm_asset),
                    evm_amount: *evm_amount,
                    svm_amount: *svm_amount,
                },
            CrossVmOperation::MessageToEvm { sender, target_contract, message, nonce } =>
                CrossVmOperation::MessageToEvm {
                    sender: copy_bytes(sender),
                    target_contract: *target_contract,
                    message: copy_bytes(message),
                    nonce: *nonce,
                },
            CrossVmOperation::MessageToSvm { sender, target_program, message, nonce } =>
                CrossVmOperation::MessageToSvm {
                    sender: *sender,
                    target_program: copy_bytes(target_program),
                    message: copy_bytes(message),
                    nonce: *nonce,
                },
        }
    }
}

/// A copy of `b`.
pub fn copy_bytes(b: &Vec<u8>) -> (r: Vec<u8>)
    ensures
        r@ == b@,
{
    let mut r: Vec<u8> = Vec::new();
    push_bytes(&mut r, b.as_slice());
    r
}

/// The first 32 bytes of `b`, zero-padded.
pub fn svm_key(b: &[u8]) -> (k: [u8; 32])
    ensures
        k@ == svm_key_of(b@),
{
    let mut k = [0u8; 32];
    let mut i: usize = 0;
    while i < 32 && i < b.len()
        invariant
            i <= 32,
            i <= b@.len(),
            forall|j: int| 0 <= j < i ==> k@[j] == b@[j],
            forall|j: int| i <= j < 32 ==> k@[j] == 0u8,
        decreases 32 - i,
    {
        k[i] = b[i];
        i = i + 1;
    }
    assert(k@ =~= svm_key_of(b@));
    k
}

/// The last 20 bytes of `b` when it has at least 20, else zeros.
pub fn evm_tail(b: &[u8]) -> (a: [u8; 20])
    ensures
        a@ == evm_tail_of(b@),
{
    let mut a = [0u8; 20];
    if b.len() >= 20 {
        let off = b.len() - 20;
        let mut i: usize = 0;
        while i < 20
            invariant
                i <= 20,
                b@.len() >= 20,
                b@.len() == b.len(),
                off == b@.len() - 20,
                forall|j: int| 0 <= j < i ==> a@[j] == b@[off + j],
            decreases 20 - i,
        {
            assert(off + i < b@.len());
            a[i] = b[off + i];
            i = i + 1;
        }
    }
    assert(a@ =~= evm_tail_of(b@));
    a
}

/// The EVM address `a` zero-extended on the left to a 32-byte SVM key.
pub fn svm_key_from_evm(a: &[u8; 20]) -> (k: [u8; 32])
    ensures
        k@ == svm_key_of_evm(a@),
{
    let mut k = [0u8; 32];
    let mut i: usize = 0;
    while i < 20
        invariant
            i <= 20,
            forall|j: int| 0 <= j < 12 ==> k@[j] == 0u8,
            forall|j: int| 12 <= j < 12 + i ==> k@[j] == a@[j - 12],
            forall|j: int| 12 + i <= j < 32 ==> k@[j] == 0u8,
        decreases 20 - i,
    {
        k[12 + i] = a[i];
        i = i + 1;
    }
    assert(k@ =~= svm_key_of_evm(a@));
    k
}

/// `tag` followed by the little-endian bytes of `amount`.
pub fn tagged_amount_bytes(tag: &str, amount: u128) -> (out: Vec<u8>)
    ensures
        out@ == tagged_amount(tag, amount),
{
    let mut out: Vec<u8> = Vec::new();
    push_str(&mut out, tag);
    push_u128_le(&mut out, amount);
    out
}

fn push_ledger_line(out: &mut Vec<u8>, tag: &str, party: &[u8], amount: u128)
    ensures
        final(out)@ == old(out)@ + ledger_line(tag, party@, amount),
{
    push_str(out, tag);
    push_bytes(out, party);
    push_str(out, ":");
    push_u128_le(out, amount);
}

fn relay_record_bytes(from: &str, sender: &[u8], to: &str, target: &[u8], nonce: u64, message: &[u8]) -> (out: Vec<u8>)
    ensures
        out@ == relay_record(from, sender@, to, target@, nonce, message@),
{
    let mut out: Vec<u8> = Vec::new();
    push_str(&mut out, from);
    push_bytes(&mut out, sender);
    push_str(&mut out, to);
    push_bytes(&mut out, target);
    push_str(&mut out, ":nonce=");
    push_u64_le(&mut out, nonce);
    push_str(&mut out, ":payload=");
    push_bytes(&mut out, message);
    out
}

/// Cross-VM bridge state machine with two-phase commit support.
pub struct CrossVmBridge {
    /// Queued operations and their states
    pending_ops: Vec<(CrossVmOperation, OperationState)>,
    /// Operations in the two-phase commit pipeline
    prepared_ops: Vec<PreparedOperation>,
    /// Completed operations
    completed_ops: Vec<(CrossVmOperation, CrossVmResult)>,
    /// Failed operations
    failed_ops: Vec<(CrossVmOperation, Vec<u8>)>,
    /// Next nonce to hand out
    next_nonce: u64,
    /// Every nonce handed out so far
    used_nonces: HashSet<u64>,
    /// Bridge configuration (limits, circuit breaker)
    pub config: BridgeConfig,
}

/// The text of the error returned while the bridge is paused.
pub open spec fn paused_error() -> DispatchError {
    DispatchError::Other("Bridge is paused (circuit breaker active)")
}

/// `v + 1`, saturating at `u64::MAX`.
pub open spec fn sat_inc(v: u64) -> u64 {
    if v == u64::MAX { v } else { (v + 1) as u64 }
}

/// `a + b`, saturating at `u128::MAX`.
pub open spec fn sat_add_u128(a: u128, b: u128) -> u128 {
    if a + b > u128::MAX { u128::MAX } else { (a + b) as u128 }
}

/// Number of entries of `s` in the `Pending` state.
pub open spec fn count_pending(s: Seq<(OperationModel, StateModel)>) -> nat
    decreases s.len(),
{
    if s.len() == 0 {
        0
    } else {
        count_pending(s.drop_last()) + if s.last().1 is Pending { 1nat } else { 0nat }
    }
}

/// The operations of `s` in the `Pending` state, in order.
pub open spec fn pending_queue(s: Seq<(OperationModel, StateModel)>) -> Seq<OperationModel>
    decreases s.len(),
{
    if s.len() == 0 {
        Seq::empty()
    } else if s.last().1 is Pending {
        pending_queue(s.drop_last()).push(s.last().0)
    } else {
        pending_queue(s.drop_last())
    }
}

/// `post` is `pre` with `op` queued as `Pending` under the next nonce, the
/// nonce recorded as used and the operation's amount added to the epoch
/// volume (with saturation).
pub open spec fn queued(pre: CrossVmBridge, op: OperationModel, post: CrossVmBridge) -> bool {
    &&& post.cfg() == (BridgeConfig { epoch_volume: sat_add_u128(pre.cfg().epoch_volume, transfer_amount(op)), ..pre.cfg() })
    &&& post.pending() == pre.pending().push((op, StateModel::Pending))
    &&& post.prepared() == pre.prepared()
    &&& post.completed() == pre.completed()
    &&& post.failed() == pre.failed()
    &&& post.next_nonce() == sat_inc(pre.next_nonce())
    &&& post.used_nonces() == pre.used_nonces().insert(pre.next_nonce())
}

impl CrossVmBridge {
    /// Queued operations and their states.
    pub closed spec fn pending(&self) -> Seq<(OperationModel, StateModel)> {
        self.pending_ops@.map_values(|p: (CrossVmOperation, OperationState)| (p.0@, p.1@))
    }

    /// Operations in the two-phase commit pipeline.
    pub closed spec fn prepared(&self) -> Seq<PreparedModel> {
        self.prepared_ops@.map_values(|p: PreparedOperation| p@)
    }

    /// Completed operations with their results.
    pub closed spec fn completed(&self) -> Seq<(OperationModel, ResultModel)> {
        self.completed_ops@.map_values(|p: (CrossVmOperation, CrossVmResult)| (p.0@, p.1@))
    }

    /// Failed operations with their error messages.
    pub closed spec fn failed(&self) -> Seq<(OperationModel, Seq<u8>)> {
        self.failed_ops@.map_values(|p: (CrossVmOperation, Vec<u8>)| (p.0@, p.1@))
    }

    /// The configuration.
    pub closed spec fn cfg(&self) -> BridgeConfig {
        self.config
    }

    /// The next nonce to hand out.
    pub closed spec fn next_nonce(&self) -> u64 {
        self.next_nonce
    }

    /// Every nonce handed out so far.
    pub closed spec fn used_nonces(&self) -> Set<u64> {
        self.used_nonces@
    }

    /// Internal consistency: queued and prepared operations passed
    /// validation, prepared ones are in the `Prepared` phase, and every
    /// handed-out nonce lies below the next one (or is the saturated maximum).
    pub open spec fn wf(&self) -> bool {
        &&& forall|i: int| 0 <= i < self.pending().len() ==> valid_op(#[trigger] self.pending()[i].0)
        &&& forall|i: int| 0 <= i < self.prepared().len() ==> valid_op(#[trigger] self.prepared()[i].operation)
        &&& forall|i: int| 0 <= i < self.prepared().len() ==> (#[trigger] self.prepared()[i]).phase is Prepared
        &&& self.next_nonce() >= 1
        &&& forall|n: u64| #[trigger] self.used_nonces().contains(n) ==> 1 <= n && (n < self.next_nonce() || n == u64::MAX)
    }

    /// The ledgers and nonce state of `self` and `other` agree.
    pub open spec fn same_ledgers(&self, other: &CrossVmBridge) -> bool {
        &&& self.pending() == other.pending()
        &&& self.prepared() == other.prepared()
        &&& self.completed() == other.completed()
        &&& self.failed() == other.failed()
        &&& self.next_nonce() == other.next_nonce()
        &&& self.used_nonces() == other.used_nonces()
    }

    /// Create a bridge with the default configuration.
    pub fn new() -> (b: Self)
        ensures
            b.wf(),
            b.pending().len() == 0,
            b.prepared().len() == 0,
            b.completed().len() == 0,
            b.failed().len() == 0,
            b.next_nonce() == 1,
            b.used_nonces() == Set::<u64>::empty(),
            b.cfg() == default_config(),
    {
        Self::with_config(BridgeConfig::default())
    }

    /// Create a bridge with a custom configuration.
    pub fn with_config(config: BridgeConfig) -> (b: Self)
        ensures
            b.wf(),
            b.pending().len() == 0,
            b.prepared().len() == 0,
            b.completed().len() == 0,
            b.failed().len() == 0,
            b.next_nonce() == 1,
            b.used_nonces() == Set::<u64>::empty(),
            b.cfg() == config,
    {
        let b = CrossVmBridge {
            pending_ops: Vec::new(),
            prepared_ops: Vec::new(),
            completed_ops: Vec::new(),
            failed_ops: Vec::new(),
            next_nonce: 1,
            used_nonces: HashSet::new(),
            config,
        };
        assert(b.pending() =~= Seq::empty());
        assert(b.prepared() =~= Seq::empty());
        b
    }

    /// Pause the bridge (circuit breaker).
    pub fn pause(&mut self)
        ensures
            final(self).cfg() == (BridgeConfig { paused: true, ..old(self).cfg() }),
            final(self).same_ledgers(old(self)),
    {
        self.config.paused = true;
    }

    /// Resume the bridge.
    pub fn resume(&mut self)
        ensures
            final(self).cfg() == (BridgeConfig { paused: false, ..old(self).cfg() }),
            final(self).same_ledgers(old(self)),
    {
        self.config.paused = false;
    }

    /// Whether the bridge is paused.
    pub fn is_paused(&self) -> (r: bool)
        ensures
            r == self.cfg().paused,
    {
        self.config.paused
    }

    /// Reset the epoch volume counter (called at epoch boundaries).
    pub fn reset_epoch_volume(&mut self)
        ensures
            final(self).cfg() == (BridgeConfig { epoch_volume: 0, ..old(self).cfg() }),
            final(self).same_ledgers(old(self)),
    {
        self.config.epoch_volume = 0;
    }

    /// The next nonce, without consuming it.
    pub fn peek_nonce(&self) -> (n: u64)
        ensures
            n == self.next_nonce(),
    {
        self.next_nonce
    }

    /// Whether `nonce` has been handed out.
    pub fn is_nonce_used(&self, nonce: u64) -> (r: bool)
        ensures
            r == self.used_nonces().contains(nonce),
    {
        self.used_nonces.contains(&nonce)
    }

    /// The amount an operation moves (zero for non-transfer operations).
    fn extract_transfer_amount(operation: &CrossVmOperation) -> (a: u128)
        ensures
            a == transfer_amount(operation@),
    {
        match operation {
            CrossVmOperation::TransferToEvm { amount, .. } => *amount,
            CrossVmOperation::TransferToSvm { amount, .. } => *amount,
            CrossVmOperation::CallEvm { value, .. } => *value,
            CrossVmOperation::AtomicSwap { evm_amount, svm_amount, .. } =>
                if *evm_amount >= *svm_amount { *evm_amount } else { *svm_amount },
            _ => 0,
        }
    }

    /// Check an operation: address lengths, nonzero amounts, message sizes.
    fn validate_operation(&self, operation: &CrossVmOperation) -> (r: Result<(), DispatchError>)
        ensures
            r == validation(operation@),
    {
        match operation {
            CrossVmOperation::TransferToEvm { source, amount, .. } => {
                if *amount == 0 {
                    return Err(DispatchError::Other("Transfer amount must be nonzero"));
                }
                if source.len() != 32 {
                    return Err(DispatchError::Other("Invalid SVM source address length"));
                }
                Ok(())
            },
            CrossVmOperation::TransferToSvm { destination, amount, .. } => {
                if *amount == 0 {
                    return Err(DispatchError::Other("Transfer amount must be nonzero"));
                }
                if destination.len() != 32 {
                    return Err(DispatchError::Other("Invalid SVM destination address length"));
                }
                Ok(())
            },
            CrossVmOperation::CallEvm { caller, .. } => {
                if caller.len() != 32 {
                    return Err(DispatchError::Other("Invalid SVM caller address length"));
                }
                Ok(())
            },
            CrossVmOperation::CallSvm { .. } => Ok(()),
            CrossVmOperation::AtomicSwap { svm_party, evm_amount, svm_amount, .. } => {
                if *evm_amount == 0 || *svm_amount == 0 {
                    return Err(DispatchError::Other("Swap amounts must be nonzero"));
                }
                if svm_party.len() != 32 {
                    return Err(DispatchError::Other("Invalid SVM party address length"));
                }
                Ok(())
            },
            CrossVmOperation::MessageToEvm { sender, message, .. } => {
                if sender.len() != 32 {
                    return Err(DispatchError::Other("MessageToEvm: sender must be 32-byte SVM pubkey"));
                }
                if message.len() == 0 {
                    return Err(DispatchError::Other("MessageToEvm: message must not be empty"));
                }
                if message.len() > MAX_MESSAGE_LEN {
                    return Err(DispatchError::Other("MessageToEvm: payload exceeds 1024 bytes"));
                }
                Ok(())
            },
            CrossVmOperation::MessageToSvm { target_program, message, .. } => {
                if target_program.len() != 32 {
                    return Err(DispatchError::Other("MessageToSvm: target_program must be 32-byte SVM pubkey"));
                }
                if message.len() == 0 {
                    return Err(DispatchError::Other("MessageToSvm: message must not be empty"));
                }
                if message.len() > MAX_MESSAGE_LEN {
                    return Err(DispatchError::Other("MessageToSvm: payload exceeds 1024 bytes"));
                }
                Ok(())
            },
        }
    }
    /// Queue an operation after the circuit-breaker, batch-size, validation,
    /// amount-limit and epoch-volume checks, in that order. On success the
    /// operation is queued as `Pending` under the next nonce, which is
    /// returned and recorded as used. When the epoch volume would be exceeded
    /// the bridge pauses itself and the operation is refused; every other
    /// refusal leaves the bridge unchanged.
    pub fn queue_operation(&mut self, operation: CrossVmOperation) -> (r: Result<u64, DispatchError>)
        requires
            old(self).wf(),
        ensures
            final(self).wf(),
            old(self).cfg().paused ==> r == Err::<u64, DispatchError>(paused_error()) && *final(self) == *old(self),
            !old(self).cfg().paused && old(self).pending().len() >= old(self).cfg().max_batch_size ==>
                r == Err::<u64, DispatchError>(DispatchError::Other("Batch size limit exceeded")) && *final(self) == *old(self),
            !old(self).cfg().paused && old(self).pending().len() < old(self).cfg().max_batch_size
                && validation(operation@) is Err ==>
                r == Err::<u64, DispatchError>(validation(operation@)->Err_0) && *final(self) == *old(self),
            !old(self).cfg().paused && old(self).pending().len() < old(self).cfg().max_batch_size && valid_op(operation@)
                && transfer_amount(operation@) > old(self).cfg().max_transfer_amount ==>
                r == Err::<u64, DispatchError>(DispatchError::Other("Transfer amount exceeds maximum")) && *final(self) == *old(self),
            ({
                let amount = transfer_amount(operation@);
                let volume = sat_add_u128(old(self).cfg().epoch_volume, amount);
                !old(self).cfg().paused && old(self).pending().len() < old(self).cfg().max_batch_size && valid_op(operation@)
                    && amount <= old(self).cfg().max_transfer_amount ==> if volume > old(self).cfg().max_epoch_volume {
                    &&& r == Err::<u64, DispatchError>(DispatchError::Other("Epoch volume limit exceeded — bridge paused"))
                    &&& final(self).cfg() == (BridgeConfig { paused: true, ..old(self).cfg() })
                    &&& final(self).same_ledgers(old(self))
                } else {
                    &&& r == Ok::<u64, DispatchError>(old(self).next_nonce())
                    &&& queued(*old(self), operation@, *final(self))
                }
            }),
    {
        if self.config.paused {
            return Err(DispatchError::Other("Bridge is paused (circuit breaker active)"));
        }
        if self.pending_ops.len() >= self.config.max_batch_size as usize {
            return Err(DispatchError::Other("Batch size limit exceeded"));
        }
        let checked = self.validate_operation(&operation);
        match checked {
            Err(e) => {
                return Err(e);
            },
            Ok(()) => {},
        }
        let amount = Self::extract_transfer_amount(&operation);
        if amount > self.config.max_transfer_amount {
            return Err(DispatchError::Other("Transfer amount exceeds maximum"));
        }
        let new_volume = self.config.epoch_volume.saturating_add(amount);
        if new_volume > self.config.max_epoch_volume {
            self.config.paused = true;
            assert(self.pending() == old(self).pending());
            assert(self.prepared() == old(self).prepared());
            assert(self.used_nonces() == old(self).used_nonces());
            assert(self.next_nonce() == old(self).next_nonce());
            return Err(DispatchError::Other("Epoch volume limit exceeded — bridge paused"));
        }
        self.config.epoch_volume = new_volume;
        let nonce = self.next_nonce;
        self.next_nonce = self.next_nonce.saturating_add(1);
        self.used_nonces.insert(nonce);
        let ghost before = self.pending();
        self.pending_ops.push((operation, OperationState::Pending));
        assert(self.pending() =~= before.push((operation@, StateModel::Pending)));
        assert(self.prepared() == old(self).prepared());
        assert(self.used_nonces() == old(self).used_nonces().insert(nonce));
        assert forall|n: u64| #[trigger] self.used_nonces().contains(n) implies 1 <= n && (n < self.next_nonce() || n == u64::MAX) by {
            if n != nonce {
                assert(old(self).used_nonces().contains(n));
            }
        }
        assert forall|i: int| 0 <= i < self.pending().len() implies valid_op(#[trigger] self.pending()[i].0) by {
            if i < before.len() {
                assert(self.pending()[i] == before[i]);
            }
        }
        Ok(nonce)
    }
    /// Execute one operation. Transfers, swaps and messages are settled by
    /// the bridge itself (see [`local_outcome`]) and send nothing; a contract
    /// call sends the one request [`local_call_request`] gives to the
    /// dispatcher, whose answer is returned as it is.
    fn execute_operation_with_dispatcher<D: CrossVmDispatcher>(&self, operation: &CrossVmOperation, dispatcher: &D) -> (r: (Result<CrossVmResult, DispatchError>, Ghost<Seq<Exchange>>))
        ensures
            local_outcome(operation@) matches Some(o) ==> outcome_model(r.0) == o && r.1@.len() == 0,
            local_outcome(operation@) is None ==> r.1@ == seq![(local_call_request(operation@), outcome_model(r.0))],
    {
        match operation {
            CrossVmOperation::TransferToEvm { source, destination, amount } => {
                let mut output: Vec<u8> = Vec::new();
                push_ledger_line(&mut output, "SVM:withdraw:", source.as_slice(), *amount);
                push_ledger_line(&mut output, "EVM:deposit:", destination, *amount);
                (Ok(CrossVmResult::success(output, 25_000)), Ghost(Seq::empty()))
            },
            CrossVmOperation::TransferToSvm { source, destination, amount } => {
                let mut output: Vec<u8> = Vec::new();
                push_ledger_line(&mut output, "EVM:withdraw:", source, *amount);
                push_ledger_line(&mut output, "SVM:deposit:", destination.as_slice(), *amount);
                (Ok(CrossVmResult::success(output, 25_000)), Ghost(Seq::empty()))
            },
            CrossVmOperation::CallEvm { caller, contract, input, value } => {
                let key = svm_key(caller.as_slice());
                let evm_caller = key_tail(&key);
                let (reply, Ghost(x)) = call_evm(dispatcher, &evm_caller, contract, input.as_slice(), *value);
                (reply, Ghost(Seq::empty().push(x)))
            },
            CrossVmOperation::CallSvm { caller, pallet_index, call_index, input } => {
                let program_id = program_id_for(*pallet_index, *call_index);
                let caller_key = svm_key_from_evm(caller);
                let (reply, Ghost(x)) = call_svm(dispatcher, &caller_key, &program_id, input.as_slice());
                (reply, Ghost(Seq::empty().push(x)))
            },
            CrossVmOperation::AtomicSwap { evm_party, svm_party, evm_amount, svm_amount, .. } => {
                let mut output: Vec<u8> = Vec::new();
                push_ledger_line(&mut output, "EVM:withdraw:", evm_party, *evm_amount);
                push_ledger_line(&mut output, "SVM:deposit:", svm_party.as_slice(), *svm_amount);
                push_ledger_line(&mut output, "SVM:withdraw:", svm_party.as_slice(), *svm_amount);
                push_ledger_line(&mut output, "EVM:deposit:", evm_party, *evm_amount);
                (Ok(CrossVmResult::success(output, 200_000)), Ghost(Seq::empty()))
            },
            CrossVmOperation::MessageToEvm { sender, target_contract, message, nonce } => {
                if message.len() > MAX_MESSAGE_LEN {
                    return (Err(DispatchError::Other("MessageToEvm: payload exceeds 1024 bytes")), Ghost(Seq::empty()));
                }
                let output = relay_record_bytes("SVM:msg:", sender.as_slice(), "->EVM:", target_contract, *nonce, message.as_slice());
                (Ok(CrossVmResult::success(output, 50_000)), Ghost(Seq::empty()))
            },
            CrossVmOperation::MessageToSvm { sender, target_program, message, nonce } => {
                if message.len() > MAX_MESSAGE_LEN {
                    return (Err(DispatchError::Other("MessageToSvm: payload exceeds 1024 bytes")), Ghost(Seq::empty()));
                }
                let output = relay_record_bytes("EVM:msg:", sender, "->SVM:", target_program.as_slice(), *nonce, message.as_slice());
                (Ok(CrossVmResult::success(output, 50_000)), Ghost(Seq::empty()))
            },
        }
    }

    /// Gas and compute reserved for an operation in the prepare phase.
    fn estimate_reservations(operation: &CrossVmOperation) -> (r: (u64, u64))
        ensures
            r == reservations(operation@),
    {
        match operation {
            CrossVmOperation::TransferToEvm { .. } => (25_000, 5_000),
            CrossVmOperation::TransferToSvm { .. } => (25_000, 5_000),
            CrossVmOperation::CallEvm { .. } => (100_000, 0),
            CrossVmOperation::CallSvm { .. } => (0, 200_000),
            CrossVmOperation::AtomicSwap { .. } => (200_000, 200_000),
            CrossVmOperation::MessageToEvm { .. } => (50_000, 0),
            CrossVmOperation::MessageToSvm { .. } => (0, 50_000),
        }
    }

    /// Lock source-side resources: reads through the dispatcher the balance
    /// of the paying account (see [`lock_reads`]), refuses the lock exactly
    /// when [`lock_accepts`] refuses it on the balances read, and otherwise
    /// returns the lock receipt. Calls and messages lock nothing.
    fn try_lock_source<D: CrossVmDispatcher>(dispatcher: &D, operation: &CrossVmOperation) -> (r: (Result<Vec<u8>, DispatchError>, Ghost<Seq<BalanceRead>>))
        requires
            valid_op(operation@),
        ensures
            lock_reads(operation@, r.1@),
            r.0 is Ok <==> lock_accepts(operation@, read_evm_balance(r.1@), read_svm_balance(r.1@)),
            r.0 matches Ok(v) ==> v@ == lock_receipt(operation@),
    {
        match operation {
            CrossVmOperation::TransferToEvm { source, amount, .. } => {
                let pubkey = svm_key(source.as_slice());
                let (balance, Ghost(rd)) = read_svm(dispatcher, &pubkey);
                let ghost reads = Seq::empty().push(rd);
                if !lock_decision(operation, 0, balance) {
                    return (Err(DispatchError::Other("Insufficient SVM balance for lock")), Ghost(reads));
                }
                let mut receipt: Vec<u8> = Vec::new();
                push_str(&mut receipt, "SVM_LOCK:");
                push_bytes(&mut receipt, source.as_slice());
                push_u128_le(&mut receipt, *amount);
                (Ok(receipt), Ghost(reads))
            },
            CrossVmOperation::TransferToSvm { source, amount, .. } => {
                let (balance, Ghost(rd)) = read_evm(dispatcher, source);
                let ghost reads = Seq::empty().push(rd);
                if !lock_decision(operation, balance, 0) {
                    return (Err(DispatchError::Other("Insufficient EVM balance for lock")), Ghost(reads));
                }
                let mut receipt: Vec<u8> = Vec::new();
                push_str(&mut receipt, "EVM_LOCK:");
                push_bytes(&mut receipt, source);
                push_u128_le(&mut receipt, *amount);
                (Ok(receipt), Ghost(reads))
            },
            CrossVmOperation::AtomicSwap { evm_party, svm_party, evm_amount, svm_amount, .. } => {
                let (evm_bal, Ghost(rd0)) = read_evm(dispatcher, evm_party);
                if evm_bal < *evm_amount {
                    return (Err(DispatchError::Other("Insufficient EVM balance for swap")), Ghost(Seq::empty().push(rd0)));
                }
                let pubkey = svm_key(svm_party.as_slice());
                let (svm_bal, Ghost(rd1)) = read_svm(dispatcher, &pubkey);
                let ghost reads = Seq::empty().push(rd0).push(rd1);
                if !lock_decision(operation, evm_bal, svm_bal) {
                    return (Err(DispatchError::Other("Insufficient SVM balance for swap")), Ghost(reads));
                }
                let mut receipt: Vec<u8> = Vec::new();
                push_str(&mut receipt, "SWAP_LOCK:");
                push_bytes(&mut receipt, evm_party);
                push_u128_le(&mut receipt, *evm_amount);
                (Ok(receipt), Ghost(reads))
            },
            _ => {
                let mut receipt: Vec<u8> = Vec::new();
                push_str(&mut receipt, "NO_LOCK_REQUIRED");
                (Ok(receipt), Ghost(Seq::empty()))
            },
        }
    }

    /// Lock destination-side resources: deposits only receive, so this
    /// always succeeds.
    fn try_lock_destination<D: CrossVmDispatcher>(_dispatcher: &D, _operation: &CrossVmOperation) -> (r: Result<Vec<u8>, DispatchError>)
        ensures
            r matches Ok(v) && v@ == utf8("DEST_OK"),
    {
        let mut receipt: Vec<u8> = Vec::new();
        push_str(&mut receipt, "DEST_OK");
        Ok(receipt)
    }
}

/// The bytes `12..32` of a 32-byte key: the EVM address it maps to.
pub fn key_tail(k: &[u8; 32]) -> (a: [u8; 20])
    ensures
        a@ == k@.subrange(12, 32),
{
    let mut a = [0u8; 20];
    let mut i: usize = 0;
    while i < 20
        invariant
            i <= 20,
            forall|j: int| 0 <= j < i ==> a@[j] == k@[12 + j],
        decreases 20 - i,
    {
        a[i] = k[12 + i];
        i = i + 1;
    }
    assert(a@ =~= k@.subrange(12, 32));
    a
}

/// The program id of an SVM pallet call: pallet index, call index, then zeros.
pub fn program_id_for(pallet_index: u8, call_index: u8) -> (p: [u8; 32])
    ensures
        p@ == seq![pallet_index, call_index] + Seq::new(30, |i: int| 0u8),
{
    let mut p = [0u8; 32];
    p[0] = pallet_index;
    p[1] = call_index;
    assert(p@ =~= seq![pallet_index, call_index] + Seq::new(30, |i: int| 0u8));
    p
}

/// A balance that the bridge read through the dispatcher.
pub enum BalanceRead {
    Evm { address: Seq<u8>, balance: u128 },
    Svm { key: Seq<u8>, balance: u64 },
}

/// Whether the source lock of `op` is granted on these balances of the
/// paying accounts: a transfer needs its amount on the source side, a swap
/// both amounts on their sides; calls and messages lock nothing.
pub open spec fn lock_accepts(op: OperationModel, evm_balance: u128, svm_balance: u64) -> bool {
    match op {
        OperationModel::TransferToEvm { amount, .. } => svm_balance >= amount,
        OperationModel::TransferToSvm { amount, .. } => evm_balance >= amount,
        OperationModel::AtomicSwap { evm_amount, svm_amount, .. } => evm_balance >= evm_amount && svm_balance >= svm_amount,
        _ => true,
    }
}

/// The balances that locking `op` reads, in order: the SVM key of a
/// transfer's source, the EVM source of a transfer, or for a swap the EVM
/// party and then, where its balance suffices, the SVM party's key.
pub open spec fn lock_reads(op: OperationModel, reads: Seq<BalanceRead>) -> bool {
    match op {
        OperationModel::TransferToEvm { source, .. } =>
            reads.len() == 1 && reads[0] is Svm && reads[0]->Svm_key == svm_key_of(source),
        OperationModel::TransferToSvm { source, .. } =>
            reads.len() == 1 && reads[0] is Evm && reads[0]->Evm_address == source,
        OperationModel::AtomicSwap { evm_party, svm_party, evm_amount, .. } => {
            &&& reads.len() >= 1
            &&& reads[0] is Evm
            &&& reads[0]->Evm_address == evm_party
            &&& if reads[0]->Evm_balance >= evm_amount {
                reads.len() == 2 && reads[1] is Svm && reads[1]->Svm_key == svm_key_of(svm_party)
            } else {
                reads.len() == 1
            }
        },
        _ => reads.len() == 0,
    }
}

/// The EVM balance among the reads (0 where none was read).
pub open spec fn read_evm_balance(reads: Seq<BalanceRead>) -> u128 {
    if reads.len() >= 1 && reads[0] is Evm { reads[0]->Evm_balance } else { 0 }
}

/// The SVM balance among the reads (0 where none was read).
pub open spec fn read_svm_balance(reads: Seq<BalanceRead>) -> u64 {
    if reads.len() >= 1 && reads[0] is Svm {
        reads[0]->Svm_balance
    } else if reads.len() >= 2 && reads[1] is Svm {
        reads[1]->Svm_balance
    } else {
        0
    }
}

/// The source lock of `op` is granted on the balances `reads` holds.
pub open spec fn granted(op: OperationModel, reads: Seq<BalanceRead>) -> bool {
    lock_accepts(op, read_evm_balance(reads), read_svm_balance(reads))
}

/// The reads of a prepare run over the queue `q`: the balances each lock
/// attempt read (see [`lock_reads`]), in queue order; every attempt but the
/// last was granted, and attempts stop early only at a refused one.
pub open spec fn prepare_reads(q: Seq<OperationModel>, reads: Seq<Seq<BalanceRead>>) -> bool {
    &&& reads.len() <= q.len()
    &&& forall|i: int| 0 <= i < reads.len() ==> lock_reads(#[trigger] q[i], reads[i])
    &&& forall|i: int| 0 <= i < reads.len() - 1 ==> granted(#[trigger] q[i], reads[i])
    &&& reads.len() < q.len() ==> reads.len() >= 1 && !granted(q[reads.len() - 1], reads[reads.len() - 1])
}

/// Every lock attempt of the run was granted.
pub open spec fn prepare_all_granted(q: Seq<OperationModel>, reads: Seq<Seq<BalanceRead>>) -> bool {
    forall|i: int| 0 <= i < reads.len() ==> granted(#[trigger] q[i], reads[i])
}

/// The lock of `op` is granted on some balances that it reads.
pub open spec fn lock_grantable(op: OperationModel) -> bool {
    exists|reads: Seq<BalanceRead>| lock_reads(op, reads) && lock_accepts(op, read_evm_balance(reads), read_svm_balance(reads))
}

/// The lock of `op` is refused on some balances that it reads.
pub open spec fn lock_refusable(op: OperationModel) -> bool {
    exists|reads: Seq<BalanceRead>| lock_reads(op, reads) && !lock_accepts(op, read_evm_balance(reads), read_svm_balance(reads))
}

/// Whether the source lock of `op` is granted on these balances (see
/// [`lock_accepts`]).
pub fn lock_decision(op: &CrossVmOperation, evm_balance: u128, svm_balance: u64) -> (ok: bool)
    ensures
        ok == lock_accepts(op@, evm_balance, svm_balance),
{
    match op {
        CrossVmOperation::TransferToEvm { amount, .. } => svm_balance as u128 >= *amount,
        CrossVmOperation::TransferToSvm { amount, .. } => evm_balance >= *amount,
        CrossVmOperation::AtomicSwap { evm_amount, svm_amount, .. } => evm_balance >= *evm_amount && svm_balance as u128 >= *svm_amount,
        _ => true,
    }
}

/// An EVM balance read through the dispatcher, recorded.
fn read_evm<D: CrossVmDispatcher>(dispatcher: &D, address: &[u8; 20]) -> (r: (u128, Ghost<BalanceRead>))
    ensures
        r.1@ == (BalanceRead::Evm { address: address@, balance: r.0 }),
{
    let b = dispatcher.get_evm_balance(address);
    (b, Ghost(BalanceRead::Evm { address: address@, balance: b }))
}

/// An SVM balance read through the dispatcher, recorded.
fn read_svm<D: CrossVmDispatcher>(dispatcher: &D, key: &[u8; 32]) -> (r: (u64, Ghost<BalanceRead>))
    ensures
        r.1@ == (BalanceRead::Svm { key: key@, balance: r.0 }),
{
    let b = dispatcher.get_svm_balance(key);
    (b, Ghost(BalanceRead::Svm { key: key@, balance: b }))
}

/// A request that the bridge hands to the VM executors.
pub enum VmRequest {
    /// `execute_evm_tx(caller, target, input, value)`.
    Evm { caller: Seq<u8>, target: Seq<u8>, input: Seq<u8>, value: u128 },
    /// `execute_svm_tx(caller, program, input)`.
    Svm { caller: Seq<u8>, program: Seq<u8>, input: Seq<u8> },
}

/// One request and the executor's answer to it.
pub type Exchange = (VmRequest, Result<ResultModel, DispatchError>);

/// `n` zero bytes.
pub open spec fn zero_bytes(n: nat) -> Seq<u8> {
    Seq::new(n, |i: int| 0u8)
}

/// `a + b`, saturating at `u64::MAX`.
pub open spec fn sat_add_u64(a: u64, b: u64) -> u64 {
    (if a + b > u64::MAX { u64::MAX as int } else { a + b }) as u64
}

/// The one request that a call, transfer or message makes: the caller is
/// the last 20 bytes of an SVM key or the zero-extension of an EVM address;
/// a pallet call goes to the zero program with pallet index, call index and
/// payload as input; a transfer carries the amount's 16 little-endian bytes.
/// None for a swap and for a message over 1024 bytes.
pub open spec fn single_request(op: OperationModel) -> Option<VmRequest> {
    match op {
        OperationModel::CallEvm { caller, contract, input, value } =>
            Some(VmRequest::Evm { caller: evm_tail_of(caller), target: contract, input, value }),
        OperationModel::CallSvm { caller, pallet_index, call_index, input } =>
            Some(VmRequest::Svm { caller: svm_key_of_evm(caller), program: zero_bytes(32), input: seq![pallet_index, call_index] + input }),
        OperationModel::TransferToEvm { source, destination, amount } =>
            Some(VmRequest::Evm { caller: evm_tail_of(source), target: destination, input: le_bytes(amount as nat, 16), value: amount }),
        OperationModel::TransferToSvm { source, amount, .. } =>
            Some(VmRequest::Svm { caller: svm_key_of_evm(source), program: zero_bytes(32), input: le_bytes(amount as nat, 16) }),
        OperationModel::MessageToEvm { sender, target_contract, message, .. } =>
            if message.len() > 1024 {
                None
            } else {
                Some(VmRequest::Evm { caller: evm_tail_of(sender), target: target_contract, input: message, value: 0 })
            },
        OperationModel::MessageToSvm { sender, target_program, message, .. } =>
            if message.len() > 1024 {
                None
            } else {
                Some(VmRequest::Svm { caller: svm_key_of_evm(sender), program: svm_key_of(target_program), input: message })
            },
        OperationModel::AtomicSwap { .. } => None,
    }
}

/// The request that executing a contract call inside the bridge sends: an
/// EVM call from bytes `12..32` of the caller's 32-byte key, or a pallet
/// call to the program id made of pallet index, call index and zeros, with
/// the payload as it is. Only meaningful for the two call operations.
pub open spec fn local_call_request(op: OperationModel) -> VmRequest {
    match op {
        OperationModel::CallEvm { caller, contract, input, value } =>
            VmRequest::Evm { caller: svm_key_of(caller).subrange(12, 32), target: contract, input, value },
        OperationModel::CallSvm { caller, pallet_index, call_index, input } =>
            VmRequest::Svm { caller: svm_key_of_evm(caller), program: seq![pallet_index, call_index] + zero_bytes(30), input },
        _ => VmRequest::Svm { caller: Seq::empty(), program: Seq::empty(), input: Seq::empty() },
    }
}

/// Swap leg: the EVM party escrows its amount with the zero address.
pub open spec fn lock_evm_leg(evm_party: Seq<u8>, evm_amount: u128) -> VmRequest {
    VmRequest::Evm { caller: evm_party, target: zero_bytes(20), input: tagged_amount("LOCK_EVM_SWAP:", evm_amount), value: evm_amount }
}

/// Swap leg: the SVM party's amount is locked with the zero program.
pub open spec fn lock_svm_leg(svm_party: Seq<u8>, svm_amount: u128) -> VmRequest {
    VmRequest::Svm { caller: svm_key_of(svm_party), program: zero_bytes(32), input: tagged_amount("LOCK_SVM_SWAP:", svm_amount) }
}

/// Swap leg: the EVM escrow commits to the EVM party.
pub open spec fn commit_evm_leg(evm_party: Seq<u8>, evm_amount: u128) -> VmRequest {
    VmRequest::Evm { caller: zero_bytes(20), target: evm_party, input: tagged_amount("COMMIT_EVM_SWAP:", evm_amount), value: evm_amount }
}

/// Swap leg: the SVM lock commits.
pub open spec fn commit_svm_leg(svm_party: Seq<u8>, svm_amount: u128) -> VmRequest {
    VmRequest::Svm { caller: svm_key_of(svm_party), program: zero_bytes(32), input: tagged_amount("COMMIT_SVM_SWAP:", svm_amount) }
}

/// Swap leg: the EVM escrow goes back to the EVM party.
pub open spec fn refund_evm_leg(evm_party: Seq<u8>, evm_amount: u128) -> VmRequest {
    VmRequest::Evm { caller: zero_bytes(20), target: evm_party, input: tagged_amount("REFUND_EVM_SWAP:", evm_amount), value: evm_amount }
}

/// The exchanges of an atomic swap: escrow (EVM), lock (SVM), commit (EVM),
/// commit (SVM), each sent only when the one before succeeded; after a failed
/// SVM leg the EVM escrow is refunded, and nothing follows.
pub open spec fn swap_trace(evm_party: Seq<u8>, svm_party: Seq<u8>, evm_amount: u128, svm_amount: u128, t: Seq<Exchange>) -> bool {
    &&& t.len() >= 1
    &&& t[0].0 == lock_evm_leg(evm_party, evm_amount)
    &&& if t[0].1 is Err {
        t.len() == 1
    } else {
        &&& t.len() >= 2
        &&& t[1].0 == lock_svm_leg(svm_party, svm_amount)
        &&& if t[1].1 is Err {
            t.len() == 3 && t[2].0 == refund_evm_leg(evm_party, evm_amount)
        } else {
            &&& t.len() >= 3
            &&& t[2].0 == commit_evm_leg(evm_party, evm_amount)
            &&& if t[2].1 is Err {
                t.len() == 3
            } else {
                &&& t.len() >= 4
                &&& t[3].0 == commit_svm_leg(svm_party, svm_amount)
                &&& if t[3].1 is Err {
                    t.len() == 5 && t[4].0 == refund_evm_leg(evm_party, evm_amount)
                } else {
                    t.len() == 4
                }
            }
        }
    }
}

/// The result of a swap from its exchanges: the first failed lock or the
/// failed EVM commit; else the SVM commit's error; else success with no
/// output and the two commit legs' gas, added with saturation.
pub open spec fn swap_result(t: Seq<Exchange>) -> Result<ResultModel, DispatchError> {
    if t[0].1 is Err {
        t[0].1
    } else if t[1].1 is Err {
        t[1].1
    } else if t[2].1 is Err {
        t[2].1
    } else {
        match t[3].1 {
            Err(e) => Err(e),
            Ok(s) => Ok(success_model(Seq::empty(), sat_add_u64(t[2].1->Ok_0.gas_used, s.gas_used))),
        }
    }
}

/// The requests that dispatching `op` makes, given the executors' answers.
pub open spec fn dispatch_trace(op: OperationModel, t: Seq<Exchange>) -> bool {
    match op {
        OperationModel::AtomicSwap { evm_party, svm_party, evm_amount, svm_amount, .. } =>
            swap_trace(evm_party, svm_party, evm_amount, svm_amount, t),
        _ => match single_request(op) {
            Some(q) => t.len() == 1 && t[0].0 == q,
            None => t.len() == 0,
        },
    }
}

/// What dispatching `op` returns, given its exchanges: a swap's result; the
/// refusal of an oversized message; otherwise the executor's answer.
pub open spec fn trace_result(op: OperationModel, t: Seq<Exchange>) -> Result<ResultModel, DispatchError> {
    match op {
        OperationModel::AtomicSwap { .. } => swap_result(t),
        OperationModel::MessageToEvm { message, .. } =>
            if message.len() > 1024 { Err(DispatchError::Other("MessageToEvm: payload exceeds 1024 bytes")) } else { t[0].1 },
        OperationModel::MessageToSvm { message, .. } =>
            if message.len() > 1024 { Err(DispatchError::Other("MessageToSvm: payload exceeds 1024 bytes")) } else { t[0].1 },
        _ => t[0].1,
    }
}

/// What the dispatcher-routed execution of an operation gives: the result
/// of some run of the requests [`dispatch_trace`] fixes, whatever the
/// executors answered.
pub open spec fn dispatch_admissible(op: OperationModel, o: Result<ResultModel, DispatchError>) -> bool {
    exists|t: Seq<Exchange>| dispatch_trace(op, t) && o == trace_result(op, t)
}

/// A swap whose legs all get the no-op executor's answers (success, no
/// output, 21,000 gas for an EVM request and 5,000 for an SVM one) succeeds
/// with no output and the two commit legs' 26,000 gas.
pub proof fn lemma_noop_swap_result(evm_party: Seq<u8>, svm_party: Seq<u8>, evm_amount: u128, svm_amount: u128, t: Seq<Exchange>)
    requires
        swap_trace(evm_party, svm_party, evm_amount, svm_amount, t),
        forall|i: int| 0 <= i < t.len() ==> (#[trigger] t[i]).1 == if t[i].0 is Evm {
            Ok::<ResultModel, DispatchError>(success_model(Seq::empty(), 21_000))
        } else {
            Ok::<ResultModel, DispatchError>(success_model(Seq::empty(), 5_000))
        },
    ensures
        t.len() == 4,
        swap_result(t) == Ok::<ResultModel, DispatchError>(success_model(Seq::empty(), 26_000)),
{
    assert(t[0].0 is Evm);
    assert(t[1].0 is Svm);
    assert(t[2].0 is Evm);
    assert(t[3].0 is Svm);
}

/// An EVM call through the dispatcher, recorded as an exchange.
fn call_evm<D: CrossVmDispatcher>(dispatcher: &D, caller: &[u8; 20], target: &[u8; 20], input: &[u8], value: u128) -> (r: (Result<CrossVmResult, DispatchError>, Ghost<Exchange>))
    ensures
        r.1@ == (VmRequest::Evm { caller: caller@, target: target@, input: input@, value }, outcome_model(r.0)),
{
    let reply = dispatcher.execute_evm_tx(caller, target, input, value);
    let ghost x = (VmRequest::Evm { caller: caller@, target: target@, input: input@, value }, outcome_model(reply));
    (reply, Ghost(x))
}

/// An SVM call through the dispatcher, recorded as an exchange.
fn call_svm<D: CrossVmDispatcher>(dispatcher: &D, caller: &[u8; 32], program: &[u8; 32], input: &[u8]) -> (r: (Result<CrossVmResult, DispatchError>, Ghost<Exchange>))
    ensures
        r.1@ == (VmRequest::Svm { caller: caller@, program: program@, input: input@ }, outcome_model(r.0)),
{
    let reply = dispatcher.execute_svm_tx(caller, program, input);
    let ghost x = (VmRequest::Svm { caller: caller@, program: program@, input: input@ }, outcome_model(reply));
    (reply, Ghost(x))
}

/// Run an operation through the dispatcher, making the requests that
/// [`dispatch_trace`] fixes (returned as the exchanges, with the answers) and
/// returning what [`trace_result`] makes of the answers.
fn dispatch_operation<D: CrossVmDispatcher>(dispatcher: &D, operation: &CrossVmOperation) -> (r: (Result<CrossVmResult, DispatchError>, Ghost<Seq<Exchange>>))
    ensures
        dispatch_trace(operation@, r.1@),
        outcome_model(r.0) == trace_result(operation@, r.1@),
{
    match operation {
        CrossVmOperation::CallEvm { caller, contract, input, value } => {
            let caller_evm = evm_tail(caller.as_slice());
            let (reply, Ghost(x)) = call_evm(dispatcher, &caller_evm, contract, input.as_slice(), *value);
            (reply, Ghost(Seq::empty().push(x)))
        },
        CrossVmOperation::CallSvm { caller, pallet_index, call_index, input } => {
            let caller_svm = svm_key_from_evm(caller);
            let program_id = [0u8; 32];
            assert(program_id@ =~= zero_bytes(32));
            let mut encoded_input: Vec<u8> = Vec::new();
            encoded_input.push(*pallet_index);
            encoded_input.push(*call_index);
            push_bytes(&mut encoded_input, input.as_slice());
            assert(encoded_input@ =~= seq![*pallet_index, *call_index] + input@);
            let (reply, Ghost(x)) = call_svm(dispatcher, &caller_svm, &program_id, encoded_input.as_slice());
            (reply, Ghost(Seq::empty().push(x)))
        },
        CrossVmOperation::TransferToEvm { source, destination, amount } => {
            let bridge_caller = evm_tail(source.as_slice());
            let mut amount_bytes: Vec<u8> = Vec::new();
            push_u128_le(&mut amount_bytes, *amount);
            assert(amount_bytes@ =~= le_bytes(*amount as nat, 16));
            let (reply, Ghost(x)) = call_evm(dispatcher, &bridge_caller, destination, amount_bytes.as_slice(), *amount);
            (reply, Ghost(Seq::empty().push(x)))
        },
        CrossVmOperation::TransferToSvm { source, amount, .. } => {
            let program_id = [0u8; 32];
            assert(program_id@ =~= zero_bytes(32));
            let caller_svm = svm_key_from_evm(source);
            let mut amount_bytes: Vec<u8> = Vec::new();
            push_u128_le(&mut amount_bytes, *amount);
            assert(amount_bytes@ =~= le_bytes(*amount as nat, 16));
            let (reply, Ghost(x)) = call_svm(dispatcher, &caller_svm, &program_id, amount_bytes.as_slice());
            (reply, Ghost(Seq::empty().push(x)))
        },
        CrossVmOperation::AtomicSwap { evm_party, svm_party, evm_amount, svm_amount, .. } =>
            dispatch_swap(dispatcher, evm_party, svm_party.as_slice(), *evm_amount, *svm_amount),
        CrossVmOperation::MessageToEvm { sender, target_contract, message, .. } => {
            if message.len() > MAX_MESSAGE_LEN {
                return (Err(DispatchError::Other("MessageToEvm: payload exceeds 1024 bytes")), Ghost(Seq::empty()));
            }
            let caller_evm = evm_tail(sender.as_slice());
            let (reply, Ghost(x)) = call_evm(dispatcher, &caller_evm, target_contract, message.as_slice(), 0);
            (reply, Ghost(Seq::empty().push(x)))
        },
        CrossVmOperation::MessageToSvm { sender, target_program, message, .. } => {
            if message.len() > MAX_MESSAGE_LEN {
                return (Err(DispatchError::Other("MessageToSvm: payload exceeds 1024 bytes")), Ghost(Seq::empty()));
            }
            let caller_svm = svm_key_from_evm(sender);
            let program_id = svm_key(target_program.as_slice());
            let (reply, Ghost(x)) = call_svm(dispatcher, &caller_svm, &program_id, message.as_slice());
            (reply, Ghost(Seq::empty().push(x)))
        },
    }
}

/// The atomic-swap leg sequence of [`dispatch_operation`] (see [`swap_trace`]).
fn dispatch_swap<D: CrossVmDispatcher>(dispatcher: &D, evm_party: &[u8; 20], svm_party: &[u8], evm_amount: u128, svm_amount: u128) -> (r: (Result<CrossVmResult, DispatchError>, Ghost<Seq<Exchange>>))
    ensures
        swap_trace(evm_party@, svm_party@, evm_amount, svm_amount, r.1@),
        outcome_model(r.0) == swap_result(r.1@),
{
    let svm_key_bytes = svm_key(svm_party);
    let evm_escrow = [0u8; 20];
    let svm_escrow_program = [0u8; 32];
    assert(evm_escrow@ =~= zero_bytes(20));
    assert(svm_escrow_program@ =~= zero_bytes(32));
    let evm_lock_input = tagged_amount_bytes("LOCK_EVM_SWAP:", evm_amount);
    let (evm_prepare, Ghost(x0)) = call_evm(dispatcher, evm_party, &evm_escrow, evm_lock_input.as_slice(), evm_amount);
    if let Err(e) = evm_prepare {
        return (Err(e), Ghost(Seq::empty().push(x0)));
    }
    let svm_lock_input = tagged_amount_bytes("LOCK_SVM_SWAP:", svm_amount);
    let (svm_prepare, Ghost(x1)) = call_svm(dispatcher, &svm_key_bytes, &svm_escrow_program, svm_lock_input.as_slice());
    if let Err(err) = svm_prepare {
        let refund_input = tagged_amount_bytes("REFUND_EVM_SWAP:", evm_amount);
        let (_, Ghost(x2)) = call_evm(dispatcher, &evm_escrow, evm_party, refund_input.as_slice(), evm_amount);
        return (Err(err), Ghost(Seq::empty().push(x0).push(x1).push(x2)));
    }
    let evm_commit_input = tagged_amount_bytes("COMMIT_EVM_SWAP:", evm_amount);
    let (evm_commit_reply, Ghost(x2)) = call_evm(dispatcher, &evm_escrow, evm_party, evm_commit_input.as_slice(), evm_amount);
    let evm_commit = match evm_commit_reply {
        Ok(x) => x,
        Err(e) => {
            return (Err(e), Ghost(Seq::empty().push(x0).push(x1).push(x2)));
        },
    };
    let svm_commit_input = tagged_amount_bytes("COMMIT_SVM_SWAP:", svm_amount);
    let (svm_commit, Ghost(x3)) = call_svm(dispatcher, &svm_key_bytes, &svm_escrow_program, svm_commit_input.as_slice());
    if svm_commit.is_err() {
        let refund_input = tagged_amount_bytes("REFUND_EVM_SWAP:", evm_amount);
        let (_, Ghost(x4)) = call_evm(dispatcher, &evm_escrow, evm_party, refund_input.as_slice(), evm_amount);
        let r = settle_swap_commit(&evm_commit, svm_commit);
        return (r, Ghost(Seq::empty().push(x0).push(x1).push(x2).push(x3).push(x4)));
    }
    let r = settle_swap_commit(&evm_commit, svm_commit);
    (r, Ghost(Seq::empty().push(x0).push(x1).push(x2).push(x3)))
}

/// The result of an atomic swap from its two commit legs: the SVM leg's
/// error where it failed; otherwise success with no output and the two
/// legs' gas, added with saturation.
pub fn settle_swap_commit(evm_commit: &CrossVmResult, svm_commit: Result<CrossVmResult, DispatchError>) -> (r: Result<CrossVmResult, DispatchError>)
    ensures
        match svm_commit {
            Err(e) => r == Err::<CrossVmResult, DispatchError>(e),
            Ok(s) => r matches Ok(x) && x@ == success_model(
                Seq::empty(),
                (if evm_commit.gas_used + s.gas_used > u64::MAX { u64::MAX as int } else { evm_commit.gas_used + s.gas_used }) as u64,
            ),
        },
{
    match svm_commit {
        Err(err) => Err(err),
        Ok(svm_ok) => {
            let total_gas = evm_commit.gas_used.saturating_add(svm_ok.gas_used);
            Ok(CrossVmResult::success(Vec::new(), total_gas))
        },
    }
}

/// One processed operation and what executing it gave.
pub type Step = (OperationModel, Result<ResultModel, DispatchError>);

/// The results of the successful steps, in order.
pub open spec fn results_of(steps: Seq<Step>) -> Seq<ResultModel>
    decreases steps.len(),
{
    if steps.len() == 0 {
        Seq::empty()
    } else {
        match steps.last().1 {
            Ok(x) => results_of(steps.drop_last()).push(x),
            Err(_) => results_of(steps.drop_last()),
        }
    }
}

/// The successful steps as ledger entries, in order.
pub open spec fn completed_of(steps: Seq<Step>) -> Seq<(OperationModel, ResultModel)>
    decreases steps.len(),
{
    if steps.len() == 0 {
        Seq::empty()
    } else {
        match steps.last().1 {
            Ok(x) => completed_of(steps.drop_last()).push((steps.last().0, x)),
            Err(_) => completed_of(steps.drop_last()),
        }
    }
}

/// The failed steps as ledger entries, each with the message `text` gives
/// for its error, in order.
pub open spec fn failed_of(steps: Seq<Step>, text: spec_fn(DispatchError) -> Seq<u8>) -> Seq<(OperationModel, Seq<u8>)>
    decreases steps.len(),
{
    if steps.len() == 0 {
        Seq::empty()
    } else {
        match steps.last().1 {
            Ok(_) => failed_of(steps.drop_last(), text),
            Err(e) => failed_of(steps.drop_last(), text).push((steps.last().0, text(e))),
        }
    }
}

/// The operations of the steps, in order.
pub open spec fn step_ops(steps: Seq<Step>) -> Seq<OperationModel> {
    steps.map_values(|st: Step| st.0)
}

/// Every step of an operation that the bridge settles itself has the
/// outcome [`local_outcome`] gives.
pub open spec fn locally_settled(steps: Seq<Step>) -> bool {
    forall|i: int| 0 <= i < steps.len() ==> (local_outcome((#[trigger] steps[i]).0) matches Some(o) ==> steps[i].1 == o)
}

/// Every step is an outcome that [`dispatch_operation`] can give.
pub open spec fn dispatch_steps(steps: Seq<Step>) -> bool {
    forall|i: int| 0 <= i < steps.len() ==> dispatch_admissible((#[trigger] steps[i]).0, steps[i].1)
}

/// The message recorded for an operation that failed in `execute_pending`.
pub open spec fn execution_failed_text(e: DispatchError) -> Seq<u8> {
    utf8("Execution failed")
}

/// Model of a vector of results.
pub open spec fn results_model(v: Seq<CrossVmResult>) -> Seq<ResultModel> {
    v.map_values(|x: CrossVmResult| x@)
}

proof fn lemma_pending_queue_step(s: Seq<(OperationModel, StateModel)>, i: int)
    requires
        0 <= i < s.len(),
    ensures
        pending_queue(s.take(i + 1)) == if s[i].1 is Pending { pending_queue(s.take(i)).push(s[i].0) } else { pending_queue(s.take(i)) },
{
    assert(s.take(i + 1).drop_last() =~= s.take(i));
}

proof fn lemma_step_ops_push(steps: Seq<Step>, st: Step)
    ensures
        step_ops(steps.push(st)) == step_ops(steps).push(st.0),
{
    assert(step_ops(steps.push(st)) =~= step_ops(steps).push(st.0));
}

proof fn lemma_steps_push(steps: Seq<Step>, st: Step, text: spec_fn(DispatchError) -> Seq<u8>)
    ensures
        results_of(steps.push(st)) == match st.1 { Ok(x) => results_of(steps).push(x), Err(_) => results_of(steps) },
        completed_of(steps.push(st)) == match st.1 { Ok(x) => completed_of(steps).push((st.0, x)), Err(_) => completed_of(steps) },
        failed_of(steps.push(st), text) == match st.1 { Ok(_) => failed_of(steps, text), Err(e) => failed_of(steps, text).push((st.0, text(e))) },
{
    assert(steps.push(st).drop_last() =~= steps);
}

impl CrossVmBridge {
    /// Execute the pending operations with the built-in no-op dispatcher.
    pub fn execute_pending(&mut self) -> (r: Result<Vec<CrossVmResult>, DispatchError>)
        requires
            old(self).wf(),
        ensures
            final(self).wf(),
            old(self).cfg().paused ==> r == Err::<Vec<CrossVmResult>, DispatchError>(paused_error()) && *final(self) == *old(self),
            !old(self).cfg().paused ==> r is Ok && exists|steps: Seq<Step>| #[trigger] step_ops(steps) == pending_queue(old(self).pending())
                && locally_settled(steps)
                && results_model(r->Ok_0@) == results_of(steps)
                && final(self).completed() == old(self).completed() + completed_of(steps)
                && final(self).failed() == old(self).failed() + failed_of(steps, |e: DispatchError| execution_failed_text(e))
                && final(self).pending().len() == 0
                && final(self).prepared() == old(self).prepared()
                && final(self).next_nonce() == old(self).next_nonce()
                && final(self).used_nonces() == old(self).used_nonces()
                && final(self).cfg() == old(self).cfg(),
    {
        self.execute_pending_with_dispatcher(&NoOpDispatcher)
    }

    /// Execute every `Pending` operation, in queue order, with the given
    /// dispatcher (see [`Self::execute_operation_with_dispatcher`]).
    /// Successes go to the completed ledger and their results are returned;
    /// failures go to the failed ledger with the message "Execution failed".
    /// The queue is emptied. Refused, with no change, while paused.
    pub fn execute_pending_with_dispatcher<D: CrossVmDispatcher>(&mut self, dispatcher: &D) -> (r: Result<Vec<CrossVmResult>, DispatchError>)
        requires
            old(self).wf(),
        ensures
            final(self).wf(),
            old(self).cfg().paused ==> r == Err::<Vec<CrossVmResult>, DispatchError>(paused_error()) && *final(self) == *old(self),
            !old(self).cfg().paused ==> r is Ok && exists|steps: Seq<Step>| #[trigger] step_ops(steps) == pending_queue(old(self).pending())
                && locally_settled(steps)
                && results_model(r->Ok_0@) == results_of(steps)
                && final(self).completed() == old(self).completed() + completed_of(steps)
                && final(self).failed() == old(self).failed() + failed_of(steps, |e: DispatchError| execution_failed_text(e))
                && final(self).pending().len() == 0
                && final(self).prepared() == old(self).prepared()
                && final(self).next_nonce() == old(self).next_nonce()
                && final(self).used_nonces() == old(self).used_nonces()
                && final(self).cfg() == old(self).cfg(),
    {
        if self.config.paused {
            return Err(DispatchError::Other("Bridge is paused (circuit breaker active)"));
        }
        let ghost text = |e: DispatchError| execution_failed_text(e);
        let ghost old_pending = self.pending();
        let mut ops: Vec<(CrossVmOperation, OperationState)> = Vec::new();
        std::mem::swap(&mut ops, &mut self.pending_ops);
        assert(ops@.map_values(|p: (CrossVmOperation, OperationState)| (p.0@, p.1@)) == old_pending);
        let mut results: Vec<CrossVmResult> = Vec::new();
        let ghost mut steps: Seq<Step> = Seq::empty();
        let mut i: usize = 0;
        while i < ops.len()
            invariant
                i <= ops@.len(),
                ops@.map_values(|p: (CrossVmOperation, OperationState)| (p.0@, p.1@)) == old_pending,
                forall|k: int| 0 <= k < old_pending.len() ==> valid_op(#[trigger] old_pending[k].0),
                step_ops(steps) == pending_queue(old_pending.take(i as int)),
                locally_settled(steps),
                results_model(results@) == results_of(steps),
                self.completed() == old(self).completed() + completed_of(steps),
                self.failed() == old(self).failed() + failed_of(steps, text),
                text == (|e: DispatchError| execution_failed_text(e)),
                self.pending_ops@.len() == 0,
                self.prepared() == old(self).prepared(),
                self.next_nonce() == old(self).next_nonce(),
                self.used_nonces() == old(self).used_nonces(),
                self.cfg() == old(self).cfg(),
            decreases ops.len() - i,
        {
            proof {
                lemma_pending_queue_step(old_pending, i as int);
                assert(old_pending[i as int] == (ops@[i as int].0@, ops@[i as int].1@));
            }
            let entry = &ops[i];
            let is_pending = match entry.1 {
                OperationState::Pending => true,
                _ => false,
            };
            if is_pending {
                let operation = entry.0.duplicate();
                let (outcome, Ghost(_sent)) = self.execute_operation_with_dispatcher(&operation, dispatcher);
                let ghost st: Step = (operation@, outcome_model(outcome));
                proof {
                    lemma_steps_push(steps, st, text);
                    lemma_step_ops_push(steps, st);
                }
                match outcome {
                    Ok(result) => {
                        let ghost before_c = self.completed();
                        let ghost before_r = results@;
                        let kept = CrossVmResult { success: result.success, output: copy_bytes(&result.output), gas_used: result.gas_used, error: copy_opt_bytes(&result.error) };
                        results.push(kept);
                        self.completed_ops.push((operation, result));
                        assert(self.completed() =~= before_c.push((st.0, result@)));
                        assert(results_model(results@) =~= results_model(before_r).push(result@));
                    },
                    Err(_) => {
                        let ghost before_f = self.failed();
                        let mut msg: Vec<u8> = Vec::new();
                        push_str(&mut msg, "Execution failed");
                        self.failed_ops.push((operation, msg));
                        assert(self.failed() =~= before_f.push((st.0, utf8("Execution failed"))));
                    },
                }
                proof {
                    steps = steps.push(st);
                    assert forall|k: int| 0 <= k < steps.len() implies (local_outcome((#[trigger] steps[k]).0) matches Some(o) ==> steps[k].1 == o) by {
                        if k < steps.len() - 1 {
                            assert(steps[k] == steps.drop_last()[k]);
                        }
                    }
                }
            }
            i = i + 1;
        }
        proof {
            assert(old_pending.take(ops@.len() as int) =~= old_pending);
        }
        assert(self.pending() =~= Seq::empty());
        Ok(results)
    }
}

/// A copy of an optional byte vector.
pub fn copy_opt_bytes(b: &Option<Vec<u8>>) -> (r: Option<Vec<u8>>)
    ensures
        match (b, r) {
            (Some(x), Some(y)) => y@ == x@,
            (None, None) => true,
            _ => false,
        },
{
    match b {
        Some(x) => Some(copy_bytes(x)),
        None => None,
    }
}

/// The text that describes a dispatch error: `Other("<message>")`.
pub open spec fn debug_text(e: DispatchError) -> Seq<u8> {
    match e {
        DispatchError::Other(m) => utf8("Other(\"") + utf8(m) + utf8("\")"),
    }
}

impl DispatchError {
    /// The bytes of [`debug_text`].
    pub fn debug_bytes(&self) -> (out: Vec<u8>)
        ensures
            out@ == debug_text(*self),
    {
        let mut out: Vec<u8> = Vec::new();
        match self {
            DispatchError::Other(m) => {
                push_str(&mut out, "Other(\"");
                push_str(&mut out, m);
                push_str(&mut out, "\")");
            },
        }
        out
    }
}

/// The events `execute_with_dispatcher` emits for the step with id `id`: a
/// `TransferInitiated` for transfers, then `AtomicSwapExecuted` for a
/// successful swap, `TransferCompleted` for any other success, or
/// `TransferFailed` with the error's text.
pub open spec fn step_events(st: Step, id: u64) -> Seq<EventModel> {
    let initiated = match st.0 {
        OperationModel::TransferToEvm { amount, .. } =>
            seq![EventModel::TransferInitiated { operation_id: id, source_vm: VmType::Svm, dest_vm: VmType::Evm, amount }],
        OperationModel::TransferToSvm { amount, .. } =>
            seq![EventModel::TransferInitiated { operation_id: id, source_vm: VmType::Evm, dest_vm: VmType::Svm, amount }],
        _ => Seq::empty(),
    };
    let finished = match st.1 {
        Ok(x) => match st.0 {
            OperationModel::AtomicSwap { evm_amount, svm_amount, .. } =>
                EventModel::AtomicSwapExecuted { evm_amount, svm_amount, gas_used: x.gas_used },
            _ => EventModel::TransferCompleted { operation_id: id, gas_used: x.gas_used },
        },
        Err(e) => EventModel::TransferFailed { operation_id: id, reason: debug_text(e) },
    };
    initiated.push(finished)
}

/// The events of all steps; step `i` has id `i + 1`.
pub open spec fn dispatch_events(steps: Seq<Step>) -> Seq<EventModel>
    decreases steps.len(),
{
    if steps.len() == 0 {
        Seq::empty()
    } else {
        dispatch_events(steps.drop_last()) + step_events(steps.last(), steps.len() as u64)
    }
}

/// Model of a vector of events.
pub open spec fn events_model(v: Seq<CrossVmEvent>) -> Seq<EventModel> {
    v.map_values(|x: CrossVmEvent| x@)
}

impl CrossVmBridge {
    /// Execute every `Pending` operation, in queue order, through the
    /// dispatcher (see [`dispatch_operation`]), emitting events for each
    /// (see [`step_events`]). Successes go to the completed ledger and their
    /// results are returned; failures go to the failed ledger with the
    /// error's text. The queue is emptied.
    pub fn execute_with_dispatcher<D: CrossVmDispatcher>(&mut self, dispatcher: &D) -> (r: Result<(Vec<CrossVmResult>, Vec<CrossVmEvent>), DispatchError>)
        requires
            old(self).wf(),
        ensures
            final(self).wf(),
            r is Ok,
            exists|steps: Seq<Step>| #[trigger] step_ops(steps) == pending_queue(old(self).pending())
                && dispatch_steps(steps)
                && results_model(r->Ok_0.0@) == results_of(steps)
                && events_model(r->Ok_0.1@) == dispatch_events(steps)
                && final(self).completed() == old(self).completed() + completed_of(steps)
                && final(self).failed() == old(self).failed() + failed_of(steps, |e: DispatchError| debug_text(e))
                && final(self).pending().len() == 0
                && final(self).prepared() == old(self).prepared()
                && final(self).next_nonce() == old(self).next_nonce()
                && final(self).used_nonces() == old(self).used_nonces()
                && final(self).cfg() == old(self).cfg(),
    {
        let ghost text = |e: DispatchError| debug_text(e);
        let ghost old_pending = self.pending();
        let mut ops: Vec<(CrossVmOperation, OperationState)> = Vec::new();
        std::mem::swap(&mut ops, &mut self.pending_ops);
        assert(ops@.map_values(|p: (CrossVmOperation, OperationState)| (p.0@, p.1@)) == old_pending);
        let mut results: Vec<CrossVmResult> = Vec::new();
        let mut events: Vec<CrossVmEvent> = Vec::new();
        let ghost mut steps: Seq<Step> = Seq::empty();
        let mut op_id: u64 = 0;
        let mut i: usize = 0;
        while i < ops.len()
            invariant
                i <= ops@.len(),
                ops@.map_values(|p: (CrossVmOperation, OperationState)| (p.0@, p.1@)) == old_pending,
                step_ops(steps) == pending_queue(old_pending.take(i as int)),
                steps.len() <= i,
                op_id == steps.len(),
                dispatch_steps(steps),
                results_model(results@) == results_of(steps),
                events_model(events@) == dispatch_events(steps),
                self.completed() == old(self).completed() + completed_of(steps),
                self.failed() == old(self).failed() + failed_of(steps, text),
                text == (|e: DispatchError| debug_text(e)),
                self.pending_ops@.len() == 0,
                self.prepared() == old(self).prepared(),
                self.next_nonce() == old(self).next_nonce(),
                self.used_nonces() == old(self).used_nonces(),
                self.cfg() == old(self).cfg(),
                self.prepared_ops@ == old(self).prepared_ops@,
            decreases ops.len() - i,
        {
            proof {
                lemma_pending_queue_step(old_pending, i as int);
                assert(old_pending[i as int] == (ops@[i as int].0@, ops@[i as int].1@));
            }
            let entry = &ops[i];
            let is_pending = match entry.1 {
                OperationState::Pending => true,
                _ => false,
            };
            if is_pending {
                op_id = op_id + 1;
                let operation = entry.0.duplicate();
                let ghost before_e = events_model(events@);
                match &operation {
                    CrossVmOperation::TransferToEvm { amount, .. } => {
                        events.push(CrossVmEvent::TransferInitiated { operation_id: op_id, source_vm: VmType::Svm, dest_vm: VmType::Evm, amount: *amount });
                    },
                    CrossVmOperation::TransferToSvm { amount, .. } => {
                        events.push(CrossVmEvent::TransferInitiated { operation_id: op_id, source_vm: VmType::Evm, dest_vm: VmType::Svm, amount: *amount });
                    },
                    _ => {},
                }
                let (outcome, Ghost(trace)) = dispatch_operation(dispatcher, &operation);
                let ghost st: Step = (operation@, outcome_model(outcome));
                proof {
                    lemma_steps_push(steps, st, text);
                    lemma_step_ops_push(steps, st);
                    assert(steps.push(st).drop_last() =~= steps);
                }
                match outcome {
                    Ok(result) => {
                        match &operation {
                            CrossVmOperation::AtomicSwap { evm_amount, svm_amount, .. } => {
                                events.push(CrossVmEvent::AtomicSwapExecuted { evm_amount: *evm_amount, svm_amount: *svm_amount, gas_used: result.gas_used });
                            },
                            _ => {
                                events.push(CrossVmEvent::TransferCompleted { operation_id: op_id, gas_used: result.gas_used });
                            },
                        }
                        let ghost before_c = self.completed();
                        let ghost before_r = results@;
                        let kept = CrossVmResult { success: result.success, output: copy_bytes(&result.output), gas_used: result.gas_used, error: copy_opt_bytes(&result.error) };
                        results.push(kept);
                        self.completed_ops.push((operation, result));
                        assert(self.completed() =~= before_c.push((st.0, result@)));
                        assert(results_model(results@) =~= results_model(before_r).push(result@));
                    },
                    Err(e) => {
                        let error_msg = e.debug_bytes();
                        let reason = copy_bytes(&error_msg);
                        events.push(CrossVmEvent::TransferFailed { operation_id: op_id, reason });
                        let ghost before_f = self.failed();
                        self.failed_ops.push((operation, error_msg));
                        assert(self.failed() =~= before_f.push((st.0, debug_text(e))));
                    },
                }
                proof {
                    assert(events_model(events@) =~= before_e + step_events(st, op_id));
                    steps = steps.push(st);
                    assert forall|k: int| 0 <= k < steps.len() implies dispatch_admissible((#[trigger] steps[k]).0, steps[k].1) by {
                        if k < steps.len() - 1 {
                            assert(steps[k] == steps.drop_last()[k]);
                        } else {
                            assert(dispatch_trace(st.0, trace) && st.1 == trace_result(st.0, trace));
                        }
                    }
                }
            }
            i = i + 1;
        }
        proof {
            assert(old_pending.take(ops@.len() as int) =~= old_pending);
        }
        assert(self.pending() =~= Seq::empty());
        Ok((results, events))
    }
}

/// The `i`-th nonce counted from `n0`, saturating at `u64::MAX`.
pub open spec fn nonce_at(n0: u64, i: int) -> u64 {
    if n0 + i > u64::MAX { u64::MAX } else { (n0 + i) as u64 }
}

/// The prepared entry for `op` under `nonce`.
pub open spec fn prepared_entry(op: OperationModel, nonce: u64) -> PreparedModel {
    PreparedModel {
        nonce,
        operation: op,
        phase: PhaseModel::Prepared,
        evm_gas_reserved: reservations(op).0,
        svm_compute_reserved: reservations(op).1,
        source_lock_receipt: lock_receipt(op),
        dest_lock_receipt: utf8("DEST_OK"),
    }
}

/// The `PrepareCompleted` event for `op` under `nonce`.
pub open spec fn prepare_event(op: OperationModel, nonce: u64) -> EventModel {
    EventModel::PrepareCompleted { nonce, evm_gas_reserved: reservations(op).0, svm_compute_reserved: reservations(op).1 }
}

/// `s` with every `Pending` entry moved to `Executing`.
pub open spec fn mark_executing(s: Seq<(OperationModel, StateModel)>) -> Seq<(OperationModel, StateModel)> {
    s.map_values(|p: (OperationModel, StateModel)| (p.0, if p.1 is Pending { StateModel::Executing } else { p.1 }))
}

/// `s` with every `Executing` entry moved back to `Pending`.
pub open spec fn mark_pending(s: Seq<(OperationModel, StateModel)>) -> Seq<(OperationModel, StateModel)> {
    s.map_values(|p: (OperationModel, StateModel)| (p.0, if p.1 is Executing { StateModel::Pending } else { p.1 }))
}

/// The nonces `n0, n0 + 1, ...` (saturating) of a batch of `len` operations.
pub open spec fn batch_nonces(n0: u64, len: nat) -> Seq<u64> {
    Seq::new(len, |i: int| nonce_at(n0, i))
}

/// Every lock of the batch was acquired (each on balances that grant it):
/// the queued operations are prepared under consecutive nonces, one `PrepareCompleted` event each,
/// and moved to `Executing`.
pub open spec fn prepare_succeeded(pre: CrossVmBridge, post: CrossVmBridge, nonces: Seq<u64>, events: Seq<EventModel>) -> bool {
    let q = pending_queue(pre.pending());
    let n0 = pre.next_nonce();
    &&& forall|i: int| 0 <= i < q.len() ==> lock_grantable(#[trigger] q[i])
    &&& nonces == batch_nonces(n0, q.len())
    &&& events == Seq::new(q.len(), |i: int| prepare_event(q[i], nonce_at(n0, i)))
    &&& post.prepared() == pre.prepared() + Seq::new(q.len(), |i: int| prepared_entry(q[i], nonce_at(n0, i)))
    &&& post.next_nonce() == nonce_at(n0, q.len() as int)
    &&& post.used_nonces() == pre.used_nonces().union(batch_nonces(n0, q.len()).to_set())
    &&& post.pending() == mark_executing(pre.pending())
    &&& post.completed() == pre.completed()
    &&& post.failed() == pre.failed()
    &&& post.cfg() == pre.cfg()
}

/// The locks before the `k`-th queued operation were granted and its own
/// lock (one that locks a balance) was refused on the balances it read:
/// nothing changes, no nonce is returned, and the events are the
/// `PrepareCompleted` events of the operations before it, an `Aborted`
/// event for each of them, and an `Aborted` event for the refused one.
pub open spec fn prepare_failed_at(pre: CrossVmBridge, post: CrossVmBridge, nonces: Seq<u64>, events: Seq<EventModel>, k: int) -> bool {
    let q = pending_queue(pre.pending());
    let n0 = pre.next_nonce();
    &&& 0 <= k < q.len()
    &&& forall|i: int| 0 <= i < k ==> lock_grantable(#[trigger] q[i])
    &&& needs_lock(q[k])
    &&& lock_refusable(q[k])
    &&& nonces.len() == 0
    &&& events == Seq::new(k as nat, |i: int| prepare_event(q[i], nonce_at(n0, i)))
        + Seq::new(k as nat, |i: int| EventModel::Aborted { nonce: nonce_at(n0, i), reason: utf8("Batch prepare failed - peer lock rejected") })
        + seq![EventModel::Aborted { nonce: nonce_at(n0, k), reason: utf8("Lock acquisition failed") }]
    &&& post == pre
}

impl CrossVmBridge {
    /// Phase one of the two-phase commit: lock the resources of every
    /// `Pending` operation (see [`Self::prepare_traced`], which also gives the
    /// balances read). When every lock is acquired the batch is prepared
    /// under fresh nonces (see [`prepare_succeeded`]); when one is refused the
    /// whole batch is abandoned and nothing changes (see
    /// [`prepare_failed_at`]). Refused, with no change, while paused.
    pub fn prepare<D: CrossVmDispatcher>(&mut self, dispatcher: &D) -> (r: Result<(Vec<u64>, Vec<CrossVmEvent>), DispatchError>)
        requires
            old(self).wf(),
        ensures
            final(self).wf(),
            old(self).cfg().paused ==> r == Err::<(Vec<u64>, Vec<CrossVmEvent>), DispatchError>(paused_error()) && *final(self) == *old(self),
            !old(self).cfg().paused ==> r is Ok && (prepare_succeeded(*old(self), *final(self), r->Ok_0.0@, events_model(r->Ok_0.1@))
                || exists|k: int| prepare_failed_at(*old(self), *final(self), r->Ok_0.0@, events_model(r->Ok_0.1@), k)),
    {
        let (r, Ghost(_reads)) = self.prepare_traced(dispatcher);
        r
    }

    /// [`Self::prepare`], giving also the balances that each lock attempt read
    /// through the dispatcher. Locks are attempted in queue order until one is
    /// refused (see [`prepare_reads`]); the batch is prepared exactly when
    /// every lock is granted on the balances read ([`lock_accepts`]), and
    /// otherwise abandoned at the refused one.
    pub fn prepare_traced<D: CrossVmDispatcher>(&mut self, dispatcher: &D) -> (r: (Result<(Vec<u64>, Vec<CrossVmEvent>), DispatchError>, Ghost<Seq<Seq<BalanceRead>>>))
        requires
            old(self).wf(),
        ensures
            final(self).wf(),
            old(self).cfg().paused ==> r.0 == Err::<(Vec<u64>, Vec<CrossVmEvent>), DispatchError>(paused_error()) && *final(self) == *old(self),
            !old(self).cfg().paused ==> r.0 is Ok && prepare_reads(pending_queue(old(self).pending()), r.1@) && if prepare_all_granted(pending_queue(old(self).pending()), r.1@) {
                prepare_succeeded(*old(self), *final(self), r.0->Ok_0.0@, events_model(r.0->Ok_0.1@))
            } else {
                prepare_failed_at(*old(self), *final(self), r.0->Ok_0.0@, events_model(r.0->Ok_0.1@), r.1@.len() - 1)
            },
    {
        if self.config.paused {
            return (Err(DispatchError::Other("Bridge is paused (circuit breaker active)")), Ghost(Seq::empty()));
        }
        let ghost q = pending_queue(self.pending());
        let ghost n0 = self.next_nonce;
        let mut nonces: Vec<u64> = Vec::new();
        let mut events: Vec<CrossVmEvent> = Vec::new();
        let mut nonce_counter = self.next_nonce;
        let ops = self.pending_operations();
        if ops.len() == 0 {
            proof {
                assert(nonces@ =~= batch_nonces(n0, q.len()));
                assert(events_model(events@) =~= Seq::new(q.len(), |i: int| prepare_event(q[i], nonce_at(n0, i))));
                assert(self.prepared() =~= self.prepared() + Seq::new(q.len(), |i: int| prepared_entry(q[i], nonce_at(n0, i))));
                assert(self.used_nonces() =~= self.used_nonces().union(batch_nonces(n0, q.len()).to_set()));
                lemma_no_pending_mark(self.pending());
            }
            return (Ok((nonces, events)), Ghost(Seq::empty()));
        }
        let mut prepared: Vec<PreparedOperation> = Vec::new();
        let ghost mut reads_acc: Seq<Seq<BalanceRead>> = Seq::empty();
        let mut k: usize = 0;
        while k < ops.len()
            invariant
                old(self).wf(),
                !old(self).cfg().paused,
                q == pending_queue(old(self).pending()),
                ops@.map_values(|o: CrossVmOperation| o@) == q,
                forall|i: int| 0 <= i < q.len() ==> valid_op(#[trigger] q[i]),
                n0 == self.next_nonce(),
                *self == *old(self),
                k <= ops@.len(),
                nonce_counter == nonce_at(n0, k as int),
                nonces@ == batch_nonces(n0, k as nat),
                events_model(events@) == Seq::new(k as nat, |i: int| prepare_event(q[i], nonce_at(n0, i))),
                prepared@.map_values(|p: PreparedOperation| p@) == Seq::new(k as nat, |i: int| prepared_entry(q[i], nonce_at(n0, i))),
                forall|i: int| 0 <= i < k ==> lock_grantable(#[trigger] q[i]),
                reads_acc.len() == k,
                forall|i: int| 0 <= i < k ==> lock_reads(#[trigger] q[i], reads_acc[i]) && granted(q[i], reads_acc[i]),
            decreases ops.len() - k,
        {
            let nonce = nonce_counter;
            nonce_counter = nonce_counter.saturating_add(1);
            let operation = &ops[k];
            assert(operation@ == q[k as int]);
            let (evm_gas, svm_compute) = Self::estimate_reservations(operation);
            let (source_lock, Ghost(reads)) = Self::try_lock_source(dispatcher, operation);
            let ghost old_acc = reads_acc;
            let dest_lock = Self::try_lock_destination(dispatcher, operation);
            match (source_lock, dest_lock) {
                (Ok(src_receipt), Ok(dst_receipt)) => {
                    let ghost before_p = prepared@.map_values(|p: PreparedOperation| p@);
                    let ghost before_e = events_model(events@);
                    let prep = PreparedOperation {
                        nonce,
                        operation: operation.duplicate(),
                        phase: TwoPhaseCommitPhase::Prepared,
                        evm_gas_reserved: evm_gas,
                        svm_compute_reserved: svm_compute,
                        source_lock_receipt: src_receipt,
                        dest_lock_receipt: dst_receipt,
                    };
                    assert(prep@ == prepared_entry(q[k as int], nonce_at(n0, k as int)));
                    let ev = CrossVmEvent::PrepareCompleted { nonce, evm_gas_reserved: evm_gas, svm_compute_reserved: svm_compute };
                    assert(ev@ == prepare_event(q[k as int], nonce_at(n0, k as int)));
                    proof { lemma_events_push(events@, ev); }
                    events.push(ev);
                    nonces.push(nonce);
                    prepared.push(prep);
                    assert(prepared@.map_values(|p: PreparedOperation| p@) =~= before_p.push(prepared_entry(q[k as int], nonce_at(n0, k as int))));
                    assert(prepared@.map_values(|p: PreparedOperation| p@) =~= Seq::new((k + 1) as nat, |i: int| prepared_entry(q[i], nonce_at(n0, i))));
                    assert(events_model(events@) =~= Seq::new((k + 1) as nat, |i: int| prepare_event(q[i], nonce_at(n0, i))));
                    assert(nonces@ =~= batch_nonces(n0, (k + 1) as nat));
                    assert(lock_grantable(q[k as int])) by {
                        assert(lock_reads(q[k as int], reads));
                    }
                    proof {
                        reads_acc = reads_acc.push(reads);
                    }
                },
                (src_res, _) => {
                    assert(src_res is Err);
                    assert(lock_refusable(q[k as int])) by {
                        assert(lock_reads(q[k as int], reads));
                    }
                    assert(needs_lock(q[k as int]));
                    assert(q.len() == ops@.len());
                    let ghost base = events_model(events@);
                    assert(prepared@.len() == prepared@.map_values(|p: PreparedOperation| p@).len());
                    let mut a: usize = 0;
                    while a < prepared.len()
                        invariant
                            a <= prepared@.len(),
                            prepared@.len() == k,
                            prepared@.map_values(|p: PreparedOperation| p@) == Seq::new(k as nat, |i: int| prepared_entry(q[i], nonce_at(n0, i))),
                            events_model(events@) == base + Seq::new(a as nat, |i: int| EventModel::Aborted { nonce: nonce_at(n0, i), reason: utf8("Batch prepare failed - peer lock rejected") }),
                        decreases prepared.len() - a,
                    {
                        let ghost before_e = events_model(events@);
                        let mut reason: Vec<u8> = Vec::new();
                        push_str(&mut reason, "Batch prepare failed - peer lock rejected");
                        assert(reason@ =~= utf8("Batch prepare failed - peer lock rejected"));
                        assert(prepared@.map_values(|p: PreparedOperation| p@)[a as int] == prepared@[a as int]@);
                        assert(prepared@[a as int].nonce == nonce_at(n0, a as int));
                        let ev = CrossVmEvent::Aborted { nonce: prepared[a].nonce, reason };
                        proof { lemma_events_push(events@, ev); }
                        events.push(ev);
                        assert(events_model(events@) =~= base + Seq::new((a + 1) as nat, |i: int| EventModel::Aborted { nonce: nonce_at(n0, i), reason: utf8("Batch prepare failed - peer lock rejected") }));
                        a = a + 1;
                    }
                    let ghost before_last = events_model(events@);
                    let mut reason: Vec<u8> = Vec::new();
                    push_str(&mut reason, "Lock acquisition failed");
                    assert(reason@ =~= utf8("Lock acquisition failed"));
                    let ev = CrossVmEvent::Aborted { nonce, reason };
                    proof { lemma_events_push(events@, ev); }
                    events.push(ev);
                    assert(events_model(events@) =~= before_last.push(EventModel::Aborted { nonce: nonce_at(n0, k as int), reason: utf8("Lock acquisition failed") }));
                    assert(events_model(events@) =~= Seq::new(k as nat, |i: int| prepare_event(q[i], nonce_at(n0, i)))
                        + Seq::new(k as nat, |i: int| EventModel::Aborted { nonce: nonce_at(n0, i), reason: utf8("Batch prepare failed - peer lock rejected") })
                        + seq![EventModel::Aborted { nonce: nonce_at(n0, k as int), reason: utf8("Lock acquisition failed") }]);
                    assert(Seq::<u64>::empty().len() == 0);
                    assert(prepare_failed_at(*old(self), *self, Seq::<u64>::empty(), events_model(events@), k as int));
                    proof {
                        reads_acc = reads_acc.push(reads);
                        assert(reads_acc.drop_last() == old_acc);
                    }
                    return (Ok((Vec::new(), events)), Ghost(reads_acc));
                },
            }
            k = k + 1;
        }
        let ghost old_prepared = self.prepared();
        let ghost new_entries = prepared@.map_values(|p: PreparedOperation| p@);
        self.prepared_ops.append(&mut prepared);
        assert(self.prepared() =~= old_prepared + new_entries);
        self.next_nonce = nonce_counter;
        let mut m: usize = 0;
        while m < nonces.len()
            invariant
                m <= nonces@.len(),
                nonces@ == batch_nonces(n0, q.len()),
                self.used_nonces() == old(self).used_nonces().union(nonces@.take(m as int).to_set()),
                self.prepared() == old_prepared + new_entries,
                self.next_nonce() == nonce_at(n0, q.len() as int),
                self.pending_ops@ == old(self).pending_ops@,
                self.completed_ops@ == old(self).completed_ops@,
                self.failed_ops@ == old(self).failed_ops@,
                self.cfg() == old(self).cfg(),
            decreases nonces.len() - m,
        {
            let n = nonces[m];
            self.used_nonces.insert(n);
            proof {
                assert(nonces@.take(m as int + 1) =~= nonces@.take(m as int).push(n));
                nonces@.take(m as int).lemma_push_to_set_commute(n);
                assert(self.used_nonces() =~= old(self).used_nonces().union(nonces@.take(m as int + 1).to_set()));
            }
            m = m + 1;
        }
        assert(nonces@.take(nonces@.len() as int) =~= nonces@);
        self.mark_pending_executing();
        proof {
            assert forall|n: u64| #[trigger] self.used_nonces().contains(n) implies 1 <= n && (n < self.next_nonce() || n == u64::MAX) by {
                if !old(self).used_nonces().contains(n) {
                    let i = choose|i: int| 0 <= i < nonces@.len() && nonces@[i] == n;
                    assert(nonces@.contains(n));
                }
            }
        }
        (Ok((nonces, events)), Ghost(reads_acc))
    }

    /// Copies of the operations in the `Pending` state, in queue order.
    fn pending_operations(&self) -> (ops: Vec<CrossVmOperation>)
        requires
            self.wf(),
        ensures
            ops@.map_values(|o: CrossVmOperation| o@) == pending_queue(self.pending()),
            forall|i: int| 0 <= i < ops@.len() ==> valid_op(#[trigger] ops@[i]@),
    {
        let mut ops: Vec<CrossVmOperation> = Vec::new();
        let mut j: usize = 0;
        while j < self.pending_ops.len()
            invariant
                j <= self.pending_ops@.len(),
                self.wf(),
                ops@.map_values(|o: CrossVmOperation| o@) == pending_queue(self.pending().take(j as int)),
                forall|i: int| 0 <= i < ops@.len() ==> valid_op(#[trigger] ops@[i]@),
            decreases self.pending_ops.len() - j,
        {
            proof {
                lemma_pending_queue_step(self.pending(), j as int);
            }
            let entry = &self.pending_ops[j];
            assert(self.pending()[j as int] == (entry.0@, entry.1@));
            match entry.1 {
                OperationState::Pending => {
                    let ghost before = ops@.map_values(|o: CrossVmOperation| o@);
                    ops.push(entry.0.duplicate());
                    assert(ops@.map_values(|o: CrossVmOperation| o@) =~= before.push(entry.0@));
                },
                _ => {},
            }
            j = j + 1;
        }
        assert(self.pending().take(self.pending_ops@.len() as int) =~= self.pending());
        ops
    }

    /// Moves every `Pending` entry of the queue to `Executing`.
    fn mark_pending_executing(&mut self)
        ensures
            final(self).pending() == mark_executing(old(self).pending()),
            final(self).prepared_ops@ == old(self).prepared_ops@,
            final(self).completed_ops@ == old(self).completed_ops@,
            final(self).failed_ops@ == old(self).failed_ops@,
            final(self).next_nonce == old(self).next_nonce,
            final(self).used_nonces@ == old(self).used_nonces@,
            final(self).config == old(self).config,
    {
        let mut i: usize = 0;
        while i < self.pending_ops.len()
            invariant
                i <= self.pending_ops@.len(),
                self.pending_ops@.len() == old(self).pending_ops@.len(),
                forall|j: int| 0 <= j < i ==> (#[trigger] self.pending()[j]) == mark_executing(old(self).pending())[j],
                forall|j: int| i <= j < self.pending_ops@.len() ==> (#[trigger] self.pending()[j]) == old(self).pending()[j],
                self.prepared_ops@ == old(self).prepared_ops@,
                self.completed_ops@ == old(self).completed_ops@,
                self.failed_ops@ == old(self).failed_ops@,
                self.next_nonce == old(self).next_nonce,
                self.used_nonces@ == old(self).used_nonces@,
                self.config == old(self).config,
            decreases self.pending_ops.len() - i,
        {
            let is_pending = match self.pending_ops[i].1 {
                OperationState::Pending => true,
                _ => false,
            };
            let ghost before = self.pending_ops@;
            let ghost before_p = self.pending();
            assert(before_p[i as int] == (before[i as int].0@, before[i as int].1@));
            if is_pending {
                self.pending_ops[i].1 = OperationState::Executing;
                assert(self.pending_ops@ == before.update(i as int, (before[i as int].0, OperationState::Executing)));
            }
            proof {
                assert forall|j: int| 0 <= j < self.pending_ops@.len() && j != i implies #[trigger] self.pending()[j] == before_p[j] by {
                    assert(self.pending_ops@[j] == before[j]);
                }
                assert(self.pending()[i as int] == (self.pending_ops@[i as int].0@, self.pending_ops@[i as int].1@));
                assert(self.pending()[i as int] == mark_executing(old(self).pending())[i as int]);
            }
            i = i + 1;
        }
        assert(self.pending() =~= mark_executing(old(self).pending()));
    }
}

proof fn lemma_events_push(v: Seq<CrossVmEvent>, e: CrossVmEvent)
    ensures
        events_model(v.push(e)) == events_model(v).push(e@),
{
    assert(events_model(v.push(e)) =~= events_model(v).push(e@));
}

proof fn lemma_no_pending_mark(s: Seq<(OperationModel, StateModel)>)
    requires
        pending_queue(s).len() == 0,
    ensures
        mark_executing(s) == s,
    decreases s.len(),
{
    if s.len() > 0 {
        lemma_no_pending_mark(s.drop_last());
        assert(mark_executing(s) =~= s) by {
            assert forall|i: int| 0 <= i < s.len() implies mark_executing(s)[i] == s[i] by {
                if i < s.len() - 1 {
                    assert(mark_executing(s.drop_last())[i] == mark_executing(s)[i]);
                    assert(s.drop_last()[i] == s[i]);
                }
            }
        }
    }
}

/// `post` is `pre` after an abort: the pipeline is empty and queue entries
/// in `Executing` are back to `Pending`; nothing else changes.
pub open spec fn aborted(pre: CrossVmBridge, post: CrossVmBridge) -> bool {
    &&& post.prepared().len() == 0
    &&& post.pending() == mark_pending(pre.pending())
    &&& post.completed() == pre.completed()
    &&& post.failed() == pre.failed()
    &&& post.next_nonce() == pre.next_nonce()
    &&& post.used_nonces() == pre.used_nonces()
    &&& post.cfg() == pre.cfg()
}

/// The message recorded for an operation whose commit failed.
pub open spec fn commit_fail_text(e: DispatchError) -> Seq<u8> {
    utf8("Commit failed: ") + debug_text(e)
}

/// The event for a committed (or failed) prepared operation.
pub open spec fn commit_event(nonce: u64, o: Result<ResultModel, DispatchError>) -> EventModel {
    match o {
        Ok(x) => EventModel::CommitCompleted { nonce, total_gas_used: x.gas_used },
        Err(e) => EventModel::Aborted { nonce, reason: commit_fail_text(e) },
    }
}

/// The entries of `s` in the `Pending` state, in order.
pub open spec fn keep_pending(s: Seq<(OperationModel, StateModel)>) -> Seq<(OperationModel, StateModel)>
    decreases s.len(),
{
    if s.len() == 0 {
        Seq::empty()
    } else if s.last().1 is Pending {
        keep_pending(s.drop_last()).push(s.last())
    } else {
        keep_pending(s.drop_last())
    }
}

/// The operations of a sequence of prepared entries.
pub open spec fn prepared_ops_of(p: Seq<PreparedModel>) -> Seq<OperationModel> {
    p.map_values(|x: PreparedModel| x.operation)
}

/// Phase two ran on `pre`: every prepared operation was dispatched, in
/// order; successes were committed and failures aborted (see
/// [`commit_event`]), the pipeline was emptied and the queue kept only its
/// `Pending` entries.
pub open spec fn commit_done(pre: CrossVmBridge, post: CrossVmBridge, results: Seq<ResultModel>, events: Seq<EventModel>) -> bool {
    exists|steps: Seq<Step>| {
        &&& #[trigger] step_ops(steps) == prepared_ops_of(pre.prepared())
        &&& dispatch_steps(steps)
        &&& results == results_of(steps)
        &&& events == Seq::new(steps.len(), |i: int| commit_event(pre.prepared()[i].nonce, steps[i].1))
        &&& post.completed() == pre.completed() + completed_of(steps)
        &&& post.failed() == pre.failed() + failed_of(steps, |e: DispatchError| commit_fail_text(e))
        &&& post.prepared().len() == 0
        &&& post.pending() == keep_pending(pre.pending())
        &&& post.next_nonce() == pre.next_nonce()
        &&& post.used_nonces() == pre.used_nonces()
        &&& post.cfg() == pre.cfg()
    }
}

proof fn lemma_keep_pending_step(s: Seq<(OperationModel, StateModel)>, i: int)
    requires
        0 <= i < s.len(),
    ensures
        keep_pending(s.take(i + 1)) == if s[i].1 is Pending { keep_pending(s.take(i)).push(s[i]) } else { keep_pending(s.take(i)) },
{
    assert(s.take(i + 1).drop_last() =~= s.take(i));
}

proof fn lemma_keep_pending_all_pending(s: Seq<(OperationModel, StateModel)>)
    ensures
        forall|i: int| 0 <= i < keep_pending(s).len() ==> (#[trigger] keep_pending(s)[i]).1 is Pending,
        forall|i: int| 0 <= i < keep_pending(s).len() ==> exists|j: int| 0 <= j < s.len() && s[j] == #[trigger] keep_pending(s)[i],
    decreases s.len(),
{
    if s.len() > 0 {
        lemma_keep_pending_all_pending(s.drop_last());
        let rest = keep_pending(s.drop_last());
        assert forall|i: int| 0 <= i < keep_pending(s).len() implies exists|j: int| 0 <= j < s.len() && s[j] == #[trigger] keep_pending(s)[i] by {
            if i < rest.len() {
                let j = choose|j: int| 0 <= j < s.drop_last().len() && s.drop_last()[j] == rest[i];
                assert(s[j] == s.drop_last()[j]);
            } else {
                assert(s[s.len() - 1] == keep_pending(s)[i]);
            }
        }
    }
}

impl CrossVmBridge {
    /// Keep only the `Pending` entries of the queue.
    fn retain_pending(&mut self)
        requires
            old(self).wf(),
        ensures
            final(self).wf(),
            final(self).pending() == keep_pending(old(self).pending()),
            final(self).prepared_ops@ == old(self).prepared_ops@,
            final(self).completed_ops@ == old(self).completed_ops@,
            final(self).failed_ops@ == old(self).failed_ops@,
            final(self).next_nonce == old(self).next_nonce,
            final(self).used_nonces@ == old(self).used_nonces@,
            final(self).config == old(self).config,
    {
        let ghost old_pending = self.pending();
        let mut ops: Vec<(CrossVmOperation, OperationState)> = Vec::new();
        std::mem::swap(&mut ops, &mut self.pending_ops);
        assert(ops@.map_values(|p: (CrossVmOperation, OperationState)| (p.0@, p.1@)) == old_pending);
        let mut i: usize = 0;
        while i < ops.len()
            invariant
                i <= ops@.len(),
                ops@.map_values(|p: (CrossVmOperation, OperationState)| (p.0@, p.1@)) == old_pending,
                self.pending() == keep_pending(old_pending.take(i as int)),
                self.prepared_ops@ == old(self).prepared_ops@,
                self.completed_ops@ == old(self).completed_ops@,
                self.failed_ops@ == old(self).failed_ops@,
                self.next_nonce == old(self).next_nonce,
                self.used_nonces@ == old(self).used_nonces@,
                self.config == old(self).config,
            decreases ops.len() - i,
        {
            proof {
                lemma_keep_pending_step(old_pending, i as int);
                assert(old_pending[i as int] == (ops@[i as int].0@, ops@[i as int].1@));
            }
            let entry = &ops[i];
            match entry.1 {
                OperationState::Pending => {
                    let ghost before = self.pending();
                    self.pending_ops.push((entry.0.duplicate(), OperationState::Pending));
                    assert(self.pending() =~= before.push(old_pending[i as int]));
                },
                _ => {},
            }
            i = i + 1;
        }
        assert(old_pending.take(ops@.len() as int) =~= old_pending);
        proof {
            lemma_keep_pending_all_pending(old_pending);
            assert forall|k: int| 0 <= k < self.pending().len() implies valid_op(#[trigger] self.pending()[k].0) by {
                let j = choose|j: int| 0 <= j < old_pending.len() && old_pending[j] == keep_pending(old_pending)[k];
                assert(valid_op(old_pending[j].0));
            }
            assert(self.prepared() == old(self).prepared());
            assert(self.used_nonces() == old(self).used_nonces());
            assert(self.next_nonce() == old(self).next_nonce());
        }
    }

    /// Phase two of the two-phase commit: dispatch every prepared operation
    /// (see [`commit_done`]). Refused, with no change, when nothing is
    /// prepared.
    pub fn commit<D: CrossVmDispatcher>(&mut self, dispatcher: &D) -> (r: Result<(Vec<CrossVmResult>, Vec<CrossVmEvent>), DispatchError>)
        requires
            old(self).wf(),
        ensures
            final(self).wf(),
            old(self).prepared().len() == 0 ==> r == Err::<(Vec<CrossVmResult>, Vec<CrossVmEvent>), DispatchError>(DispatchError::Other("No prepared operations to commit"))
                && *final(self) == *old(self),
            old(self).prepared().len() > 0 ==> r is Ok && commit_done(*old(self), *final(self), results_model(r->Ok_0.0@), events_model(r->Ok_0.1@)),
    {
        if self.prepared_ops.len() == 0 {
            return Err(DispatchError::Other("No prepared operations to commit"));
        }
        let ghost text = |e: DispatchError| commit_fail_text(e);
        let ghost pre = *self;
        let ghost old_prepared = self.prepared();
        let mut prepared: Vec<PreparedOperation> = Vec::new();
        std::mem::swap(&mut prepared, &mut self.prepared_ops);
        assert(prepared@.map_values(|p: PreparedOperation| p@) == old_prepared);
        let mut results: Vec<CrossVmResult> = Vec::new();
        let mut events: Vec<CrossVmEvent> = Vec::new();
        let ghost mut steps: Seq<Step> = Seq::empty();
        let mut i: usize = 0;
        while i < prepared.len()
            invariant
                i <= prepared@.len(),
                prepared@.map_values(|p: PreparedOperation| p@) == old_prepared,
                pre.wf(),
                old_prepared == pre.prepared(),
                steps.len() == i,
                step_ops(steps) == prepared_ops_of(old_prepared).take(i as int),
                dispatch_steps(steps),
                results_model(results@) == results_of(steps),
                events_model(events@) == Seq::new(i as nat, |j: int| commit_event(old_prepared[j].nonce, steps[j].1)),
                self.completed() == pre.completed() + completed_of(steps),
                self.failed() == pre.failed() + failed_of(steps, text),
                text == (|e: DispatchError| commit_fail_text(e)),
                self.prepared_ops@.len() == 0,
                self.pending_ops@ == pre.pending_ops@,
                self.next_nonce == pre.next_nonce,
                self.used_nonces@ == pre.used_nonces@,
                self.config == pre.config,
            decreases prepared.len() - i,
        {
            let prep = &prepared[i];
            assert(old_prepared[i as int] == prep@);
            assert(prep.phase@ is Prepared);
            let (outcome, Ghost(trace)) = dispatch_operation(dispatcher, &prep.operation);
            let ghost st: Step = (prep.operation@, outcome_model(outcome));
            proof {
                lemma_steps_push(steps, st, text);
                lemma_step_ops_push(steps, st);
            }
            let ghost before_e = events_model(events@);
            match outcome {
                Ok(result) => {
                    let ev = CrossVmEvent::CommitCompleted { nonce: prep.nonce, total_gas_used: result.gas_used };
                    proof { lemma_events_push(events@, ev); }
                    events.push(ev);
                    let ghost before_c = self.completed();
                    let ghost before_r = results@;
                    let kept = CrossVmResult { success: result.success, output: copy_bytes(&result.output), gas_used: result.gas_used, error: copy_opt_bytes(&result.error) };
                    results.push(kept);
                    self.completed_ops.push((prep.operation.duplicate(), result));
                    assert(self.completed() =~= before_c.push((st.0, result@)));
                    assert(results_model(results@) =~= results_model(before_r).push(result@));
                },
                Err(e) => {
                    let mut error_msg: Vec<u8> = Vec::new();
                    push_str(&mut error_msg, "Commit failed: ");
                    let described = e.debug_bytes();
                    push_bytes(&mut error_msg, described.as_slice());
                    assert(error_msg@ =~= commit_fail_text(e));
                    let ev = CrossVmEvent::Aborted { nonce: prep.nonce, reason: copy_bytes(&error_msg) };
                    proof { lemma_events_push(events@, ev); }
                    events.push(ev);
                    let ghost before_f = self.failed();
                    self.failed_ops.push((prep.operation.duplicate(), error_msg));
                    assert(self.failed() =~= before_f.push((st.0, commit_fail_text(e))));
                },
            }
            proof {
                steps = steps.push(st);
                assert forall|k: int| 0 <= k < steps.len() implies dispatch_admissible((#[trigger] steps[k]).0, steps[k].1) by {
                    if k < steps.len() - 1 {
                        assert(steps[k] == steps.drop_last()[k]);
                    } else {
                        assert(dispatch_trace(st.0, trace) && st.1 == trace_result(st.0, trace));
                    }
                }
                assert(prepared_ops_of(old_prepared).take(i + 1) =~= prepared_ops_of(old_prepared).take(i as int).push(st.0));
                assert(events_model(events@) =~= Seq::new((i + 1) as nat, |j: int| commit_event(old_prepared[j].nonce, steps[j].1)));
            }
            i = i + 1;
        }
        assert(prepared_ops_of(old_prepared).take(prepared@.len() as int) =~= prepared_ops_of(old_prepared));
        assert(self.prepared() =~= Seq::empty());
        assert(self.pending() == pre.pending());
        assert(self.used_nonces() == pre.used_nonces());
        assert(self.next_nonce() == pre.next_nonce());
        self.retain_pending();
        assert(self.prepared().len() == 0);
        assert(commit_done(pre, *self, results_model(results@), events_model(events@)));
        Ok((results, events))
    }

    /// Abort every prepared operation: the pipeline is emptied, one `Aborted`
    /// event is returned per prepared operation, and queue entries in
    /// `Executing` go back to `Pending`.
    pub fn abort(&mut self) -> (events: Vec<CrossVmEvent>)
        requires
            old(self).wf(),
        ensures
            final(self).wf(),
            events_model(events@) == Seq::new(old(self).prepared().len(), |i: int| EventModel::Aborted {
                nonce: old(self).prepared()[i].nonce,
                reason: utf8("Explicit abort requested"),
            }),
            aborted(*old(self), *final(self)),
    {
        let ghost old_prepared = self.prepared();
        let mut prepared: Vec<PreparedOperation> = Vec::new();
        std::mem::swap(&mut prepared, &mut self.prepared_ops);
        assert(prepared@.map_values(|p: PreparedOperation| p@) == old_prepared);
        let mut events: Vec<CrossVmEvent> = Vec::new();
        let mut i: usize = 0;
        while i < prepared.len()
            invariant
                i <= prepared@.len(),
                prepared@.map_values(|p: PreparedOperation| p@) == old_prepared,
                events_model(events@) == Seq::new(i as nat, |j: int| EventModel::Aborted { nonce: old_prepared[j].nonce, reason: utf8("Explicit abort requested") }),
                old(self).wf(),
                self.prepared_ops@.len() == 0,
                self.pending_ops@ == old(self).pending_ops@,
                self.completed_ops@ == old(self).completed_ops@,
                self.failed_ops@ == old(self).failed_ops@,
                self.next_nonce == old(self).next_nonce,
                self.used_nonces@ == old(self).used_nonces@,
                self.config == old(self).config,
            decreases prepared.len() - i,
        {
            let mut reason: Vec<u8> = Vec::new();
            push_str(&mut reason, "Explicit abort requested");
            assert(reason@ =~= utf8("Explicit abort requested"));
            assert(old_prepared[i as int] == prepared@[i as int]@);
            let ev = CrossVmEvent::Aborted { nonce: prepared[i].nonce, reason };
            proof { lemma_events_push(events@, ev); }
            events.push(ev);
            assert(events_model(events@) =~= Seq::new((i + 1) as nat, |j: int| EventModel::Aborted { nonce: old_prepared[j].nonce, reason: utf8("Explicit abort requested") }));
            i = i + 1;
        }
        assert(self.prepared() =~= Seq::empty());
        assert(self.pending() == old(self).pending());
        assert(self.used_nonces() == old(self).used_nonces());
        assert(self.next_nonce() == old(self).next_nonce());
        self.mark_executing_pending();
        events
    }

    /// Moves every `Executing` entry of the queue back to `Pending`.
    fn mark_executing_pending(&mut self)
        requires
            old(self).wf(),
        ensures
            final(self).wf(),
            final(self).pending() == mark_pending(old(self).pending()),
            final(self).prepared_ops@ == old(self).prepared_ops@,
            final(self).completed_ops@ == old(self).completed_ops@,
            final(self).failed_ops@ == old(self).failed_ops@,
            final(self).next_nonce == old(self).next_nonce,
            final(self).used_nonces@ == old(self).used_nonces@,
            final(self).config == old(self).config,
    {
        let mut i: usize = 0;
        while i < self.pending_ops.len()
            invariant
                old(self).wf(),
                i <= self.pending_ops@.len(),
                self.pending_ops@.len() == old(self).pending_ops@.len(),
                forall|j: int| 0 <= j < i ==> (#[trigger] self.pending()[j]) == mark_pending(old(self).pending())[j],
                forall|j: int| i <= j < self.pending_ops@.len() ==> (#[trigger] self.pending()[j]) == old(self).pending()[j],
                self.prepared_ops@ == old(self).prepared_ops@,
                self.completed_ops@ == old(self).completed_ops@,
                self.failed_ops@ == old(self).failed_ops@,
                self.next_nonce == old(self).next_nonce,
                self.used_nonces@ == old(self).used_nonces@,
                self.config == old(self).config,
            decreases self.pending_ops.len() - i,
        {
            let is_executing = match self.pending_ops[i].1 {
                OperationState::Executing => true,
                _ => false,
            };
            let ghost before = self.pending_ops@;
            let ghost before_p = self.pending();
            assert(before_p[i as int] == (before[i as int].0@, before[i as int].1@));
            if is_executing {
                self.pending_ops[i].1 = OperationState::Pending;
                assert(self.pending_ops@ == before.update(i as int, (before[i as int].0, OperationState::Pending)));
            }
            proof {
                assert forall|j: int| 0 <= j < self.pending_ops@.len() && j != i implies #[trigger] self.pending()[j] == before_p[j] by {
                    assert(self.pending_ops@[j] == before[j]);
                }
                assert(self.pending()[i as int] == (self.pending_ops@[i as int].0@, self.pending_ops@[i as int].1@));
                assert(self.pending()[i as int] == mark_pending(old(self).pending())[i as int]);
            }
            i = i + 1;
        }
        assert(self.pending() =~= mark_pending(old(self).pending()));
        assert forall|k: int| 0 <= k < self.pending().len() implies valid_op(#[trigger] self.pending()[k].0) by {
            assert(self.pending()[k].0 == old(self).pending()[k].0);
        }
        assert(self.prepared() == old(self).prepared());
        assert(self.used_nonces() == old(self).used_nonces());
        assert(self.next_nonce() == old(self).next_nonce());
    }
}

/// What `atomic_execute` did, from `pre` to `post`: prepared an empty
/// batch, had a lock refused (see [`prepare_failed_at`]), or prepared the
/// batch and committed it, the commit events following the prepare events.
pub open spec fn atomic_outcome(pre: CrossVmBridge, post: CrossVmBridge, results: Seq<ResultModel>, events: Seq<EventModel>) -> bool {
    let q = pending_queue(pre.pending());
    ||| q.len() == 0 && results.len() == 0 && prepare_succeeded(pre, post, Seq::empty(), events)
    ||| results.len() == 0 && exists|k: int| prepare_failed_at(pre, post, Seq::empty(), events, k)
    ||| q.len() > 0 && exists|mid: CrossVmBridge, pe: Seq<EventModel>, ce: Seq<EventModel>|
        #![trigger prepare_succeeded(pre, mid, batch_nonces(pre.next_nonce(), q.len()), pe), commit_done(mid, post, results, ce)]
        #![trigger prepare_succeeded(pre, mid, batch_nonces(pre.next_nonce(), q.len()), pe), commit_aborted(mid, post, ce)]
    {
        &&& prepare_succeeded(pre, mid, batch_nonces(pre.next_nonce(), q.len()), pe)
        &&& pe + ce == events
        &&& {
            ||| commit_done(mid, post, results, ce) && results.len() == mid.prepared().len()
            ||| results.len() == 0 && commit_aborted(mid, post, ce)
        }
    }
}

/// The reason recorded for an operation of a batch whose commit was
/// abandoned: its own commit error, or, for one whose commit went through,
/// that the batch failed.
pub open spec fn abort_text(o: Result<ResultModel, DispatchError>) -> Seq<u8> {
    match o {
        Err(e) => commit_fail_text(e),
        Ok(_) => utf8("Batch commit failed - peer commit rejected"),
    }
}

/// The commit of the prepared batch failed on some operation, so all of the
/// batch is aborted: one `Aborted` event per prepared nonce, in order, no
/// operation left in the completed ledger, each operation in the failed
/// ledger with its reason, and the queue and nonces as a commit leaves them.
pub open spec fn commit_aborted(pre: CrossVmBridge, post: CrossVmBridge, events: Seq<EventModel>) -> bool {
    exists|steps: Seq<Step>| {
        &&& #[trigger] step_ops(steps) == prepared_ops_of(pre.prepared())
        &&& dispatch_steps(steps)
        &&& exists|i: int| 0 <= i < steps.len() && (#[trigger] steps[i]).1 is Err
        &&& events == Seq::new(steps.len(), |i: int| EventModel::Aborted { nonce: pre.prepared()[i].nonce, reason: abort_text(steps[i].1) })
        &&& post.completed() == pre.completed()
        &&& post.failed() == pre.failed() + Seq::new(steps.len(), |i: int| (steps[i].0, abort_text(steps[i].1)))
        &&& post.prepared().len() == 0
        &&& post.pending() == keep_pending(pre.pending())
        &&& post.next_nonce() == pre.next_nonce()
        &&& post.used_nonces() == pre.used_nonces()
        &&& post.cfg() == pre.cfg()
    }
}

/// Counting the steps: as many results as completed entries, results and
/// failures together make up the steps, and every step succeeded exactly
/// when there is a result for each.
proof fn lemma_step_counts(steps: Seq<Step>, text: spec_fn(DispatchError) -> Seq<u8>)
    ensures
        results_of(steps).len() == completed_of(steps).len(),
        results_of(steps).len() + failed_of(steps, text).len() == steps.len(),
        results_of(steps).len() == steps.len() <==> forall|i: int| 0 <= i < steps.len() ==> (#[trigger] steps[i]).1 is Ok,
    decreases steps.len(),
{
    if steps.len() > 0 {
        let init = steps.drop_last();
        lemma_step_counts(init, text);
        assert forall|i: int| 0 <= i < init.len() implies #[trigger] init[i] == steps[i] by {}
        if results_of(steps).len() == steps.len() {
            assert forall|i: int| 0 <= i < steps.len() implies (#[trigger] steps[i]).1 is Ok by {
                if i < init.len() {
                    assert(init[i] == steps[i]);
                }
            }
        }
        if forall|i: int| 0 <= i < steps.len() ==> (#[trigger] steps[i]).1 is Ok {
            assert(steps[steps.len() - 1].1 is Ok);
            assert forall|i: int| 0 <= i < init.len() implies (#[trigger] init[i]).1 is Ok by {
                assert(init[i] == steps[i]);
            }
        }
    }
}

impl CrossVmBridge {
    /// Prepare then commit in one call. When the batch is empty, or a lock
    /// is refused, the prepare events are returned and nothing is committed.
    /// When every commit goes through, the commit events follow the prepare
    /// events; when a commit fails on any operation, all are aborted (see
    /// [`commit_aborted`]) and no result is returned.
    pub fn atomic_execute<D: CrossVmDispatcher>(&mut self, dispatcher: &D) -> (r: Result<(Vec<CrossVmResult>, Vec<CrossVmEvent>), DispatchError>)
        requires
            old(self).wf(),
        ensures
            final(self).wf(),
            old(self).cfg().paused ==> r == Err::<(Vec<CrossVmResult>, Vec<CrossVmEvent>), DispatchError>(paused_error()) && *final(self) == *old(self),
            !old(self).cfg().paused ==> r is Ok && atomic_outcome(*old(self), *final(self), results_model(r->Ok_0.0@), events_model(r->Ok_0.1@)),
    {
        let prepared = self.prepare(dispatcher);
        let (nonces, mut events) = match prepared {
            Ok(x) => x,
            Err(e) => {
                return Err(e);
            },
        };
        if nonces.len() == 0 {
            let empty: Vec<CrossVmResult> = Vec::new();
            assert(nonces@ =~= Seq::<u64>::empty());
            assert(results_model(empty@) =~= Seq::<ResultModel>::empty());
            proof {
                if prepare_succeeded(*old(self), *self, nonces@, events_model(events@)) {
                    assert(batch_nonces(old(self).next_nonce(), pending_queue(old(self).pending()).len()).len() == 0);
                    assert(pending_queue(old(self).pending()).len() == 0);
                    assert(prepare_succeeded(*old(self), *self, Seq::empty(), events_model(events@)));
                } else {
                    let k = choose|k: int| prepare_failed_at(*old(self), *self, nonces@, events_model(events@), k);
                    assert(prepare_failed_at(*old(self), *self, Seq::empty(), events_model(events@), k));
                }
            }
            assert(atomic_outcome(*old(self), *self, results_model(empty@), events_model(events@)));
            return Ok((empty, events));
        }
        let ghost mid = *self;
        let ghost pe = events_model(events@);
        // The operations of the batch, to record them if it is aborted.
        let mut batch_ops: Vec<CrossVmOperation> = Vec::new();
        let mut b: usize = 0;
        while b < self.prepared_ops.len()
            invariant
                b <= self.prepared_ops@.len(),
                *self == mid,
                batch_ops@.len() == b,
                forall|i: int| 0 <= i < b ==> (#[trigger] batch_ops@[i])@ == mid.prepared()[i].operation,
            decreases self.prepared_ops.len() - b,
        {
            batch_ops.push(self.prepared_ops[b].operation.duplicate());
            b = b + 1;
        }
        let n_completed = self.completed_ops.len();
        let n_failed = self.failed_ops.len();
        let committed = self.commit(dispatcher);
        let (results, mut commit_events) = match committed {
            Ok(x) => x,
            Err(e) => {
                return Err(e);
            },
        };
        let ghost ce = events_model(commit_events@);
        let ghost text = |e: DispatchError| commit_fail_text(e);
        let ghost steps = choose|steps: Seq<Step>| {
            &&& #[trigger] step_ops(steps) == prepared_ops_of(mid.prepared())
            &&& dispatch_steps(steps)
            &&& results_model(results@) == results_of(steps)
            &&& ce == Seq::new(steps.len(), |i: int| commit_event(mid.prepared()[i].nonce, steps[i].1))
            &&& self.completed() == mid.completed() + completed_of(steps)
            &&& self.failed() == mid.failed() + failed_of(steps, |e: DispatchError| commit_fail_text(e))
            &&& self.prepared().len() == 0
            &&& self.pending() == keep_pending(mid.pending())
            &&& self.next_nonce() == mid.next_nonce()
            &&& self.used_nonces() == mid.used_nonces()
            &&& self.cfg() == mid.cfg()
        };
        proof {
            lemma_step_counts(steps, text);
            assert(step_ops(steps).len() == steps.len());
            assert(prepared_ops_of(mid.prepared()).len() == mid.prepared().len());
            assert(commit_events@.len() == ce.len());
        }
        if results.len() == commit_events.len() {
            events.append(&mut commit_events);
            assert(events_model(events@) =~= pe + ce);
            return Ok((results, events));
        }
        // A commit failed: abort the whole batch.
        proof {
            assert(results_of(steps).len() == results_model(results@).len());
            let i = choose|i: int| 0 <= i < steps.len() && !((#[trigger] steps[i]).1 is Ok);
            assert(steps[i].1 is Err);
        }
        let ghost c_after = self.completed();
        let ghost f_after = self.failed();
        assert(n_completed == mid.completed().len());
        assert(n_failed == mid.failed().len());
        assert forall|j: int| 0 <= j < n_completed implies #[trigger] c_after[j] == mid.completed()[j] by {}
        assert forall|j: int| 0 <= j < n_failed implies #[trigger] f_after[j] == mid.failed()[j] by {}
        self.completed_ops.truncate(n_completed);
        self.failed_ops.truncate(n_failed);
        assert forall|j: int| 0 <= j < n_completed implies #[trigger] self.completed()[j] == mid.completed()[j] by {
            assert(self.completed()[j] == c_after[j]);
        }
        assert forall|j: int| 0 <= j < n_failed implies #[trigger] self.failed()[j] == mid.failed()[j] by {
            assert(self.failed()[j] == f_after[j]);
        }
        assert(self.completed() =~= mid.completed());
        assert(self.failed() =~= mid.failed());
        let ghost abort_events = Seq::new(steps.len(), |i: int| EventModel::Aborted { nonce: mid.prepared()[i].nonce, reason: abort_text(steps[i].1) });
        let ghost abort_entries = Seq::new(steps.len(), |i: int| (steps[i].0, abort_text(steps[i].1)));
        let mut aborts: Vec<CrossVmEvent> = Vec::new();
        let mut i: usize = 0;
        while i < commit_events.len()
            invariant
                i <= commit_events@.len(),
                commit_events@.len() == steps.len(),
                batch_ops@.len() == steps.len(),
                ce == events_model(commit_events@),
                ce == Seq::new(steps.len(), |i: int| commit_event(mid.prepared()[i].nonce, steps[i].1)),
                step_ops(steps) == prepared_ops_of(mid.prepared()),
                mid.prepared().len() == steps.len(),
                forall|j: int| 0 <= j < steps.len() ==> (#[trigger] batch_ops@[j])@ == mid.prepared()[j].operation,
                abort_events == Seq::new(steps.len(), |i: int| EventModel::Aborted { nonce: mid.prepared()[i].nonce, reason: abort_text(steps[i].1) }),
                abort_entries == Seq::new(steps.len(), |i: int| (steps[i].0, abort_text(steps[i].1))),
                events_model(aborts@) == abort_events.take(i as int),
                self.failed() == mid.failed() + abort_entries.take(i as int),
                self.completed() == mid.completed(),
                self.prepared().len() == 0,
                self.pending() == keep_pending(mid.pending()),
                self.next_nonce() == mid.next_nonce(),
                self.used_nonces() == mid.used_nonces(),
                self.cfg() == mid.cfg(),
            decreases commit_events.len() - i,
        {
            assert(ce[i as int] == commit_events@[i as int]@);
            assert(steps[i as int].0 == prepared_ops_of(mid.prepared())[i as int]);
            let (nonce, reason) = match &commit_events[i] {
                CrossVmEvent::Aborted { nonce, reason } => (*nonce, copy_bytes(reason)),
                CrossVmEvent::CommitCompleted { nonce, .. } => {
                    let mut t: Vec<u8> = Vec::new();
                    push_str(&mut t, "Batch commit failed - peer commit rejected");
                    (*nonce, t)
                },
                _ => {
                    proof {
                        assert(false);
                    }
                    (0, Vec::new())
                },
            };
            assert(nonce == mid.prepared()[i as int].nonce);
            assert(reason@ == abort_text(steps[i as int].1));
            let ghost before_f = self.failed();
            let ghost before_a = events_model(aborts@);
            let ev = CrossVmEvent::Aborted { nonce, reason: copy_bytes(&reason) };
            proof { lemma_events_push(aborts@, ev); }
            aborts.push(ev);
            let op = batch_ops[i].duplicate();
            assert(op@ == steps[i as int].0);
            let ghost entry = (op@, reason@);
            assert(entry == (steps[i as int].0, abort_text(steps[i as int].1)));
            self.failed_ops.push((op, reason));
            assert(self.failed() =~= before_f.push(entry));
            assert(abort_entries.take(i + 1) =~= abort_entries.take(i as int).push(abort_entries[i as int]));
            assert(abort_events.take(i + 1) =~= abort_events.take(i as int).push(abort_events[i as int]));
            i = i + 1;
        }
        assert(abort_entries.take(steps.len() as int) =~= abort_entries);
        assert(abort_events.take(steps.len() as int) =~= abort_events);
        let ghost ae = events_model(aborts@);
        events.append(&mut aborts);
        assert(events_model(events@) =~= pe + ae);
        let empty: Vec<CrossVmResult> = Vec::new();
        assert(results_model(empty@) =~= Seq::<ResultModel>::empty());
        assert(commit_aborted(mid, *self, ae));
        Ok((empty, events))
    }

    /// Mark the queue entry at `operation_index` as rolled back.
    pub fn rollback_operation(&mut self, operation_index: usize) -> (r: Result<(), DispatchError>)
        requires
            old(self).wf(),
        ensures
            final(self).wf(),
            operation_index < old(self).pending().len() ==> r is Ok && final(self).pending() == old(self).pending().update(
                operation_index as int,
                (old(self).pending()[operation_index as int].0, StateModel::RolledBack),
            ),
            operation_index >= old(self).pending().len() ==> r == Err::<(), DispatchError>(DispatchError::Other("Invalid operation index"))
                && *final(self) == *old(self),
            final(self).prepared() == old(self).prepared(),
            final(self).completed() == old(self).completed(),
            final(self).failed() == old(self).failed(),
            final(self).next_nonce() == old(self).next_nonce(),
            final(self).used_nonces() == old(self).used_nonces(),
            final(self).cfg() == old(self).cfg(),
    {
        if operation_index < self.pending_ops.len() {
            let ghost before = self.pending_ops@;
            let ghost before_p = self.pending();
            self.pending_ops[operation_index].1 = OperationState::RolledBack;
            assert(self.pending_ops@ == before.update(operation_index as int, (before[operation_index as int].0, OperationState::RolledBack)));
            assert(self.pending() =~= before_p.update(operation_index as int, (before_p[operation_index as int].0, StateModel::RolledBack)));
            assert forall|k: int| 0 <= k < self.pending().len() implies valid_op(#[trigger] self.pending()[k].0) by {
                assert(self.pending()[k].0 == before_p[k].0);
            }
            assert(self.prepared() == old(self).prepared());
            assert(self.used_nonces() == old(self).used_nonces());
            Ok(())
        } else {
            Err(DispatchError::Other("Invalid operation index"))
        }
    }

    /// Number of queue entries in the `Pending` state.
    pub fn pending_count(&self) -> (n: usize)
        ensures
            n == count_pending(self.pending()),
    {
        let mut n: usize = 0;
        let mut i: usize = 0;
        while i < self.pending_ops.len()
            invariant
                i <= self.pending_ops@.len(),
                n == count_pending(self.pending().take(i as int)),
                n <= i,
            decreases self.pending_ops.len() - i,
        {
            proof {
                assert(self.pending().take(i + 1).drop_last() =~= self.pending().take(i as int));
                assert(self.pending()[i as int] == (self.pending_ops@[i as int].0@, self.pending_ops@[i as int].1@));
            }
            match self.pending_ops[i].1 {
                OperationState::Pending => {
                    n = n + 1;
                },
                _ => {},
            }
            i = i + 1;
        }
        assert(self.pending().take(self.pending_ops@.len() as int) =~= self.pending());
        n
    }

    /// Number of prepared operations.
    pub fn prepared_count(&self) -> (n: usize)
        ensures
            n == self.prepared().len(),
    {
        self.prepared_ops.len()
    }

    /// Number of completed operations.
    pub fn completed_count(&self) -> (n: usize)
        ensures
            n == self.completed().len(),
    {
        self.completed_ops.len()
    }

    /// Number of failed operations.
    pub fn failed_count(&self) -> (n: usize)
        ensures
            n == self.failed().len(),
    {
        self.failed_ops.len()
    }

    /// Clear all ledgers and queues; the nonce state is kept, so nonces
    /// are never handed out twice.
    pub fn clear(&mut self)
        requires
            old(self).wf(),
        ensures
            final(self).wf(),
            final(self).pending().len() == 0,
            final(self).prepared().len() == 0,
            final(self).completed().len() == 0,
            final(self).failed().len() == 0,
            final(self).next_nonce() == old(self).next_nonce(),
            final(self).used_nonces() == old(self).used_nonces(),
            final(self).cfg() == old(self).cfg(),
    {
        self.pending_ops.clear();
        self.prepared_ops.clear();
        self.completed_ops.clear();
        self.failed_ops.clear();
        assert(self.pending() =~= Seq::empty());
        assert(self.prepared() =~= Seq::empty());
        assert(self.used_nonces() == old(self).used_nonces());
    }

    /// The event for a completed atomic swap.
    pub fn emit_swap_event(evm_amount: u128, svm_amount: u128, gas_used: u64) -> (e: CrossVmEvent)
        ensures
            e@ == (EventModel::AtomicSwapExecuted { evm_amount, svm_amount, gas_used }),
    {
        CrossVmEvent::AtomicSwapExecuted { evm_amount, svm_amount, gas_used }
    }

    /// The queue entries, in order.
    pub fn get_operation_states(&self) -> (v: Vec<(&CrossVmOperation, &OperationState)>)
        ensures
            v@.len() == self.pending().len(),
            forall|i: int| 0 <= i < v@.len() ==> ((#[trigger] v@[i]).0@, v@[i].1@) == self.pending()[i],
    {
        let mut v: Vec<(&CrossVmOperation, &OperationState)> = Vec::new();
        let mut i: usize = 0;
        while i < self.pending_ops.len()
            invariant
                i <= self.pending_ops@.len(),
                v@.len() == i,
                forall|j: int| 0 <= j < i ==> ((#[trigger] v@[j]).0@, v@[j].1@) == self.pending()[j],
            decreases self.pending_ops.len() - i,
        {
            let entry = &self.pending_ops[i];
            v.push((&entry.0, &entry.1));
            assert(self.pending()[i as int] == (entry.0@, entry.1@));
            i = i + 1;
        }
        v
    }
}

impl Default for CrossVmBridge {
    fn default() -> (b: Self)
        ensures
            b.wf(),
            b.pending().len() == 0,
            b.prepared().len() == 0,
            b.completed().len() == 0,
            b.failed().len() == 0,
            b.next_nonce() == 1,
            b.used_nonces() == Set::<u64>::empty(),
            b.cfg() == default_config(),
    {
        Self::new()
    }
}

/// `s` is strictly increasing.
pub open spec fn strictly_increasing(s: Seq<u64>) -> bool {
    forall|i: int, j: int| 0 <= i < j < s.len() ==> s[i] < s[j]
}

/// Insert `x` into the strictly increasing `v`, keeping it so.
fn insert_sorted(v: &mut Vec<u64>, x: u64)
    requires
        strictly_increasing(old(v)@),
    ensures
        strictly_increasing(final(v)@),
        final(v)@.to_set() == old(v)@.to_set().insert(x),
{
    let mut i: usize = 0;
    while i < v.len() && v[i] < x
        invariant
            i <= v@.len(),
            forall|j: int| 0 <= j < i ==> v@[j] < x,
        decreases v.len() - i,
    {
        i = i + 1;
    }
    if i < v.len() && v[i] == x {
        assert(v@.to_set() =~= v@.to_set().insert(x)) by {
            assert(v@.contains(x));
        }
        return;
    }
    let ghost before = v@;
    v.insert(i, x);
    assert forall|y: u64| #[trigger] v@.to_set().contains(y) == before.to_set().insert(x).contains(y) by {
        if v@.contains(y) {
            let k = choose|k: int| 0 <= k < v@.len() && v@[k] == y;
            if k < i {
                assert(before[k] == y);
            } else if k > i {
                assert(before[k - 1] == y);
            }
            assert(before.contains(y) || y == x);
        }
        if before.contains(y) || y == x {
            if y == x {
                assert(v@[i as int] == x);
            } else {
                let k = choose|k: int| 0 <= k < before.len() && before[k] == y;
                if k < i {
                    assert(v@[k] == y);
                } else {
                    assert(v@[k + 1] == y);
                }
            }
            assert(v@.contains(y));
        }
    }
    assert(v@.to_set() =~= before.to_set().insert(x));
}

impl CrossVmBridge {
    /// The used nonces in increasing order.
    pub fn used_nonces_snapshot(&self) -> (v: Vec<u64>)
        ensures
            strictly_increasing(v@),
            v@.to_set() == self.used_nonces(),
    {
        let mut v: Vec<u64> = Vec::new();
        let iter = self.used_nonces.iter();
        proof {
            vstd::std_specs::hash::axiom_spec_hash_keys_iter(&self.used_nonces);
        }
        let ghost all = iter.remaining().unref();
        assert(all.to_set() == self.used_nonces@);
        let ghost mut seen: int = 0;
        for x in it: iter
            invariant
                strictly_increasing(v@),
                it.seq().unref() == all,
                seen == it.index(),
                v@.to_set() == all.take(seen).to_set(),
        {
            proof {
                assert(all.take(seen + 1) =~= all.take(seen).push(*x));
                all.take(seen).lemma_push_to_set_commute(*x);
            }
            insert_sorted(&mut v, *x);
            proof {
                seen = seen + 1;
            }
        }
        assert(seen == all.len());
        assert(all.take(seen) =~= all);
        v
    }
}

/// No entry of `s` is in the `Executing` state.
pub open spec fn none_executing(s: Seq<(OperationModel, StateModel)>) -> bool {
    forall|i: int| 0 <= i < s.len() ==> !((#[trigger] s[i]).1 is Executing)
}

/// The nonce a well-formed bridge hands out next has never been handed out
/// (unless the counter has saturated at `u64::MAX`): nonces are not reused.
pub proof fn lemma_next_nonce_fresh(b: CrossVmBridge)
    requires
        b.wf(),
        b.next_nonce() < u64::MAX,
    ensures
        !b.used_nonces().contains(b.next_nonce()),
{
}

/// Two successive successful queue operations get strictly increasing
/// nonces, and both are recorded as used.
pub proof fn lemma_queue_nonces_increase(b0: CrossVmBridge, op1: OperationModel, b1: CrossVmBridge, op2: OperationModel, b2: CrossVmBridge)
    requires
        b0.wf(),
        queued(b0, op1, b1),
        queued(b1, op2, b2),
        b0.next_nonce() < u64::MAX,
    ensures
        b0.next_nonce() < b1.next_nonce(),
        b2.used_nonces().contains(b0.next_nonce()),
        b2.used_nonces().contains(b1.next_nonce()),
        !b0.used_nonces().contains(b0.next_nonce()),
{
}

/// Aborting right after a successful prepare restores the queue, provided
/// nothing was already `Executing`, and leaves the pipeline empty; the
/// ledgers are untouched. Only the nonce state moves on: the nonces of the
/// abandoned batch stay used.
pub proof fn lemma_abort_undoes_prepare(b0: CrossVmBridge, b1: CrossVmBridge, b2: CrossVmBridge, nonces: Seq<u64>, events: Seq<EventModel>)
    requires
        prepare_succeeded(b0, b1, nonces, events),
        aborted(b1, b2),
        none_executing(b0.pending()),
    ensures
        b2.pending() == b0.pending(),
        b2.prepared().len() == 0,
        b2.completed() == b0.completed(),
        b2.failed() == b0.failed(),
        b2.cfg() == b0.cfg(),
        b0.used_nonces().subset_of(b2.used_nonces()),
{
    assert(mark_pending(mark_executing(b0.pending())) =~= b0.pending()) by {
        assert forall|i: int| 0 <= i < b0.pending().len() implies mark_pending(mark_executing(b0.pending()))[i] == b0.pending()[i] by {
            assert(!(b0.pending()[i].1 is Executing));
        }
    }
}

/// Every processed operation is recorded exactly once: as many completed
/// and failed ledger entries together as there were steps, and one returned
/// result per completed entry.
pub proof fn lemma_steps_partition(steps: Seq<Step>, text: spec_fn(DispatchError) -> Seq<u8>)
    ensures
        completed_of(steps).len() + failed_of(steps, text).len() == steps.len(),
        results_of(steps).len() == completed_of(steps).len(),
    decreases steps.len(),
{
    if steps.len() > 0 {
        lemma_steps_partition(steps.drop_last(), text);
    }
}

} // verus!
