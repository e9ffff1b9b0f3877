//! HotStuff block application: the `ApplyBlock` state-machine step.
//!
//! The verification helpers that `apply_block` calls are the stubs of the
//! design outline: header and quorum-certificate checks accept everything,
//! the action DAG of any action list has the zero root, its execution order is
//! empty, and hashing yields the zero hash.

use vstd::prelude::*;
use crate::bytes::{hash32_eq, zero32};

verus! {

/// A 32-byte hash.
pub type Hash = [u8; 32];
/// A 32-byte account address.
pub type Address = [u8; 32];

/// Quorum certificate.
pub struct QC {
    pub view: u64,
    pub block_hash: Hash,
    pub signatures: Vec<Vec<u8>>,
}

/// Block header.
pub struct BlockHeader {
    pub parent_hash: Hash,
    pub height: u64,
    pub round: u64,
    pub timestamp: u64,
    pub validator_set_hash: Hash,
    pub qc: QC,
    pub proposer: Address,
}

/// A slashing event recorded in a block.
pub struct SlashingEvent {
    pub offender: Address,
    pub reason: String,
    pub amount: u128,
}

/// A full block.
pub struct Block {
    pub header: BlockHeader,
    pub actions: Vec<ActionCommitment>,
    pub action_dag_root: Hash,
    pub execution_order_hash: Hash,
    pub state_root_pre: Hash,
    pub state_root_post: Hash,
    pub receipts_root: Hash,
    pub slashing_events: Vec<SlashingEvent>,
}

/// Commitment to one action of a block.
pub struct ActionCommitment {
    pub id: u64,
    pub hash: Hash,
}

/// Chain state tracked across blocks.
#[derive(Clone, Copy)]
pub struct ChainState {
    pub last_block: Hash,
    pub state_root: Hash,
}

impl ChainState {
    /// The current state root.
    pub fn state_root(&self) -> (r: Hash)
        ensures
            r == self.state_root,
    {
        self.state_root
    }
}

/// Reasons for rejecting a block.
pub enum BlockError {
    InvalidHeader,
    InvalidQC,
    InvalidParent,
    InvalidDag,
    InvalidOrder,
    ExecutionFailure,
    StateMismatch,
    SlashingFailure,
}

fn verify_header(_header: &BlockHeader) -> (r: Result<(), BlockError>)
    ensures
        r is Ok,
{
    Ok(())
}

fn verify_quorum_cert(_qc: &QC) -> (r: Result<(), BlockError>)
    ensures
        r is Ok,
{
    Ok(())
}

fn hash<T>(_v: &T) -> (h: Hash)
    ensures
        h@ == zero32(),
{
    let h = [0u8; 32];
    assert(h@ =~= zero32());
    h
}

struct DagStub {
    root: Hash,
}

impl DagStub {
    fn root_hash(&self) -> (h: Hash)
        ensures
            h == self.root,
    {
        self.root
    }
}

fn derive_action_dag(_actions: &[ActionCommitment]) -> (r: Result<DagStub, BlockError>)
    ensures
        r matches Ok(d) && d.root@ == zero32(),
{
    let root = [0u8; 32];
    assert(root@ =~= zero32());
    Ok(DagStub { root })
}

fn derive_execution_order(_dag: &DagStub) -> (v: Vec<ActionCommitment>)
    ensures
        v@.len() == 0,
{
    Vec::new()
}

fn execute_action(_state: &mut ChainState, _action: &ActionCommitment) -> (r: Result<Hash, BlockError>)
    ensures
        *final(_state) == *old(_state),
        r matches Ok(h) && h@ == zero32(),
{
    let h = [0u8; 32];
    assert(h@ =~= zero32());
    Ok(h)
}

fn apply_slashing(_state: &mut ChainState, _events: &[SlashingEvent]) -> (r: Result<(), BlockError>)
    ensures
        *final(_state) == *old(_state),
        r is Ok,
{
    Ok(())
}

/// The error with which applying `block` to `state` fails, if any, as the
/// design specifies it with the stubbed DAG, ordering, execution and hashing
/// steps.
pub open spec fn apply_block_error(state: ChainState, block: &Block) -> Option<BlockError> {
    if block.header.parent_hash@ != state.last_block@ {
        Some(BlockError::InvalidParent)
    } else if block.action_dag_root@ != zero32() {
        Some(BlockError::InvalidDag)
    } else if block.execution_order_hash@ != zero32() {
        Some(BlockError::InvalidOrder)
    } else if state.state_root@ != block.state_root_post@ {
        Some(BlockError::StateMismatch)
    } else {
        None
    }
}

/// Core ApplyBlock state machine step: check the header and its parent link,
/// the action DAG root and execution order hash, execute the actions in order,
/// check the post-state root, apply slashing and advance the last block hash.
pub fn apply_block(state: &ChainState, block: &Block) -> (r: Result<ChainState, BlockError>)
    ensures
        match r {
            Ok(s) => apply_block_error(*state, block) is None && s.state_root == state.state_root
                && s.last_block@ == zero32(),
            Err(e) => apply_block_error(*state, block) == Some(e),
        },
{
    verify_header(&block.header)?;
    verify_quorum_cert(&block.header.qc)?;
    if !hash32_eq(&block.header.parent_hash, &state.last_block) {
        return Err(BlockError::InvalidParent);
    }
    let dag = match derive_action_dag(&block.actions) {
        Ok(d) => d,
        Err(_) => { return Err(BlockError::InvalidDag); },
    };
    let root = dag.root_hash();
    if !hash32_eq(&root, &block.action_dag_root) {
        return Err(BlockError::InvalidDag);
    }
    let order = derive_execution_order(&dag);
    let order_hash = hash(&order);
    if !hash32_eq(&order_hash, &block.execution_order_hash) {
        return Err(BlockError::InvalidOrder);
    }
    let mut new_state = *state;
    let mut receipts: Vec<Hash> = Vec::new();
    let mut k: usize = 0;
    while k < order.len()
        invariant
            k <= order@.len(),
            new_state == *state,
        decreases order@.len() - k,
    {
        let receipt = match execute_action(&mut new_state, &order[k]) {
            Ok(h) => h,
            Err(_) => { return Err(BlockError::ExecutionFailure); },
        };
        receipts.push(receipt);
        k = k + 1;
    }
    let post = new_state.state_root();
    if !hash32_eq(&post, &block.state_root_post) {
        return Err(BlockError::StateMismatch);
    }
    apply_slashing(&mut new_state, block.slashing_events.as_slice())?;
    new_state.last_block = hash(block);
    Ok(new_state)
}

} // verus!
