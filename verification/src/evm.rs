//! EVM integration: payload checks, the intrinsic gas estimate, the mapping
//! of an execution's exit reason to an error, and the settlement of a
//! successful execution into a result with its fee debit and state root.

use vstd::prelude::*;
use crate::bytes::{le_bytes, push_bytes, push_u128_le, push_u64_le, zero32};
use crate::hashing::{blake2_256, blake2_256_spec};

verus! {

/// Errors of EVM execution.
#[derive(Clone, Copy, Debug, PartialEq, Eq, Structural)]
pub enum EvmError {
    InvalidPayload,
    ExecutionReverted,
    OutOfGas,
    StackOverflow,
    StackUnderflow,
    CreateCollision,
    InvalidOpcode(u8),
    ExecutionFailed(u32),
}

/// Execution parameters. The 256-bit gas price and base fee are held as
/// their four little-endian 64-bit limbs.
#[derive(Clone, Copy, Debug)]
pub struct EvmConfig {
    pub chain_id: u64,
    pub gas_limit: u64,
    pub gas_price: [u64; 4],
    pub base_fee: [u64; 4],
}

/// The value of four little-endian 64-bit limbs.
pub open spec fn limbs_value(l: [u64; 4]) -> nat {
    l[0] as nat + l[1] as nat * 0x1_0000_0000_0000_0000nat + l[2] as nat * 0x1_0000_0000_0000_0000_0000_0000_0000_0000nat
        + l[3] as nat * 0x1_0000_0000_0000_0000_0000_0000_0000_0000_0000_0000_0000_0000nat
}

impl EvmConfig {
    /// The chain id used for transaction signing.
    pub fn chain_id(&self) -> (c: u64)
        ensures
            c == self.chain_id,
    {
        self.chain_id
    }

    /// The gas limit handed to the runner.
    pub fn gas_limit(&self) -> (g: u64)
        ensures
            g == self.gas_limit,
    {
        self.gas_limit
    }

    /// The gas price used for the fee.
    pub fn gas_price(&self) -> (p: [u64; 4])
        ensures
            p == self.gas_price,
    {
        self.gas_price
    }

    /// The EIP-1559 base fee.
    pub fn base_fee(&self) -> (p: [u64; 4])
        ensures
            p == self.base_fee,
    {
        self.base_fee
    }
}

/// The gas a calldata byte costs (EIP-2028): 4 for a zero byte, 16 otherwise.
pub open spec fn byte_gas(b: u8) -> nat {
    if b == 0 { 4 } else { 16 }
}

/// The calldata gas of `s`.
pub open spec fn calldata_gas(s: Seq<u8>) -> nat
    decreases s.len(),
{
    if s.len() == 0 { 0 } else { calldata_gas(s.drop_last()) + byte_gas(s.last()) }
}

/// Estimates the gas of an EVM payload without running it: the 21000 base
/// cost plus its calldata gas. An empty payload is invalid.
pub fn estimate_gas_evm(payload: &[u8]) -> (r: Result<u64, EvmError>)
    requires
        21000 + calldata_gas(payload@) <= u64::MAX,
    ensures
        payload.len() == 0 ==> r == Err::<u64, EvmError>(EvmError::InvalidPayload),
        payload.len() > 0 ==> r == Ok::<u64, EvmError>((21000 + calldata_gas(payload@)) as u64),
{
    if payload.len() == 0 {
        return Err(EvmError::InvalidPayload);
    }
    let mut gas: u64 = 0;
    let mut i: usize = 0;
    while i < payload.len()
        invariant
            i <= payload.len(),
            gas == calldata_gas(payload@.take(i as int)),
            21000 + calldata_gas(payload@) <= u64::MAX,
        decreases payload.len() - i,
    {
        proof {
            assert(payload@.take(i + 1).drop_last() =~= payload@.take(i as int));
            lemma_calldata_gas_prefix(payload@, i + 1);
        }
        let cost: u64 = if payload[i] == 0 { 4 } else { 16 };
        gas = gas + cost;
        i = i + 1;
    }
    proof {
        assert(payload@.take(payload.len() as int) =~= payload@);
    }
    Ok(21000 + gas)
}

/// The calldata gas of a prefix is at most that of the whole.
proof fn lemma_calldata_gas_prefix(s: Seq<u8>, n: int)
    requires
        0 <= n <= s.len(),
    ensures
        calldata_gas(s.take(n)) <= calldata_gas(s),
    decreases s.len() - n,
{
    if n < s.len() {
        lemma_calldata_gas_prefix(s, n + 1);
        assert(s.take(n + 1).drop_last() =~= s.take(n));
    } else {
        assert(s.take(n) =~= s);
    }
}

/// Structural validation of an EVM payload: it must not be empty.
pub fn validate_evm(payload: &[u8]) -> (r: Result<(), EvmError>)
    ensures
        r is Ok <==> payload.len() > 0,
        r is Err ==> r == Err::<(), EvmError>(EvmError::InvalidPayload),
{
    if payload.len() == 0 {
        return Err(EvmError::InvalidPayload);
    }
    Ok(())
}

/// Why an execution ended, as the runner reports it.
#[derive(Clone, Copy, Debug, PartialEq, Eq, Structural)]
pub enum ExitOutcome {
    Succeed,
    Revert,
    OutOfGas,
    StackOverflow,
    StackUnderflow,
    CreateCollision,
    /// The code holds an invalid opcode.
    InvalidCode(u8),
    /// Any other error.
    OtherError,
    /// A fatal condition of the machine.
    Fatal,
}

/// The error that a failed execution through the runtime's runner gives.
pub open spec fn runner_error(reason: ExitOutcome, gas_used: u64) -> EvmError {
    match reason {
        ExitOutcome::Revert => EvmError::ExecutionReverted,
        ExitOutcome::OutOfGas => EvmError::OutOfGas,
        ExitOutcome::StackOverflow => EvmError::StackOverflow,
        ExitOutcome::StackUnderflow => EvmError::StackUnderflow,
        ExitOutcome::CreateCollision => EvmError::CreateCollision,
        ExitOutcome::InvalidCode(op) => EvmError::InvalidOpcode(op),
        ExitOutcome::Fatal => EvmError::ExecutionFailed((0x10u32 | ((gas_used as u32) & 0x0FFF_FFFFu32)) as u32),
        _ => EvmError::ExecutionFailed(gas_used as u32),
    }
}

/// Maps the exit reason of a failed execution through the runtime's runner
/// to its error; a fatal exit keeps the low 28 bits of the gas used, tagged
/// with `0x10`.
pub fn exit_reason_to_error(reason: ExitOutcome, gas_used: u64) -> (e: EvmError)
    requires
        reason != ExitOutcome::Succeed,
    ensures
        e == runner_error(reason, gas_used),
{
    match reason {
        ExitOutcome::Revert => EvmError::ExecutionReverted,
        ExitOutcome::OutOfGas => EvmError::OutOfGas,
        ExitOutcome::StackOverflow => EvmError::StackOverflow,
        ExitOutcome::StackUnderflow => EvmError::StackUnderflow,
        ExitOutcome::CreateCollision => EvmError::CreateCollision,
        ExitOutcome::InvalidCode(op) => EvmError::InvalidOpcode(op),
        ExitOutcome::Fatal => {
            #[verifier::truncate]
            let low = gas_used as u32;
            EvmError::ExecutionFailed(0x10u32 | (low & 0x0FFF_FFFFu32))
        },
        _ => {
            #[verifier::truncate]
            let low = gas_used as u32;
            EvmError::ExecutionFailed(low)
        },
    }
}

/// The error that a failed execution of the in-memory interpreter gives.
pub open spec fn interpreter_error(reason: ExitOutcome, gas_used: u64) -> EvmError {
    match reason {
        ExitOutcome::Revert => EvmError::ExecutionReverted,
        ExitOutcome::OutOfGas => EvmError::OutOfGas,
        ExitOutcome::StackOverflow => EvmError::StackOverflow,
        ExitOutcome::StackUnderflow => EvmError::StackUnderflow,
        ExitOutcome::CreateCollision => EvmError::CreateCollision,
        ExitOutcome::InvalidCode(op) => EvmError::InvalidOpcode(op),
        _ => EvmError::ExecutionFailed(gas_used as u32),
    }
}

/// Maps the exit reason of the in-memory interpreter to its error; anything
/// unnamed (a fatal exit among them) fails with the truncated gas used.
pub fn map_exit_reason(reason: ExitOutcome, gas_used: u64) -> (e: EvmError)
    ensures
        e == interpreter_error(reason, gas_used),
{
    match reason {
        ExitOutcome::Revert => EvmError::ExecutionReverted,
        ExitOutcome::OutOfGas => EvmError::OutOfGas,
        ExitOutcome::StackOverflow => EvmError::StackOverflow,
        ExitOutcome::StackUnderflow => EvmError::StackUnderflow,
        ExitOutcome::CreateCollision => EvmError::CreateCollision,
        ExitOutcome::InvalidCode(op) => EvmError::InvalidOpcode(op),
        _ => {
            #[verifier::truncate]
            let low = gas_used as u32;
            EvmError::ExecutionFailed(low)
        },
    }
}

/// A log an execution emitted.
#[derive(Clone, Debug)]
pub struct EvmLog {
    pub address: [u8; 20],
    pub topics: Vec<[u8; 32]>,
    pub data: Vec<u8>,
}

/// A change an execution made to one account.
#[derive(Clone, Debug)]
pub struct EvmStateChange {
    pub address: [u8; 20],
    pub balance_delta: i128,
    pub nonce_delta: u64,
    pub storage_changes: Vec<([u8; 32], [u8; 32])>,
    pub code: Option<Vec<u8>>,
}

/// The result of a successful execution.
#[derive(Clone, Debug)]
pub struct EvmExecutionResult {
    pub success: bool,
    pub output: Vec<u8>,
    pub gas_used: u64,
    pub logs: Vec<EvmLog>,
    pub state_changes: Vec<EvmStateChange>,
    pub state_root: [u8; 32],
}

/// The fee for `gas_used` at `price`, saturated at `u128::MAX`.
pub open spec fn fee_paid(gas_used: u64, price: [u64; 4]) -> nat {
    let f = gas_used as nat * limbs_value(price);
    if f > u128::MAX { u128::MAX as nat } else { f }
}

/// The balance change a fee causes: its negation, or `i128::MIN` where the
/// fee exceeds `i128::MAX`.
pub open spec fn fee_delta_spec(fee: nat) -> i128 {
    if fee > i128::MAX { i128::MIN } else { (-(fee as int)) as i128 }
}

/// The fee for `gas_used` at `price`, saturated at `u128::MAX`.
pub fn fee_for(gas_used: u64, price: [u64; 4]) -> (fee: u128)
    ensures
        fee == fee_paid(gas_used, price),
{
    if gas_used == 0 {
        proof {
            assert(gas_used as nat * limbs_value(price) == 0);
        }
        return 0;
    }
    if price[2] != 0 || price[3] != 0 {
        proof {
            let big: nat = 0x1_0000_0000_0000_0000_0000_0000_0000_0000nat;
            assert(limbs_value(price) >= big) by (nonlinear_arith)
                requires
                    price[2] != 0 || price[3] != 0,
                    limbs_value(price) == price[0] as nat + price[1] as nat * 0x1_0000_0000_0000_0000nat
                        + price[2] as nat * 0x1_0000_0000_0000_0000_0000_0000_0000_0000nat
                        + price[3] as nat * 0x1_0000_0000_0000_0000_0000_0000_0000_0000_0000_0000_0000_0000nat,
                    big == 0x1_0000_0000_0000_0000_0000_0000_0000_0000nat;
            assert(gas_used as nat * limbs_value(price) >= limbs_value(price)) by (nonlinear_arith)
                requires gas_used >= 1;
        }
        return u128::MAX;
    }
    let low: u128 = price[0] as u128 + (price[1] as u128) * 0x1_0000_0000_0000_0000u128;
    proof {
        assert(price[1] as nat * 0x1_0000_0000_0000_0000nat <= 0xFFFF_FFFF_FFFF_FFFFnat * 0x1_0000_0000_0000_0000nat) by (nonlinear_arith)
            requires price[1] <= 0xFFFF_FFFF_FFFF_FFFF;
    }
    match (gas_used as u128).checked_mul(low) {
        Some(f) => f,
        None => u128::MAX,
    }
}

/// The balance change that debits `fee`.
pub fn fee_delta(fee: u128) -> (d: i128)
    ensures
        d == fee_delta_spec(fee as nat),
{
    if fee > 0x7FFF_FFFF_FFFF_FFFF_FFFF_FFFF_FFFF_FFFFu128 {
        i128::MIN
    } else {
        let f = fee as i128;
        -f
    }
}

/// The bytes a state root hashes for one change: address, balance delta
/// (16 little-endian two's-complement bytes) and nonce delta (8 bytes).
pub open spec fn change_bytes(c: EvmStateChange) -> Seq<u8> {
    c.address@ + le_bytes((c.balance_delta as u128) as nat, 16) + le_bytes(c.nonce_delta as nat, 8)
}

/// The bytes a state root hashes for a list of changes.
pub open spec fn changes_bytes(cs: Seq<EvmStateChange>) -> Seq<u8>
    decreases cs.len(),
{
    if cs.len() == 0 { Seq::empty() } else { changes_bytes(cs.drop_last()) + change_bytes(cs.last()) }
}

/// The state root of a list of changes: all zero for none, else the
/// BLAKE2b-256 hash of their bytes.
pub open spec fn state_root_spec(cs: Seq<EvmStateChange>) -> Seq<u8> {
    if cs.len() == 0 { zero32() } else { blake2_256_spec(changes_bytes(cs)) }
}

/// The state root of `changes`.
pub fn compute_state_root(changes: &[EvmStateChange]) -> (root: [u8; 32])
    ensures
        root@ == state_root_spec(changes@),
{
    if changes.len() == 0 {
        let z = [0u8; 32];
        assert(z@ =~= zero32());
        return z;
    }
    let mut data: Vec<u8> = Vec::new();
    let mut i: usize = 0;
    while i < changes.len()
        invariant
            i <= changes.len(),
            data@ == changes_bytes(changes@.take(i as int)),
        decreases changes.len() - i,
    {
        let c = &changes[i];
        push_bytes(&mut data, &c.address);
        #[verifier::truncate]
        let bits = c.balance_delta as u128;
        push_u128_le(&mut data, bits);
        push_u64_le(&mut data, c.nonce_delta);
        proof {
            assert(changes@.take(i + 1).drop_last() =~= changes@.take(i as int));
            assert(data@ =~= changes_bytes(changes@.take(i + 1)));
        }
        i = i + 1;
    }
    proof {
        assert(changes@.take(changes.len() as int) =~= changes@);
    }
    blake2_256(data.as_slice())
}

/// What the runner reports of an execution.
#[derive(Clone, Debug)]
pub struct RunnerOutcome {
    pub exit_reason: ExitOutcome,
    pub output: Vec<u8>,
    pub gas_used: u64,
    pub logs: Vec<EvmLog>,
}

/// Whether a payload may be executed: it must not be empty when it
/// creates a contract (no target).
pub fn check_execute_payload(payload: &[u8], has_target: bool) -> (r: Result<(), EvmError>)
    ensures
        r is Err <==> (payload.len() == 0 && !has_target),
        r is Err ==> r == Err::<(), EvmError>(EvmError::InvalidPayload),
{
    if payload.len() == 0 && !has_target {
        return Err(EvmError::InvalidPayload);
    }
    Ok(())
}

/// Settles what the runner reported: a failed exit becomes its error; a
/// success becomes a result whose single state change debits the fee from
/// `caller` and bumps its nonce, with the state root of that change.
pub fn settle_execution(outcome: RunnerOutcome, caller: [u8; 20], config: &EvmConfig) -> (r: Result<EvmExecutionResult, EvmError>)
    ensures
        outcome.exit_reason != ExitOutcome::Succeed ==> r == Err::<EvmExecutionResult, EvmError>(runner_error(outcome.exit_reason, outcome.gas_used)),
        outcome.exit_reason == ExitOutcome::Succeed ==> r is Ok && ({
            let res = r->Ok_0;
            &&& res.success
            &&& res.output@ == outcome.output@
            &&& res.gas_used == outcome.gas_used
            &&& res.logs@ == outcome.logs@
            &&& res.state_changes.len() == 1
            &&& res.state_changes[0].address == caller
            &&& res.state_changes[0].balance_delta == fee_delta_spec(fee_paid(outcome.gas_used, config.gas_price))
            &&& res.state_changes[0].nonce_delta == 1
            &&& res.state_changes[0].storage_changes.len() == 0
            &&& res.state_changes[0].code is None
            &&& res.state_root@ == state_root_spec(res.state_changes@)
        }),
{
    if outcome.exit_reason != ExitOutcome::Succeed {
        return Err(exit_reason_to_error(outcome.exit_reason, outcome.gas_used));
    }
    let fee = fee_for(outcome.gas_used, config.gas_price);
    let change = EvmStateChange {
        address: caller,
        balance_delta: fee_delta(fee),
        nonce_delta: 1,
        storage_changes: Vec::new(),
        code: None,
    };
    let state_changes = vec![change];
    let state_root = compute_state_root(state_changes.as_slice());
    Ok(EvmExecutionResult {
        success: true,
        output: outcome.output,
        gas_used: outcome.gas_used,
        logs: outcome.logs,
        state_changes,
        state_root,
    })
}


/// The address the in-memory interpreter deploys a payload at: the first
/// 20 bytes of the payload's BLAKE2-256 hash.
pub fn derive_target(payload: &[u8]) -> (a: [u8; 20])
    ensures
        a@ == blake2_256_spec(payload@).take(20),
{
    let h = blake2_256(payload);
    let mut a = [0u8; 20];
    let mut i: usize = 0;
    while i < 20
        invariant
            i <= 20,
            h@ == blake2_256_spec(payload@),
            forall|j: int| 0 <= j < i ==> a@[j] == h@[j],
        decreases 20 - i,
    {
        a[i] = h[i];
        i = i + 1;
    }
    assert(a@ =~= blake2_256_spec(payload@).take(20));
    a
}

/// Finishes a run of the in-memory interpreter from its exit reason, gas
/// and return data: a failure becomes its error; a success returns the data
/// with no logs, no state changes and a zero state root (the canonical
/// ledger keeps those).
pub fn finish_interpreter_call(exit_reason: ExitOutcome, gas_used: u64, return_data: Vec<u8>) -> (r: Result<EvmExecutionResult, EvmError>)
    ensures
        exit_reason != ExitOutcome::Succeed ==> r == Err::<EvmExecutionResult, EvmError>(interpreter_error(exit_reason, gas_used)),
        exit_reason == ExitOutcome::Succeed ==> (r matches Ok(res) && {
            &&& res.success
            &&& res.output@ == return_data@
            &&& res.gas_used == gas_used
            &&& res.logs@.len() == 0
            &&& res.state_changes@.len() == 0
            &&& res.state_root@ == zero32()
        }),
{
    if exit_reason != ExitOutcome::Succeed {
        return Err(map_exit_reason(exit_reason, gas_used));
    }
    let state_root = [0u8; 32];
    assert(state_root@ =~= zero32());
    Ok(EvmExecutionResult { success: true, output: return_data, gas_used, logs: Vec::new(), state_changes: Vec::new(), state_root })
}


/// The configuration a gas estimate runs under: the same with a gas limit
/// of half the largest 64-bit value.
pub fn estimation_config(config: &EvmConfig) -> (c: EvmConfig)
    ensures
        c.gas_limit == u64::MAX / 2,
        c.chain_id == config.chain_id,
        c.gas_price == config.gas_price,
        c.base_fee == config.base_fee,
{
    EvmConfig { chain_id: config.chain_id, gas_limit: u64::MAX / 2, gas_price: config.gas_price, base_fee: config.base_fee }
}

/// A gas estimate from the gas a run used: 10% more, the product
/// saturating.
pub fn gas_estimate_with_buffer(gas_used: u64) -> (g: u64)
    ensures
        g == (if gas_used * 11 > u64::MAX { u64::MAX as int } else { gas_used * 11 }) / 10,
{
    let product: u64 = if gas_used > u64::MAX / 11 { u64::MAX } else { gas_used * 11 };
    product / 10
}

} // verus!
