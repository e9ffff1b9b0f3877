//! The bookkeeping around a BPF virtual machine run: the account buffer a
//! program reads, compute-unit metering, the interpretation of the run's
//! result and its state root.

use vstd::prelude::*;
use crate::bytes::{le_bytes, push_bytes, zero32};
use crate::hashing::{blake2_256, blake2_256_spec};
use crate::svm::{AccountUpdate, SvmAccountMeta, SvmError, SvmExecutionResult};

verus! {

/// The bytes of one account in the input buffer: its public key, its
/// lamports (8 bytes, little-endian), the signer and writable flags (one
/// byte each), the length of its data (4 bytes, little-endian) and the data.
pub open spec fn account_bytes(meta: SvmAccountMeta, update: AccountUpdate) -> Seq<u8> {
    meta.pubkey@ + le_bytes(update.lamports as nat, 8) + seq![if meta.is_signer { 1u8 } else { 0u8 }, if meta.is_writable { 1u8 } else { 0u8 }]
        + le_bytes(update.data@.len() % 0x1_0000_0000, 4) + update.data@
}

/// The bytes of some accounts, in order.
pub open spec fn accounts_bytes(accounts: Seq<(SvmAccountMeta, AccountUpdate)>) -> Seq<u8>
    decreases accounts.len(),
{
    if accounts.len() == 0 {
        Seq::empty()
    } else {
        accounts_bytes(accounts.drop_last()) + account_bytes(accounts.last().0, accounts.last().1)
    }
}

/// The input buffer of a run: the number of accounts (4 bytes,
/// little-endian, the low 32 bits) and each account's bytes.
pub open spec fn serialized_accounts(accounts: Seq<(SvmAccountMeta, AccountUpdate)>) -> Seq<u8> {
    le_bytes(accounts.len() % 0x1_0000_0000, 4) + accounts_bytes(accounts)
}

/// Appends the 4 little-endian bytes of the low 32 bits of `n`.
fn push_u32_le(out: &mut Vec<u8>, n: usize)
    ensures
        final(out)@ == old(out)@ + le_bytes(n as nat % 0x1_0000_0000, 4),
{
    let v: u64 = (n as u64) % 0x1_0000_0000;
    let ghost before = out@;
    out.push((v % 256) as u8);
    out.push(((v / 256) % 256) as u8);
    out.push(((v / 0x1_0000) % 256) as u8);
    out.push(((v / 0x100_0000) % 256) as u8);
    proof {
        reveal_with_fuel(crate::bytes::pow256, 5);
        let le = le_bytes(n as nat % 0x1_0000_0000, 4);
        assert(le[0] == ((v as nat / 1) % 256) as u8);
        assert(le[1] == ((v as nat / 256) % 256) as u8);
        assert(le[2] == ((v as nat / 0x1_0000) % 256) as u8);
        assert(le[3] == ((v as nat / 0x100_0000) % 256) as u8);
    }
    assert(out@ =~= before + le_bytes(n as nat % 0x1_0000_0000, 4));
}

/// Appends the 8 little-endian bytes of `v`.
fn push_u64(out: &mut Vec<u8>, v: u64)
    ensures
        final(out)@ == old(out)@ + le_bytes(v as nat, 8),
{
    crate::bytes::push_u64_le(out, v);
}

/// The input buffer of a run (see [`serialized_accounts`]).
pub fn serialize_accounts(accounts: &Vec<(SvmAccountMeta, AccountUpdate)>) -> (buffer: Vec<u8>)
    ensures
        buffer@ == serialized_accounts(accounts@),
{
    let mut buffer: Vec<u8> = Vec::new();
    push_u32_le(&mut buffer, accounts.len());
    let mut i: usize = 0;
    assert(accounts@.take(0) =~= Seq::<(SvmAccountMeta, AccountUpdate)>::empty());
    while i < accounts.len()
        invariant
            i <= accounts@.len(),
            buffer@ == le_bytes(accounts@.len() % 0x1_0000_0000, 4) + accounts_bytes(accounts@.take(i as int)),
        decreases accounts.len() - i,
    {
        let (meta, update) = (&accounts[i].0, &accounts[i].1);
        let ghost before = buffer@;
        push_bytes(&mut buffer, &meta.pubkey);
        push_u64(&mut buffer, update.lamports);
        buffer.push(if meta.is_signer { 1 } else { 0 });
        buffer.push(if meta.is_writable { 1 } else { 0 });
        push_u32_le(&mut buffer, update.data.len());
        push_bytes(&mut buffer, update.data.as_slice());
        proof {
            assert(accounts@.take(i + 1).drop_last() =~= accounts@.take(i as int));
            assert(accounts@.take(i + 1).last() == accounts@[i as int]);
            assert(buffer@ =~= before + account_bytes(*meta, *update));
        }
        i = i + 1;
    }
    assert(accounts@.take(accounts@.len() as int) =~= accounts@);
    buffer
}

/// The updates of the writable accounts, in order.
pub open spec fn writable_updates_spec(accounts: Seq<(SvmAccountMeta, AccountUpdate)>) -> Seq<AccountUpdate>
    decreases accounts.len(),
{
    if accounts.len() == 0 {
        Seq::empty()
    } else {
        let prev = writable_updates_spec(accounts.drop_last());
        if accounts.last().0.is_writable { prev.push(accounts.last().1) } else { prev }
    }
}

/// Copies an account update.
fn copy_update(u: &AccountUpdate) -> (r: AccountUpdate)
    ensures
        r.lamports == u.lamports,
        r.data@ == u.data@,
{
    let mut data: Vec<u8> = Vec::new();
    push_bytes(&mut data, u.data.as_slice());
    AccountUpdate { lamports: u.lamports, data }
}

/// The updates of the writable accounts, which a run reports where the
/// program reported none.
pub fn writable_updates(accounts: &Vec<(SvmAccountMeta, AccountUpdate)>) -> (r: Vec<AccountUpdate>)
    ensures
        r@.len() == writable_updates_spec(accounts@).len(),
        forall|i: int| 0 <= i < r@.len() ==> (#[trigger] r@[i]).lamports == writable_updates_spec(accounts@)[i].lamports
            && r@[i].data@ == writable_updates_spec(accounts@)[i].data@,
{
    let mut r: Vec<AccountUpdate> = Vec::new();
    let mut i: usize = 0;
    assert(accounts@.take(0) =~= Seq::<(SvmAccountMeta, AccountUpdate)>::empty());
    while i < accounts.len()
        invariant
            i <= accounts@.len(),
            r@.len() == writable_updates_spec(accounts@.take(i as int)).len(),
            forall|k: int| 0 <= k < r@.len() ==> (#[trigger] r@[k]).lamports == writable_updates_spec(accounts@.take(i as int))[k].lamports
                && r@[k].data@ == writable_updates_spec(accounts@.take(i as int))[k].data@,
        decreases accounts.len() - i,
    {
        let ghost pre = accounts@.take(i + 1);
        assert(pre.drop_last() =~= accounts@.take(i as int));
        assert(pre.last() == accounts@[i as int]);
        if accounts[i].0.is_writable {
            let u = copy_update(&accounts[i].1);
            r.push(u);
        }
        i = i + 1;
    }
    assert(accounts@.take(accounts@.len() as int) =~= accounts@);
    r
}

/// The metering state of a run.
pub struct AtlasSyscallContext {
    pub compute_units_remaining: u64,
    pub compute_units_used: u64,
    /// What the program logged.
    pub logs: Vec<Vec<u8>>,
    pub return_data: Vec<u8>,
}

impl AtlasSyscallContext {
    /// A context with the whole budget left.
    pub fn new(compute_limit: u64) -> (c: AtlasSyscallContext)
        ensures
            c.compute_units_remaining == compute_limit,
            c.compute_units_used == 0,
            c.logs@.len() == 0,
            c.return_data@.len() == 0,
    {
        AtlasSyscallContext { compute_units_remaining: compute_limit, compute_units_used: 0, logs: Vec::new(), return_data: Vec::new() }
    }

    /// Meters `amount` units, saturating both ways.
    pub fn consume(&mut self, amount: u64)
        ensures
            final(self).compute_units_used == (if old(self).compute_units_used + amount > u64::MAX { u64::MAX as int } else { old(self).compute_units_used + amount }),
            final(self).compute_units_remaining == (if old(self).compute_units_remaining >= amount { old(self).compute_units_remaining - amount } else { 0 }),
            final(self).logs@ == old(self).logs@,
            final(self).return_data@ == old(self).return_data@,
    {
        self.compute_units_used = self.compute_units_used.saturating_add(amount);
        self.compute_units_remaining = self.compute_units_remaining.saturating_sub(amount);
    }

    /// The units left.
    pub fn get_remaining(&self) -> (r: u64)
        ensures
            r == self.compute_units_remaining,
    {
        self.compute_units_remaining
    }
}

/// The state root of a run: BLAKE2-256 of its logs and return data in
/// order, or zero where there are none.
pub open spec fn run_state_root(logs: Seq<Vec<u8>>, return_data: Seq<u8>) -> Seq<u8> {
    let data = logs.map_values(|l: Vec<u8>| l@).flatten() + return_data;
    if data.len() == 0 { zero32() } else { blake2_256_spec(data) }
}

/// The state root of a run (see [`run_state_root`]).
pub fn compute_state_root(logs: &Vec<Vec<u8>>, return_data: &[u8]) -> (root: [u8; 32])
    ensures
        root@ == run_state_root(logs@, return_data@),
{
    let mut data: Vec<u8> = Vec::new();
    let mut i: usize = 0;
    assert(logs@.take(0).map_values(|l: Vec<u8>| l@).flatten() =~= Seq::<u8>::empty());
    while i < logs.len()
        invariant
            i <= logs@.len(),
            data@ == logs@.take(i as int).map_values(|l: Vec<u8>| l@).flatten(),
        decreases logs.len() - i,
    {
        push_bytes(&mut data, logs[i].as_slice());
        proof {
            let pre = logs@.take(i + 1).map_values(|l: Vec<u8>| l@);
            assert(pre.drop_last() =~= logs@.take(i as int).map_values(|l: Vec<u8>| l@));
            assert(pre.last() == logs@[i as int]@);
            let q = pre.drop_last();
            assert(pre =~= q.push(pre.last()));
            q.lemma_flatten_push(pre.last());
        }
        i = i + 1;
    }
    assert(logs@.take(logs@.len() as int) =~= logs@);
    push_bytes(&mut data, return_data);
    if data.len() == 0 {
        let z = [0u8; 32];
        assert(z@ =~= zero32());
        return z;
    }
    blake2_256(data.as_slice())
}

/// How the machine's run ended: the program's return value, or a fault.
#[derive(Clone, Copy, Debug, PartialEq, Eq, Structural)]
pub enum ProgramOutcome {
    Returned(u64),
    Faulted,
}

/// Settles a run of `instruction_count` instructions: the context meters
/// them; a run that used up the budget fails; otherwise a return value of
/// zero is success, its low byte the output, and the state root covers the
/// logs and the output.
pub fn finish_bpf_run(context: &mut AtlasSyscallContext, instruction_count: u64, compute_unit_limit: u64, outcome: ProgramOutcome) -> (r: Result<SvmExecutionResult, SvmError>)
    ensures
        final(context).compute_units_used == (if old(context).compute_units_used + instruction_count > u64::MAX { u64::MAX as int } else { old(context).compute_units_used + instruction_count }),
        final(context).compute_units_remaining == (if old(context).compute_units_remaining >= instruction_count { old(context).compute_units_remaining - instruction_count } else { 0 }),
        (final(context).compute_units_remaining == 0 && instruction_count >= compute_unit_limit) ==> r == Err::<SvmExecutionResult, SvmError>(SvmError::OutOfComputeUnits),
        !(final(context).compute_units_remaining == 0 && instruction_count >= compute_unit_limit) ==> (r matches Ok(res) && {
            let output = match outcome {
                ProgramOutcome::Returned(v) => seq![(v % 256) as u8],
                ProgramOutcome::Faulted => Seq::<u8>::empty(),
            };
            &&& res.success == (outcome == ProgramOutcome::Returned(0))
            &&& res.output@ == output
            &&& res.compute_units_used == final(context).compute_units_used
            &&& res.account_updates@.len() == 0
            &&& res.logs@ == old(context).logs@
            &&& res.state_root@ == run_state_root(old(context).logs@, output)
        }),
{
    context.consume(instruction_count);
    if context.get_remaining() == 0 && instruction_count >= compute_unit_limit {
        return Err(SvmError::OutOfComputeUnits);
    }
    let (success, return_data) = match outcome {
        ProgramOutcome::Returned(v) => {
            let mut d: Vec<u8> = Vec::new();
            d.push((v % 256) as u8);
            (v == 0, d)
        },
        ProgramOutcome::Faulted => (false, Vec::new()),
    };
    let state_root = compute_state_root(&context.logs, return_data.as_slice());
    let mut logs: Vec<Vec<u8>> = Vec::new();
    std::mem::swap(&mut logs, &mut context.logs);
    Ok(SvmExecutionResult { success, output: return_data, compute_units_used: context.compute_units_used, account_updates: Vec::new(), logs, state_root })
}

/// A program that returns zero: `mov r0, 0; exit`.
pub fn create_test_program() -> (p: Vec<u8>)
    ensures
        p@ == seq![0xb7u8, 0, 0, 0, 0, 0, 0, 0, 0x95, 0, 0, 0, 0, 0, 0, 0],
{
    vec![0xb7, 0x00, 0x00, 0x00, 0x00, 0x00, 0x00, 0x00, 0x95, 0x00, 0x00, 0x00, 0x00, 0x00, 0x00, 0x00]
}

} // verus!
