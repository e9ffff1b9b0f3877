//! The dispute court: disputes are filed against agents and resolved by
//! comparing the disputed execution's proof chain with a deterministic
//! replay. Verdicts are final and carry a SHA-256 hash of their contents.
//!
//! Checking and comparing proof chains is done by the proof layer; the court
//! takes its findings (is the disputed chain valid, did the replay match) as
//! arguments.

use vstd::prelude::*;
use crate::bytes::{le_bytes, push_bytes, push_u128_le, push_u64_le};
use crate::hashing::{sha256, sha256_spec};

verus! {

/// A 32-byte hash.
pub type Hash256 = [u8; 32];

/// A block height.
pub type BlockHeight = u64;

/// An intent identifier.
pub type IntentId = [u8; 32];

/// An agent's identity.
#[derive(Clone, Copy, Debug)]
pub struct AgentIdentity {
    pub pubkey: [u8; 32],
    pub ephemeral: bool,
}

/// Dispute identifier.
#[derive(Clone, Copy, Debug, PartialEq, Eq, Structural)]
pub struct DisputeId(pub u64);

/// Dispute lifecycle state.
#[derive(Clone, Copy, Debug, PartialEq, Eq, Structural)]
pub enum DisputeState {
    /// Dispute filed, pending replay.
    Filed,
    /// Replay in progress.
    Replaying,
    /// Verdict rendered.
    Resolved,
    /// Dispute dismissed (invalid filing or deadline passed).
    Dismissed,
}

/// The type of dispute being filed.
#[derive(Clone, Copy, Debug)]
pub enum DisputeType {
    /// Execution diverged from deterministic expectation.
    ExecutionDivergence { proof_chain_hash: Hash256 },
    /// Agent submitted an invalid proof.
    InvalidProof { proof_hash: Hash256 },
    /// Agent executed the same intent twice.
    DoubleExecution { intent_id: IntentId, first_proof: Hash256, second_proof: Hash256 },
    /// Execution result doesn't match the proof chain.
    ResultMismatch { intent_id: IntentId, claimed_result: Hash256, actual_result: Hash256 },
}

/// Verdict outcome.
#[derive(Clone, Copy, Debug, PartialEq, Eq, Structural)]
pub enum VerdictOutcome {
    /// Agent is guilty: slashing enforced.
    Guilty,
    /// Agent is not guilty: dispute dismissed.
    NotGuilty,
    /// Dispute is invalid.
    InvalidDispute,
}

/// A court verdict, immutable and final.
#[derive(Clone, Copy, Debug)]
pub struct VerdictRecord {
    pub dispute_id: DisputeId,
    pub outcome: VerdictOutcome,
    pub rendered_at: BlockHeight,
    pub replay_proof_hash: Option<Hash256>,
    pub slash_amount: u128,
    pub verdict_hash: Hash256,
}

/// A dispute filed with the court.
#[derive(Clone, Copy, Debug)]
pub struct Dispute {
    pub id: DisputeId,
    pub dispute_type: DisputeType,
    pub respondent: AgentIdentity,
    pub filed_at: BlockHeight,
    pub deadline: BlockHeight,
    pub state: DisputeState,
    pub verdict: Option<VerdictRecord>,
}

/// Court configuration.
#[derive(Clone, Copy, Debug)]
pub struct CourtConfig {
    /// Maximum blocks allowed for dispute resolution.
    pub finality_window: u64,
    /// Minimum bond required to file a dispute.
    pub dispute_bond: u128,
    /// Whether auto-slashing is enabled on guilty verdicts.
    pub auto_slash: bool,
}

impl Default for CourtConfig {
    fn default() -> (c: Self)
        ensures
            c.finality_window == 100 && c.dispute_bond == 100_000 && c.auto_slash,
    {
        CourtConfig { finality_window: 100, dispute_bond: 100_000, auto_slash: true }
    }
}

/// Court errors.
#[derive(Clone, Copy, Debug, PartialEq, Eq, Structural)]
pub enum CourtError {
    DisputeNotFound(DisputeId),
    DisputeNotFileable(DisputeId),
    DeadlineExceeded(DisputeId),
    DuplicateDispute(DisputeId),
}

/// What comparing the disputed proof chain with the replay found.
#[derive(Clone, Copy, Debug)]
pub enum ChainComparison {
    /// Both chains agree; the common chain hash.
    Matched { chain_hash: Hash256 },
    /// The chains diverge; the replay's chain hash.
    Diverged { replay_hash: Hash256 },
}

/// The registry of all disputes; each id appears once.
pub struct CourtDocket {
    disputes: Vec<Dispute>,
}

/// The position of the dispute with id `id`, if any.
pub open spec fn position_of(ds: Seq<Dispute>, id: DisputeId) -> Option<int> {
    if exists|i: int| 0 <= i < ds.len() && ds[i].id == id {
        Some(choose|i: int| 0 <= i < ds.len() && ds[i].id == id)
    } else {
        None
    }
}

/// The ids of `ds` are distinct.
pub open spec fn distinct_ids(ds: Seq<Dispute>) -> bool {
    forall|i: int, j: int| 0 <= i < ds.len() && 0 <= j < ds.len() && i != j ==> ds[i].id != ds[j].id
}

/// `ds` with the dispute at `i` moved to `state` (and given `verdict`).
pub open spec fn with_state(ds: Seq<Dispute>, i: int, state: DisputeState, verdict: Option<VerdictRecord>) -> Seq<Dispute> {
    ds.update(i, Dispute { state, verdict, ..ds[i] })
}

impl CourtDocket {
    /// The disputes, in filing order.
    pub closed spec fn disputes(&self) -> Seq<Dispute> {
        self.disputes@
    }

    /// An empty docket.
    pub fn new() -> (d: Self)
        ensures
            d.disputes() == Seq::<Dispute>::empty(),
    {
        CourtDocket { disputes: Vec::new() }
    }

    /// Number of disputes.
    pub fn len(&self) -> (n: usize)
        ensures
            n == self.disputes().len(),
    {
        self.disputes.len()
    }

    /// Position of the dispute with id `id`.
    fn find(&self, id: DisputeId) -> (r: Option<usize>)
        requires
            distinct_ids(self.disputes()),
        ensures
            match r {
                Some(i) => position_of(self.disputes(), id) == Some(i as int) && i < self.disputes().len(),
                None => position_of(self.disputes(), id) is None,
            },
    {
        let mut i: usize = 0;
        while i < self.disputes.len()
            invariant
                i <= self.disputes@.len(),
                distinct_ids(self.disputes@),
                forall|j: int| 0 <= j < i ==> self.disputes@[j].id != id,
            decreases self.disputes.len() - i,
        {
            if self.disputes[i].id.0 == id.0 {
                assert(exists|k: int| 0 <= k < self.disputes@.len() && self.disputes@[k].id == id);
                let ghost k = choose|k: int| 0 <= k < self.disputes@.len() && self.disputes@[k].id == id;
                assert(self.disputes@[i as int].id == id);
                assert(k == i);
                return Some(i);
            }
            i = i + 1;
        }
        None
    }

    /// The dispute with id `id`.
    pub fn get(&self, id: DisputeId) -> (r: Option<Dispute>)
        requires
            distinct_ids(self.disputes()),
        ensures
            match position_of(self.disputes(), id) {
                Some(i) => r == Some(self.disputes()[i]),
                None => r is None,
            },
    {
        match self.find(id) {
            Some(i) => Some(self.disputes[i]),
            None => None,
        }
    }

    /// Register a new dispute; refused when its id is already taken.
    pub fn register(&mut self, dispute: Dispute) -> (r: Result<(), CourtError>)
        requires
            distinct_ids(old(self).disputes()),
        ensures
            distinct_ids(final(self).disputes()),
            position_of(old(self).disputes(), dispute.id) is Some ==> r == Err::<(), CourtError>(CourtError::DuplicateDispute(dispute.id))
                && final(self).disputes() == old(self).disputes(),
            position_of(old(self).disputes(), dispute.id) is None ==> r is Ok && final(self).disputes() == old(self).disputes().push(dispute),
    {
        match self.find(dispute.id) {
            Some(_) => Err(CourtError::DuplicateDispute(dispute.id)),
            None => {
                self.disputes.push(dispute);
                Ok(())
            },
        }
    }

    fn set_state(&mut self, i: usize, state: DisputeState, verdict: Option<VerdictRecord>)
        requires
            i < old(self).disputes().len(),
            distinct_ids(old(self).disputes()),
        ensures
            final(self).disputes() == with_state(old(self).disputes(), i as int, state, verdict),
            distinct_ids(final(self).disputes()),
    {
        let d = self.disputes[i];
        self.disputes.set(i, Dispute { state, verdict, ..d });
        assert(self.disputes@ =~= with_state(old(self).disputes(), i as int, state, verdict));
    }

    /// Dismiss every filed dispute whose deadline has passed; their ids, in
    /// filing order.
    pub fn process_timeouts(&mut self, current_block: BlockHeight) -> (ids: Vec<DisputeId>)
        requires
            distinct_ids(old(self).disputes()),
        ensures
            distinct_ids(final(self).disputes()),
            final(self).disputes().len() == old(self).disputes().len(),
            forall|i: int| 0 <= i < old(self).disputes().len() ==> (#[trigger] final(self).disputes()[i]) == if timed_out(old(self).disputes()[i], current_block) {
                Dispute { state: DisputeState::Dismissed, ..old(self).disputes()[i] }
            } else {
                old(self).disputes()[i]
            },
            ids@ == timed_out_ids(old(self).disputes(), current_block),
    {
        let mut ids: Vec<DisputeId> = Vec::new();
        let mut i: usize = 0;
        while i < self.disputes.len()
            invariant
                i <= self.disputes@.len(),
                self.disputes@.len() == old(self).disputes().len(),
                distinct_ids(self.disputes@),
                forall|j: int| 0 <= j < i ==> (#[trigger] self.disputes@[j]) == if timed_out(old(self).disputes()[j], current_block) {
                    Dispute { state: DisputeState::Dismissed, ..old(self).disputes()[j] }
                } else {
                    old(self).disputes()[j]
                },
                forall|j: int| i <= j < self.disputes@.len() ==> #[trigger] self.disputes@[j] == old(self).disputes()[j],
                ids@ == timed_out_ids(old(self).disputes().take(i as int), current_block),
            decreases self.disputes.len() - i,
        {
            let d = self.disputes[i];
            proof {
                assert(old(self).disputes().take(i + 1).drop_last() =~= old(self).disputes().take(i as int));
            }
            if d.state == DisputeState::Filed && current_block > d.deadline {
                self.disputes.set(i, Dispute { state: DisputeState::Dismissed, ..d });
                ids.push(d.id);
            }
            i = i + 1;
        }
        assert(old(self).disputes().take(self.disputes@.len() as int) =~= old(self).disputes());
        ids
    }
}

/// A filed dispute whose deadline is before `current_block`.
pub open spec fn timed_out(d: Dispute, current_block: u64) -> bool {
    d.state == DisputeState::Filed && current_block > d.deadline
}

/// The ids of the timed-out disputes, in order.
pub open spec fn timed_out_ids(ds: Seq<Dispute>, current_block: u64) -> Seq<DisputeId>
    decreases ds.len(),
{
    if ds.len() == 0 {
        Seq::empty()
    } else if timed_out(ds.last(), current_block) {
        timed_out_ids(ds.drop_last(), current_block).push(ds.last().id)
    } else {
        timed_out_ids(ds.drop_last(), current_block)
    }
}

/// The byte that encodes an outcome in a verdict hash.
pub open spec fn outcome_byte(o: VerdictOutcome) -> u8 {
    match o {
        VerdictOutcome::Guilty => 0,
        VerdictOutcome::NotGuilty => 1,
        VerdictOutcome::InvalidDispute => 2,
    }
}

/// The bytes that a verdict's hash covers: the dispute id, the outcome byte,
/// the block, an optional replay hash preceded by a 0/1 tag, and the slash
/// amount.
pub open spec fn verdict_preimage(id: DisputeId, outcome: VerdictOutcome, rendered_at: u64, replay: Option<Hash256>, slash: u128) -> Seq<u8> {
    le_bytes(id.0 as nat, 8) + seq![outcome_byte(outcome)] + le_bytes(rendered_at as nat, 8) + match replay {
        Some(h) => seq![1u8] + h@,
        None => seq![0u8],
    } + le_bytes(slash as nat, 16)
}

/// `v` is the verdict rendered for `id` with the given outcome and replay
/// hash at `current_block`: no slash amount (the slashing engine sets it)
/// and the SHA-256 hash of its contents.
pub open spec fn is_rendered(v: VerdictRecord, id: DisputeId, outcome: VerdictOutcome, replay: Option<Hash256>, current_block: u64) -> bool {
    &&& v.dispute_id == id
    &&& v.outcome == outcome
    &&& v.rendered_at == current_block
    &&& v.replay_proof_hash == replay
    &&& v.slash_amount == 0
    &&& v.verdict_hash@ == sha256_spec(verdict_preimage(id, outcome, current_block, replay, 0))
}

/// The outcome of a replay dispute: an invalid disputed chain is guilty; a
/// matching replay is not guilty, a diverging one guilty, each with the
/// compared chain's hash.
pub open spec fn adjudication(chain_valid: bool, cmp: ChainComparison) -> (VerdictOutcome, Option<Hash256>) {
    if !chain_valid {
        (VerdictOutcome::Guilty, None)
    } else {
        match cmp {
            ChainComparison::Matched { chain_hash } => (VerdictOutcome::NotGuilty, Some(chain_hash)),
            ChainComparison::Diverged { replay_hash } => (VerdictOutcome::Guilty, Some(replay_hash)),
        }
    }
}

/// The court.
pub struct Court {
    docket: CourtDocket,
    config: CourtConfig,
    next_id: u64,
}

impl Court {
    /// The disputes on the docket.
    pub closed spec fn disputes(&self) -> Seq<Dispute> {
        self.docket.disputes()
    }

    /// The configuration.
    pub closed spec fn cfg(&self) -> CourtConfig {
        self.config
    }

    /// The next dispute id.
    pub closed spec fn next_id(&self) -> u64 {
        self.next_id
    }

    /// Internal consistency: dispute ids are distinct and below the next id.
    pub closed spec fn wf(&self) -> bool {
        &&& distinct_ids(self.docket.disputes())
        &&& forall|i: int| 0 <= i < self.docket.disputes().len() ==> (#[trigger] self.docket.disputes()[i]).id.0 < self.next_id
    }

    /// A court with an empty docket.
    pub fn new(config: CourtConfig) -> (c: Self)
        ensures
            c.wf(),
            c.disputes() == Seq::<Dispute>::empty(),
            c.cfg() == config,
            c.next_id() == 0,
    {
        Court { docket: CourtDocket::new(), config, next_id: 0 }
    }

    /// File a dispute: it gets the next id, is due `finality_window` blocks
    /// after `current_block`, and starts `Filed`.
    pub fn file_dispute(&mut self, dispute_type: DisputeType, respondent: AgentIdentity, current_block: BlockHeight) -> (r: Result<DisputeId, CourtError>)
        requires
            old(self).wf(),
            old(self).next_id() < u64::MAX,
            current_block + old(self).cfg().finality_window <= u64::MAX,
        ensures
            final(self).wf(),
            r == Ok::<DisputeId, CourtError>(DisputeId(old(self).next_id())),
            final(self).disputes() == old(self).disputes().push(Dispute {
                id: DisputeId(old(self).next_id()),
                dispute_type,
                respondent,
                filed_at: current_block,
                deadline: (current_block + old(self).cfg().finality_window) as u64,
                state: DisputeState::Filed,
                verdict: None,
            }),
            final(self).next_id() == old(self).next_id() + 1,
            final(self).cfg() == old(self).cfg(),
    {
        let id = DisputeId(self.next_id);
        self.next_id = self.next_id + 1;
        let dispute = Dispute {
            id,
            dispute_type,
            respondent,
            filed_at: current_block,
            deadline: current_block + self.config.finality_window,
            state: DisputeState::Filed,
            verdict: None,
        };
        proof {
            if position_of(self.docket.disputes(), id) is Some {
                let i = choose|i: int| 0 <= i < self.docket.disputes().len() && self.docket.disputes()[i].id == id;
                assert(self.docket.disputes()[i].id.0 < old(self).next_id);
            }
        }
        let registered = self.docket.register(dispute);
        match registered {
            Err(e) => Err(e),
            Ok(()) => Ok(id),
        }
    }

    /// The SHA-256 hash of a verdict's contents (see [`verdict_preimage`]).
    fn hash_verdict(verdict: &VerdictRecord) -> (h: Hash256)
        ensures
            h@ == sha256_spec(verdict_preimage(verdict.dispute_id, verdict.outcome, verdict.rendered_at, verdict.replay_proof_hash, verdict.slash_amount)),
    {
        let mut pre: Vec<u8> = Vec::new();
        push_u64_le(&mut pre, verdict.dispute_id.0);
        let ob: u8 = match verdict.outcome {
            VerdictOutcome::Guilty => 0,
            VerdictOutcome::NotGuilty => 1,
            VerdictOutcome::InvalidDispute => 2,
        };
        pre.push(ob);
        push_u64_le(&mut pre, verdict.rendered_at);
        match &verdict.replay_proof_hash {
            Some(h) => {
                pre.push(1u8);
                push_bytes(&mut pre, h);
            },
            None => {
                pre.push(0u8);
            },
        }
        push_u128_le(&mut pre, verdict.slash_amount);
        assert(pre@ =~= verdict_preimage(verdict.dispute_id, verdict.outcome, verdict.rendered_at, verdict.replay_proof_hash, verdict.slash_amount));
        sha256(pre.as_slice())
    }

    /// Render a verdict and record it on the dispute at position `i`, which
    /// becomes `Resolved`.
    fn render_verdict(&mut self, i: usize, dispute_id: DisputeId, outcome: VerdictOutcome, replay_proof_hash: Option<Hash256>, current_block: BlockHeight) -> (v: VerdictRecord)
        requires
            old(self).wf(),
            i < old(self).disputes().len(),
        ensures
            final(self).wf(),
            is_rendered(v, dispute_id, outcome, replay_proof_hash, current_block),
            final(self).disputes() == with_state(old(self).disputes(), i as int, DisputeState::Resolved, Some(v)),
            final(self).cfg() == old(self).cfg(),
            final(self).next_id() == old(self).next_id(),
    {
        let mut verdict = VerdictRecord {
            dispute_id,
            outcome,
            rendered_at: current_block,
            replay_proof_hash,
            slash_amount: 0,
            verdict_hash: [0u8; 32],
        };
        verdict.verdict_hash = Self::hash_verdict(&verdict);
        self.docket.set_state(i, DisputeState::Resolved, Some(verdict));
        proof {
            assert forall|k: int| 0 <= k < self.docket.disputes().len() implies (#[trigger] self.docket.disputes()[k]).id.0 < self.next_id by {
                assert(self.docket.disputes()[k].id == old(self).disputes()[k].id);
            }
        }
        verdict
    }

    /// Adjudicate a dispute by replay: `chain_valid` says whether the
    /// disputed proof chain verifies, `comparison` what comparing it with
    /// the replay found (see [`adjudication`]). Only a `Filed` dispute can be
    /// adjudicated; one past its deadline is dismissed instead.
    pub fn adjudicate(&mut self, dispute_id: DisputeId, chain_valid: bool, comparison: ChainComparison, current_block: BlockHeight) -> (r: Result<VerdictRecord, CourtError>)
        requires
            old(self).wf(),
        ensures
            final(self).wf(),
            final(self).cfg() == old(self).cfg(),
            final(self).next_id() == old(self).next_id(),
            match position_of(old(self).disputes(), dispute_id) {
                None => r == Err::<VerdictRecord, CourtError>(CourtError::DisputeNotFound(dispute_id)) && final(self).disputes() == old(self).disputes(),
                Some(i) => {
                    let d = old(self).disputes()[i];
                    if d.state != DisputeState::Filed {
                        r == Err::<VerdictRecord, CourtError>(CourtError::DisputeNotFileable(dispute_id)) && final(self).disputes() == old(self).disputes()
                    } else if current_block > d.deadline {
                        r == Err::<VerdictRecord, CourtError>(CourtError::DeadlineExceeded(dispute_id))
                            && final(self).disputes() == with_state(old(self).disputes(), i, DisputeState::Dismissed, d.verdict)
                    } else {
                        let (outcome, replay) = adjudication(chain_valid, comparison);
                        &&& r matches Ok(v) && is_rendered(v, dispute_id, outcome, replay, current_block)
                        &&& final(self).disputes() == with_state(old(self).disputes(), i, DisputeState::Resolved, Some(r->Ok_0))
                    }
                },
            },
    {
        let i = match self.docket.find(dispute_id) {
            Some(i) => i,
            None => {
                return Err(CourtError::DisputeNotFound(dispute_id));
            },
        };
        let d = self.docket.disputes[i];
        if d.state != DisputeState::Filed {
            return Err(CourtError::DisputeNotFileable(dispute_id));
        }
        if current_block > d.deadline {
            self.docket.set_state(i, DisputeState::Dismissed, d.verdict);
            proof {
                assert forall|k: int| 0 <= k < self.docket.disputes().len() implies (#[trigger] self.docket.disputes()[k]).id.0 < self.next_id by {
                    assert(self.docket.disputes()[k].id == old(self).disputes()[k].id);
                }
            }
            return Err(CourtError::DeadlineExceeded(dispute_id));
        }
        self.docket.set_state(i, DisputeState::Replaying, d.verdict);
        proof {
            assert forall|k: int| 0 <= k < self.docket.disputes().len() implies (#[trigger] self.docket.disputes()[k]).id.0 < self.next_id by {
                assert(self.docket.disputes()[k].id == old(self).disputes()[k].id);
            }
        }
        let ghost mid = self.disputes();
        if !chain_valid {
            let verdict = self.render_verdict(i, dispute_id, VerdictOutcome::Guilty, None, current_block);
            assert(self.disputes() =~= with_state(old(self).disputes(), i as int, DisputeState::Resolved, Some(verdict)));
            return Ok(verdict);
        }
        let (outcome, replay_hash) = match comparison {
            ChainComparison::Matched { chain_hash } => (VerdictOutcome::NotGuilty, Some(chain_hash)),
            ChainComparison::Diverged { replay_hash } => (VerdictOutcome::Guilty, Some(replay_hash)),
        };
        let verdict = self.render_verdict(i, dispute_id, outcome, replay_hash, current_block);
        assert(self.disputes() =~= with_state(old(self).disputes(), i as int, DisputeState::Resolved, Some(verdict)));
        Ok(verdict)
    }

    /// Adjudicate a double-execution dispute: guilty when both proof chains
    /// (of the first and the second execution) are non-empty. Verdicts are
    /// final: a dispute that is no longer `Filed` is refused and left as it is.
    pub fn adjudicate_double_execution(&mut self, dispute_id: DisputeId, first_chain_len: usize, second_chain_len: usize, current_block: BlockHeight) -> (r: Result<VerdictRecord, CourtError>)
        requires
            old(self).wf(),
        ensures
            final(self).wf(),
            final(self).cfg() == old(self).cfg(),
            final(self).next_id() == old(self).next_id(),
            match position_of(old(self).disputes(), dispute_id) {
                None => r == Err::<VerdictRecord, CourtError>(CourtError::DisputeNotFound(dispute_id)) && final(self).disputes() == old(self).disputes(),
                Some(i) => {
                    if old(self).disputes()[i].state != DisputeState::Filed {
                        r == Err::<VerdictRecord, CourtError>(CourtError::DisputeNotFileable(dispute_id)) && final(self).disputes() == old(self).disputes()
                    } else {
                        let outcome = if first_chain_len > 0 && second_chain_len > 0 { VerdictOutcome::Guilty } else { VerdictOutcome::NotGuilty };
                        &&& r matches Ok(v) && is_rendered(v, dispute_id, outcome, None, current_block)
                        &&& final(self).disputes() == with_state(old(self).disputes(), i, DisputeState::Resolved, Some(r->Ok_0))
                    }
                },
            },
    {
        let i = match self.docket.find(dispute_id) {
            Some(i) => i,
            None => {
                return Err(CourtError::DisputeNotFound(dispute_id));
            },
        };
        if self.docket.disputes[i].state != DisputeState::Filed {
            return Err(CourtError::DisputeNotFileable(dispute_id));
        }
        let outcome = if first_chain_len > 0 && second_chain_len > 0 { VerdictOutcome::Guilty } else { VerdictOutcome::NotGuilty };
        let verdict = self.render_verdict(i, dispute_id, outcome, None, current_block);
        Ok(verdict)
    }

    /// Dismiss the filed disputes whose deadline has passed; their ids.
    pub fn process_timeouts(&mut self, current_block: BlockHeight) -> (ids: Vec<DisputeId>)
        requires
            old(self).wf(),
        ensures
            final(self).wf(),
            final(self).disputes().len() == old(self).disputes().len(),
            forall|i: int| 0 <= i < old(self).disputes().len() ==> (#[trigger] final(self).disputes()[i]) == if timed_out(old(self).disputes()[i], current_block) {
                Dispute { state: DisputeState::Dismissed, ..old(self).disputes()[i] }
            } else {
                old(self).disputes()[i]
            },
            ids@ == timed_out_ids(old(self).disputes(), current_block),
    {
        let ids = self.docket.process_timeouts(current_block);
        proof {
            assert forall|k: int| 0 <= k < self.docket.disputes().len() implies (#[trigger] self.docket.disputes()[k]).id.0 < self.next_id by {
                assert(self.docket.disputes()[k].id == old(self).disputes()[k].id);
            }
        }
        ids
    }

    /// The court docket.
    pub fn docket(&self) -> (d: &CourtDocket)
        ensures
            d.disputes() == self.disputes(),
    {
        &self.docket
    }

    /// The configuration.
    pub fn config(&self) -> (c: &CourtConfig)
        ensures
            *c == self.cfg(),
    {
        &self.config
    }
}


/// Verdicts are final: once a dispute is resolved it stays at its position
/// and is no longer `Filed`, so adjudicating it again is refused.
pub proof fn lemma_resolved_is_final(ds: Seq<Dispute>, i: int, v: VerdictRecord)
    requires
        distinct_ids(ds),
        0 <= i < ds.len(),
    ensures
        position_of(with_state(ds, i, DisputeState::Resolved, Some(v)), ds[i].id) == Some(i),
        with_state(ds, i, DisputeState::Resolved, Some(v))[i].state != DisputeState::Filed,
        distinct_ids(with_state(ds, i, DisputeState::Resolved, Some(v))),
{
    let ds2 = with_state(ds, i, DisputeState::Resolved, Some(v));
    assert(ds2[i].id == ds[i].id);
    let k = choose|k: int| 0 <= k < ds2.len() && ds2[k].id == ds[i].id;
    assert(k == i) by {
        if k != i {
            assert(ds2[k].id == ds[k].id);
        }
    }
}

} // verus!
