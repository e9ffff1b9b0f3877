//! X3 economic engine: EIP-1559 style base fee market with a 70/30 burn /
//! validator split, commit-reveal proofs against MEV, and a slashing
//! insurance fund fed with 5% of slashed stake.

use vstd::prelude::*;
use crate::bytes::hash32_eq;
use crate::hashing::{blake2_256, blake2_256_spec};
use crate::strmap::StrMap;

verus! {

/// Parts per million of a `Permill` built from `parts` (capped at one million).
pub open spec fn permill_parts(parts: u32) -> u32 {
    if parts > 1_000_000 { 1_000_000 } else { parts }
}

/// `Permill::from_parts(parts).deconstruct()`: the parts, capped at one million.
pub fn permill_from_parts(parts: u32) -> (p: u32)
    ensures
        p == permill_parts(parts),
{
    if parts > 1_000_000 { 1_000_000 } else { parts }
}

/// `(x as u64).saturating_mul(parts) / 1_000_000`: the share of the low 64
/// bits of `x` at `parts` per million, computed in saturating 64-bit arithmetic.
pub open spec fn share_of(x: u128, parts: u32) -> u64 {
    let p = (x as u64) as int * parts as int;
    let sat: int = if p > u64::MAX { u64::MAX as int } else { p };
    (sat / 1_000_000) as u64
}

fn share(x: u128, parts: u32) -> (s: u64)
    ensures
        s == share_of(x, parts),
{
    let prod: u64 = match (x as u64).checked_mul(parts as u64) {
        Some(v) => v,
        None => u64::MAX,
    };
    prod / 1_000_000
}

/// EIP-1559 style dynamic base fee market.
#[derive(Clone, Debug)]
pub struct Eip1559FeeMarket {
    /// Current base fee in units.
    pub base_fee: u128,
    /// Target block fullness percentage (0-100).
    target_fullness: u8,
    /// Adjustment factor per block (parts per million).
    adjustment_factor: u32,
}

/// Base fee after a block that was `fullness_pct` percent full.
pub open spec fn adjusted_base_fee(base_fee: u128, target: u8, factor: u32, fullness_pct: u8) -> u128 {
    let d = share_of(base_fee, permill_parts(factor));
    if fullness_pct > target {
        if base_fee + d > u128::MAX { u128::MAX } else { (base_fee + d) as u128 }
    } else if fullness_pct < target {
        if base_fee - d < 0 { 0 } else { (base_fee - d) as u128 }
    } else {
        base_fee
    }
}

/// How the base fee moves with fullness: above the target it rises by the
/// base fee's share at the adjustment factor (saturating at the largest
/// fee), below the target it falls by that share (not below 0), and at the
/// target it stays. So a fuller block never lowers the fee and an emptier
/// one never raises it.
pub proof fn lemma_base_fee_direction(base_fee: u128, target: u8, factor: u32, fullness_pct: u8)
    ensures
        fullness_pct > target ==> adjusted_base_fee(base_fee, target, factor, fullness_pct) as int == if base_fee + share_of(base_fee, permill_parts(factor)) > u128::MAX {
            u128::MAX as int
        } else {
            base_fee + share_of(base_fee, permill_parts(factor))
        },
        fullness_pct < target ==> adjusted_base_fee(base_fee, target, factor, fullness_pct) as int == if base_fee < share_of(base_fee, permill_parts(factor)) {
            0
        } else {
            base_fee - share_of(base_fee, permill_parts(factor))
        },
        fullness_pct == target ==> adjusted_base_fee(base_fee, target, factor, fullness_pct) == base_fee,
        fullness_pct > target ==> adjusted_base_fee(base_fee, target, factor, fullness_pct) >= base_fee,
        fullness_pct < target ==> adjusted_base_fee(base_fee, target, factor, fullness_pct) <= base_fee,
{
}

/// The share of a fee at a factor is the fee's factor parts per million,
/// rounded down, for fees and factors whose product stays within 64 bits:
/// a 12.5% factor on a fee of 1000 raises it to 1125.
pub proof fn lemma_share_is_parts_per_million(base_fee: u128, parts: u32)
    requires
        base_fee <= u64::MAX,
        base_fee * parts <= u64::MAX,
    ensures
        share_of(base_fee, parts) as int == base_fee * parts / 1_000_000,
{
    assert((base_fee as u64) as int == base_fee);
}

impl Eip1559FeeMarket {
    /// Current base fee.
    pub closed spec fn fee(&self) -> u128 {
        self.base_fee
    }

    /// Target fullness (percent).
    pub closed spec fn target(&self) -> u8 {
        self.target_fullness
    }

    /// Adjustment factor (parts per million).
    pub closed spec fn factor(&self) -> u32 {
        self.adjustment_factor
    }

    /// Create a fee market with the given initial base fee, a 50% target
    /// fullness and a 12.5% adjustment per block.
    pub fn new(initial_base_fee: u128) -> (m: Self)
        ensures
            m.fee() == initial_base_fee,
            m.target() == 50,
            m.factor() == 125_000,
    {
        Eip1559FeeMarket { base_fee: initial_base_fee, target_fullness: 50, adjustment_factor: 125_000 }
    }

    /// Adjust the base fee for a block that was `fullness_pct` percent full:
    /// above target raises it, below target lowers it, by the adjustment factor.
    pub fn adjust_base_fee_percent(&mut self, fullness_pct: u8)
        ensures
            final(self).fee() == adjusted_base_fee(old(self).fee(), old(self).target(), old(self).factor(), fullness_pct),
            final(self).target() == old(self).target(),
            final(self).factor() == old(self).factor(),
    {
        if fullness_pct > self.target_fullness {
            let increase = share(self.base_fee, permill_from_parts(self.adjustment_factor));
            self.base_fee = self.base_fee.saturating_add(increase as u128);
        } else if fullness_pct < self.target_fullness {
            let decrease = share(self.base_fee, permill_from_parts(self.adjustment_factor));
            self.base_fee = self.base_fee.saturating_sub(decrease as u128);
        }
    }

    /// Split a fee: 70% burned, 30% to validators.
    pub fn split_fee(&self, total_fee: u128) -> (r: (u128, u128))
        requires
            total_fee * 70 <= u128::MAX,
        ensures
            r.0 == total_fee * 70 / 100,
            r.1 == total_fee - total_fee * 70 / 100,
            r.0 + r.1 == total_fee,
    {
        let burn = (total_fee * 70) / 100;
        let validator = total_fee - burn;
        (burn, validator)
    }
}

/// Commit-reveal proof for MEV protection.
#[derive(Clone, Debug)]
pub struct CommitRevealProof {
    /// Hash of the transaction data.
    pub commit_hash: [u8; 32],
    /// Full transaction data (revealed in the next block).
    pub tx_data: Vec<u8>,
    /// Block height when committed.
    pub commit_height: u32,
    /// Signature that authorizes the reveal.
    pub signature: Vec<u8>,
}

/// The commit hash of a proof matches its data.
pub open spec fn commit_matches(p: CommitRevealProof) -> bool {
    p.commit_hash@ == blake2_256_spec(p.tx_data@)
}

/// Hash of transaction data (BLAKE2b-256).
fn sha256(data: &[u8]) -> (h: [u8; 32])
    ensures
        h@ == blake2_256_spec(data@),
{
    let hasher = blake2_256(data);
    let mut result = [0u8; 32];
    let mut i: usize = 0;
    while i < 32
        invariant
            i <= 32,
            hasher@ == blake2_256_spec(data@),
            hasher@.len() == 32,
            forall|j: int| 0 <= j < i ==> result@[j] == hasher@[j],
        decreases 32 - i,
    {
        result[i] = hasher[i];
        i = i + 1;
    }
    assert(result@ =~= hasher@);
    result
}

impl CommitRevealProof {
    /// Commit to `tx_data`: its hash, height 0.
    pub fn new(tx_data: Vec<u8>, signature: Vec<u8>) -> (p: Self)
        ensures
            p.commit_hash@ == blake2_256_spec(tx_data@),
            p.tx_data == tx_data,
            p.commit_height == 0,
            p.signature == signature,
            commit_matches(p),
    {
        let commit_hash = sha256(tx_data.as_slice());
        CommitRevealProof { commit_hash, tx_data, commit_height: 0, signature }
    }

    /// The commit hash matches the data.
    pub fn verify(&self) -> (b: bool)
        ensures
            b == commit_matches(*self),
    {
        let hash = sha256(self.tx_data.as_slice());
        hash32_eq(&hash, &self.commit_hash)
    }
}

/// Slashing insurance fund.
pub struct SlashingInsuranceFund {
    /// Balance of the insurance pool.
    pub pool_balance: u128,
    /// Contribution rate in parts per million (5%).
    contribution_rate: u32,
    /// Outstanding claims: claim id -> amount.
    claims: StrMap<u128>,
    /// Approved claims: claim id -> amount paid.
    approved_claims: StrMap<u128>,
}

impl SlashingInsuranceFund {
    /// Internal maps are well formed.
    pub closed spec fn wf(&self) -> bool {
        self.claims.wf() && self.approved_claims.wf() && self.contribution_rate == 50_000
    }

    /// Pool balance.
    pub closed spec fn pool(&self) -> u128 {
        self.pool_balance
    }

    /// Outstanding claims.
    pub closed spec fn claims_view(&self) -> Map<Seq<char>, u128> {
        self.claims@
    }

    /// Approved claims.
    pub closed spec fn approved_view(&self) -> Map<Seq<char>, u128> {
        self.approved_claims@
    }

    /// An empty fund contributing 5% of slashes.
    pub fn new() -> (f: Self)
        ensures
            f.wf(),
            f.pool() == 0,
            f.claims_view() == Map::<Seq<char>, u128>::empty(),
            f.approved_view() == Map::<Seq<char>, u128>::empty(),
    {
        SlashingInsuranceFund {
            pool_balance: 0,
            contribution_rate: 50_000,
            claims: StrMap::new(),
            approved_claims: StrMap::new(),
        }
    }

    /// Add 5% of a slashed amount to the pool.
    pub fn contribute_from_slash(&mut self, slash_amount: u128)
        requires
            old(self).wf(),
        ensures
            final(self).wf(),
            final(self).pool() == (if old(self).pool() + share_of(slash_amount, 50_000) > u128::MAX {
                u128::MAX
            } else {
                (old(self).pool() + share_of(slash_amount, 50_000)) as u128
            }),
            final(self).claims_view() == old(self).claims_view(),
            final(self).approved_view() == old(self).approved_view(),
    {
        let contribution = share(slash_amount, self.contribution_rate);
        self.pool_balance = self.pool_balance.saturating_add(contribution as u128);
    }

    /// File a claim (replacing any earlier claim with the same id).
    pub fn file_claim(&mut self, claim_id: String, amount: u128)
        requires
            old(self).wf(),
        ensures
            final(self).wf(),
            final(self).claims_view() == old(self).claims_view().insert(claim_id@, amount),
            final(self).approved_view() == old(self).approved_view(),
            final(self).pool() == old(self).pool(),
    {
        self.claims.insert(claim_id, amount);
    }

    /// Approve or deny a claim. An approved claim is paid only when the pool
    /// covers it; a denied or unpaid claim stays outstanding.
    pub fn process_claim(&mut self, claim_id: &str, approve: bool) -> (paid: bool)
        requires
            old(self).wf(),
        ensures
            final(self).wf(),
            ({
                let c = old(self).claims_view();
                let amount = c[claim_id@];
                paid == (c.dom().contains(claim_id@) && approve && old(self).pool() >= amount)
                && (paid ==> final(self).pool() == old(self).pool() - amount
                    && final(self).claims_view() == c.remove(claim_id@)
                    && final(self).approved_view() == old(self).approved_view().insert(claim_id@, amount))
                && (!paid ==> final(self).pool() == old(self).pool()
                    && final(self).claims_view() == c
                    && final(self).approved_view() == old(self).approved_view())
            }),
    {
        match self.claims.remove(claim_id) {
            Some(amount) => {
                if approve && self.pool_balance >= amount {
                    self.pool_balance = self.pool_balance - amount;
                    self.approved_claims.insert(claim_id.to_owned(), amount);
                    true
                } else {
                    self.claims.insert(claim_id.to_owned(), amount);
                    proof {
                        assert(self.claims@ =~= old(self).claims@);
                    }
                    false
                }
            },
            None => false,
        }
    }
}

/// Complete economic engine.
pub struct EconomicEngine {
    pub fee_market: Eip1559FeeMarket,
    pub mev_protection: CommitRevealProof,
    pub insurance_fund: SlashingInsuranceFund,
    pub total_fees_collected: u128,
    pub total_burned: u128,
    pub total_staked_rewards: u128,
}

/// `a + b`, saturating at `u128::MAX`.
pub open spec fn sat_add(a: u128, b: u128) -> u128 {
    if a + b > u128::MAX { u128::MAX } else { (a + b) as u128 }
}

impl EconomicEngine {
    /// Engine with a fresh fee market, an empty commit-reveal proof and an empty fund.
    pub fn new(initial_base_fee: u128) -> (e: Self)
        ensures
            e.insurance_fund.wf(),
            e.fee_market.fee() == initial_base_fee,
            e.fee_market.target() == 50,
            e.fee_market.factor() == 125_000,
            e.mev_protection.tx_data@.len() == 0,
            commit_matches(e.mev_protection),
            e.insurance_fund.pool() == 0,
            e.total_fees_collected == 0 && e.total_burned == 0 && e.total_staked_rewards == 0,
    {
        let proof = CommitRevealProof::new(Vec::new(), Vec::new());
        EconomicEngine {
            fee_market: Eip1559FeeMarket::new(initial_base_fee),
            mev_protection: proof,
            insurance_fund: SlashingInsuranceFund::new(),
            total_fees_collected: 0,
            total_burned: 0,
            total_staked_rewards: 0,
        }
    }

    /// Process a transaction in a block that was `fullness_pct` percent full:
    /// commit to the transaction, charge the current base fee and split it,
    /// then adjust the base fee for the next block. Returns (burned,
    /// validator reward).
    pub fn process_transaction_percent(&mut self, tx_data: Vec<u8>, fullness_pct: u8) -> (r: (u128, u128))
        requires
            old(self).fee_market.fee() * 70 <= u128::MAX,
        ensures
            ({
                let fee = old(self).fee_market.fee();
                &&& final(self).fee_market.fee() == adjusted_base_fee(fee, old(self).fee_market.target(), old(self).fee_market.factor(), fullness_pct)
                &&& final(self).fee_market.target() == old(self).fee_market.target()
                &&& final(self).fee_market.factor() == old(self).fee_market.factor()
                &&& r.0 == fee * 70 / 100
                &&& r.1 == fee - fee * 70 / 100
                &&& final(self).mev_protection.tx_data == tx_data
                &&& commit_matches(final(self).mev_protection)
                &&& final(self).total_fees_collected == sat_add(old(self).total_fees_collected, fee)
                &&& final(self).total_burned == sat_add(old(self).total_burned, r.0)
                &&& final(self).total_staked_rewards == sat_add(old(self).total_staked_rewards, r.1)
                &&& final(self).insurance_fund == old(self).insurance_fund
            }),
    {
        let proof = CommitRevealProof::new(tx_data, Vec::new());
        self.mev_protection = proof;
        let total_fee = self.fee_market.base_fee;
        let (burned, validator_reward) = self.fee_market.split_fee(total_fee);
        self.total_fees_collected = self.total_fees_collected.saturating_add(total_fee);
        self.total_burned = self.total_burned.saturating_add(burned);
        self.total_staked_rewards = self.total_staked_rewards.saturating_add(validator_reward);
        self.fee_market.adjust_base_fee_percent(fullness_pct);
        (burned, validator_reward)
    }

    /// Slash a validator: 5% of the amount goes to the insurance fund.
    pub fn slash_validator(&mut self, amount: u128)
        requires
            old(self).insurance_fund.wf(),
        ensures
            final(self).insurance_fund.wf(),
            final(self).insurance_fund.pool() == sat_add(old(self).insurance_fund.pool(), share_of(amount, 50_000) as u128),
            final(self).insurance_fund.claims_view() == old(self).insurance_fund.claims_view(),
            final(self).insurance_fund.approved_view() == old(self).insurance_fund.approved_view(),
            final(self).fee_market == old(self).fee_market,
            final(self).total_fees_collected == old(self).total_fees_collected,
            final(self).total_burned == old(self).total_burned,
            final(self).total_staked_rewards == old(self).total_staked_rewards,
    {
        self.insurance_fund.contribute_from_slash(amount);
    }
}

} // verus!
