//! Cross-chain position accounting: balances, snapshots and the diff of
//! two snapshots, over 256-bit unsigned amounts.

use vstd::prelude::*;

verus! {

/// A 256-bit unsigned integer, as its high and low 128-bit halves.
#[derive(Clone, Copy, Debug, PartialEq, Eq, Structural)]
pub struct U256 {
    pub hi: u128,
    pub lo: u128,
}

/// `2^128`.
pub open spec fn two_128() -> nat {
    0x1_0000_0000_0000_0000_0000_0000_0000_0000nat
}

impl U256 {
    /// The number this value stands for.
    pub open spec fn value(self) -> nat {
        self.hi as nat * two_128() + self.lo as nat
    }

    pub fn zero() -> (z: U256)
        ensures
            z.value() == 0,
            z == (U256 { hi: 0, lo: 0 }),
    {
        U256 { hi: 0, lo: 0 }
    }

    /// The value of a 128-bit integer.
    pub fn from_u128(v: u128) -> (z: U256)
        ensures
            z.value() == v,
            z.hi == 0,
    {
        U256 { hi: 0, lo: v }
    }

    /// Whether `self` is greater than zero.
    pub fn is_positive(&self) -> (r: bool)
        ensures
            r == (self.value() > 0),
    {
        self.hi != 0 || self.lo != 0
    }

    /// `self - other`, or `None` where that is negative.
    pub fn checked_sub(&self, other: &U256) -> (r: Option<U256>)
        ensures
            r is None <==> self.value() < other.value(),
            r is Some ==> r->Some_0.value() == self.value() - other.value(),
    {
        if self.hi < other.hi || (self.hi == other.hi && self.lo < other.lo) {
            proof {
                lemma_value_lt(*self, *other);
            }
            return None;
        }
        proof {
            lemma_value_ge(*self, *other);
        }
        if self.lo >= other.lo {
            let r = U256 { hi: self.hi - other.hi, lo: self.lo - other.lo };
            proof {
                assert(r.value() == self.value() - other.value()) by (nonlinear_arith)
                    requires
                        r.hi == self.hi - other.hi,
                        r.lo == self.lo - other.lo,
                        r.value() == r.hi as nat * two_128() + r.lo as nat,
                        self.value() == self.hi as nat * two_128() + self.lo as nat,
                        other.value() == other.hi as nat * two_128() + other.lo as nat;
            }
            Some(r)
        } else {
            let r = U256 { hi: self.hi - other.hi - 1, lo: (u128::MAX - other.lo) + self.lo + 1 };
            proof {
                assert(r.value() == self.value() - other.value()) by (nonlinear_arith)
                    requires
                        r.hi == self.hi - other.hi - 1,
                        r.lo == (u128::MAX - other.lo) + self.lo + 1,
                        two_128() == u128::MAX + 1,
                        r.value() == r.hi as nat * two_128() + r.lo as nat,
                        self.value() == self.hi as nat * two_128() + self.lo as nat,
                        other.value() == other.hi as nat * two_128() + other.lo as nat;
            }
            Some(r)
        }
    }

    /// `self + other`, or the largest value where that does not fit.
    pub fn saturating_add(&self, other: &U256) -> (r: U256)
        ensures
            r.value() == (if self.value() + other.value() < two_128() * two_128() { self.value() + other.value() } else { (two_128() * two_128() - 1) as nat }),
    {
        let carry: u128 = if self.lo > u128::MAX - other.lo { 1 } else { 0 };
        let lo: u128 = if carry == 1 { self.lo - (u128::MAX - other.lo) - 1 } else { self.lo + other.lo };
        proof {
            assert(self.lo as nat + other.lo as nat == carry as nat * two_128() + lo as nat);
            assert(self.value() + other.value() == (self.hi as nat + other.hi as nat + carry as nat) * two_128() + lo as nat) by (nonlinear_arith)
                requires
                    self.lo as nat + other.lo as nat == carry as nat * two_128() + lo as nat,
                    self.value() == self.hi as nat * two_128() + self.lo as nat,
                    other.value() == other.hi as nat * two_128() + other.lo as nat;
        }
        if self.hi > u128::MAX - other.hi || (carry == 1 && self.hi + other.hi == u128::MAX) {
            proof {
                let h = self.hi as nat + other.hi as nat + carry as nat;
                assert(h >= two_128());
                assert(h * two_128() + (lo as nat) >= two_128() * two_128()) by (nonlinear_arith)
                    requires h >= two_128();
                assert(u128::MAX as nat * two_128() + u128::MAX as nat == two_128() * two_128() - 1) by (nonlinear_arith)
                    requires two_128() == u128::MAX + 1;
            }
            U256 { hi: u128::MAX, lo: u128::MAX }
        } else {
            let r = U256 { hi: self.hi + other.hi + carry, lo };
            proof {
                assert(r.value() < two_128() * two_128()) by (nonlinear_arith)
                    requires
                        r.value() == r.hi as nat * two_128() + r.lo as nat,
                        r.hi <= u128::MAX,
                        r.lo <= u128::MAX,
                        two_128() == u128::MAX + 1;
            }
            r
        }
    }
}

impl U256 {
    /// `self` divided by a nonzero `d` below `2^32`: the quotient and the
    /// remainder.
    pub fn div_rem_small(&self, d: u64) -> (r: (U256, u64))
        requires
            0 < d < 0x1_0000_0000,
        ensures
            self.value() == r.0.value() * d + r.1,
            r.1 < d,
    {
        let dd = d as u128;
        let qh = self.hi / dd;
        let rh = self.hi % dd;
        let l1 = self.lo / 0x1_0000_0000_0000_0000u128;
        let l0 = self.lo % 0x1_0000_0000_0000_0000u128;
        proof {
            assert(rh < dd);
            assert(rh * 0x1_0000_0000_0000_0000 + l1 < dd * 0x1_0000_0000_0000_0000) by (nonlinear_arith)
                requires rh < dd, l1 < 0x1_0000_0000_0000_0000, dd > 0;
            assert(dd * 0x1_0000_0000_0000_0000 <= 0x1_0000_0000_0000_0000_0000_0000) by (nonlinear_arith)
                requires dd < 0x1_0000_0000;
        }
        let t1 = rh * 0x1_0000_0000_0000_0000u128 + l1;
        let q1 = t1 / dd;
        let r1 = t1 % dd;
        proof {
            assert(r1 * 0x1_0000_0000_0000_0000 + l0 < dd * 0x1_0000_0000_0000_0000) by (nonlinear_arith)
                requires r1 < dd, l0 < 0x1_0000_0000_0000_0000, dd > 0;
            assert(q1 < 0x1_0000_0000_0000_0000) by (nonlinear_arith)
                requires q1 == t1 / dd, t1 < dd * 0x1_0000_0000_0000_0000, dd > 0;
        }
        let t2 = r1 * 0x1_0000_0000_0000_0000u128 + l0;
        let q2 = t2 / dd;
        let r2 = t2 % dd;
        proof {
            assert(q2 < 0x1_0000_0000_0000_0000) by (nonlinear_arith)
                requires q2 == t2 / dd, t2 < dd * 0x1_0000_0000_0000_0000, dd > 0;
        }
        let q = U256 { hi: qh, lo: q1 * 0x1_0000_0000_0000_0000u128 + q2 };
        proof {
            let b: int = 0x1_0000_0000_0000_0000;
            vstd::arithmetic::div_mod::lemma_fundamental_div_mod(self.lo as int, b);
            vstd::arithmetic::div_mod::lemma_fundamental_div_mod(self.hi as int, dd as int);
            vstd::arithmetic::div_mod::lemma_fundamental_div_mod(t1 as int, dd as int);
            vstd::arithmetic::div_mod::lemma_fundamental_div_mod(t2 as int, dd as int);
            assert(self.lo == l1 * b + l0);
            assert(self.hi == qh * dd + rh);
            assert(t1 == q1 * dd + r1);
            assert(t2 == q2 * dd + r2);
            assert(two_128() == b * b);
            assert(self.value() == q.value() * d + r2) by (nonlinear_arith)
                requires
                    self.value() == self.hi * two_128() + self.lo,
                    q.value() == q.hi * two_128() + q.lo,
                    q.hi == qh,
                    q.lo == q1 * b + q2,
                    self.lo == l1 * b + l0,
                    self.hi == qh * dd + rh,
                    t1 == rh * b + l1,
                    t1 == q1 * dd + r1,
                    t2 == r1 * b + l0,
                    t2 == q2 * dd + r2,
                    two_128() == b * b,
                    dd == d;
        }
        (q, r2 as u64)
    }

    /// The low 64 bits.
    pub fn low_u64(&self) -> (v: u64)
        ensures
            v == self.value() % 0x1_0000_0000_0000_0000,
    {
        proof {
            assert(self.value() % 0x1_0000_0000_0000_0000 == self.lo % 0x1_0000_0000_0000_0000) by (nonlinear_arith)
                requires
                    self.value() == self.hi * two_128() + self.lo,
                    two_128() == 0x1_0000_0000_0000_0000nat * 0x1_0000_0000_0000_0000nat;
        }
        (self.lo % 0x1_0000_0000_0000_0000u128) as u64
    }

    /// The 32 big-endian bytes of the value.
    pub fn to_be_bytes(&self) -> (b: [u8; 32])
        ensures
            b@ == be_bytes32(*self),
    {
        let mut b = [0u8; 32];
        let mut hi = self.hi;
        let mut lo = self.lo;
        let mut i: usize = 0;
        proof {
            assert(crate::bytes::pow256(0) == 1);
        }
        while i < 16
            invariant
                i <= 16,
                hi as nat == self.hi as nat / crate::bytes::pow256(i as nat),
                lo as nat == self.lo as nat / crate::bytes::pow256(i as nat),
                forall|k: int| 0 <= k < i ==> #[trigger] b@[15 - k] == ((self.hi as nat / crate::bytes::pow256(k as nat)) % 256) as u8,
                forall|k: int| 0 <= k < i ==> #[trigger] b@[31 - k] == ((self.lo as nat / crate::bytes::pow256(k as nat)) % 256) as u8,
            decreases 16 - i,
        {
            b[15 - i] = (hi % 256) as u8;
            b[31 - i] = (lo % 256) as u8;
            proof {
                crate::bytes::lemma_pow256_pos(i as nat);
                vstd::arithmetic::div_mod::lemma_div_denominator(self.hi as int, crate::bytes::pow256(i as nat) as int, 256);
                vstd::arithmetic::div_mod::lemma_div_denominator(self.lo as int, crate::bytes::pow256(i as nat) as int, 256);
                assert(crate::bytes::pow256(i as nat) * 256 == crate::bytes::pow256((i + 1) as nat)) by (nonlinear_arith)
                    requires crate::bytes::pow256((i + 1) as nat) == 256 * crate::bytes::pow256(i as nat);
            }
            hi = hi / 256;
            lo = lo / 256;
            i = i + 1;
        }
        assert forall|j: int| 0 <= j < 32 implies b@[j] == be_bytes32(*self)[j] by {
            let hb = crate::bytes::le_bytes(self.hi as nat, 16);
            let lb = crate::bytes::le_bytes(self.lo as nat, 16);
            if j < 16 {
                let k = 15 - j;
                assert(b@[15 - k] == ((self.hi as nat / crate::bytes::pow256(k as nat)) % 256) as u8);
                assert(hb.reverse()[j] == hb[k]);
            } else {
                let k = 31 - j;
                assert(b@[31 - k] == ((self.lo as nat / crate::bytes::pow256(k as nat)) % 256) as u8);
                assert(lb.reverse()[j - 16] == lb[k]);
            }
        }
        assert(b@ =~= be_bytes32(*self));
        b
    }
}

/// The 32 big-endian bytes of a value: the high half's 16 bytes, then the
/// low half's.
pub open spec fn be_bytes32(v: U256) -> Seq<u8> {
    crate::bytes::le_bytes(v.hi as nat, 16).reverse() + crate::bytes::le_bytes(v.lo as nat, 16).reverse()
}

proof fn lemma_value_lt(a: U256, b: U256)
    requires
        a.hi < b.hi || (a.hi == b.hi && a.lo < b.lo),
    ensures
        a.value() < b.value(),
{
    if a.hi < b.hi {
        assert((a.hi as nat) * two_128() + (a.lo as nat) < (b.hi as nat) * two_128() + (b.lo as nat)) by (nonlinear_arith)
            requires
                a.hi < b.hi,
                a.lo < two_128();
    }
}

proof fn lemma_value_ge(a: U256, b: U256)
    requires
        !(a.hi < b.hi || (a.hi == b.hi && a.lo < b.lo)),
    ensures
        a.value() >= b.value(),
{
    if a.hi > b.hi {
        assert((a.hi as nat) * two_128() + (a.lo as nat) >= (b.hi as nat) * two_128() + (b.lo as nat)) by (nonlinear_arith)
            requires
                a.hi > b.hi,
                b.lo < two_128();
    }
}

/// The balance of one position.
#[derive(Clone, Copy, Debug)]
pub struct PositionBalance {
    /// The position's id (its 16 UUID bytes).
    pub position_id: [u8; 16],
    pub asset: [u8; 20],
    pub amount: U256,
    pub value_usd: U256,
    pub chain_id: u64,
}

/// The totals of one chain.
#[derive(Clone, Copy, Debug)]
pub struct ChainBalance {
    pub chain_id: u64,
    pub total_value_usd: U256,
    pub asset_count: usize,
    pub positions_count: usize,
}

/// A snapshot of the positions at one time.
#[derive(Clone, Debug)]
pub struct PositionSnapshot {
    pub snapshot_id: [u8; 32],
    pub timestamp: u64,
    pub positions: Vec<PositionBalance>,
    pub total_value_usd: U256,
    pub chain_breakdown: Vec<ChainBalance>,
}

/// The change of one position between two snapshots.
#[derive(Clone, Copy, Debug)]
pub struct PositionDiff {
    pub position_id: [u8; 16],
    pub old_amount: U256,
    pub new_amount: U256,
    pub old_value_usd: U256,
    pub new_value_usd: U256,
}

/// The difference between two snapshots.
#[derive(Clone, Debug)]
pub struct SnapshotDiff {
    pub from_timestamp: u64,
    pub to_timestamp: u64,
    /// Positions only the later snapshot holds.
    pub added: Vec<PositionBalance>,
    /// Positions only the earlier snapshot holds.
    pub removed: Vec<PositionBalance>,
    /// Positions whose amount or value changed.
    pub changed: Vec<PositionDiff>,
    /// The growth of the total value, or zero where it fell.
    pub total_value_change: U256,
}

/// Some position of `ps` has the id `id`.
pub open spec fn has_id(ps: Seq<PositionBalance>, id: Seq<u8>) -> bool {
    exists|j: int| 0 <= j < ps.len() && #[trigger] ps[j].position_id@ == id
}

/// `j` is the first position of `ps` with the id `id`.
pub open spec fn first_with_id(ps: Seq<PositionBalance>, id: Seq<u8>, j: int) -> bool {
    0 <= j < ps.len() && ps[j].position_id@ == id && forall|k: int| 0 <= k < j ==> #[trigger] ps[k].position_id@ != id
}

/// The positions of `ps` whose id `other` lacks, in order.
pub open spec fn missing_from(ps: Seq<PositionBalance>, other: Seq<PositionBalance>) -> Seq<PositionBalance>
    decreases ps.len(),
{
    if ps.len() == 0 {
        Seq::empty()
    } else {
        missing_from(ps.drop_last(), other) + if has_id(other, ps.last().position_id@) { Seq::empty() } else { seq![ps.last()] }
    }
}

/// The change from `old` to `new` of one position, where there is one.
pub open spec fn change_of(old: PositionBalance, new: PositionBalance) -> Seq<PositionDiff> {
    if old.amount != new.amount || old.value_usd != new.value_usd {
        seq![PositionDiff {
            position_id: new.position_id,
            old_amount: old.amount,
            new_amount: new.amount,
            old_value_usd: old.value_usd,
            new_value_usd: new.value_usd,
        }]
    } else {
        Seq::empty()
    }
}

/// The changes of the positions of `new` against the first position of
/// `old` with the same id, in the order of `new`.
pub open spec fn changes(old: Seq<PositionBalance>, new: Seq<PositionBalance>) -> Seq<PositionDiff>
    decreases new.len(),
{
    if new.len() == 0 {
        Seq::empty()
    } else {
        let p = new.last();
        changes(old, new.drop_last()) + if has_id(old, p.position_id@) {
            change_of(old[choose|j: int| first_with_id(old, p.position_id@, j)], p)
        } else {
            Seq::empty()
        }
    }
}

proof fn lemma_first_unique(ps: Seq<PositionBalance>, id: Seq<u8>, a: int, b: int)
    requires
        first_with_id(ps, id, a),
        first_with_id(ps, id, b),
    ensures
        a == b,
{
    if a < b {
        assert(ps[a].position_id@ != id);
    } else if b < a {
        assert(ps[b].position_id@ != id);
    }
}

/// Whether two position ids are equal.
fn id_eq(a: &[u8; 16], b: &[u8; 16]) -> (r: bool)
    ensures
        r == (a@ == b@),
{
    let mut i: usize = 0;
    while i < 16
        invariant
            i <= 16,
            forall|j: int| 0 <= j < i ==> a@[j] == b@[j],
        decreases 16 - i,
    {
        if a[i] != b[i] {
            return false;
        }
        i = i + 1;
    }
    assert(a@ =~= b@);
    true
}

/// The index of the first position of `ps` with the id `id`.
fn find_position(ps: &Vec<PositionBalance>, id: &[u8; 16]) -> (r: Option<usize>)
    ensures
        r is None <==> !has_id(ps@, id@),
        r is Some ==> first_with_id(ps@, id@, r->Some_0 as int),
{
    let mut j: usize = 0;
    while j < ps.len()
        invariant
            j <= ps.len(),
            forall|k: int| 0 <= k < j ==> #[trigger] ps@[k].position_id@ != id@,
        decreases ps.len() - j,
    {
        if id_eq(&ps[j].position_id, id) {
            return Some(j);
        }
        j = j + 1;
    }
    None
}

/// The difference from `snapshot1` to `snapshot2`: the positions added and
/// removed (by id), the changed ones (amount or value, against the first
/// earlier position with the same id), and the growth of the total value.
pub fn calculate_diff(snapshot1: &PositionSnapshot, snapshot2: &PositionSnapshot) -> (d: SnapshotDiff)
    ensures
        d.from_timestamp == snapshot1.timestamp,
        d.to_timestamp == snapshot2.timestamp,
        d.added@ == missing_from(snapshot2.positions@, snapshot1.positions@),
        d.removed@ == missing_from(snapshot1.positions@, snapshot2.positions@),
        d.changed@ == changes(snapshot1.positions@, snapshot2.positions@),
        d.total_value_change.value() == (if snapshot2.total_value_usd.value() >= snapshot1.total_value_usd.value() {
            snapshot2.total_value_usd.value() - snapshot1.total_value_usd.value()
        } else {
            0
        }),
{
    let p1 = &snapshot1.positions;
    let p2 = &snapshot2.positions;
    let mut added: Vec<PositionBalance> = Vec::new();
    let mut changed: Vec<PositionDiff> = Vec::new();
    let mut i: usize = 0;
    while i < p2.len()
        invariant
            i <= p2.len(),
            added@ == missing_from(p2@.take(i as int), p1@),
            changed@ == changes(p1@, p2@.take(i as int)),
        decreases p2.len() - i,
    {
        let pos2 = p2[i];
        proof {
            assert(p2@.take(i + 1).drop_last() =~= p2@.take(i as int));
            assert(p2@.take(i + 1).last() == pos2);
        }
        match find_position(p1, &pos2.position_id) {
            Some(j) => {
                let pos1 = p1[j];
                proof {
                    let c = choose|k: int| first_with_id(p1@, pos2.position_id@, k);
                    lemma_first_unique(p1@, pos2.position_id@, c, j as int);
                }
                let ghost before = changed@;
                if pos1.amount != pos2.amount || pos1.value_usd != pos2.value_usd {
                    changed.push(PositionDiff {
                        position_id: pos2.position_id,
                        old_amount: pos1.amount,
                        new_amount: pos2.amount,
                        old_value_usd: pos1.value_usd,
                        new_value_usd: pos2.value_usd,
                    });
                }
                proof {
                    assert(changed@ =~= before + change_of(pos1, pos2));
                    assert(added@ =~= missing_from(p2@.take(i + 1), p1@));
                }
            },
            None => {
                added.push(pos2);
                proof {
                    assert(changed@ =~= changes(p1@, p2@.take(i + 1)));
                }
            },
        }
        i = i + 1;
    }
    proof {
        assert(p2@.take(p2.len() as int) =~= p2@);
    }
    let mut removed: Vec<PositionBalance> = Vec::new();
    let mut k: usize = 0;
    while k < p1.len()
        invariant
            k <= p1.len(),
            removed@ == missing_from(p1@.take(k as int), p2@),
        decreases p1.len() - k,
    {
        let pos1 = p1[k];
        proof {
            assert(p1@.take(k + 1).drop_last() =~= p1@.take(k as int));
            assert(p1@.take(k + 1).last() == pos1);
        }
        if find_position(p2, &pos1.position_id).is_none() {
            removed.push(pos1);
        }
        k = k + 1;
    }
    proof {
        assert(p1@.take(p1.len() as int) =~= p1@);
    }
    let total_value_change = match snapshot2.total_value_usd.checked_sub(&snapshot1.total_value_usd) {
        Some(v) => v,
        None => U256::zero(),
    };
    SnapshotDiff {
        from_timestamp: snapshot1.timestamp,
        to_timestamp: snapshot2.timestamp,
        added,
        removed,
        changed,
        total_value_change,
    }
}


/// What can go wrong in position management.
#[derive(Clone, Debug, PartialEq, Eq)]
pub enum PositionManagerError {
    /// No price is known for the asset (its debug form).
    PriceFeedNotFound(String),
    ArithmeticOverflow,
    /// The chain has no configuration.
    ChainNotFound(u64),
    /// The chain has no DEX router.
    DexRouterNotFound(u64),
    /// No bridge joins the two chains.
    BridgeNotFound(u64, u64),
    /// No route is left to choose from.
    NoRoutesFound,
}

/// A DEX router deployed on a chain.
#[derive(Clone, Debug)]
pub struct DexRouter {
    pub chain_id: u64,
    pub router_address: [u8; 20],
    pub name: String,
    pub version: String,
}

/// The key under which a route is cached.
#[derive(Clone, Copy, Debug, PartialEq, Eq)]
pub struct RouteKey {
    pub source_chain: u64,
    pub target_chain: u64,
    pub source_asset: [u8; 20],
    pub target_asset: [u8; 20],
    pub amount: U256,
}

/// The kind of a step of an executed route.
#[derive(Clone, Copy, Debug, PartialEq, Eq, Structural)]
pub enum StepType {
    Approve,
    Swap,
    Bridge,
    Claim,
}

} // verus!
