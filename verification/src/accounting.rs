//! Cross-chain accounting: USD normalisation of asset amounts, the current
//! balance of each position, snapshots of them, and portfolio summaries.

use vstd::prelude::*;
use crate::positions::{calculate_diff, changes, missing_from, two_128, PositionManagerError, ChainBalance, PositionBalance, PositionSnapshot, SnapshotDiff, U256};
use crate::text::push_char;

verus! {

/// The largest 256-bit value.
pub open spec fn u256_max() -> nat {
    (two_128() * two_128() - 1) as nat
}

/// `n`, capped at the largest 256-bit value: what a run of saturating
/// additions gives.
pub open spec fn capped(n: nat) -> nat {
    if n <= u256_max() { n } else { u256_max() }
}

/// `10^18`, the fixed-point scale of a price.
pub open spec fn price_scale() -> nat {
    1_000_000_000_000_000_000
}

/// Calls `primitive_types::U256::checked_mul`, which returns the product,
/// or `None` where it does not fit in 256 bits; the contract says exactly
/// that. The conversion splits each 128-bit half into its two 64-bit words.
#[verifier::external_body]
pub(crate) fn u256_checked_mul(a: U256, b: U256) -> (r: Option<U256>)
    ensures
        r is None <==> a.value() * b.value() > u256_max(),
        r matches Some(x) ==> x.value() == a.value() * b.value(),
{
    let pa = primitive_types::U256([a.lo as u64, (a.lo >> 64) as u64, a.hi as u64, (a.hi >> 64) as u64]);
    let pb = primitive_types::U256([b.lo as u64, (b.lo >> 64) as u64, b.hi as u64, (b.hi >> 64) as u64]);
    match pa.checked_mul(pb) {
        Some(x) => Some(U256 { hi: ((x.0[3] as u128) << 64) | x.0[2] as u128, lo: ((x.0[1] as u128) << 64) | x.0[0] as u128 }),
        None => None,
    }
}

/// Calls `primitive_types::U256::checked_div`, which returns the quotient
/// rounded down, or `None` where the divisor is zero; the contract says
/// exactly that. The conversion is that of [`u256_checked_mul`].
#[verifier::external_body]
pub(crate) fn u256_checked_div(a: U256, b: U256) -> (r: Option<U256>)
    ensures
        r is None <==> b.value() == 0,
        r matches Some(x) ==> x.value() == a.value() / b.value(),
{
    let pa = primitive_types::U256([a.lo as u64, (a.lo >> 64) as u64, a.hi as u64, (a.hi >> 64) as u64]);
    let pb = primitive_types::U256([b.lo as u64, (b.lo >> 64) as u64, b.hi as u64, (b.hi >> 64) as u64]);
    match pa.checked_div(pb) {
        Some(x) => Some(U256 { hi: ((x.0[3] as u128) << 64) | x.0[2] as u128, lo: ((x.0[1] as u128) << 64) | x.0[0] as u128 }),
        None => None,
    }
}

/// The lowercase hex digit of a nibble.
pub open spec fn hex_char(n: nat) -> char {
    if n < 10 { (48 + n) as char } else { (87 + n) as char }
}

/// Two lowercase hex digits per byte.
pub open spec fn hex_chars(b: Seq<u8>) -> Seq<char>
    decreases b.len(),
{
    if b.len() == 0 {
        Seq::empty()
    } else {
        hex_chars(b.drop_last()) + seq![hex_char(b.last() as nat / 16), hex_char(b.last() as nat % 16)]
    }
}

/// The debug form of an address: `0x` and its 40 lowercase hex digits.
pub open spec fn address_text(a: Seq<u8>) -> Seq<char> {
    seq!['0', 'x'] + hex_chars(a)
}

fn nibble_char(n: u8) -> (c: char)
    requires
        n < 16,
    ensures
        c == hex_char(n as nat),
{
    if n < 10 { (48 + n) as char } else { (87 + n) as char }
}

/// Appends the debug form of an address to `s`.
fn push_address(s: &mut String, a: &[u8; 20])
    ensures
        final(s)@ == old(s)@ + address_text(a@),
{
    let ghost before = s@;
    push_char(s, '0');
    push_char(s, 'x');
    let mut i: usize = 0;
    while i < 20
        invariant
            i <= 20,
            s@ == before + seq!['0', 'x'] + hex_chars(a@.take(i as int)),
        decreases 20 - i,
    {
        let b = a[i];
        push_char(s, nibble_char(b / 16));
        push_char(s, nibble_char(b % 16));
        assert(a@.take(i + 1).drop_last() =~= a@.take(i as int));
        assert(s@ =~= before + seq!['0', 'x'] + hex_chars(a@.take(i + 1)));
        i = i + 1;
    }
    assert(a@.take(20) =~= a@);
}

/// The price map that a list of price updates leaves: later updates win.
pub open spec fn price_map(feeds: Seq<([u8; 20], U256)>) -> Map<Seq<u8>, U256>
    decreases feeds.len(),
{
    if feeds.len() == 0 {
        Map::empty()
    } else {
        price_map(feeds.drop_last()).insert(feeds.last().0@, feeds.last().1)
    }
}

/// Some address of `s` is `a`.
pub open spec fn has_addr(s: Seq<[u8; 20]>, a: Seq<u8>) -> bool {
    exists|i: int| 0 <= i < s.len() && (#[trigger] s[i])@ == a
}

/// The outcome of valuing an amount in USD.
pub enum UsdOutcome {
    Value(nat),
    NoPrice,
    Overflow,
}

/// The USD value of `amount` of `asset`: the amount itself for a
/// stablecoin; otherwise amount times price over `10^18`; no value where
/// no price is known or the product overflows 256 bits.
pub open spec fn usd_value(stables: Seq<[u8; 20]>, prices: Map<Seq<u8>, U256>, asset: Seq<u8>, amount: nat) -> UsdOutcome {
    if has_addr(stables, asset) {
        UsdOutcome::Value(amount)
    } else if !prices.contains_key(asset) {
        UsdOutcome::NoPrice
    } else if amount * prices[asset].value() > u256_max() {
        UsdOutcome::Overflow
    } else {
        UsdOutcome::Value(amount * prices[asset].value() / price_scale())
    }
}

/// A result matches a valuation outcome: the value, or the error for a
/// missing price (naming the asset) or an overflow.
pub open spec fn usd_result_matches(r: Result<U256, PositionManagerError>, o: UsdOutcome, asset: Seq<u8>) -> bool {
    match o {
        UsdOutcome::Value(v) => r matches Ok(x) && x.value() == v,
        UsdOutcome::NoPrice => r matches Err(PositionManagerError::PriceFeedNotFound(t)) && t@ == address_text(asset),
        UsdOutcome::Overflow => r matches Err(PositionManagerError::ArithmeticOverflow),
    }
}

/// The USD value at which a balance is recorded: the valuation, or 0 for an
/// asset without a price; none where the valuation overflows.
pub open spec fn recorded_value(o: UsdOutcome) -> Option<nat> {
    match o {
        UsdOutcome::Value(v) => Some(v),
        UsdOutcome::NoPrice => Some(0),
        UsdOutcome::Overflow => None,
    }
}

proof fn lemma_price_last(feeds: Seq<([u8; 20], U256)>, i: int, k: Seq<u8>)
    requires
        0 <= i < feeds.len(),
        feeds[i].0@ == k,
        forall|j: int| i < j < feeds.len() ==> (#[trigger] feeds[j]).0@ != k,
    ensures
        price_map(feeds).contains_key(k),
        price_map(feeds)[k] == feeds[i].1,
    decreases feeds.len(),
{
    if i < feeds.len() - 1 {
        lemma_price_last(feeds.drop_last(), i, k);
        assert(feeds[feeds.len() - 1].0@ != k);
    }
}

proof fn lemma_price_absent(feeds: Seq<([u8; 20], U256)>, k: Seq<u8>)
    requires
        forall|j: int| 0 <= j < feeds.len() ==> (#[trigger] feeds[j]).0@ != k,
    ensures
        !price_map(feeds).contains_key(k),
    decreases feeds.len(),
{
    if feeds.len() > 0 {
        lemma_price_absent(feeds.drop_last(), k);
        assert(feeds[feeds.len() - 1].0@ != k);
    }
}

/// Whether two addresses are equal.
fn same_address(a: &[u8; 20], b: &[u8; 20]) -> (r: bool)
    ensures
        r == (a@ == b@),
{
    let mut i: usize = 0;
    while i < 20
        invariant
            i <= 20,
            forall|j: int| 0 <= j < i ==> a@[j] == b@[j],
        decreases 20 - i,
    {
        if a[i] != b[i] {
            return false;
        }
        i = i + 1;
    }
    assert(a@ =~= b@);
    true
}

/// Converts asset amounts to USD from price feeds.
pub struct UsdNormalizer {
    /// Price updates in the order they came; the last for an asset holds.
    price_feeds: Vec<([u8; 20], U256)>,
    /// Assets worth one USD per unit.
    stablecoins: Vec<[u8; 20]>,
    /// When a price was last updated (Unix milliseconds).
    last_update: u64,
}

impl UsdNormalizer {
    /// The price of each asset that has one.
    pub closed spec fn prices(&self) -> Map<Seq<u8>, U256> {
        price_map(self.price_feeds@)
    }

    /// The registered stablecoins.
    pub closed spec fn stables(&self) -> Seq<[u8; 20]> {
        self.stablecoins@
    }

    /// When a price was last updated.
    pub closed spec fn updated_at(&self) -> u64 {
        self.last_update
    }

    /// A normaliser with no prices and no stablecoins.
    pub fn new() -> (n: UsdNormalizer)
        ensures
            n.prices() == Map::<Seq<u8>, U256>::empty(),
            n.stables().len() == 0,
            n.updated_at() == 0,
    {
        UsdNormalizer { price_feeds: Vec::new(), stablecoins: Vec::new(), last_update: 0 }
    }

    /// The USD value of `amount` of `asset` (see [`usd_value`]).
    pub fn normalize_to_usd(&self, asset: &[u8; 20], amount: U256) -> (r: Result<U256, PositionManagerError>)
        ensures
            usd_result_matches(r, usd_value(self.stables(), self.prices(), asset@, amount.value()), asset@),
    {
        let mut s: usize = 0;
        while s < self.stablecoins.len()
            invariant
                s <= self.stablecoins@.len(),
                forall|j: int| 0 <= j < s ==> (#[trigger] self.stablecoins@[j])@ != asset@,
            decreases self.stablecoins.len() - s,
        {
            if same_address(&self.stablecoins[s], asset) {
                return Ok(amount);
            }
            s = s + 1;
        }
        let price = match self.lookup_price(asset) {
            Some(p) => p,
            None => {
                let mut text = String::new();
                push_address(&mut text, asset);
                return Err(PositionManagerError::PriceFeedNotFound(text));
            },
        };
        let product = match u256_checked_mul(amount, price) {
            Some(p) => p,
            None => {
                return Err(PositionManagerError::ArithmeticOverflow);
            },
        };
        match u256_checked_div(product, U256::from_u128(1_000_000_000_000_000_000)) {
            Some(v) => Ok(v),
            None => Err(PositionManagerError::ArithmeticOverflow),
        }
    }

    /// The latest price of `asset`, if any.
    fn lookup_price(&self, asset: &[u8; 20]) -> (r: Option<U256>)
        ensures
            r == (if self.prices().contains_key(asset@) { Some(self.prices()[asset@]) } else { None::<U256> }),
    {
        let mut i: usize = self.price_feeds.len();
        while i > 0
            invariant
                i <= self.price_feeds@.len(),
                forall|j: int| i <= j < self.price_feeds@.len() ==> (#[trigger] self.price_feeds@[j]).0@ != asset@,
            decreases i,
        {
            if same_address(&self.price_feeds[i - 1].0, asset) {
                proof {
                    lemma_price_last(self.price_feeds@, i - 1, asset@);
                }
                return Some(self.price_feeds[i - 1].1);
            }
            i = i - 1;
        }
        proof {
            lemma_price_absent(self.price_feeds@, asset@);
        }
        None
    }

    /// Records `price` for `asset`, updated at `now` (Unix milliseconds).
    pub fn update_price(&mut self, asset: [u8; 20], price: U256, now: u64)
        ensures
            final(self).prices() == old(self).prices().insert(asset@, price),
            final(self).stables() == old(self).stables(),
            final(self).updated_at() == now,
    {
        let ghost before = self.price_feeds@;
        self.price_feeds.push((asset, price));
        assert(self.price_feeds@.drop_last() =~= before);
        self.last_update = now;
    }

    /// Registers a stablecoin, once.
    pub fn register_stablecoin(&mut self, asset: [u8; 20])
        ensures
            final(self).prices() == old(self).prices(),
            final(self).updated_at() == old(self).updated_at(),
            has_addr(old(self).stables(), asset@) ==> final(self).stables() == old(self).stables(),
            !has_addr(old(self).stables(), asset@) ==> final(self).stables() == old(self).stables().push(asset),
    {
        let mut s: usize = 0;
        while s < self.stablecoins.len()
            invariant
                s <= self.stablecoins@.len(),
                forall|j: int| 0 <= j < s ==> (#[trigger] self.stablecoins@[j])@ != asset@,
            decreases self.stablecoins.len() - s,
        {
            if same_address(&self.stablecoins[s], &asset) {
                return;
            }
            s = s + 1;
        }
        self.stablecoins.push(asset);
    }

    /// When a price was last updated (Unix milliseconds).
    pub fn last_update(&self) -> (t: u64)
        ensures
            t == self.updated_at(),
    {
        self.last_update
    }
}


/// Lexicographic order on byte strings of one length.
pub open spec fn bytes_lt(a: Seq<u8>, b: Seq<u8>) -> bool
    decreases a.len(),
{
    if a.len() == 0 || b.len() == 0 {
        false
    } else if a[0] != b[0] {
        a[0] < b[0]
    } else {
        bytes_lt(a.drop_first(), b.drop_first())
    }
}

proof fn lemma_lt_irrefl(a: Seq<u8>)
    ensures
        !bytes_lt(a, a),
    decreases a.len(),
{
    if a.len() > 0 {
        lemma_lt_irrefl(a.drop_first());
    }
}

proof fn lemma_lt_trans(a: Seq<u8>, b: Seq<u8>, c: Seq<u8>)
    requires
        a.len() == b.len(),
        b.len() == c.len(),
        bytes_lt(a, b),
        bytes_lt(b, c),
    ensures
        bytes_lt(a, c),
    decreases a.len(),
{
    if a[0] == b[0] && b[0] == c[0] {
        lemma_lt_trans(a.drop_first(), b.drop_first(), c.drop_first());
    }
}

proof fn lemma_lt_total(a: Seq<u8>, b: Seq<u8>)
    requires
        a.len() == b.len(),
    ensures
        a == b || bytes_lt(a, b) || bytes_lt(b, a),
    decreases a.len(),
{
    if a.len() == 0 {
        assert(a =~= b);
    } else if a[0] == b[0] {
        lemma_lt_total(a.drop_first(), b.drop_first());
        if a.drop_first() == b.drop_first() {
            assert(a =~= b) by {
                assert forall|i: int| 0 <= i < a.len() implies a[i] == b[i] by {
                    if i > 0 {
                        assert(a[i] == a.drop_first()[i - 1]);
                        assert(b[i] == b.drop_first()[i - 1]);
                    }
                }
            }
        }
    }
}

proof fn lemma_lt_asym(a: Seq<u8>, b: Seq<u8>)
    requires
        a.len() == b.len(),
        bytes_lt(a, b),
    ensures
        !bytes_lt(b, a),
        a != b,
{
    if bytes_lt(b, a) {
        lemma_lt_trans(a, b, a);
        lemma_lt_irrefl(a);
    }
    lemma_lt_irrefl(a);
}

/// Whether `a` comes before `b` lexicographically.
fn bytes_less(a: &[u8], b: &[u8]) -> (r: bool)
    requires
        a@.len() == b@.len(),
    ensures
        r == bytes_lt(a@, b@),
{
    let mut i: usize = 0;
    assert(a@.skip(0) =~= a@);
    assert(b@.skip(0) =~= b@);
    while i < a.len()
        invariant
            i <= a@.len(),
            a@.len() == b@.len(),
            bytes_lt(a@, b@) == bytes_lt(a@.skip(i as int), b@.skip(i as int)),
        decreases a.len() - i,
    {
        assert(a@.skip(i as int).drop_first() =~= a@.skip(i + 1));
        assert(b@.skip(i as int).drop_first() =~= b@.skip(i + 1));
        if a[i] != b[i] {
            return a[i] < b[i];
        }
        i = i + 1;
    }
    false
}

/// Whether two position ids are equal.
fn same_id(a: &[u8; 16], b: &[u8; 16]) -> (r: bool)
    ensures
        r == (a@ == b@),
{
    let mut i: usize = 0;
    while i < 16
        invariant
            i <= 16,
            forall|j: int| 0 <= j < i ==> a@[j] == b@[j],
        decreases 16 - i,
    {
        if a[i] != b[i] {
            return false;
        }
        i = i + 1;
    }
    assert(a@ =~= b@);
    true
}

/// Balances listed by ascending position id, each id once.
pub open spec fn ids_sorted(s: Seq<PositionBalance>) -> bool {
    forall|i: int, j: int| 0 <= i < j < s.len() ==> bytes_lt((#[trigger] s[i]).position_id@, (#[trigger] s[j]).position_id@)
}

/// The sum of the USD values of some positions.
pub open spec fn value_sum(ps: Seq<PositionBalance>) -> nat
    decreases ps.len(),
{
    if ps.len() == 0 { 0 } else { value_sum(ps.drop_last()) + ps.last().value_usd.value() }
}

/// The sum of the USD values of the positions on a chain.
pub open spec fn chain_value(ps: Seq<PositionBalance>, chain: u64) -> nat
    decreases ps.len(),
{
    if ps.len() == 0 {
        0
    } else {
        chain_value(ps.drop_last(), chain) + (if ps.last().chain_id == chain { ps.last().value_usd.value() } else { 0 })
    }
}

/// The number of positions on a chain.
pub open spec fn chain_count(ps: Seq<PositionBalance>, chain: u64) -> nat
    decreases ps.len(),
{
    if ps.len() == 0 {
        0
    } else {
        chain_count(ps.drop_last(), chain) + (if ps.last().chain_id == chain { 1nat } else { 0 })
    }
}

proof fn lemma_chain_count_le(ps: Seq<PositionBalance>, chain: u64)
    ensures
        chain_count(ps, chain) <= ps.len(),
    decreases ps.len(),
{
    if ps.len() > 0 {
        lemma_chain_count_le(ps.drop_last(), chain);
    }
}

proof fn lemma_capped_add(n: nat, v: nat)
    ensures
        capped(capped(n) + v) == capped(n + v),
{
}

/// Some entry of a breakdown is for `chain`.
pub open spec fn has_chain(bd: Seq<ChainBalance>, chain: u64) -> bool {
    exists|i: int| 0 <= i < bd.len() && (#[trigger] bd[i]).chain_id == chain
}

/// The per-chain breakdown of some positions: one entry per chain they are
/// on, by ascending chain id, with the chain's capped USD total and its
/// number of positions (counted both as assets and as positions).
pub open spec fn breakdown_of(bd: Seq<ChainBalance>, ps: Seq<PositionBalance>) -> bool {
    &&& forall|i: int, j: int| 0 <= i < j < bd.len() ==> (#[trigger] bd[i]).chain_id < (#[trigger] bd[j]).chain_id
    &&& forall|i: int| 0 <= i < bd.len() ==> {
        let c = (#[trigger] bd[i]).chain_id;
        &&& bd[i].total_value_usd.value() == capped(chain_value(ps, c))
        &&& bd[i].asset_count == chain_count(ps, c)
        &&& bd[i].positions_count == chain_count(ps, c)
        &&& chain_count(ps, c) > 0
    }
    &&& forall|k: int| 0 <= k < ps.len() ==> has_chain(bd, (#[trigger] ps[k]).chain_id)
}

/// A snapshot of `balances` taken at `timestamp` under `snapshot_id`.
pub open spec fn snapshot_of(s: PositionSnapshot, timestamp: u64, snapshot_id: Seq<u8>, balances: Seq<PositionBalance>) -> bool {
    &&& s.snapshot_id@ == snapshot_id
    &&& s.timestamp == timestamp
    &&& s.positions@ == balances
    &&& s.total_value_usd.value() == capped(value_sum(balances))
    &&& breakdown_of(s.chain_breakdown@, balances)
}

/// `after` is `before` with the balance at `i`, which has `nb`'s id,
/// replaced by `nb`.
pub open spec fn replaced_at(before: Seq<PositionBalance>, after: Seq<PositionBalance>, nb: PositionBalance, i: int) -> bool {
    &&& 0 <= i < before.len()
    &&& before[i].position_id@ == nb.position_id@
    &&& after == before.update(i, nb)
}

/// `after` is `before` with `nb` inserted at `p`, between the smaller ids
/// and the larger.
pub open spec fn inserted_at(before: Seq<PositionBalance>, after: Seq<PositionBalance>, nb: PositionBalance, p: int) -> bool {
    &&& 0 <= p <= before.len()
    &&& (forall|j: int| 0 <= j < p ==> bytes_lt((#[trigger] before[j]).position_id@, nb.position_id@))
    &&& (forall|j: int| p <= j < before.len() ==> bytes_lt(nb.position_id@, (#[trigger] before[j]).position_id@))
    &&& after == before.insert(p, nb)
}

/// `after` is `before` with `nb` in the place of its id: replacing the
/// balance with that id, or inserted where the ids stay ascending.
pub open spec fn placed(before: Seq<PositionBalance>, after: Seq<PositionBalance>, nb: PositionBalance) -> bool {
    ||| exists|i: int| replaced_at(before, after, nb, i)
    ||| exists|p: int| inserted_at(before, after, nb, p)
}

/// A placed balance is found under its id afterwards, and every other
/// position keeps its balance: what `update_balance` writes,
/// `get_balance` reads back.
pub proof fn lemma_placed_read_back(before: Seq<PositionBalance>, after: Seq<PositionBalance>, nb: PositionBalance)
    requires
        placed(before, after, nb),
    ensures
        exists|i: int| 0 <= i < after.len() && after[i] == nb,
        forall|b: PositionBalance| b.position_id@ != nb.position_id@ ==> (before.contains(b) <==> after.contains(b)),
{
    if exists|i: int| replaced_at(before, after, nb, i) {
        let i = choose|i: int| replaced_at(before, after, nb, i);
        assert(after[i] == nb);
        assert forall|b: PositionBalance| b.position_id@ != nb.position_id@ implies (before.contains(b) <==> after.contains(b)) by {
            if before.contains(b) {
                let w = choose|w: int| 0 <= w < before.len() && before[w] == b;
                assert(after[w] == b);
            }
            if after.contains(b) {
                let w = choose|w: int| 0 <= w < after.len() && after[w] == b;
                assert(before[w] == b);
            }
        }
    } else {
        let p = choose|p: int| inserted_at(before, after, nb, p);
        assert(after[p] == nb);
        assert forall|b: PositionBalance| b.position_id@ != nb.position_id@ implies (before.contains(b) <==> after.contains(b)) by {
            if before.contains(b) {
                let w = choose|w: int| 0 <= w < before.len() && before[w] == b;
                if w < p {
                    assert(after[w] == b);
                } else {
                    assert(after[w + 1] == b);
                }
            }
            if after.contains(b) {
                let w = choose|w: int| 0 <= w < after.len() && after[w] == b;
                if w < p {
                    assert(before[w] == b);
                } else if w > p {
                    assert(before[w - 1] == b);
                }
            }
        }
    }
}

/// The most snapshots an engine keeps.
pub open spec fn history_limit() -> nat {
    100
}


proof fn lemma_chain_absent(ps: Seq<PositionBalance>, chain: u64)
    requires
        forall|k: int| 0 <= k < ps.len() ==> (#[trigger] ps[k]).chain_id != chain,
    ensures
        chain_count(ps, chain) == 0,
        chain_value(ps, chain) == 0,
    decreases ps.len(),
{
    if ps.len() > 0 {
        lemma_chain_absent(ps.drop_last(), chain);
        assert(ps[ps.len() - 1].chain_id != chain);
    }
}

/// The per-chain breakdown of some positions (see [`breakdown_of`]).
fn chain_breakdown(ps: &Vec<PositionBalance>) -> (bd: Vec<ChainBalance>)
    ensures
        breakdown_of(bd@, ps@),
{
    let mut bd: Vec<ChainBalance> = Vec::new();
    let mut k: usize = 0;
    assert(ps@.take(0) =~= Seq::<PositionBalance>::empty());
    while k < ps.len()
        invariant
            k <= ps@.len(),
            breakdown_of(bd@, ps@.take(k as int)),
        decreases ps.len() - k,
    {
        let p = ps[k];
        let c = p.chain_id;
        let ghost prev = ps@.take(k as int);
        let ghost next = ps@.take(k + 1);
        assert(next.drop_last() =~= prev);
        assert(next.last() == p);
        proof {
            lemma_chain_count_le(prev, c);
        }
        let mut j: usize = 0;
        while j < bd.len() && bd[j].chain_id < c
            invariant
                j <= bd@.len(),
                forall|q: int| 0 <= q < j ==> (#[trigger] bd@[q]).chain_id < c,
            decreases bd.len() - j,
        {
            j = j + 1;
        }
        let ghost old_bd = bd@;
        if j < bd.len() && bd[j].chain_id == c {
            let e = bd[j];
            proof {
                lemma_chain_count_le(prev, c);
            }
            let ne = ChainBalance {
                chain_id: c,
                total_value_usd: e.total_value_usd.saturating_add(&p.value_usd),
                asset_count: e.asset_count + 1,
                positions_count: e.positions_count + 1,
            };
            bd.set(j, ne);
            proof {
                lemma_capped_add(chain_value(prev, c), p.value_usd.value());
                assert forall|i: int| 0 <= i < bd@.len() implies {
                    let c2 = (#[trigger] bd@[i]).chain_id;
                    &&& bd@[i].total_value_usd.value() == capped(chain_value(next, c2))
                    &&& bd@[i].asset_count == chain_count(next, c2)
                    &&& bd@[i].positions_count == chain_count(next, c2)
                    &&& chain_count(next, c2) > 0
                } by {
                    if i != j {
                        assert(bd@[i] == old_bd[i]);
                        assert(old_bd[i].chain_id != c);
                    }
                }
                assert forall|q: int| 0 <= q < next.len() implies has_chain(bd@, (#[trigger] next[q]).chain_id) by {
                    if q < k {
                        assert(next[q] == prev[q]);
                        let w = choose|w: int| 0 <= w < old_bd.len() && (#[trigger] old_bd[w]).chain_id == prev[q].chain_id;
                        assert(bd@[w].chain_id == old_bd[w].chain_id);
                    } else {
                        assert(bd@[j as int].chain_id == c);
                    }
                }
                assert forall|a: int, b: int| 0 <= a < b < bd@.len() implies (#[trigger] bd@[a]).chain_id < (#[trigger] bd@[b]).chain_id by {
                    assert(old_bd[a].chain_id < old_bd[b].chain_id);
                }
            }
        } else {
            proof {
                assert forall|q: int| 0 <= q < prev.len() implies (#[trigger] prev[q]).chain_id != c by {
                    let w = choose|w: int| 0 <= w < old_bd.len() && (#[trigger] old_bd[w]).chain_id == prev[q].chain_id;
                    if w < j {
                    } else {
                        if w > j {
                            assert(old_bd[j as int].chain_id < old_bd[w].chain_id);
                        }
                    }
                }
                lemma_chain_absent(prev, c);
            }
            let ne = ChainBalance { chain_id: c, total_value_usd: p.value_usd, asset_count: 1, positions_count: 1 };
            bd.insert(j, ne);
            proof {
                assert(p.value_usd.value() <= u256_max());
                assert forall|i: int| 0 <= i < bd@.len() implies {
                    let c2 = (#[trigger] bd@[i]).chain_id;
                    &&& bd@[i].total_value_usd.value() == capped(chain_value(next, c2))
                    &&& bd@[i].asset_count == chain_count(next, c2)
                    &&& bd@[i].positions_count == chain_count(next, c2)
                    &&& chain_count(next, c2) > 0
                } by {
                    if i < j {
                        assert(bd@[i] == old_bd[i]);
                    } else if i > j {
                        assert(bd@[i] == old_bd[i - 1]);
                        if j < old_bd.len() {
                            if i - 1 > j {
                                assert(old_bd[j as int].chain_id < old_bd[i - 1].chain_id);
                            }
                        }
                    }
                }
                assert forall|q: int| 0 <= q < next.len() implies has_chain(bd@, (#[trigger] next[q]).chain_id) by {
                    if q < k {
                        assert(next[q] == prev[q]);
                        let w = choose|w: int| 0 <= w < old_bd.len() && (#[trigger] old_bd[w]).chain_id == prev[q].chain_id;
                        if w < j {
                            assert(bd@[w] == old_bd[w]);
                        } else {
                            assert(bd@[w + 1] == old_bd[w]);
                        }
                    } else {
                        assert(bd@[j as int].chain_id == c);
                    }
                }
                assert forall|a: int, b: int| 0 <= a < b < bd@.len() implies (#[trigger] bd@[a]).chain_id < (#[trigger] bd@[b]).chain_id by {
                    if a < j && b < j {
                        assert(old_bd[a].chain_id < old_bd[b].chain_id);
                    } else if a < j && b == j {
                    } else if a < j {
                        assert(bd@[b] == old_bd[b - 1]);
                        assert(old_bd[a].chain_id < old_bd[b - 1].chain_id);
                    } else if a == j {
                        assert(bd@[b] == old_bd[b - 1]);
                        if b - 1 > j {
                            assert(old_bd[j as int].chain_id < old_bd[b - 1].chain_id);
                        }
                    } else {
                        assert(old_bd[a - 1].chain_id < old_bd[b - 1].chain_id);
                    }
                }
            }
        }
        k = k + 1;
    }
    assert(ps@.take(ps@.len() as int) =~= ps@);
    bd
}

/// The sum of the USD values, saturating.
fn total_value(ps: &Vec<PositionBalance>) -> (t: U256)
    ensures
        t.value() == capped(value_sum(ps@)),
{
    let mut t = U256::zero();
    let mut k: usize = 0;
    assert(ps@.take(0) =~= Seq::<PositionBalance>::empty());
    while k < ps.len()
        invariant
            k <= ps@.len(),
            t.value() == capped(value_sum(ps@.take(k as int))),
        decreases ps.len() - k,
    {
        assert(ps@.take(k + 1).drop_last() =~= ps@.take(k as int));
        proof {
            lemma_capped_add(value_sum(ps@.take(k as int)), ps@[k as int].value_usd.value());
        }
        t = t.saturating_add(&ps[k].value_usd);
        k = k + 1;
    }
    assert(ps@.take(ps@.len() as int) =~= ps@);
    t
}

/// A copy of some balances.
fn copy_balances(ps: &Vec<PositionBalance>) -> (r: Vec<PositionBalance>)
    ensures
        r@ == ps@,
{
    let mut r: Vec<PositionBalance> = Vec::new();
    let mut k: usize = 0;
    while k < ps.len()
        invariant
            k <= ps@.len(),
            r@ == ps@.take(k as int),
        decreases ps.len() - k,
    {
        r.push(ps[k]);
        assert(r@ =~= ps@.take(k + 1));
        k = k + 1;
    }
    assert(ps@.take(ps@.len() as int) =~= ps@);
    r
}


/// The USD total and position count of one chain.
#[derive(Clone, Copy, Debug)]
pub struct ChainSummary {
    pub chain_id: u64,
    pub total_value_usd: U256,
    pub positions_count: usize,
}

/// The holdings of one asset across chains.
#[derive(Clone, Debug)]
pub struct AssetSummary {
    pub asset_address: [u8; 20],
    /// `Asset_` and the asset's debug form.
    pub symbol: String,
    pub total_amount: U256,
    /// The USD value of the total amount, zero where it has none.
    pub total_value_usd: U256,
    /// `(chain, amount)` of each position holding the asset.
    pub chains_distribution: Vec<(u64, U256)>,
}

/// A summary of the whole portfolio.
#[derive(Clone, Debug)]
pub struct PortfolioSummary {
    pub total_value_usd: U256,
    pub chain_breakdown: Vec<ChainSummary>,
    pub asset_breakdown: Vec<AssetSummary>,
    pub rebalance_needed: bool,
    pub active_arbitrage_ops: usize,
}

/// The chains of some positions, in the order they first occur.
pub open spec fn chain_order(ps: Seq<PositionBalance>) -> Seq<u64>
    decreases ps.len(),
{
    if ps.len() == 0 {
        Seq::empty()
    } else {
        let prev = chain_order(ps.drop_last());
        if prev.contains(ps.last().chain_id) { prev } else { prev.push(ps.last().chain_id) }
    }
}

/// The sum of the amounts of an asset.
pub open spec fn asset_amount(ps: Seq<PositionBalance>, asset: Seq<u8>) -> nat
    decreases ps.len(),
{
    if ps.len() == 0 {
        0
    } else {
        asset_amount(ps.drop_last(), asset) + (if ps.last().asset@ == asset { ps.last().amount.value() } else { 0 })
    }
}

/// `(chain, amount)` of each position holding an asset, in order.
pub open spec fn asset_entries(ps: Seq<PositionBalance>, asset: Seq<u8>) -> Seq<(u64, U256)>
    decreases ps.len(),
{
    if ps.len() == 0 {
        Seq::empty()
    } else {
        let prev = asset_entries(ps.drop_last(), asset);
        if ps.last().asset@ == asset { prev.push((ps.last().chain_id, ps.last().amount)) } else { prev }
    }
}

/// The symbol of an asset: `Asset_` and its debug form.
pub open spec fn asset_symbol(asset: Seq<u8>) -> Seq<char> {
    seq!['A', 's', 's', 'e', 't', '_'] + address_text(asset)
}

/// The chain summary of some positions: one entry per chain in the order
/// the chains first occur, with the chain's capped USD total and position
/// count.
pub open spec fn chain_summary_of(cs: Seq<ChainSummary>, ps: Seq<PositionBalance>) -> bool {
    &&& cs.map_values(|c: ChainSummary| c.chain_id) == chain_order(ps)
    &&& forall|i: int| 0 <= i < cs.len() ==> {
        &&& (#[trigger] cs[i]).total_value_usd.value() == capped(chain_value(ps, cs[i].chain_id))
        &&& cs[i].positions_count == chain_count(ps, cs[i].chain_id)
    }
}

/// Some entry of an asset breakdown is for `asset`.
pub open spec fn has_asset(bd: Seq<AssetSummary>, asset: Seq<u8>) -> bool {
    exists|i: int| 0 <= i < bd.len() && (#[trigger] bd[i]).asset_address@ == asset
}

/// The asset summary of some positions: one entry per asset they hold, by
/// ascending address, with the capped total amount, its USD value (zero
/// where it has none), and where the asset is held.
pub open spec fn asset_summary_of(bd: Seq<AssetSummary>, ps: Seq<PositionBalance>, stables: Seq<[u8; 20]>, prices: Map<Seq<u8>, U256>) -> bool {
    &&& forall|i: int, j: int| 0 <= i < j < bd.len() ==> bytes_lt((#[trigger] bd[i]).asset_address@, (#[trigger] bd[j]).asset_address@)
    &&& forall|i: int| 0 <= i < bd.len() ==> {
        let a = (#[trigger] bd[i]).asset_address@;
        &&& bd[i].symbol@ == asset_symbol(a)
        &&& bd[i].total_amount.value() == capped(asset_amount(ps, a))
        &&& bd[i].chains_distribution@ == asset_entries(ps, a)
        &&& asset_entries(ps, a).len() > 0
        &&& bd[i].total_value_usd.value() == (match usd_value(stables, prices, a, capped(asset_amount(ps, a))) {
            UsdOutcome::Value(v) => v,
            _ => 0,
        })
    }
    &&& forall|k: int| 0 <= k < ps.len() ==> has_asset(bd, (#[trigger] ps[k]).asset@)
}


proof fn lemma_chain_order_covers(ps: Seq<PositionBalance>)
    ensures
        forall|k: int| 0 <= k < ps.len() ==> chain_order(ps).contains((#[trigger] ps[k]).chain_id),
    decreases ps.len(),
{
    if ps.len() > 0 {
        lemma_chain_order_covers(ps.drop_last());
        assert forall|k: int| 0 <= k < ps.len() implies chain_order(ps).contains((#[trigger] ps[k]).chain_id) by {
            let prev = chain_order(ps.drop_last());
            if k < ps.len() - 1 {
                assert(ps[k] == ps.drop_last()[k]);
                assert(prev.contains(ps[k].chain_id));
                if !prev.contains(ps.last().chain_id) {
                    let w = choose|w: int| 0 <= w < prev.len() && prev[w] == ps[k].chain_id;
                    assert(prev.push(ps.last().chain_id)[w] == ps[k].chain_id);
                }
            } else {
                if !prev.contains(ps.last().chain_id) {
                    assert(prev.push(ps.last().chain_id)[prev.len() as int] == ps.last().chain_id);
                }
            }
        }
    }
}

proof fn lemma_chain_order_distinct(ps: Seq<PositionBalance>)
    ensures
        chain_order(ps).no_duplicates(),
    decreases ps.len(),
{
    if ps.len() > 0 {
        lemma_chain_order_distinct(ps.drop_last());
    }
}

/// The chain summary of some positions (see [`chain_summary_of`]).
fn chain_summaries(ps: &Vec<PositionBalance>) -> (cs: Vec<ChainSummary>)
    ensures
        chain_summary_of(cs@, ps@),
{
    let mut cs: Vec<ChainSummary> = Vec::new();
    let mut k: usize = 0;
    assert(ps@.take(0) =~= Seq::<PositionBalance>::empty());
    assert(cs@.map_values(|c: ChainSummary| c.chain_id) =~= Seq::<u64>::empty());
    while k < ps.len()
        invariant
            k <= ps@.len(),
            chain_summary_of(cs@, ps@.take(k as int)),
        decreases ps.len() - k,
    {
        let p = ps[k];
        let c = p.chain_id;
        let ghost prev = ps@.take(k as int);
        let ghost next = ps@.take(k + 1);
        let ghost ids = cs@.map_values(|x: ChainSummary| x.chain_id);
        assert(next.drop_last() =~= prev);
        assert(next.last() == p);
        let mut j: usize = 0;
        while j < cs.len() && cs[j].chain_id != c
            invariant
                j <= cs@.len(),
                forall|q: int| 0 <= q < j ==> (#[trigger] cs@[q]).chain_id != c,
            decreases cs.len() - j,
        {
            j = j + 1;
        }
        let ghost old_cs = cs@;
        if j < cs.len() {
            let e = cs[j];
            proof {
                lemma_chain_count_le(prev, c);
                lemma_capped_add(chain_value(prev, c), p.value_usd.value());
                assert(ids[j as int] == c);
                lemma_chain_order_distinct(prev);
            }
            cs.set(j, ChainSummary { chain_id: c, total_value_usd: e.total_value_usd.saturating_add(&p.value_usd), positions_count: e.positions_count + 1 });
            proof {
                assert(cs@.map_values(|x: ChainSummary| x.chain_id) =~= ids);
                assert forall|i: int| 0 <= i < cs@.len() implies {
                    &&& (#[trigger] cs@[i]).total_value_usd.value() == capped(chain_value(next, cs@[i].chain_id))
                    &&& cs@[i].positions_count == chain_count(next, cs@[i].chain_id)
                } by {
                    if i != j {
                        assert(cs@[i] == old_cs[i]);
                        assert(ids[i] == old_cs[i].chain_id);
                        assert(ids[i] != ids[j as int]);
                    }
                }
            }
        } else {
            proof {
                assert(!ids.contains(c));
                lemma_chain_order_covers(prev);
                assert forall|q: int| 0 <= q < prev.len() implies (#[trigger] prev[q]).chain_id != c by {
                    assert(chain_order(prev).contains(prev[q].chain_id));
                }
                lemma_chain_absent(prev, c);
            }
            cs.push(ChainSummary { chain_id: c, total_value_usd: p.value_usd, positions_count: 1 });
            proof {
                assert(cs@.map_values(|x: ChainSummary| x.chain_id) =~= ids.push(c));
                assert(p.value_usd.value() <= u256_max());
                assert forall|i: int| 0 <= i < cs@.len() implies {
                    &&& (#[trigger] cs@[i]).total_value_usd.value() == capped(chain_value(next, cs@[i].chain_id))
                    &&& cs@[i].positions_count == chain_count(next, cs@[i].chain_id)
                } by {
                    if i < old_cs.len() {
                        assert(cs@[i] == old_cs[i]);
                        assert(ids[i] == old_cs[i].chain_id);
                    }
                }
            }
        }
        k = k + 1;
    }
    assert(ps@.take(ps@.len() as int) =~= ps@);
    cs
}

/// The running totals of one asset.
struct AssetAcc {
    asset: [u8; 20],
    total: U256,
    chains: Vec<(u64, U256)>,
}

/// Accumulators of the assets of some positions: one per asset, by
/// ascending address.
spec fn accs_of(bd: Seq<AssetAcc>, ps: Seq<PositionBalance>) -> bool {
    &&& forall|i: int, j: int| 0 <= i < j < bd.len() ==> bytes_lt((#[trigger] bd[i]).asset@, (#[trigger] bd[j]).asset@)
    &&& forall|i: int| 0 <= i < bd.len() ==> {
        let a = (#[trigger] bd[i]).asset@;
        &&& bd[i].total.value() == capped(asset_amount(ps, a))
        &&& bd[i].chains@ == asset_entries(ps, a)
        &&& asset_entries(ps, a).len() > 0
    }
    &&& forall|k: int| 0 <= k < ps.len() ==> exists|i: int| 0 <= i < bd.len() && (#[trigger] bd[i]).asset@ == (#[trigger] ps[k]).asset@
}

proof fn lemma_asset_absent(ps: Seq<PositionBalance>, a: Seq<u8>)
    requires
        forall|k: int| 0 <= k < ps.len() ==> (#[trigger] ps[k]).asset@ != a,
    ensures
        asset_amount(ps, a) == 0,
        asset_entries(ps, a) == Seq::<(u64, U256)>::empty(),
    decreases ps.len(),
{
    if ps.len() > 0 {
        lemma_asset_absent(ps.drop_last(), a);
        assert(ps[ps.len() - 1].asset@ != a);
    }
}

/// Accumulates the amounts of each asset of some positions.
#[verifier::rlimit(80)]
fn asset_accumulators(ps: &Vec<PositionBalance>) -> (bd: Vec<AssetAcc>)
    ensures
        accs_of(bd@, ps@),
{
    let mut bd: Vec<AssetAcc> = Vec::new();
    let mut k: usize = 0;
    assert(ps@.take(0) =~= Seq::<PositionBalance>::empty());
    while k < ps.len()
        invariant
            k <= ps@.len(),
            accs_of(bd@, ps@.take(k as int)),
        decreases ps.len() - k,
    {
        let p = ps[k];
        let a = p.asset;
        let ghost prev = ps@.take(k as int);
        let ghost next = ps@.take(k + 1);
        assert(next.drop_last() =~= prev);
        assert(next.last() == p);
        let mut j: usize = 0;
        while j < bd.len() && bytes_less(&bd[j].asset, &a)
            invariant
                j <= bd@.len(),
                forall|q: int| 0 <= q < j ==> bytes_lt((#[trigger] bd@[q]).asset@, a@),
            decreases bd.len() - j,
        {
            j = j + 1;
        }
        let ghost old_bd = bd@;
        if j < bd.len() && same_address(&bd[j].asset, &a) {
            let mut e = bd.remove(j);
            proof {
                lemma_capped_add(asset_amount(prev, a@), p.amount.value());
            }
            e.total = e.total.saturating_add(&p.amount);
            e.chains.push((p.chain_id, p.amount));
            bd.insert(j, e);
            proof {
                assert forall|i: int| 0 <= i < bd@.len() implies {
                    let a2 = (#[trigger] bd@[i]).asset@;
                    &&& bd@[i].total.value() == capped(asset_amount(next, a2))
                    &&& bd@[i].chains@ == asset_entries(next, a2)
                    &&& asset_entries(next, a2).len() > 0
                } by {
                    if i != j {
                        assert(bd@[i] == old_bd[i]);
                        if i < j {
                            assert(bytes_lt(old_bd[i].asset@, a@));
                            lemma_lt_asym(old_bd[i].asset@, a@);
                        } else {
                            assert(bytes_lt(old_bd[j as int].asset@, old_bd[i].asset@));
                            lemma_lt_asym(old_bd[j as int].asset@, old_bd[i].asset@);
                        }
                    }
                }
                assert forall|q: int| 0 <= q < next.len() implies exists|i: int| 0 <= i < bd@.len() && (#[trigger] bd@[i]).asset@ == (#[trigger] next[q]).asset@ by {
                    if q < k {
                        assert(next[q] == prev[q]);
                        let w = choose|w: int| 0 <= w < old_bd.len() && (#[trigger] old_bd[w]).asset@ == (#[trigger] prev[q]).asset@;
                        assert(bd@[w].asset@ == old_bd[w].asset@);
                    } else {
                        assert(bd@[j as int].asset@ == a@);
                    }
                }
                assert forall|x: int, y: int| 0 <= x < y < bd@.len() implies bytes_lt((#[trigger] bd@[x]).asset@, (#[trigger] bd@[y]).asset@) by {
                    assert(bytes_lt(old_bd[x].asset@, old_bd[y].asset@));
                }
            }
        } else {
            proof {
                assert forall|q: int| j <= q < old_bd.len() implies bytes_lt(a@, (#[trigger] old_bd[q]).asset@) by {
                    lemma_lt_total(old_bd[j as int].asset@, a@);
                    if q > j {
                        assert(bytes_lt(old_bd[j as int].asset@, old_bd[q].asset@));
                        lemma_lt_trans(a@, old_bd[j as int].asset@, old_bd[q].asset@);
                    }
                }
                assert forall|q: int| 0 <= q < prev.len() implies (#[trigger] prev[q]).asset@ != a@ by {
                    let w = choose|w: int| 0 <= w < old_bd.len() && (#[trigger] old_bd[w]).asset@ == (#[trigger] prev[q]).asset@;
                    if w < j {
                        lemma_lt_irrefl(a@);
                    } else {
                        lemma_lt_irrefl(a@);
                    }
                }
                lemma_asset_absent(prev, a@);
            }
            let mut chains: Vec<(u64, U256)> = Vec::new();
            chains.push((p.chain_id, p.amount));
            bd.insert(j, AssetAcc { asset: a, total: p.amount, chains });
            proof {
                assert(p.amount.value() <= u256_max());
                assert(asset_entries(next, a@) =~= seq![(p.chain_id, p.amount)]);
                assert forall|i: int| 0 <= i < bd@.len() implies {
                    let a2 = (#[trigger] bd@[i]).asset@;
                    &&& bd@[i].total.value() == capped(asset_amount(next, a2))
                    &&& bd@[i].chains@ == asset_entries(next, a2)
                    &&& asset_entries(next, a2).len() > 0
                } by {
                    if i < j {
                        assert(bd@[i] == old_bd[i]);
                        lemma_lt_asym(old_bd[i].asset@, a@);
                    } else if i > j {
                        assert(bd@[i] == old_bd[i - 1]);
                        lemma_lt_asym(a@, old_bd[i - 1].asset@);
                    }
                }
                assert forall|q: int| 0 <= q < next.len() implies exists|i: int| 0 <= i < bd@.len() && (#[trigger] bd@[i]).asset@ == (#[trigger] next[q]).asset@ by {
                    if q < k {
                        assert(next[q] == prev[q]);
                        let w = choose|w: int| 0 <= w < old_bd.len() && (#[trigger] old_bd[w]).asset@ == (#[trigger] prev[q]).asset@;
                        if w < j {
                            assert(bd@[w] == old_bd[w]);
                        } else {
                            assert(bd@[w + 1] == old_bd[w]);
                        }
                    } else {
                        assert(bd@[j as int].asset@ == a@);
                    }
                }
                assert forall|x: int, y: int| 0 <= x < y < bd@.len() implies bytes_lt((#[trigger] bd@[x]).asset@, (#[trigger] bd@[y]).asset@) by {
                    if x < j && y < j {
                        assert(bytes_lt(old_bd[x].asset@, old_bd[y].asset@));
                    } else if x < j && y == j {
                    } else if x < j {
                        assert(bd@[y] == old_bd[y - 1]);
                        assert(bytes_lt(old_bd[x].asset@, old_bd[y - 1].asset@));
                    } else if x == j {
                        assert(bd@[y] == old_bd[y - 1]);
                    } else {
                        assert(bytes_lt(old_bd[x - 1].asset@, old_bd[y - 1].asset@));
                    }
                }
            }
        }
        k = k + 1;
    }
    assert(ps@.take(ps@.len() as int) =~= ps@);
    bd
}


/// The summary of one asset's accumulated holdings.
fn asset_summary(n: &UsdNormalizer, acc: AssetAcc) -> (r: AssetSummary)
    ensures
        r.asset_address == acc.asset,
        r.symbol@ == asset_symbol(acc.asset@),
        r.total_amount == acc.total,
        r.chains_distribution@ == acc.chains@,
        r.total_value_usd.value() == (match usd_value(n.stables(), n.prices(), acc.asset@, acc.total.value()) {
            UsdOutcome::Value(v) => v,
            _ => 0,
        }),
{
    let mut symbol = String::new();
    push_char(&mut symbol, 'A');
    push_char(&mut symbol, 's');
    push_char(&mut symbol, 's');
    push_char(&mut symbol, 'e');
    push_char(&mut symbol, 't');
    push_char(&mut symbol, '_');
    push_address(&mut symbol, &acc.asset);
    assert(symbol@ =~= asset_symbol(acc.asset@));
    let value = match n.normalize_to_usd(&acc.asset, acc.total) {
        Ok(v) => v,
        Err(_) => U256::zero(),
    };
    AssetSummary { asset_address: acc.asset, symbol, total_amount: acc.total, total_value_usd: value, chains_distribution: acc.chains }
}

/// Tracks position balances across chains and snapshots them.
pub struct AccountingEngine {
    normalizer: UsdNormalizer,
    /// Past snapshots, oldest first.
    snapshots: Vec<PositionSnapshot>,
    /// The current balances, by ascending position id.
    current_balances: Vec<PositionBalance>,
}

impl AccountingEngine {
    /// The current balances, by ascending position id.
    pub closed spec fn balances(&self) -> Seq<PositionBalance> {
        self.current_balances@
    }

    /// The kept snapshots, oldest first.
    pub closed spec fn history(&self) -> Seq<PositionSnapshot> {
        self.snapshots@
    }

    /// The normaliser's prices.
    pub closed spec fn prices(&self) -> Map<Seq<u8>, U256> {
        self.normalizer.prices()
    }

    /// The normaliser's stablecoins.
    pub closed spec fn stables(&self) -> Seq<[u8; 20]> {
        self.normalizer.stables()
    }

    /// When the normaliser's prices were last updated.
    pub closed spec fn updated_at(&self) -> u64 {
        self.normalizer.updated_at()
    }

    /// The balances are sorted by id and at most 100 snapshots are kept.
    pub closed spec fn wf(&self) -> bool {
        &&& ids_sorted(self.current_balances@)
        &&& self.snapshots@.len() <= history_limit()
    }

    /// An engine with no balances, no snapshots and an empty normaliser.
    pub fn new() -> (e: AccountingEngine)
        ensures
            e.wf(),
            e.balances().len() == 0,
            e.history().len() == 0,
            e.prices() == Map::<Seq<u8>, U256>::empty(),
            e.stables().len() == 0,
    {
        AccountingEngine { normalizer: UsdNormalizer::new(), snapshots: Vec::new(), current_balances: Vec::new() }
    }

    /// Records a price on the engine's normaliser (see
    /// [`UsdNormalizer::update_price`]).
    pub fn update_price(&mut self, asset: [u8; 20], price: U256, now: u64)
        requires
            old(self).wf(),
        ensures
            final(self).wf(),
            final(self).prices() == old(self).prices().insert(asset@, price),
            final(self).stables() == old(self).stables(),
            final(self).updated_at() == now,
            final(self).balances() == old(self).balances(),
            final(self).history() == old(self).history(),
    {
        self.normalizer.update_price(asset, price, now);
    }

    /// Registers a stablecoin on the engine's normaliser.
    pub fn register_stablecoin(&mut self, asset: [u8; 20])
        requires
            old(self).wf(),
        ensures
            final(self).wf(),
            final(self).prices() == old(self).prices(),
            has_addr(old(self).stables(), asset@) ==> final(self).stables() == old(self).stables(),
            !has_addr(old(self).stables(), asset@) ==> final(self).stables() == old(self).stables().push(asset),
            final(self).balances() == old(self).balances(),
            final(self).history() == old(self).history(),
    {
        self.normalizer.register_stablecoin(asset);
    }

    /// Sets the balance of a position to `amount` of `asset` on `chain_id`,
    /// valued in USD. An asset without a price feed is recorded at value 0;
    /// an overflowing valuation is an error, with no change.
    /// A new position goes where its id keeps the balances sorted.
    pub fn update_balance(&mut self, position_id: [u8; 16], asset: [u8; 20], amount: U256, chain_id: u64) -> (r: Result<(), PositionManagerError>)
        requires
            old(self).wf(),
        ensures
            final(self).wf(),
            final(self).prices() == old(self).prices(),
            final(self).stables() == old(self).stables(),
            final(self).history() == old(self).history(),
            match recorded_value(usd_value(old(self).stables(), old(self).prices(), asset@, amount.value())) {
                Some(v) => r is Ok && exists|nb: PositionBalance| #![trigger placed(old(self).balances(), final(self).balances(), nb)] {
                    &&& nb.position_id == position_id
                    &&& nb.asset == asset
                    &&& nb.amount == amount
                    &&& nb.value_usd.value() == v
                    &&& nb.chain_id == chain_id
                    &&& placed(old(self).balances(), final(self).balances(), nb)
                },
                None => r == Err::<(), PositionManagerError>(PositionManagerError::ArithmeticOverflow)
                    && final(self).balances() == old(self).balances(),
            },
    {
        let value_usd = match self.normalizer.normalize_to_usd(&asset, amount) {
            Ok(v) => v,
            Err(PositionManagerError::PriceFeedNotFound(_)) => U256::zero(),
            Err(e) => {
                return Err(e);
            },
        };
        let nb = PositionBalance { position_id, asset, amount, value_usd, chain_id };
        let ghost old_bal = self.current_balances@;
        let mut i: usize = 0;
        while i < self.current_balances.len() && bytes_less(&self.current_balances[i].position_id, &position_id)
            invariant
                i <= self.current_balances@.len(),
                self.current_balances@ == old_bal,
                forall|j: int| 0 <= j < i ==> bytes_lt((#[trigger] old_bal[j]).position_id@, position_id@),
            decreases self.current_balances.len() - i,
        {
            i = i + 1;
        }
        proof {
            assert forall|j: int| i <= j < old_bal.len() implies bytes_lt(position_id@, (#[trigger] old_bal[j]).position_id@) || old_bal[j].position_id@ == position_id@ by {
                lemma_lt_total(old_bal[i as int].position_id@, position_id@);
                if j > i {
                    assert(bytes_lt(old_bal[i as int].position_id@, old_bal[j].position_id@));
                    if bytes_lt(position_id@, old_bal[i as int].position_id@) {
                        lemma_lt_trans(position_id@, old_bal[i as int].position_id@, old_bal[j].position_id@);
                    } else if old_bal[i as int].position_id@ == position_id@ {
                    }
                }
            }
        }
        if i < self.current_balances.len() && same_id(&self.current_balances[i].position_id, &position_id) {
            self.current_balances.set(i, nb);
            proof {
                assert forall|a: int, b: int| 0 <= a < b < self.current_balances@.len() implies bytes_lt((#[trigger] self.current_balances@[a]).position_id@, (#[trigger] self.current_balances@[b]).position_id@) by {
                    assert(bytes_lt(old_bal[a].position_id@, old_bal[b].position_id@));
                }
                assert(self.current_balances@ == old_bal.update(i as int, nb));
                assert(old_bal[i as int].position_id@ == nb.position_id@);
                assert(replaced_at(old_bal, self.current_balances@, nb, i as int));
            }
        } else {
            proof {
                assert forall|j: int| i <= j < old_bal.len() implies bytes_lt(position_id@, (#[trigger] old_bal[j]).position_id@) by {
                    if j > i {
                        assert(bytes_lt(old_bal[i as int].position_id@, old_bal[j].position_id@));
                        lemma_lt_total(old_bal[i as int].position_id@, position_id@);
                        lemma_lt_trans(position_id@, old_bal[i as int].position_id@, old_bal[j].position_id@);
                    } else {
                        lemma_lt_total(old_bal[i as int].position_id@, position_id@);
                    }
                }
            }
            self.current_balances.insert(i, nb);
            proof {
                assert forall|a: int, b: int| 0 <= a < b < self.current_balances@.len() implies bytes_lt((#[trigger] self.current_balances@[a]).position_id@, (#[trigger] self.current_balances@[b]).position_id@) by {
                    if a < i && b < i {
                        assert(bytes_lt(old_bal[a].position_id@, old_bal[b].position_id@));
                    } else if a < i && b == i {
                    } else if a < i {
                        assert(self.current_balances@[b] == old_bal[b - 1]);
                        assert(bytes_lt(old_bal[a].position_id@, old_bal[b - 1].position_id@));
                    } else if a == i {
                        assert(self.current_balances@[b] == old_bal[b - 1]);
                    } else {
                        assert(bytes_lt(old_bal[a - 1].position_id@, old_bal[b - 1].position_id@));
                    }
                }
                assert(self.current_balances@ == old_bal.insert(i as int, nb));
                assert(inserted_at(old_bal, self.current_balances@, nb, i as int));
            }
        }
        assert(placed(old_bal, self.current_balances@, nb));
        assert(recorded_value(usd_value(self.stables(), self.prices(), asset@, amount.value())) == Some(nb.value_usd.value()));
        assert(old(self).balances() == old_bal);
        assert(self.balances() == self.current_balances@);
        assert(placed(old(self).balances(), self.balances(), nb));
        Ok(())
    }

    /// The balance of a position, if it has one.
    pub fn get_balance(&self, position_id: &[u8; 16]) -> (r: Option<&PositionBalance>)
        ensures
            r matches Some(b) ==> exists|i: int| 0 <= i < self.balances().len() && (#[trigger] self.balances()[i]) == *b && b.position_id@ == position_id@,
            r is None ==> forall|i: int| 0 <= i < self.balances().len() ==> (#[trigger] self.balances()[i]).position_id@ != position_id@,
    {
        let mut i: usize = 0;
        while i < self.current_balances.len()
            invariant
                i <= self.current_balances@.len(),
                forall|j: int| 0 <= j < i ==> (#[trigger] self.current_balances@[j]).position_id@ != position_id@,
            decreases self.current_balances.len() - i,
        {
            if same_id(&self.current_balances[i].position_id, position_id) {
                assert(self.balances()[i as int] == self.current_balances@[i as int]);
                return Some(&self.current_balances[i]);
            }
            i = i + 1;
        }
        None
    }

    /// A snapshot of the current balances.
    fn build_snapshot(&self, timestamp: u64, snapshot_id: [u8; 32]) -> (s: PositionSnapshot)
        ensures
            snapshot_of(s, timestamp, snapshot_id@, self.balances()),
    {
        let positions = copy_balances(&self.current_balances);
        let total_value_usd = total_value(&self.current_balances);
        let chain_breakdown = chain_breakdown(&self.current_balances);
        PositionSnapshot { snapshot_id, timestamp, positions, total_value_usd, chain_breakdown }
    }

    /// Snapshots the current balances at `timestamp` (Unix milliseconds)
    /// under `snapshot_id`, keeps the snapshot, dropping the oldest beyond
    /// 100, and returns it.
    pub fn take_snapshot(&mut self, timestamp: u64, snapshot_id: [u8; 32]) -> (s: PositionSnapshot)
        requires
            old(self).wf(),
        ensures
            final(self).wf(),
            final(self).balances() == old(self).balances(),
            final(self).prices() == old(self).prices(),
            final(self).stables() == old(self).stables(),
            snapshot_of(s, timestamp, snapshot_id@, old(self).balances()),
            final(self).history().len() == (if old(self).history().len() < history_limit() { old(self).history().len() + 1 } else { history_limit() }),
            snapshot_of(final(self).history().last(), timestamp, snapshot_id@, old(self).balances()),
            old(self).history().len() < history_limit() ==> final(self).history().drop_last() == old(self).history(),
            old(self).history().len() == history_limit() ==> final(self).history().drop_last() == old(self).history().drop_first(),
    {
        let kept = self.build_snapshot(timestamp, snapshot_id);
        let s = self.build_snapshot(timestamp, snapshot_id);
        let ghost before = self.snapshots@;
        self.snapshots.push(kept);
        if self.snapshots.len() > 100 {
            let _ = self.snapshots.remove(0);
            assert(self.snapshots@.drop_last() =~= before.drop_first());
        } else {
            assert(self.snapshots@.drop_last() =~= before);
        }
        s
    }

    /// The latest snapshot, if any.
    pub fn latest_snapshot(&self) -> (r: Option<&PositionSnapshot>)
        ensures
            r is None <==> self.history().len() == 0,
            r matches Some(s) ==> *s == self.history().last(),
    {
        let n = self.snapshots.len();
        if n == 0 {
            None
        } else {
            Some(&self.snapshots[n - 1])
        }
    }

    /// The latest `limit` snapshots (all of them where fewer are kept),
    /// oldest first.
    pub fn snapshot_history(&self, limit: usize) -> (r: &[PositionSnapshot])
        ensures
            r@ == (if self.history().len() > limit { self.history().skip(self.history().len() - limit) } else { self.history() }),
    {
        let n = self.snapshots.len();
        let start = if n > limit { n - limit } else { 0 };
        let (_, tail) = self.snapshots.as_slice().split_at(start);
        assert(self.snapshots@.subrange(0, n as int) =~= self.snapshots@);
        tail
    }

    /// The difference between two snapshots (see
    /// [`crate::positions::calculate_diff`]).
    pub fn calculate_diff(&self, snapshot1: &PositionSnapshot, snapshot2: &PositionSnapshot) -> (d: SnapshotDiff)
        ensures
            d.from_timestamp == snapshot1.timestamp,
            d.to_timestamp == snapshot2.timestamp,
            d.added@ == missing_from(snapshot2.positions@, snapshot1.positions@),
            d.removed@ == missing_from(snapshot1.positions@, snapshot2.positions@),
            d.changed@ == changes(snapshot1.positions@, snapshot2.positions@),
            d.total_value_change.value() == (if snapshot2.total_value_usd.value() >= snapshot1.total_value_usd.value() {
                snapshot2.total_value_usd.value() - snapshot1.total_value_usd.value()
            } else {
                0
            }),
    {
        calculate_diff(snapshot1, snapshot2)
    }


    /// A summary of the portfolio: the capped USD total, the per-chain
    /// breakdown in the order the chains first occur among the balances,
    /// and the per-asset breakdown by ascending address. Nothing needs
    /// rebalancing and no arbitrage is active.
    pub fn get_portfolio_summary(&self) -> (r: Result<PortfolioSummary, PositionManagerError>)
        ensures
            r matches Ok(s) && {
                &&& s.total_value_usd.value() == capped(value_sum(self.balances()))
                &&& chain_summary_of(s.chain_breakdown@, self.balances())
                &&& asset_summary_of(s.asset_breakdown@, self.balances(), self.stables(), self.prices())
                &&& !s.rebalance_needed
                &&& s.active_arbitrage_ops == 0
            },
    {
        let total_value_usd = total_value(&self.current_balances);
        let chain_breakdown = chain_summaries(&self.current_balances);
        let mut accs = asset_accumulators(&self.current_balances);
        let ghost all = accs@;
        let ghost ps = self.current_balances@;
        let mut out: Vec<AssetSummary> = Vec::new();
        while accs.len() > 0
            invariant
                accs@ == all.take(accs@.len() as int),
                accs@.len() <= all.len(),
                out@.len() == all.len() - accs@.len(),
                accs_of(all, ps),
                ps == self.balances(),
                forall|i: int| 0 <= i < out@.len() ==> {
                    let acc = all[accs@.len() + i];
                    let sm = #[trigger] out@[i];
                    &&& sm.asset_address == acc.asset
                    &&& sm.symbol@ == asset_symbol(acc.asset@)
                    &&& sm.total_amount == acc.total
                    &&& sm.chains_distribution@ == acc.chains@
                    &&& sm.total_value_usd.value() == (match usd_value(self.stables(), self.prices(), acc.asset@, acc.total.value()) {
                        UsdOutcome::Value(v) => v,
                        _ => 0,
                    })
                },
            decreases accs.len(),
        {
            let ghost before = out@;
            let acc = accs.pop().unwrap();
            assert(acc == all[accs@.len() as int]);
            let sm = asset_summary(&self.normalizer, acc);
            out.insert(0, sm);
            assert(accs@ =~= all.take(accs@.len() as int));
            assert forall|i: int| 0 <= i < out@.len() implies {
                let acc = all[accs@.len() + i];
                let sm = #[trigger] out@[i];
                &&& sm.asset_address == acc.asset
                &&& sm.symbol@ == asset_symbol(acc.asset@)
                &&& sm.total_amount == acc.total
                &&& sm.chains_distribution@ == acc.chains@
                &&& sm.total_value_usd.value() == (match usd_value(self.stables(), self.prices(), acc.asset@, acc.total.value()) {
                    UsdOutcome::Value(v) => v,
                    _ => 0,
                })
            } by {
                if i > 0 {
                    assert(out@[i] == before[i - 1]);
                }
            }
        }
        proof {
            assert forall|i: int, j: int| 0 <= i < j < out@.len() implies bytes_lt((#[trigger] out@[i]).asset_address@, (#[trigger] out@[j]).asset_address@) by {
                assert(bytes_lt(all[i].asset@, all[j].asset@));
            }
            assert forall|k: int| 0 <= k < ps.len() implies has_asset(out@, (#[trigger] ps[k]).asset@) by {
                let w = choose|w: int| 0 <= w < all.len() && (#[trigger] all[w]).asset@ == (#[trigger] ps[k]).asset@;
                assert(out@[w].asset_address@ == all[w].asset@);
            }
            assert forall|i: int| 0 <= i < out@.len() implies {
                let a = (#[trigger] out@[i]).asset_address@;
                &&& out@[i].symbol@ == asset_symbol(a)
                &&& out@[i].total_amount.value() == capped(asset_amount(ps, a))
                &&& out@[i].chains_distribution@ == asset_entries(ps, a)
                &&& asset_entries(ps, a).len() > 0
                &&& out@[i].total_value_usd.value() == (match usd_value(self.stables(), self.prices(), a, capped(asset_amount(ps, a))) {
                    UsdOutcome::Value(v) => v,
                    _ => 0,
                })
            } by {
                assert(all[i].asset@ == out@[i].asset_address@);
            }
        }
        Ok(PortfolioSummary { total_value_usd, chain_breakdown, asset_breakdown: out, rebalance_needed: false, active_arbitrage_ops: 0 })
    }

    /// When the normaliser's prices were last updated.
    pub fn last_update(&self) -> (t: u64)
        ensures
            t == self.updated_at(),
    {
        self.normalizer.last_update()
    }
}

} // verus!
