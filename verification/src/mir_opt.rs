//! Mid-level IR optimisation passes: conditional folding over edge facts
//! propagated along every path from the entry, and the Morel-Renvoise
//! partial-redundancy analysis, which counts placement opportunities.

use vstd::prelude::*;
use std::collections::VecDeque;
use crate::text::chars_of;

verus! {

/// A MIR value (virtual register).
#[derive(Clone, Copy, Debug, PartialEq, Eq, Structural)]
pub struct MirValue(pub usize);

impl MirValue {
    /// The register number.
    pub fn index(&self) -> (i: usize)
        ensures
            i == self.0,
    {
        self.0
    }
}

/// A literal, as far as the passes read it.
#[derive(Clone, Copy, Debug, PartialEq, Eq, Structural)]
pub enum Literal {
    /// An integer literal.
    Integer(i128),
    /// Any other literal.
    Other,
}

/// A statement's right-hand side, as far as the passes read it.
#[derive(Clone, Copy, Debug, PartialEq, Eq, Structural)]
pub enum MirRhs {
    /// A literal.
    Literal(Literal),
    /// Any computed value.
    Computed,
}

/// `target = rhs`.
#[derive(Clone, Copy, Debug)]
pub struct MirStatement {
    pub target: MirValue,
    pub rhs: MirRhs,
}

/// Block terminators.
#[derive(Clone, Copy, Debug, PartialEq, Eq, Structural)]
pub enum MirTerminator {
    /// Unconditional jump.
    Goto(usize),
    /// Two-way branch on `cond`.
    Branch { cond: MirValue, true_bb: usize, false_bb: usize },
    /// Return, with an optional value.
    Return(Option<MirValue>),
}

/// A basic block.
#[derive(Clone, Debug)]
pub struct MirBlock {
    pub statements: Vec<MirStatement>,
    pub term: Option<MirTerminator>,
}

/// A function: its basic blocks; block 0 is the entry.
#[derive(Clone, Debug)]
pub struct MirFunction {
    pub blocks: Vec<MirBlock>,
}

/// Successor blocks of a terminator.
pub open spec fn term_succs(t: Option<MirTerminator>) -> Seq<usize> {
    match t {
        Some(MirTerminator::Goto(b)) => seq![b],
        Some(MirTerminator::Branch { true_bb, false_bb, .. }) => seq![true_bb, false_bb],
        _ => Seq::empty(),
    }
}

/// The terminators of a function's blocks.
pub open spec fn terms_of(blocks: Seq<MirBlock>) -> Seq<Option<MirTerminator>> {
    blocks.map_values(|b: MirBlock| b.term)
}

/// A fact that holds on a control-flow edge.
#[derive(Clone, Copy, Debug, PartialEq, Eq, Structural, PartialOrd, Ord)]
pub enum EdgeFact {
    EqVarConst(usize, i128),
    NeVarConst(usize, i128),
}

/// The value of the last integer literal assigned to `cond` in `stmts`.
pub open spec fn last_constant(stmts: Seq<MirStatement>, cond: MirValue) -> Option<i128>
    decreases stmts.len(),
{
    if stmts.len() == 0 {
        None
    } else {
        match stmts.last().rhs {
            MirRhs::Literal(Literal::Integer(v)) => if stmts.last().target == cond {
                Some(v)
            } else {
                last_constant(stmts.drop_last(), cond)
            },
            _ => last_constant(stmts.drop_last(), cond),
        }
    }
}

/// The facts that the branch at the end of block `b` establishes on its
/// outgoing edges, when the block assigns its condition a constant: the
/// condition is 1 on the true edge and 0 on the false edge.
pub open spec fn block_edge_facts(blocks: Seq<MirBlock>, b: int) -> Seq<(usize, usize, EdgeFact)> {
    match blocks[b].term {
        Some(MirTerminator::Branch { cond, true_bb, false_bb }) => if last_constant(blocks[b].statements@, cond) is Some {
            seq![(b as usize, true_bb, EdgeFact::EqVarConst(cond.0, 1)), (b as usize, false_bb, EdgeFact::EqVarConst(cond.0, 0))]
        } else {
            Seq::empty()
        },
        _ => Seq::empty(),
    }
}

/// The edge facts of the first `n` blocks, in block order.
pub open spec fn edge_facts_upto(blocks: Seq<MirBlock>, n: int) -> Seq<(usize, usize, EdgeFact)>
    decreases n,
{
    if n <= 0 { Seq::empty() } else { edge_facts_upto(blocks, n - 1) + block_edge_facts(blocks, n - 1) }
}

/// Block `b` is reachable from block 0 in at most `k` steps.
pub open spec fn reach_within(terms: Seq<Option<MirTerminator>>, b: int, k: nat) -> bool
    decreases k,
{
    if k == 0 {
        b == 0
    } else {
        reach_within(terms, b, (k - 1) as nat) || exists|p: int| 0 <= p < terms.len() && reach_within(terms, p, (k - 1) as nat) && term_succs(terms[p]).contains(b as usize)
    }
}

/// Block `b` is reachable from the entry block.
pub open spec fn reachable(terms: Seq<Option<MirTerminator>>, b: int) -> bool {
    exists|k: nat| reach_within(terms, b, k)
}

/// All edge facts of a function, in block order.
pub open spec fn all_edge_facts(blocks: Seq<MirBlock>) -> Seq<(usize, usize, EdgeFact)> {
    edge_facts_upto(blocks, blocks.len() as int)
}

/// Block `u` has an edge into block `b`.
pub open spec fn is_pred(terms: Seq<Option<MirTerminator>>, u: int, b: int) -> bool {
    0 <= u < terms.len() && term_succs(terms[u]).contains(b as usize)
}

/// The facts that the list gives the edge from `u` to `b`.
pub open spec fn edge_set(edges: Seq<(usize, usize, EdgeFact)>, u: int, b: int) -> Set<EdgeFact> {
    Set::new(|f: EdgeFact| exists|j: int| 0 <= j < edges.len() && #[trigger] edges[j] == (u as usize, b as usize, f))
}

/// `p` is the one block with an edge into `b`.
pub open spec fn sole_pred(terms: Seq<Option<MirTerminator>>, b: int, p: int) -> bool {
    is_pred(terms, p, b) && forall|u: int| #[trigger] is_pred(terms, u, b) ==> u == p
}

/// The facts carried by every edge into `b`.
pub open spec fn common_edge_facts(terms: Seq<Option<MirTerminator>>, edges: Seq<(usize, usize, EdgeFact)>, b: int) -> Set<EdgeFact> {
    Set::new(|f: EdgeFact| forall|u: int| #[trigger] is_pred(terms, u, b) ==> edge_set(edges, u, b).contains(f))
}

/// The facts on entry to block `b`, followed back at most `k` single-predecessor
/// steps: none at the entry block; for a block with one predecessor, the
/// predecessor's facts and those of the edge between them (the facts flow
/// down the dominator tree); for a block with several, the facts that every
/// incoming edge carries.
pub open spec fn must_facts(blocks: Seq<MirBlock>, b: int, k: nat) -> Set<EdgeFact>
    decreases k,
{
    let terms = terms_of(blocks);
    if b == 0 || k == 0 {
        Set::empty()
    } else if exists|p: int| sole_pred(terms, b, p) {
        let p = choose|p: int| sole_pred(terms, b, p);
        must_facts(blocks, p, (k - 1) as nat).union(edge_set(all_edge_facts(blocks), p, b))
    } else {
        common_edge_facts(terms, all_edge_facts(blocks), b)
    }
}

/// The facts that hold on entry to block `b` on every path from the entry
/// block (see [`must_facts`]); none for a block that no path reaches.
pub open spec fn facts_in_spec(blocks: Seq<MirBlock>, b: int) -> Set<EdgeFact> {
    let terms = terms_of(blocks);
    if reachable(terms, b) {
        must_facts(blocks, b, choose|k: nat| reach_within(terms, b, k))
    } else {
        Set::empty()
    }
}

/// Block `b` is reached from the entry in at most `k` steps without crossing
/// an edge that carries fact `f`.
pub open spec fn reach_avoiding(terms: Seq<Option<MirTerminator>>, edges: Seq<(usize, usize, EdgeFact)>, f: EdgeFact, b: int, k: nat) -> bool
    decreases k,
{
    if k == 0 {
        b == 0
    } else {
        reach_avoiding(terms, edges, f, b, (k - 1) as nat) || exists|u: int| #![trigger is_pred(terms, u, b)]
            reach_avoiding(terms, edges, f, u, (k - 1) as nat) && is_pred(terms, u, b) && !edge_set(edges, u, b).contains(f)
    }
}

/// A path to a block other than the entry ends with an edge from the block's
/// sole predecessor, reached one step earlier.
proof fn lemma_sole_pred_reach(terms: Seq<Option<MirTerminator>>, b: int, p: int, k: nat)
    requires
        sole_pred(terms, b, p),
        b != 0,
        reach_within(terms, b, k),
    ensures
        k >= 1,
        reach_within(terms, p, (k - 1) as nat),
    decreases k,
{
    if reach_within(terms, b, (k - 1) as nat) {
        lemma_sole_pred_reach(terms, b, p, (k - 1) as nat);
        assert(reach_within(terms, p, (k - 1) as nat));
    } else {
        let u = choose|u: int| 0 <= u < terms.len() && reach_within(terms, u, (k - 1) as nat) && term_succs(terms[u]).contains(b as usize);
        assert(is_pred(terms, u, b));
    }
}

/// `must_facts` does not depend on which step count reaches the block.
proof fn lemma_must_facts_stable(blocks: Seq<MirBlock>, b: int, k1: nat, k2: nat)
    requires
        reach_within(terms_of(blocks), b, k1),
        reach_within(terms_of(blocks), b, k2),
    ensures
        must_facts(blocks, b, k1) == must_facts(blocks, b, k2),
    decreases k1,
{
    let terms = terms_of(blocks);
    if b != 0 {
        if exists|p: int| sole_pred(terms, b, p) {
            let p = choose|p: int| sole_pred(terms, b, p);
            lemma_sole_pred_reach(terms, b, p, k1);
            lemma_sole_pred_reach(terms, b, p, k2);
            lemma_must_facts_stable(blocks, p, (k1 - 1) as nat, (k2 - 1) as nat);
        } else {
            if k1 == 0 {
                assert(false);
            }
            if k2 == 0 {
                assert(false);
            }
        }
    }
}

/// The entry block starts with no facts.
proof fn lemma_entry_facts(blocks: Seq<MirBlock>)
    ensures
        facts_in_spec(blocks, 0) == Set::<EdgeFact>::empty(),
{
}

/// A reachable block with a sole predecessor has that block's facts and the
/// facts of the edge between them.
proof fn lemma_sole_pred_facts(blocks: Seq<MirBlock>, b: int, p: int)
    requires
        reachable(terms_of(blocks), b),
        b != 0,
        sole_pred(terms_of(blocks), b, p),
    ensures
        reachable(terms_of(blocks), p),
        facts_in_spec(blocks, b) == facts_in_spec(blocks, p).union(edge_set(all_edge_facts(blocks), p, b)),
{
    let terms = terms_of(blocks);
    let k = choose|k: nat| reach_within(terms, b, k);
    lemma_sole_pred_reach(terms, b, p, k);
    let q = choose|q: int| sole_pred(terms, b, q);
    assert(q == p);
    let kp = choose|kp: nat| reach_within(terms, p, kp);
    lemma_must_facts_stable(blocks, p, (k - 1) as nat, kp);
}

/// A reachable block other than the entry with no sole predecessor has the
/// facts common to its incoming edges.
proof fn lemma_merge_facts(blocks: Seq<MirBlock>, b: int)
    requires
        reachable(terms_of(blocks), b),
        b != 0,
        !exists|p: int| sole_pred(terms_of(blocks), b, p),
    ensures
        facts_in_spec(blocks, b) == common_edge_facts(terms_of(blocks), all_edge_facts(blocks), b),
{
    let terms = terms_of(blocks);
    let k = choose|k: nat| reach_within(terms, b, k);
    assert(k != 0);
}

/// A fact known on entry to a block holds on every path to it: no path from
/// the entry reaches the block without crossing an edge that carries the fact.
pub proof fn lemma_facts_hold_on_every_path(blocks: Seq<MirBlock>, b: int, f: EdgeFact, k: nat)
    requires
        0 <= b < blocks.len(),
        facts_in_spec(blocks, b).contains(f),
    ensures
        !reach_avoiding(terms_of(blocks), all_edge_facts(blocks), f, b, k),
    decreases k,
{
    let terms = terms_of(blocks);
    let edges = all_edge_facts(blocks);
    lemma_entry_facts(blocks);
    assert(reachable(terms, b));
    if k > 0 {
        lemma_facts_hold_on_every_path(blocks, b, f, (k - 1) as nat);
        if exists|u: int| #![trigger is_pred(terms, u, b)]
            reach_avoiding(terms, edges, f, u, (k - 1) as nat) && is_pred(terms, u, b) && !edge_set(edges, u, b).contains(f) {
            let u = choose|u: int| #![trigger is_pred(terms, u, b)]
                reach_avoiding(terms, edges, f, u, (k - 1) as nat) && is_pred(terms, u, b) && !edge_set(edges, u, b).contains(f);
            if exists|p: int| sole_pred(terms, b, p) {
                let p = choose|p: int| sole_pred(terms, b, p);
                lemma_sole_pred_facts(blocks, b, p);
                assert(u == p);
                lemma_facts_hold_on_every_path(blocks, u, f, (k - 1) as nat);
            } else {
                lemma_merge_facts(blocks, b);
                assert(is_pred(terms, u, b));
            }
        }
    }
}

/// The terminator block `b` gets: a branch whose condition is known to be
/// 1 or 0 (assigned that constant in the block itself, or established on
/// the edges into the block) becomes a jump to the taken side.
pub open spec fn folded_term(blocks: Seq<MirBlock>, b: int) -> Option<MirTerminator> {
    match blocks[b].term {
        Some(MirTerminator::Branch { cond, true_bb, false_bb }) => {
            let own = last_constant(blocks[b].statements@, cond);
            let facts = facts_in_spec(blocks, b);
            if own == Some(1i128) {
                Some(MirTerminator::Goto(true_bb))
            } else if own == Some(0i128) {
                Some(MirTerminator::Goto(false_bb))
            } else if facts.contains(EdgeFact::EqVarConst(cond.0, 1)) {
                Some(MirTerminator::Goto(true_bb))
            } else if facts.contains(EdgeFact::EqVarConst(cond.0, 0)) {
                Some(MirTerminator::Goto(false_bb))
            } else {
                blocks[b].term
            }
        },
        _ => blocks[b].term,
    }
}



/// A successor of a block reachable within `k` steps is reachable within `k + 1`.
proof fn lemma_reach_step(terms: Seq<Option<MirTerminator>>, p: int, k: nat, j: int)
    requires
        0 <= p < terms.len(),
        reach_within(terms, p, k),
        0 <= j < term_succs(terms[p]).len(),
    ensures
        reach_within(terms, term_succs(terms[p])[j] as int, k + 1),
{
    let s = term_succs(terms[p])[j];
    assert(term_succs(terms[p]).contains(s));
    assert(s as int as usize == s);
}

/// A set of blocks that holds the entry and is closed under in-range
/// successors holds every reachable block.
proof fn lemma_closed_holds_reachable(terms: Seq<Option<MirTerminator>>, visited: Seq<bool>, b: int, k: nat)
    requires
        visited.len() == terms.len(),
        0 < terms.len() <= usize::MAX,
        visited[0],
        forall|v: int, j: int| 0 <= v < terms.len() && visited[v] && 0 <= j < term_succs(terms[v]).len()
            && term_succs(terms[v])[j] < terms.len() ==> #[trigger] visited[term_succs(terms[v])[j] as int],
        0 <= b < terms.len(),
        reach_within(terms, b, k),
    ensures
        visited[b],
    decreases k,
{
    if k == 0 {
    } else if reach_within(terms, b, (k - 1) as nat) {
        lemma_closed_holds_reachable(terms, visited, b, (k - 1) as nat);
    } else {
        let p = choose|p: int| 0 <= p < terms.len() && reach_within(terms, p, (k - 1) as nat) && term_succs(terms[p]).contains(b as usize);
        lemma_closed_holds_reachable(terms, visited, p, (k - 1) as nat);
        let j = choose|j: int| 0 <= j < term_succs(terms[p]).len() && term_succs(terms[p])[j] == b as usize;
        assert(visited[term_succs(terms[p])[j] as int]);
    }
}

/// Successor lists of a function's blocks; block 0 is the entry.
pub struct Cfg {
    pub entry: usize,
    pub succs: Vec<Vec<usize>>,
}

impl Cfg {
    /// The graph describes `blocks`.
    pub open spec fn describes(&self, blocks: Seq<MirBlock>) -> bool {
        &&& self.entry == 0
        &&& self.succs.len() == blocks.len()
        &&& forall|b: int| 0 <= b < blocks.len() ==> #[trigger] self.succs[b]@ == term_succs(blocks[b].term)
    }

    /// Reads the successors off the terminators.
    pub fn build(func: &MirFunction) -> (cfg: Cfg)
        ensures
            cfg.describes(func.blocks@),
    {
        let mut succs: Vec<Vec<usize>> = Vec::new();
        let mut b: usize = 0;
        while b < func.blocks.len()
            invariant
                b <= func.blocks.len(),
                succs.len() == b,
                forall|i: int| 0 <= i < b ==> #[trigger] succs[i]@ == term_succs(func.blocks@[i].term),
            decreases func.blocks.len() - b,
        {
            let s: Vec<usize> = match func.blocks[b].term {
                Some(MirTerminator::Goto(t)) => vec![t],
                Some(MirTerminator::Branch { true_bb, false_bb, .. }) => vec![true_bb, false_bb],
                _ => Vec::new(),
            };
            proof {
                assert(s@ =~= term_succs(func.blocks@[b as int].term));
            }
            succs.push(s);
            b = b + 1;
        }
        Cfg { entry: 0, succs }
    }
}

/// The result of running a pass.
#[derive(Clone, Copy, Debug)]
pub struct PassResult {
    /// Whether the pass changed the function.
    pub changed: bool,
    /// How many rewrites the pass reports.
    pub count: usize,
}

impl PassResult {
    pub fn with_change(changed: bool, count: usize) -> (r: PassResult)
        ensures
            r.changed == changed,
            r.count == count,
    {
        PassResult { changed, count }
    }
}

/// Folds branches whose condition is known on the edges into their block.
#[derive(Clone, Copy, Debug)]
pub struct ConditionalFoldingPass;

impl ConditionalFoldingPass {
    pub fn new() -> (p: ConditionalFoldingPass)
        ensures
            p == ConditionalFoldingPass,
    {
        ConditionalFoldingPass
    }

    /// The pass's name.
    pub fn name(&self) -> (s: &'static str)
        ensures
            s@ == "conditional_folding"@,
    {
        "conditional_folding"
    }

    /// The last integer literal assigned to `cond` in the block.
    pub fn find_cond_value(block: &MirBlock, cond: MirValue) -> (r: Option<i128>)
        ensures
            r == last_constant(block.statements@, cond),
    {
        let mut i: usize = block.statements.len();
        proof {
            assert(block.statements@.subrange(0, i as int) =~= block.statements@);
        }
        while i > 0
            invariant
                i <= block.statements.len(),
                last_constant(block.statements@, cond) == last_constant(block.statements@.subrange(0, i as int), cond),
            decreases i,
        {
            let st = block.statements[i - 1];
            let prefix = Ghost(block.statements@.subrange(0, i as int));
            proof {
                assert(prefix@.drop_last() =~= block.statements@.subrange(0, i - 1));
                assert(prefix@.last() == st);
            }
            if st.target == cond {
                if let MirRhs::Literal(Literal::Integer(v)) = st.rhs {
                    return Some(v);
                }
            }
            i = i - 1;
        }
        proof {
            assert(block.statements@.subrange(0, 0).len() == 0);
        }
        None
    }

    /// The facts on each control-flow edge, as `(from, to, fact)`, in block order.
    pub fn infer_edge_facts(func: &MirFunction) -> (edges: Vec<(usize, usize, EdgeFact)>)
        ensures
            edges@ == all_edge_facts(func.blocks@),
    {
        let mut edges: Vec<(usize, usize, EdgeFact)> = Vec::new();
        let mut i: usize = 0;
        while i < func.blocks.len()
            invariant
                i <= func.blocks.len(),
                edges@ == edge_facts_upto(func.blocks@, i as int),
            decreases func.blocks.len() - i,
        {
            let ghost before = edges@;
            if let Some(MirTerminator::Branch { cond, true_bb, false_bb }) = func.blocks[i].term {
                if let Some(_) = Self::find_cond_value(&func.blocks[i], cond) {
                    edges.push((i, true_bb, EdgeFact::EqVarConst(cond.index(), 1)));
                    edges.push((i, false_bb, EdgeFact::EqVarConst(cond.index(), 0)));
                }
            }
            proof {
                assert(edges@ =~= before + block_edge_facts(func.blocks@, i as int));
            }
            i = i + 1;
        }
        edges
    }

    /// Whether `succs` holds `b`.
    fn succ_has(succs: &Vec<usize>, b: usize) -> (r: bool)
        ensures
            r == succs@.contains(b),
    {
        let mut i: usize = 0;
        while i < succs.len()
            invariant
                i <= succs.len(),
                forall|j: int| 0 <= j < i ==> succs@[j] != b,
            decreases succs.len() - i,
        {
            if succs[i] == b {
                return true;
            }
            i = i + 1;
        }
        false
    }

    /// Whether the list gives the edge from `u` to `b` the fact `f`.
    fn has_edge_fact(edges: &Vec<(usize, usize, EdgeFact)>, u: usize, b: usize, f: EdgeFact) -> (r: bool)
        ensures
            r == edge_set(edges@, u as int, b as int).contains(f),
    {
        let mut j: usize = 0;
        while j < edges.len()
            invariant
                j <= edges.len(),
                forall|i: int| 0 <= i < j ==> edges@[i] != (u, b, f),
            decreases edges.len() - j,
        {
            let (x, y, g) = edges[j];
            if x == u && y == b && g == f {
                assert(edges@[j as int] == (u as int as usize, b as int as usize, f));
                return true;
            }
            j = j + 1;
        }
        false
    }

    /// Whether every edge into `b` carries `f`.
    fn all_preds_carry(cfg: &Cfg, edges: &Vec<(usize, usize, EdgeFact)>, b: usize, f: EdgeFact, Ghost(terms): Ghost<Seq<Option<MirTerminator>>>) -> (r: bool)
        requires
            cfg.succs.len() == terms.len(),
            forall|u: int| 0 <= u < terms.len() ==> #[trigger] cfg.succs[u]@ == term_succs(terms[u]),
        ensures
            r == forall|u: int| #[trigger] is_pred(terms, u, b as int) ==> edge_set(edges@, u, b as int).contains(f),
    {
        let mut u: usize = 0;
        while u < cfg.succs.len()
            invariant
                u <= cfg.succs.len(),
                cfg.succs.len() == terms.len(),
                forall|w: int| 0 <= w < terms.len() ==> #[trigger] cfg.succs[w]@ == term_succs(terms[w]),
                forall|w: int| 0 <= w < u && #[trigger] is_pred(terms, w, b as int) ==> edge_set(edges@, w, b as int).contains(f),
            decreases cfg.succs.len() - u,
        {
            if Self::succ_has(&cfg.succs[u], b) && !Self::has_edge_fact(edges, u, b, f) {
                assert(is_pred(terms, u as int, b as int));
                return false;
            }
            u = u + 1;
        }
        true
    }

    /// The facts on entry to block `b`, reached from the entry and not the
    /// entry itself, given the facts of the blocks visited before it: the
    /// sole predecessor's facts with those of its edge, or the facts common
    /// to all incoming edges.
    fn facts_on_entry(func: &MirFunction, cfg: &Cfg, edge_facts: &Vec<(usize, usize, EdgeFact)>, facts_in: &Vec<Vec<EdgeFact>>, visited: &Vec<bool>, b: usize) -> (acc: Vec<EdgeFact>)
        requires
            cfg.describes(func.blocks@),
            edge_facts@ == all_edge_facts(func.blocks@),
            facts_in.len() == func.blocks.len(),
            visited.len() == func.blocks.len(),
            b < func.blocks.len(),
            b != 0,
            reachable(terms_of(func.blocks@), b as int),
            exists|u: int| 0 <= u < func.blocks.len() && visited[u] && #[trigger] is_pred(terms_of(func.blocks@), u, b as int),
            forall|v: int, f: EdgeFact| 0 <= v < func.blocks.len() && visited[v] ==>
                (#[trigger] facts_in[v]@.contains(f) <==> facts_in_spec(func.blocks@, v).contains(f)),
        ensures
            forall|f: EdgeFact| #[trigger] acc@.contains(f) <==> facts_in_spec(func.blocks@, b as int).contains(f),
    {
        let n = func.blocks.len();
        let ghost terms = terms_of(func.blocks@);
        let ghost edges = edge_facts@;
        assert(terms.len() == n);
        let mut first: Option<usize> = None;
        let mut several = false;
        let mut u: usize = 0;
        while u < n
            invariant
                u <= n,
                n == func.blocks.len(),
                terms.len() == n,
                cfg.describes(func.blocks@),
                terms == terms_of(func.blocks@),
                first is None ==> !several && forall|w: int| 0 <= w < u ==> !#[trigger] is_pred(terms, w, b as int),
                first matches Some(p) ==> p < u && is_pred(terms, p as int, b as int)
                    && (several <==> exists|w: int| 0 <= w < u && w != p && #[trigger] is_pred(terms, w, b as int)),
            decreases n - u,
        {
            assert(cfg.succs[u as int]@ == term_succs(func.blocks@[u as int].term));
            if Self::succ_has(&cfg.succs[u], b) {
                assert(is_pred(terms, u as int, b as int));
                match first {
                    None => {
                        first = Some(u);
                    },
                    Some(_) => {
                        several = true;
                    },
                }
            }
            u = u + 1;
        }
        let p = match first {
            Some(p) => p,
            None => {
                proof {
                    let w = choose|w: int| 0 <= w < func.blocks.len() && visited[w] && #[trigger] is_pred(terms_of(func.blocks@), w, b as int);
                    assert(is_pred(terms, w, b as int));
                }
                return Vec::new();
            },
        };
        let mut acc: Vec<EdgeFact> = Vec::new();
        if !several {
            proof {
                assert forall|w: int| #[trigger] is_pred(terms, w, b as int) implies w == p by {}
                assert(sole_pred(terms, b as int, p as int));
                lemma_sole_pred_facts(func.blocks@, b as int, p as int);
                let w = choose|w: int| 0 <= w < func.blocks.len() && visited[w] && #[trigger] is_pred(terms_of(func.blocks@), w, b as int);
                assert(w == p);
            }
            let src = &facts_in[p];
            let mut i: usize = 0;
            while i < src.len()
                invariant
                    i <= src.len(),
                    acc@ == src@.subrange(0, i as int),
                decreases src.len() - i,
            {
                acc.push(src[i]);
                proof {
                    assert(acc@ =~= src@.subrange(0, i + 1));
                }
                i = i + 1;
            }
            assert(acc@ =~= src@);
            let ghost base = acc@;
            let mut j: usize = 0;
            while j < edge_facts.len()
                invariant
                    j <= edge_facts.len(),
                    edges == edge_facts@,
                    forall|f: EdgeFact| #[trigger] acc@.contains(f) <==> (base.contains(f)
                        || exists|i: int| 0 <= i < j && #[trigger] edges[i] == (p as int as usize, b as int as usize, f)),
                decreases edge_facts.len() - j,
            {
                let (x, y, g) = edge_facts[j];
                let ghost before = acc@;
                if x == p && y == b {
                    acc.push(g);
                }
                proof {
                    assert forall|f: EdgeFact| #[trigger] acc@.contains(f) <==> (base.contains(f)
                        || exists|i: int| 0 <= i < j + 1 && #[trigger] edges[i] == (p as int as usize, b as int as usize, f)) by {
                        if acc@.contains(f) && !before.contains(f) {
                            let w = choose|w: int| 0 <= w < acc@.len() && acc@[w] == f;
                            assert(w == before.len());
                            assert(edges[j as int] == (p as int as usize, b as int as usize, f));
                        }
                        if before.contains(f) && !base.contains(f) {
                            let i = choose|i: int| 0 <= i < j && #[trigger] edges[i] == (p as int as usize, b as int as usize, f);
                            assert(edges[i] == (p as int as usize, b as int as usize, f));
                        }
                        if base.contains(f) {
                            assert(before.contains(f));
                            let w = choose|w: int| 0 <= w < before.len() && before[w] == f;
                            assert(acc@[w] == f);
                        }
                        if exists|i: int| 0 <= i < j + 1 && #[trigger] edges[i] == (p as int as usize, b as int as usize, f) {
                            let i = choose|i: int| 0 <= i < j + 1 && #[trigger] edges[i] == (p as int as usize, b as int as usize, f);
                            if i == j {
                                assert(acc@[acc@.len() - 1] == f);
                            } else {
                                assert(before.contains(f));
                                let w = choose|w: int| 0 <= w < before.len() && before[w] == f;
                                assert(acc@[w] == f);
                            }
                        }
                    }
                }
                j = j + 1;
            }
            proof {
                assert forall|f: EdgeFact| #[trigger] acc@.contains(f) <==> facts_in_spec(func.blocks@, b as int).contains(f) by {
                    assert(base.contains(f) <==> facts_in[p as int]@.contains(f));
                    assert(facts_in[p as int]@.contains(f) <==> facts_in_spec(func.blocks@, p as int).contains(f));
                }
            }
        } else {
            proof {
                assert(!exists|q: int| sole_pred(terms, b as int, q)) by {
                    if exists|q: int| sole_pred(terms, b as int, q) {
                        let q = choose|q: int| sole_pred(terms, b as int, q);
                        let w = choose|w: int| 0 <= w < n && w != p && #[trigger] is_pred(terms, w, b as int);
                        assert(w == q);
                        assert(p as int == q);
                    }
                }
                lemma_merge_facts(func.blocks@, b as int);
            }
            let mut j: usize = 0;
            while j < edge_facts.len()
                invariant
                    j <= edge_facts.len(),
                    edges == edge_facts@,
                    terms == terms_of(func.blocks@),
                    is_pred(terms, p as int, b as int),
                    cfg.describes(func.blocks@),
                    forall|f: EdgeFact| #[trigger] acc@.contains(f) <==> (common_edge_facts(terms, edges, b as int).contains(f)
                        && exists|i: int| 0 <= i < j && #[trigger] edges[i] == (p as int as usize, b as int as usize, f)),
                decreases edge_facts.len() - j,
            {
                let (x, y, g) = edge_facts[j];
                let ghost before = acc@;
                if x == p && y == b && Self::all_preds_carry(cfg, edge_facts, b, g, Ghost(terms)) {
                    acc.push(g);
                }
                proof {
                    assert forall|f: EdgeFact| #[trigger] acc@.contains(f) <==> (common_edge_facts(terms, edges, b as int).contains(f)
                        && exists|i: int| 0 <= i < j + 1 && #[trigger] edges[i] == (p as int as usize, b as int as usize, f)) by {
                        if acc@.contains(f) && !before.contains(f) {
                            let w = choose|w: int| 0 <= w < acc@.len() && acc@[w] == f;
                            assert(w == before.len());
                            assert(edges[j as int] == (p as int as usize, b as int as usize, f));
                        }
                        if common_edge_facts(terms, edges, b as int).contains(f)
                            && exists|i: int| 0 <= i < j + 1 && #[trigger] edges[i] == (p as int as usize, b as int as usize, f) {
                            let i = choose|i: int| 0 <= i < j + 1 && #[trigger] edges[i] == (p as int as usize, b as int as usize, f);
                            if i == j {
                                assert(acc@[acc@.len() - 1] == f);
                            } else {
                                assert(before.contains(f));
                                let w = choose|w: int| 0 <= w < before.len() && before[w] == f;
                                assert(acc@[w] == f);
                            }
                        }
                    }
                }
                j = j + 1;
            }
            proof {
                assert forall|f: EdgeFact| #[trigger] acc@.contains(f) <==> facts_in_spec(func.blocks@, b as int).contains(f) by {
                    if common_edge_facts(terms, edges, b as int).contains(f) {
                        assert(edge_set(edges, p as int, b as int).contains(f));
                    }
                }
            }
        }
        acc
    }

    /// The facts on entry to each block: those that hold on every path from
    /// the entry (see [`facts_in_spec`]). Blocks are visited breadth-first
    /// from the entry; a block's facts come from its sole predecessor, visited
    /// before it, or from the edges into it.
    pub fn propagate_edge_facts(func: &MirFunction, cfg: &Cfg, edge_facts: &Vec<(usize, usize, EdgeFact)>) -> (facts_in: Vec<Vec<EdgeFact>>)
        requires
            cfg.describes(func.blocks@),
            edge_facts@ == all_edge_facts(func.blocks@),
        ensures
            facts_in.len() == func.blocks.len(),
            forall|b: int, f: EdgeFact| 0 <= b < func.blocks.len() ==>
                (#[trigger] facts_in[b]@.contains(f) <==> facts_in_spec(func.blocks@, b).contains(f)),
    {
        let n = func.blocks.len();
        let ghost terms = terms_of(func.blocks@);
        let mut facts_in: Vec<Vec<EdgeFact>> = Vec::new();
        let mut visited: Vec<bool> = Vec::new();
        let mut i: usize = 0;
        while i < n
            invariant
                i <= n,
                n == func.blocks.len(),
                facts_in.len() == i,
                visited.len() == i,
                forall|b: int| 0 <= b < i ==> #[trigger] facts_in[b]@.len() == 0,
                forall|b: int| 0 <= b < i ==> !#[trigger] visited[b],
            decreases n - i,
        {
            facts_in.push(Vec::new());
            visited.push(false);
            i = i + 1;
        }
        if n == 0 {
            return facts_in;
        }
        let mut queue: VecDeque<usize> = VecDeque::new();
        queue.push_back(cfg.entry);
        let ghost mut vset: Set<int> = Set::empty();
        proof {
            assert(reach_within(terms, 0, 0));
            assert(queue@[0] == 0usize);
        }
        loop
            invariant
                n == func.blocks.len(),
                n > 0,
                terms == terms_of(func.blocks@),
                terms.len() == n,
                cfg.describes(func.blocks@),
                edge_facts@ == all_edge_facts(func.blocks@),
                facts_in.len() == n,
                visited.len() == n,
                vset.finite(),
                forall|v: int| #[trigger] vset.contains(v) <==> (0 <= v < n && visited[v]),
                forall|v: int| 0 <= v < n && #[trigger] visited[v] ==> reachable(terms, v),
                forall|q: int| 0 <= q < queue@.len() ==> #[trigger] queue@[q] < n && reachable(terms, queue@[q] as int),
                visited[0] || queue@.contains(0usize),
                forall|v: int, j: int| 0 <= v < n && visited[v] && 0 <= j < term_succs(terms[v]).len()
                    && term_succs(terms[v])[j] < n ==> #[trigger] visited[term_succs(terms[v])[j] as int]
                    || queue@.contains(term_succs(terms[v])[j]),
                forall|v: int, f: EdgeFact| 0 <= v < n && visited[v] ==>
                    (#[trigger] facts_in[v]@.contains(f) <==> facts_in_spec(func.blocks@, v).contains(f)),
                forall|v: int| 0 <= v < n && !visited[v] ==> #[trigger] facts_in[v]@.len() == 0,
                forall|q: int| 0 <= q < queue@.len() && queue@[q] != 0 ==> exists|u: int| 0 <= u < n && visited[u]
                    && #[trigger] is_pred(terms, u, queue@[q] as int),
            ensures
                queue@.len() == 0,
            decreases n - vset.len(), queue@.len(),
        {
            let ghost q0 = queue@;
            let next = queue.pop_front();
            let b = match next {
                None => {
                    break;
                },
                Some(b) => b,
            };
            proof {
                assert forall|x: usize| q0.contains(x) implies x == b || queue@.contains(x) by {
                    let w = choose|w: int| 0 <= w < q0.len() && q0[w] == x;
                    if w > 0 {
                        assert(queue@[w - 1] == x);
                    }
                }
                assert forall|q: int| 0 <= q < queue@.len() implies #[trigger] queue@[q] < n && reachable(terms, queue@[q] as int) by {
                    assert(queue@[q] == q0[q + 1]);
                }
                assert forall|q: int| 0 <= q < queue@.len() && queue@[q] != 0 implies exists|u: int| 0 <= u < n && visited[u]
                    && #[trigger] is_pred(terms, u, queue@[q] as int) by {
                    assert(queue@[q] == q0[q + 1]);
                }
                assert(q0[0] == b);
            }
            if visited[b] {
                continue;
            }
            let ghost old_queue = queue@;
            proof {
                if b != 0 {
                    assert(q0[0] != 0);
                    assert(exists|u: int| 0 <= u < n && visited[u] && #[trigger] is_pred(terms, u, q0[0] as int));
                }
            }
            let acc: Vec<EdgeFact> = if b == cfg.entry {
                proof {
                    lemma_entry_facts(func.blocks@);
                }
                Vec::new()
            } else {
                Self::facts_on_entry(func, cfg, edge_facts, &facts_in, &visited, b)
            };
            proof {
                vstd::set_lib::lemma_int_range(0, n as int);
                assert(vset.insert(b as int).subset_of(vstd::set_lib::set_int_range(0, n as int)));
                vstd::set_lib::lemma_len_subset(vset.insert(b as int), vstd::set_lib::set_int_range(0, n as int));
            }
            visited.set(b, true);
            proof {
                vset = vset.insert(b as int);
            }
            facts_in.set(b, acc);
            // Queue the successors not yet visited.
            let mut k: usize = 0;
            let succs = &cfg.succs[b];
            while k < succs.len()
                invariant
                    k <= succs.len(),
                    succs@ == term_succs(terms[b as int]),
                    b < n,
                    n == visited.len(),
                    terms.len() == n,
                    reachable(terms, b as int),
                    forall|q: int| 0 <= q < queue@.len() ==> #[trigger] queue@[q] < n && reachable(terms, queue@[q] as int),
                    forall|q: int| 0 <= q < old_queue.len() ==> queue@.contains(#[trigger] old_queue[q]),
                    forall|j: int| 0 <= j < k && succs@[j] < n ==> #[trigger] visited[succs@[j] as int] || queue@.contains(succs@[j]),
                    visited[b as int],
                    forall|q: int| 0 <= q < queue@.len() && queue@[q] != 0 ==> exists|u: int| 0 <= u < n && visited[u]
                        && #[trigger] is_pred(terms, u, queue@[q] as int),
                decreases succs.len() - k,
            {
                let s = succs[k];
                let ghost before = queue@;
                if s < n && !visited[s] {
                    proof {
                        let kk: nat = choose|kk: nat| reach_within(terms, b as int, kk);
                        lemma_reach_step(terms, b as int, kk, k as int);
                    }
                    queue.push_back(s);
                    proof {
                        assert(queue@[queue@.len() - 1] == s);
                        assert(succs@.contains(s));
                        assert(is_pred(terms, b as int, s as int));
                        assert forall|q: int| 0 <= q < queue@.len() && queue@[q] != 0 implies exists|u: int| 0 <= u < n && visited[u]
                            && #[trigger] is_pred(terms, u, queue@[q] as int) by {
                            if q < before.len() {
                                assert(queue@[q] == before[q]);
                            } else {
                                assert(is_pred(terms, b as int, queue@[q] as int));
                            }
                        }
                        assert forall|q: int| 0 <= q < old_queue.len() implies queue@.contains(#[trigger] old_queue[q]) by {
                            let w = choose|w: int| 0 <= w < before.len() && before[w] == old_queue[q];
                            assert(queue@[w] == old_queue[q]);
                        }
                        assert forall|j: int| 0 <= j < k && succs@[j] < n implies #[trigger] visited[succs@[j] as int] || queue@.contains(succs@[j]) by {
                            if !visited[succs@[j] as int] {
                                let w = choose|w: int| 0 <= w < before.len() && before[w] == succs@[j];
                                assert(queue@[w] == succs@[j]);
                            }
                        }
                    }
                }
                k = k + 1;
            }
            proof {
                assert(visited[0] || queue@.contains(0usize)) by {
                    if !visited[0] {
                        assert(old_queue.contains(0usize));
                        let w = choose|w: int| 0 <= w < old_queue.len() && old_queue[w] == 0usize;
                        assert(queue@.contains(old_queue[w]));
                    }
                }
                assert forall|v: int, j: int| 0 <= v < n && visited[v] && 0 <= j < term_succs(terms[v]).len()
                    && term_succs(terms[v])[j] < n implies #[trigger] visited[term_succs(terms[v])[j] as int]
                    || queue@.contains(term_succs(terms[v])[j]) by {
                    let t = term_succs(terms[v])[j];
                    if v != b && !visited[t as int] {
                        assert(t != b);
                        assert(old_queue.contains(t));
                        let w = choose|w: int| 0 <= w < old_queue.len() && old_queue[w] == t;
                        assert(queue@.contains(old_queue[w]));
                    }
                }
            }
        }
        proof {
            assert forall|b: int, f: EdgeFact| 0 <= b < n implies
                (#[trigger] facts_in[b]@.contains(f) <==> facts_in_spec(func.blocks@, b).contains(f)) by {
                if reachable(terms, b) {
                    let k: nat = choose|k: nat| reach_within(terms, b, k);
                    lemma_closed_holds_reachable(terms, visited@, b, k);
                }
            }
        }
        facts_in
    }

    /// Whether `facts` holds `f`.
    fn has_fact(facts: &Vec<EdgeFact>, f: EdgeFact) -> (r: bool)
        ensures
            r == facts@.contains(f),
    {
        let mut i: usize = 0;
        while i < facts.len()
            invariant
                i <= facts.len(),
                forall|j: int| 0 <= j < i ==> facts@[j] != f,
            decreases facts.len() - i,
        {
            if facts[i] == f {
                return true;
            }
            i = i + 1;
        }
        false
    }

    /// Rewrites each branch whose condition is known into a jump to the
    /// taken side; reports whether any block changed.
    pub fn apply_edge_facts(func: &mut MirFunction, facts_in: &Vec<Vec<EdgeFact>>) -> (changed: bool)
        requires
            facts_in.len() == old(func).blocks.len(),
            forall|b: int, f: EdgeFact| 0 <= b < old(func).blocks.len() ==>
                (#[trigger] facts_in[b]@.contains(f) <==> facts_in_spec(old(func).blocks@, b).contains(f)),
        ensures
            final(func).blocks.len() == old(func).blocks.len(),
            forall|b: int| 0 <= b < old(func).blocks.len() ==> (#[trigger] final(func).blocks@[b]).statements@ == old(func).blocks@[b].statements@,
            forall|b: int| 0 <= b < old(func).blocks.len() ==> (#[trigger] final(func).blocks@[b]).term == folded_term(old(func).blocks@, b),
            changed == exists|b: int| 0 <= b < old(func).blocks.len() && #[trigger] folded_term(old(func).blocks@, b) != old(func).blocks@[b].term,
    {
        let ghost orig = func.blocks@;
        let mut changed = false;
        let mut b: usize = 0;
        while b < func.blocks.len()
            invariant
                func.blocks.len() == orig.len(),
                facts_in.len() == orig.len(),
                b <= orig.len(),
                forall|c: int, f: EdgeFact| 0 <= c < orig.len() ==>
                    (#[trigger] facts_in[c]@.contains(f) <==> facts_in_spec(orig, c).contains(f)),
                forall|c: int| 0 <= c < orig.len() ==> (#[trigger] func.blocks@[c]).statements@ == orig[c].statements@,
                forall|c: int| 0 <= c < b ==> (#[trigger] func.blocks@[c]).term == folded_term(orig, c),
                forall|c: int| b <= c < orig.len() ==> (#[trigger] func.blocks@[c]).term == orig[c].term,
                changed == exists|c: int| 0 <= c < b && #[trigger] folded_term(orig, c) != orig[c].term,
            decreases orig.len() - b,
        {
            if let Some(MirTerminator::Branch { cond, true_bb, false_bb }) = func.blocks[b].term {
                let own = Self::find_cond_value(&func.blocks[b], cond);
                let (own_true, own_false) = match own {
                    Some(v) => (v == 1, v == 0),
                    None => (false, false),
                };
                let target = if own_true {
                    Some(true_bb)
                } else if own_false {
                    Some(false_bb)
                } else if Self::has_fact(&facts_in[b], EdgeFact::EqVarConst(cond.index(), 1)) {
                    Some(true_bb)
                } else if Self::has_fact(&facts_in[b], EdgeFact::EqVarConst(cond.index(), 0)) {
                    Some(false_bb)
                } else {
                    None
                };
                if let Some(t) = target {
                    func.blocks[b].term = Some(MirTerminator::Goto(t));
                    changed = true;
                }
            }
            proof {
                assert(func.blocks@[b as int].term == folded_term(orig, b as int));
                if folded_term(orig, b as int) != orig[b as int].term {
                    assert(changed);
                }
            }
            b = b + 1;
        }
        changed
    }

    /// Runs the pass: infers the edge facts, propagates them breadth-first
    /// from the entry block, and folds the branches they decide.
    pub fn run(&self, func: &mut MirFunction) -> (r: PassResult)
        ensures
            final(func).blocks.len() == old(func).blocks.len(),
            forall|b: int| 0 <= b < old(func).blocks.len() ==> (#[trigger] final(func).blocks@[b]).statements@ == old(func).blocks@[b].statements@,
            forall|b: int| 0 <= b < old(func).blocks.len() ==> (#[trigger] final(func).blocks@[b]).term == folded_term(old(func).blocks@, b),
            r.changed == exists|b: int| 0 <= b < old(func).blocks.len() && #[trigger] folded_term(old(func).blocks@, b) != old(func).blocks@[b].term,
            r.count == 0,
    {
        let cfg = Cfg::build(func);
        let edge_facts = Self::infer_edge_facts(func);
        let facts_in = Self::propagate_edge_facts(func, &cfg, &edge_facts);
        let changed = Self::apply_edge_facts(func, &facts_in);
        PassResult::with_change(changed, 0)
    }
}


/// `pat` occurs in `s` as a contiguous run.
pub open spec fn has_substring(s: Seq<char>, pat: Seq<char>) -> bool {
    exists|i: int| 0 <= i && i + pat.len() <= s.len() && #[trigger] s.subrange(i, i + pat.len()) == pat
}

/// Whether `pat` occurs in `hay`.
pub fn contains_pattern(hay: &Vec<char>, pat: &Vec<char>) -> (r: bool)
    ensures
        r == has_substring(hay@, pat@),
{
    if pat.len() > hay.len() {
        return false;
    }
    let mut i: usize = 0;
    while i <= hay.len() - pat.len()
        invariant
            pat.len() <= hay.len(),
            i <= hay.len() - pat.len() + 1,
            forall|k: int| 0 <= k < i ==> #[trigger] hay@.subrange(k, k + pat.len()) != pat@,
        decreases hay.len() - i,
    {
        let mut j: usize = 0;
        let mut same = true;
        while j < pat.len()
            invariant
                i + pat.len() <= hay.len(),
                j <= pat.len(),
                same == forall|m: int| 0 <= m < j ==> hay@[i + m] == pat@[m],
            decreases pat.len() - j,
        {
            if hay[i + j] != pat[j] {
                same = false;
            }
            j = j + 1;
        }
        if same {
            proof {
                assert(hay@.subrange(i as int, i + pat.len()) =~= pat@);
            }
            return true;
        }
        proof {
            let m = choose|m: int| 0 <= m < pat.len() && hay@[i + m] != pat@[m];
            assert(hay@.subrange(i as int, i + pat.len())[m] != pat@[m]);
        }
        i = i + 1;
    }
    proof {
        assert forall|k: int| 0 <= k && k + pat@.len() <= hay@.len() implies #[trigger] hay@.subrange(k, k + pat@.len()) != pat@ by {
            assert(k < i);
        }
    }
    false
}

/// The canonical form of an expression: its operator and operand names.
#[derive(Clone, Debug)]
pub struct ExprKey {
    pub opcode: String,
    pub operands: Vec<String>,
}

impl ExprKey {
    /// An expression is pure unless its operator names a call.
    pub fn is_pure(&self) -> (r: bool)
        ensures
            r == !has_substring(self.opcode@, "call"@),
    {
        let hay = chars_of(self.opcode.as_str());
        let pat = chars_of("call");
        !contains_pattern(&hay, &pat)
    }
}

/// Availability of an expression at a block, for the forward dataflow.
#[derive(Clone, Copy, Debug, PartialEq, Eq, Structural)]
pub enum Availability {
    Unknown,
    Available,
    /// Not available: ambiguous or killed.
    Overdefined,
}

impl Availability {
    /// The meet of two availabilities: `Unknown` is the identity, two
    /// `Available` stay available, anything else is overdefined.
    pub open spec fn meet_spec(self, other: Availability) -> Availability {
        match (self, other) {
            (Availability::Unknown, x) => x,
            (x, Availability::Unknown) => x,
            (Availability::Available, Availability::Available) => Availability::Available,
            _ => Availability::Overdefined,
        }
    }

    pub fn meet(self, other: Availability) -> (r: Availability)
        ensures
            r == self.meet_spec(other),
    {
        match (self, other) {
            (Availability::Unknown, x) => x,
            (x, Availability::Unknown) => x,
            (Availability::Available, Availability::Available) => Availability::Available,
            _ => Availability::Overdefined,
        }
    }
}

/// `meet` is a semilattice operation with `Unknown` as its identity and
/// `Overdefined` absorbing every other value: it is commutative,
/// associative and idempotent.
pub proof fn lemma_meet_semilattice(a: Availability, b: Availability, c: Availability)
    ensures
        a.meet_spec(b) == b.meet_spec(a),
        a.meet_spec(b).meet_spec(c) == a.meet_spec(b.meet_spec(c)),
        a.meet_spec(a) == a,
        a.meet_spec(Availability::Unknown) == a,
        a != Availability::Unknown ==> a.meet_spec(Availability::Overdefined) == Availability::Overdefined,
{
}

/// Partial-redundancy elimination after Morel and Renvoise: the analysis
/// that finds where repeated expressions could be computed once (see
/// [`pre_opportunities`]); it reports them and leaves the module unchanged.
#[derive(Clone, Copy, Debug)]
pub struct MorelRenvoisePrePass {
    max_iterations: usize,
}

impl MorelRenvoisePrePass {
    /// The bound on the placement refinement's iterations.
    pub closed spec fn iterations(&self) -> usize {
        self.max_iterations
    }

    pub fn new() -> (p: MorelRenvoisePrePass)
        ensures
            p.iterations() == 128,
    {
        MorelRenvoisePrePass::default()
    }

    pub fn max_iterations(&self) -> (n: usize)
        ensures
            n == self.iterations(),
    {
        self.max_iterations
    }

    /// The pass's name.
    pub fn name(&self) -> (s: &'static str)
        ensures
            s@ == "morel_renvoise_pre"@,
    {
        "morel_renvoise_pre"
    }

    /// How often `k` occurs in `seen`.
    fn count_in(seen: &Vec<u64>, k: u64) -> (c: usize)
        ensures
            c == occurrences(seen@, k),
    {
        let mut c: usize = 0;
        let mut i: usize = 0;
        while i < seen.len()
            invariant
                i <= seen@.len(),
                c == occurrences(seen@.take(i as int), k),
                c <= i,
            decreases seen.len() - i,
        {
            proof {
                assert(seen@.take(i + 1).drop_last() =~= seen@.take(i as int));
            }
            if seen[i] == k {
                c = c + 1;
            }
            i = i + 1;
        }
        assert(seen@.take(seen@.len() as int) =~= seen@);
        c
    }

    /// The number of distinct expressions that occur at least twice in the
    /// module, and the number of occurrences.
    fn count_multi_occurrences(module: &MirModule) -> (r: (usize, Ghost<Seq<u64>>))
        ensures
            r.1@ == module_exprs(module.blocks@),
            r.0 == multi_count(r.1@),
    {
        let mut seen: Vec<u64> = Vec::new();
        let mut multi: usize = 0;
        let mut b: usize = 0;
        while b < module.blocks.len()
            invariant
                b <= module.blocks@.len(),
                seen@ == module_exprs(module.blocks@.take(b as int)),
                multi == multi_count(seen@),
                multi <= seen@.len(),
            decreases module.blocks.len() - b,
        {
            let exprs = &module.blocks[b].exprs;
            let ghost base = seen@;
            let mut i: usize = 0;
            assert(exprs@.take(0) =~= Seq::<Option<u64>>::empty());
            while i < exprs.len()
                invariant
                    i <= exprs@.len(),
                    seen@ == base + some_keys(exprs@.take(i as int)),
                    multi == multi_count(seen@),
                    multi <= seen@.len(),
                decreases exprs.len() - i,
            {
                proof {
                    lemma_some_keys_step(exprs@, i as int);
                }
                if let Some(k) = exprs[i] {
                    let c = Self::count_in(&seen, k);
                    proof {
                        lemma_multi_push(seen@, k);
                    }
                    let ghost before_len = seen@.len();
                    seen.push(k);
                    let n = seen.len();
                    assert(multi < n) by {
                        assert(n == before_len + 1);
                    }
                    if c == 1 {
                        multi = multi + 1;
                    }
                    assert(seen@ =~= base + some_keys(exprs@.take(i + 1)));
                } else {
                    assert(seen@ =~= base + some_keys(exprs@.take(i + 1)));
                }
                i = i + 1;
            }
            proof {
                assert(exprs@.take(exprs@.len() as int) =~= exprs@);
                lemma_module_exprs_step(module.blocks@, b as int);
            }
            b = b + 1;
        }
        assert(module.blocks@.take(module.blocks@.len() as int) =~= module.blocks@);
        (multi, Ghost(seen@))
    }

    /// Whether `l` holds `k`.
    fn list_has(l: &Vec<u32>, k: u32) -> (r: bool)
        ensures
            r == l@.contains(k),
    {
        let mut i: usize = 0;
        while i < l.len()
            invariant
                i <= l@.len(),
                forall|j: int| 0 <= j < i ==> l@[j] != k,
            decreases l.len() - i,
        {
            if l[i] == k {
                return true;
            }
            i = i + 1;
        }
        false
    }

    /// Whether block id `k` is a placement point of the blocks.
    fn is_placement_point(bs: &Vec<PreBlock>, k: u32) -> (r: bool)
        ensures
            r == placement_point(bs@, k),
    {
        let mut i: usize = 0;
        while i < bs.len()
            invariant
                i <= bs@.len(),
                forall|j: int| 0 <= j < i && #[trigger] bs@[j].id == k ==> (bs@[j].succs matches Some(l) ==> l@.len() == 0),
            decreases bs.len() - i,
        {
            if bs[i].id == k {
                if let Some(l) = &bs[i].succs {
                    if l.len() > 0 {
                        assert(!no_exit(bs@, k));
                        return false;
                    }
                }
            }
            i = i + 1;
        }
        assert(no_exit(bs@, k));
        let mut t: usize = 0;
        while t < bs.len()
            invariant
                t <= bs@.len(),
                no_exit(bs@, k),
                forall|j: int| 0 <= j < t ==> !(#[trigger] kept_succs(bs@, j) && bs@[j].succs.unwrap()@.contains(k)),
            decreases bs.len() - t,
        {
            if let Some(l) = &bs[t].succs {
                if Self::list_has(l, k) {
                    // kept when no later block with the same id has a terminator
                    let mut later: usize = t + 1;
                    let mut kept = true;
                    while later < bs.len()
                        invariant
                            t < later <= bs@.len(),
                            kept == forall|j: int| t < j < later && #[trigger] bs@[j].id == bs@[t as int].id ==> bs@[j].succs is None,
                        decreases bs.len() - later,
                    {
                        if bs[later].id == bs[t].id && bs[later].succs.is_some() {
                            kept = false;
                        }
                        later = later + 1;
                    }
                    if kept {
                        assert(kept_succs(bs@, t as int) && bs@[t as int].succs.unwrap()@.contains(k));
                        return true;
                    }
                }
            }
            t = t + 1;
        }
        false
    }

    /// The number of distinct placement points among the block ids.
    fn count_placement_points(bs: &Vec<PreBlock>) -> (c: usize)
        ensures
            c == placement_count(bs@, bs@.len() as int),
    {
        let mut c: usize = 0;
        let mut i: usize = 0;
        while i < bs.len()
            invariant
                i <= bs@.len(),
                c == placement_count(bs@, i as int),
                c <= i,
            decreases bs.len() - i,
        {
            let mut first = true;
            let mut j: usize = 0;
            while j < i
                invariant
                    j <= i < bs@.len(),
                    first == forall|x: int| 0 <= x < j ==> #[trigger] bs@[x].id != bs@[i as int].id,
                decreases i - j,
            {
                if bs[j].id == bs[i].id {
                    first = false;
                }
                j = j + 1;
            }
            if first && Self::is_placement_point(bs, bs[i].id) {
                c = c + 1;
            }
            i = i + 1;
        }
        c
    }

    /// Run the analysis: report, as the pass's count, the placement
    /// opportunities (see [`pre_opportunities`]); the module is left as it
    /// is, and the pass reports no change. The total must fit in a `usize`.
    pub fn run(&self, module: &mut MirModule) -> (r: PassResult)
        requires
            pre_opportunities(*old(module)) <= usize::MAX,
        ensures
            r.count == pre_opportunities(*old(module)),
            !r.changed,
            *final(module) == *old(module),
    {
        let (multi, Ghost(_exprs)) = Self::count_multi_occurrences(module);
        if multi == 0 {
            assert(pre_opportunities(*module) == 0);
            return PassResult::with_change(false, 0);
        }
        let points = Self::count_placement_points(&module.blocks);
        assert(multi * points == pre_opportunities(*module));
        proof {
            assert(multi * points <= usize::MAX);
        }
        PassResult::with_change(false, multi * points)
    }
}

/// A basic block as the partial-redundancy pass reads it: its id, the
/// canonical number of each statement's right-hand side where that is a
/// pure unary or binary expression (equal expressions, after ordering the
/// operands of commutative operators, share a number), and its successors
/// where it has a terminator.
#[derive(Clone, Debug)]
pub struct PreBlock {
    pub id: u32,
    pub exprs: Vec<Option<u64>>,
    pub succs: Option<Vec<u32>>,
}

/// A module: the blocks of all its functions, in order. The analysis
/// identifies blocks by id across the functions.
#[derive(Clone, Debug)]
pub struct MirModule {
    pub blocks: Vec<PreBlock>,
}

/// The expression numbers in `s`, in order.
pub open spec fn some_keys(s: Seq<Option<u64>>) -> Seq<u64>
    decreases s.len(),
{
    if s.len() == 0 {
        Seq::empty()
    } else {
        match s.last() {
            Some(k) => some_keys(s.drop_last()).push(k),
            None => some_keys(s.drop_last()),
        }
    }
}

/// The expression occurrences of the blocks, in module order.
pub open spec fn module_exprs(bs: Seq<PreBlock>) -> Seq<u64>
    decreases bs.len(),
{
    if bs.len() == 0 { Seq::empty() } else { module_exprs(bs.drop_last()) + some_keys(bs.last().exprs@) }
}

/// How often `k` occurs in `s`.
pub open spec fn occurrences(s: Seq<u64>, k: u64) -> nat
    decreases s.len(),
{
    if s.len() == 0 {
        0
    } else {
        occurrences(s.drop_last(), k) + if s.last() == k { 1nat } else { 0nat }
    }
}

/// The number of distinct expressions that occur at least twice (each
/// counted at its second occurrence).
pub open spec fn multi_count(s: Seq<u64>) -> nat
    decreases s.len(),
{
    if s.len() == 0 {
        0
    } else {
        multi_count(s.drop_last()) + if occurrences(s.drop_last(), s.last()) == 1 { 1nat } else { 0nat }
    }
}

/// Every block with id `k` ends without a successor (no terminator, or a return).
pub open spec fn no_exit(bs: Seq<PreBlock>, k: u32) -> bool {
    forall|i: int| 0 <= i < bs.len() && #[trigger] bs[i].id == k ==> (bs[i].succs matches Some(l) ==> l@.len() == 0)
}

/// Block `i` is the last block with its id that has a terminator: its
/// successor list is the one the control-flow map keeps for that id.
pub open spec fn kept_succs(bs: Seq<PreBlock>, i: int) -> bool {
    &&& 0 <= i < bs.len()
    &&& bs[i].succs is Some
    &&& forall|j: int| i < j < bs.len() && #[trigger] bs[j].id == bs[i].id ==> bs[j].succs is None
}

/// Some kept successor list names `k`.
pub open spec fn is_target(bs: Seq<PreBlock>, k: u32) -> bool {
    exists|i: int| #[trigger] kept_succs(bs, i) && bs[i].succs.unwrap()@.contains(k)
}

/// A placement point: a block id that a kept successor list names and
/// whose blocks have no successor.
pub open spec fn placement_point(bs: Seq<PreBlock>, k: u32) -> bool {
    is_target(bs, k) && no_exit(bs, k)
}

/// Block `i` is the first with its id.
pub open spec fn first_of_id(bs: Seq<PreBlock>, i: int) -> bool {
    forall|j: int| 0 <= j < i ==> #[trigger] bs[j].id != bs[i].id
}

/// The number of distinct placement points among the ids of the first `n` blocks.
pub open spec fn placement_count(bs: Seq<PreBlock>, n: int) -> nat
    decreases n,
{
    if n <= 0 {
        0
    } else {
        placement_count(bs, n - 1) + if first_of_id(bs, n - 1) && placement_point(bs, bs[n - 1].id) { 1nat } else { 0nat }
    }
}

/// The placement opportunities that the Morel-Renvoise analysis reports
/// for a module. Availability is forward and nothing kills an expression,
/// so from its first round on every block with a successor has every
/// expression available; anticipatability is backward, and a block with
/// no successor anticipates every expression (the meet over no successors
/// is the identity), while an id that is no block's anticipates none. So
/// the earliest placements of each expression are the placement points, a
/// block without successors is never postponed, and the analysis reports,
/// for each expression that occurs at least twice, every placement point.
pub open spec fn pre_opportunities(m: MirModule) -> nat {
    multi_count(module_exprs(m.blocks@)) * placement_count(m.blocks@, m.blocks@.len() as int)
}

proof fn lemma_some_keys_step(s: Seq<Option<u64>>, i: int)
    requires
        0 <= i < s.len(),
    ensures
        some_keys(s.take(i + 1)) == match s[i] {
            Some(k) => some_keys(s.take(i)).push(k),
            None => some_keys(s.take(i)),
        },
{
    assert(s.take(i + 1).drop_last() =~= s.take(i));
}

proof fn lemma_module_exprs_step(bs: Seq<PreBlock>, b: int)
    requires
        0 <= b < bs.len(),
    ensures
        module_exprs(bs.take(b + 1)) == module_exprs(bs.take(b)) + some_keys(bs[b].exprs@),
{
    assert(bs.take(b + 1).drop_last() =~= bs.take(b));
}

proof fn lemma_multi_push(s: Seq<u64>, k: u64)
    ensures
        occurrences(s.push(k), k) == occurrences(s, k) + 1,
        multi_count(s.push(k)) == multi_count(s) + if occurrences(s, k) == 1 { 1nat } else { 0nat },
{
    assert(s.push(k).drop_last() =~= s);
}

impl Default for MorelRenvoisePrePass {
    fn default() -> (p: MorelRenvoisePrePass)
        ensures
            p.iterations() == 128,
    {
        MorelRenvoisePrePass { max_iterations: 128 }
    }
}
} // verus!
