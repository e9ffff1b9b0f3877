//! Route finding for cross-chain position operations: direct swaps, single
//! bridge hops and two-hop routes through intermediate chains, with their
//! fees and gas, filtered by the caller's preferences.

use vstd::prelude::*;
use crate::accounting::{capped, u256_max};
use crate::positions::{DexRouter, PositionManagerError, U256};

verus! {

/// A candidate route between two chains.
#[derive(Clone, Debug)]
pub struct SwapRoute {
    pub source_chain: u64,
    pub target_chain: u64,
    pub source_asset: [u8; 20],
    pub target_asset: [u8; 20],
    pub amount_in: U256,
    pub amount_out: U256,
    /// The chains the route passes, in order.
    pub hops: Vec<u64>,
    pub gas_estimate: U256,
}

/// Mathematical model of a [`SwapRoute`].
pub struct RouteModel {
    pub source_chain: u64,
    pub target_chain: u64,
    pub source_asset: Seq<u8>,
    pub target_asset: Seq<u8>,
    pub amount_in: nat,
    pub amount_out: nat,
    pub hops: Seq<u64>,
    pub gas: nat,
}

impl View for SwapRoute {
    type V = RouteModel;

    open spec fn view(&self) -> RouteModel {
        RouteModel {
            source_chain: self.source_chain,
            target_chain: self.target_chain,
            source_asset: self.source_asset@,
            target_asset: self.target_asset@,
            amount_in: self.amount_in.value(),
            amount_out: self.amount_out.value(),
            hops: self.hops@,
            gas: self.gas_estimate.value(),
        }
    }
}

/// The routes, as models.
pub open spec fn routes_view(rs: Seq<SwapRoute>) -> Seq<RouteModel> {
    rs.map_values(|r: SwapRoute| r@)
}

/// What the caller wants of a route.
#[derive(Clone, Debug)]
pub struct RouteOptimizationParams {
    /// Routes through an intermediate chain are tried above one hop.
    pub max_hops: u32,
    /// Chains no route may pass.
    pub avoid_chains: Vec<u64>,
    /// Where not empty, the only chains to route through.
    pub preferred_chains: Vec<u64>,
    /// The least output a route must give.
    pub min_liquidity: U256,
}

/// The fee of a bridge hop for `amount`: a base of `10^15` plus 0.3% of the
/// amount (nothing where amount times 30 overflows), saturating.
pub open spec fn bridge_fee(amount: nat) -> nat {
    capped(1_000_000_000_000_000 + (if amount * 30 > u256_max() { 0 } else { amount * 30 / 10000 }))
}

/// `a - b`, or zero where that is negative.
pub open spec fn sub_or_zero(a: nat, b: nat) -> nat {
    if a >= b { (a - b) as nat } else { 0 }
}

/// The direct swap on one chain: output equal to the input, 150 000 gas.
pub open spec fn direct_model(chain: u64, sa: Seq<u8>, ta: Seq<u8>, amount: nat) -> RouteModel {
    RouteModel { source_chain: chain, target_chain: chain, source_asset: sa, target_asset: ta, amount_in: amount, amount_out: amount, hops: seq![chain], gas: 150000 }
}

/// The single bridge hop: the input less the bridge fee, 200 000 gas.
pub open spec fn bridge_model(s: u64, t: u64, sa: Seq<u8>, ta: Seq<u8>, amount: nat) -> RouteModel {
    RouteModel { source_chain: s, target_chain: t, source_asset: sa, target_asset: ta, amount_in: amount, amount_out: sub_or_zero(amount, bridge_fee(amount)), hops: seq![s, t], gas: 200000 }
}

/// The two bridge hops through `mid`: each takes its fee, 400 000 gas.
pub open spec fn multi_hop_model(s: u64, mid: u64, t: u64, sa: Seq<u8>, ta: Seq<u8>, amount: nat) -> RouteModel {
    let after_first = sub_or_zero(amount, bridge_fee(amount));
    RouteModel {
        source_chain: s,
        target_chain: t,
        source_asset: sa,
        target_asset: ta,
        amount_in: amount,
        amount_out: sub_or_zero(after_first, bridge_fee(after_first)),
        hops: seq![s, mid, t],
        gas: 400000,
    }
}

/// The chains a two-hop route may pass between `s` and `t`: the supported
/// chains, in order, other than the two, bridged from `s` and to `t`, and
/// preferred where there is a preference.
pub open spec fn intermediate_chains(supported: Seq<u64>, bridges: Seq<(u64, u64)>, s: u64, t: u64, preferred: Seq<u64>) -> Seq<u64>
    decreases supported.len(),
{
    if supported.len() == 0 {
        Seq::empty()
    } else {
        let c = supported.last();
        let prev = intermediate_chains(supported.drop_last(), bridges, s, t, preferred);
        if c != s && c != t && bridges.contains((s, c)) && bridges.contains((c, t)) && (preferred.len() == 0 || preferred.contains(c)) {
            prev.push(c)
        } else {
            prev
        }
    }
}

/// The two-hop routes through each intermediate chain not to be avoided.
pub open spec fn multi_hop_routes(mids: Seq<u64>, avoid: Seq<u64>, s: u64, t: u64, sa: Seq<u8>, ta: Seq<u8>, amount: nat) -> Seq<RouteModel>
    decreases mids.len(),
{
    if mids.len() == 0 {
        Seq::empty()
    } else {
        let prev = multi_hop_routes(mids.drop_last(), avoid, s, t, sa, ta, amount);
        if avoid.contains(mids.last()) { prev } else { prev.push(multi_hop_model(s, mids.last(), t, sa, ta, amount)) }
    }
}

/// A route passes no avoided chain and gives at least the minimum output.
pub open spec fn route_kept(r: RouteModel, min_liquidity: nat, avoid: Seq<u64>) -> bool {
    r.amount_out >= min_liquidity && forall|i: int| 0 <= i < r.hops.len() ==> !avoid.contains(#[trigger] r.hops[i])
}

/// The routes that are kept, in order.
pub open spec fn kept_routes(rs: Seq<RouteModel>, min_liquidity: nat, avoid: Seq<u64>) -> Seq<RouteModel>
    decreases rs.len(),
{
    if rs.len() == 0 {
        Seq::empty()
    } else {
        let prev = kept_routes(rs.drop_last(), min_liquidity, avoid);
        if route_kept(rs.last(), min_liquidity, avoid) { prev.push(rs.last()) } else { prev }
    }
}


/// Every route the filter keeps gives at least the minimum output and
/// passes no avoided chain, and comes from the routes filtered.
pub proof fn lemma_kept_routes_meet_params(rs: Seq<RouteModel>, min_liquidity: nat, avoid: Seq<u64>)
    ensures
        forall|i: int| 0 <= i < kept_routes(rs, min_liquidity, avoid).len() ==> {
            &&& route_kept(#[trigger] kept_routes(rs, min_liquidity, avoid)[i], min_liquidity, avoid)
            &&& rs.contains(kept_routes(rs, min_liquidity, avoid)[i])
        },
        kept_routes(rs, min_liquidity, avoid).len() <= rs.len(),
    decreases rs.len(),
{
    if rs.len() > 0 {
        let prev = rs.drop_last();
        lemma_kept_routes_meet_params(prev, min_liquidity, avoid);
        let k = kept_routes(rs, min_liquidity, avoid);
        assert forall|i: int| 0 <= i < k.len() implies {
            &&& route_kept(#[trigger] k[i], min_liquidity, avoid)
            &&& rs.contains(k[i])
        } by {
            let kp = kept_routes(prev, min_liquidity, avoid);
            if i < kp.len() {
                assert(k[i] == kp[i]);
                let w = choose|w: int| 0 <= w < prev.len() && prev[w] == kp[i];
                assert(rs[w] == prev[w]);
            } else {
                assert(k[i] == rs.last());
                assert(rs[rs.len() - 1] == rs.last());
            }
        }
    }
}

/// No route gives out more than goes in: a swap passes the amount on, and
/// each bridge hop takes its fee.
pub proof fn lemma_route_output_le_input(s: u64, mid: u64, t: u64, sa: Seq<u8>, ta: Seq<u8>, amount: nat)
    ensures
        direct_model(s, sa, ta, amount).amount_out <= amount,
        bridge_model(s, t, sa, ta, amount).amount_out <= amount,
        multi_hop_model(s, mid, t, sa, ta, amount).amount_out <= amount,
{
}

/// `10^15 + 0.3%` of `amount` (see [`bridge_fee`]).
pub fn estimate_bridge_fee(amount: &U256) -> (f: U256)
    ensures
        f.value() == bridge_fee(amount.value()),
{
    let base = U256::from_u128(1_000_000_000_000_000);
    let pct = match crate::accounting::u256_checked_mul(*amount, U256::from_u128(30)) {
        Some(p) => match crate::accounting::u256_checked_div(p, U256::from_u128(10000)) {
            Some(q) => q,
            None => U256::zero(),
        },
        None => U256::zero(),
    };
    base.saturating_add(&pct)
}

/// `a - b`, or zero where that is negative.
fn sub_floor(a: &U256, b: &U256) -> (r: U256)
    ensures
        r.value() == sub_or_zero(a.value(), b.value()),
{
    match a.checked_sub(b) {
        Some(x) => x,
        None => U256::zero(),
    }
}

/// Whether `v` holds `x`.
fn contains_u64(v: &Vec<u64>, x: u64) -> (r: bool)
    ensures
        r == v@.contains(x),
{
    let mut i: usize = 0;
    while i < v.len()
        invariant
            i <= v@.len(),
            forall|j: int| 0 <= j < i ==> v@[j] != x,
        decreases v.len() - i,
    {
        if v[i] == x {
            assert(v@[i as int] == x);
            return true;
        }
        i = i + 1;
    }
    false
}

/// Finds routes between chains from its DEX routers and bridges.
pub struct RouteOptimizer {
    /// The configured chains.
    pub supported_chains: Vec<u64>,
    /// DEX routers, by the chain they were added for.
    pub dex_routers: Vec<(u64, DexRouter)>,
    /// The chain pairs a bridge joins, in order of adding.
    pub bridges: Vec<(u64, u64)>,
}

impl RouteOptimizer {
    /// The chains with a DEX router.
    pub open spec fn router_chains(&self) -> Seq<u64> {
        self.dex_routers@.map_values(|e: (u64, DexRouter)| e.0)
    }

    /// The routes between two chains before filtering: the direct swap on
    /// one chain or the bridge hop between two, then, above one hop, the
    /// two-hop routes; an error where the first cannot be built.
    pub open spec fn candidate_routes(&self, s: u64, t: u64, sa: Seq<u8>, ta: Seq<u8>, amount: nat, max_hops: u32, avoid: Seq<u64>, preferred: Seq<u64>) -> Result<Seq<RouteModel>, PositionManagerError> {
        let multi = if max_hops > 1 {
            multi_hop_routes(intermediate_chains(self.supported_chains@, self.bridges@, s, t, preferred), avoid, s, t, sa, ta, amount)
        } else {
            Seq::empty()
        };
        if s == t {
            if !self.router_chains().contains(s) {
                Err(PositionManagerError::DexRouterNotFound(s))
            } else if !self.supported_chains@.contains(s) {
                Err(PositionManagerError::ChainNotFound(s))
            } else {
                Ok(seq![direct_model(s, sa, ta, amount)] + multi)
            }
        } else {
            if !self.bridges@.contains((s, t)) {
                Err(PositionManagerError::BridgeNotFound(s, t))
            } else {
                Ok(seq![bridge_model(s, t, sa, ta, amount)] + multi)
            }
        }
    }

    /// An optimiser for the configured chains, with no routers or bridges.
    pub fn new(supported_chains: Vec<u64>) -> (r: RouteOptimizer)
        ensures
            r.supported_chains@ == supported_chains@,
            r.dex_routers@.len() == 0,
            r.bridges@.len() == 0,
    {
        RouteOptimizer { supported_chains, dex_routers: Vec::new(), bridges: Vec::new() }
    }

    /// Adds a DEX router for a chain.
    pub fn add_dex_router(&mut self, chain_id: u64, router: DexRouter)
        ensures
            final(self).router_chains() == old(self).router_chains().push(chain_id),
            final(self).supported_chains@ == old(self).supported_chains@,
            final(self).bridges@ == old(self).bridges@,
    {
        let ghost before = self.router_chains();
        self.dex_routers.push((chain_id, router));
        assert(self.router_chains() =~= before.push(chain_id));
    }

    /// Adds a bridge from one chain to another.
    pub fn add_bridge_contract(&mut self, source_chain: u64, target_chain: u64)
        ensures
            final(self).bridges@ == old(self).bridges@.push((source_chain, target_chain)),
            final(self).supported_chains@ == old(self).supported_chains@,
            final(self).router_chains() == old(self).router_chains(),
    {
        self.bridges.push((source_chain, target_chain));
    }

    /// Whether a bridge joins `source_chain` to `target_chain`.
    pub fn has_bridge(&self, source_chain: u64, target_chain: u64) -> (r: bool)
        ensures
            r == self.bridges@.contains((source_chain, target_chain)),
    {
        let mut i: usize = 0;
        while i < self.bridges.len()
            invariant
                i <= self.bridges@.len(),
                forall|j: int| 0 <= j < i ==> self.bridges@[j] != (source_chain, target_chain),
            decreases self.bridges.len() - i,
        {
            let (a, b) = self.bridges[i];
            if a == source_chain && b == target_chain {
                assert(self.bridges@[i as int] == (source_chain, target_chain));
                return true;
            }
            i = i + 1;
        }
        false
    }

    /// The first DEX router of a chain.
    pub fn get_dex_router(&self, chain_id: u64) -> (r: Result<&DexRouter, PositionManagerError>)
        ensures
            r is Ok <==> self.router_chains().contains(chain_id),
            r is Err ==> r == Err::<&DexRouter, PositionManagerError>(PositionManagerError::DexRouterNotFound(chain_id)),
    {
        let mut i: usize = 0;
        while i < self.dex_routers.len()
            invariant
                i <= self.dex_routers@.len(),
                forall|j: int| 0 <= j < i ==> self.router_chains()[j] != chain_id,
            decreases self.dex_routers.len() - i,
        {
            if self.dex_routers[i].0 == chain_id {
                assert(self.router_chains()[i as int] == chain_id);
                return Ok(&self.dex_routers[i].1);
            }
            i = i + 1;
        }
        Err(PositionManagerError::DexRouterNotFound(chain_id))
    }

    /// The direct swap route on one chain (see [`direct_model`]); an error
    /// where the chain has no DEX router or no configuration.
    pub fn build_direct_route(&self, chain_id: u64, source_asset: [u8; 20], target_asset: [u8; 20], amount: U256) -> (r: Result<SwapRoute, PositionManagerError>)
        ensures
            !self.router_chains().contains(chain_id) ==> r == Err::<SwapRoute, PositionManagerError>(PositionManagerError::DexRouterNotFound(chain_id)),
            self.router_chains().contains(chain_id) && !self.supported_chains@.contains(chain_id) ==> r == Err::<SwapRoute, PositionManagerError>(PositionManagerError::ChainNotFound(chain_id)),
            self.router_chains().contains(chain_id) && self.supported_chains@.contains(chain_id) ==> (r matches Ok(route) && route@ == direct_model(chain_id, source_asset@, target_asset@, amount.value())),
    {
        match self.get_dex_router(chain_id) {
            Ok(_) => {},
            Err(e) => {
                return Err(e);
            },
        }
        let gas_estimate = match self.estimate_swap_gas(chain_id) {
            Ok(g) => g,
            Err(e) => {
                return Err(e);
            },
        };
        let mut hops: Vec<u64> = Vec::new();
        hops.push(chain_id);
        assert(hops@ =~= seq![chain_id]);
        Ok(SwapRoute {
            source_chain: chain_id,
            target_chain: chain_id,
            source_asset,
            target_asset,
            amount_in: amount,
            amount_out: amount,
            hops,
            gas_estimate,
        })
    }

    /// The gas of a swap on a configured chain: 150 000.
    pub fn estimate_swap_gas(&self, chain_id: u64) -> (r: Result<U256, PositionManagerError>)
        ensures
            self.supported_chains@.contains(chain_id) ==> (r matches Ok(g) && g.value() == 150000),
            !self.supported_chains@.contains(chain_id) ==> r == Err::<U256, PositionManagerError>(PositionManagerError::ChainNotFound(chain_id)),
    {
        if !contains_u64(&self.supported_chains, chain_id) {
            return Err(PositionManagerError::ChainNotFound(chain_id));
        }
        Ok(U256::from_u128(150_000))
    }

    /// The bridge hop route (see [`bridge_model`]); an error where no
    /// bridge joins the chains.
    pub fn build_bridge_route(&self, source_chain: u64, target_chain: u64, source_asset: [u8; 20], target_asset: [u8; 20], amount: U256) -> (r: Result<SwapRoute, PositionManagerError>)
        ensures
            !self.bridges@.contains((source_chain, target_chain)) ==> r == Err::<SwapRoute, PositionManagerError>(PositionManagerError::BridgeNotFound(source_chain, target_chain)),
            self.bridges@.contains((source_chain, target_chain)) ==> (r matches Ok(route) && route@ == bridge_model(source_chain, target_chain, source_asset@, target_asset@, amount.value())),
    {
        if !self.has_bridge(source_chain, target_chain) {
            return Err(PositionManagerError::BridgeNotFound(source_chain, target_chain));
        }
        let fee = estimate_bridge_fee(&amount);
        let amount_out = sub_floor(&amount, &fee);
        let mut hops: Vec<u64> = Vec::new();
        hops.push(source_chain);
        hops.push(target_chain);
        assert(hops@ =~= seq![source_chain, target_chain]);
        Ok(SwapRoute {
            source_chain,
            target_chain,
            source_asset,
            target_asset,
            amount_in: amount,
            amount_out,
            hops,
            gas_estimate: U256::from_u128(200_000),
        })
    }

    /// The two-hop route through `intermediate_chain` (see
    /// [`multi_hop_model`]).
    pub fn build_multi_hop_route(&self, source_chain: u64, intermediate_chain: u64, target_chain: u64, source_asset: [u8; 20], target_asset: [u8; 20], amount: U256) -> (r: SwapRoute)
        ensures
            r@ == multi_hop_model(source_chain, intermediate_chain, target_chain, source_asset@, target_asset@, amount.value()),
    {
        let first_fee = estimate_bridge_fee(&amount);
        let after_first = sub_floor(&amount, &first_fee);
        let second_fee = estimate_bridge_fee(&after_first);
        let amount_out = sub_floor(&after_first, &second_fee);
        let gas = U256::from_u128(200_000).saturating_add(&U256::from_u128(200_000));
        let mut hops: Vec<u64> = Vec::new();
        hops.push(source_chain);
        hops.push(intermediate_chain);
        hops.push(target_chain);
        assert(hops@ =~= seq![source_chain, intermediate_chain, target_chain]);
        SwapRoute { source_chain, target_chain, source_asset, target_asset, amount_in: amount, amount_out, hops, gas_estimate: gas }
    }

    /// The chains a two-hop route may pass (see [`intermediate_chains`]).
    pub fn find_intermediate_chains(&self, source_chain: u64, target_chain: u64, params: &RouteOptimizationParams) -> (r: Vec<u64>)
        ensures
            r@ == intermediate_chains(self.supported_chains@, self.bridges@, source_chain, target_chain, params.preferred_chains@),
    {
        let mut out: Vec<u64> = Vec::new();
        let mut i: usize = 0;
        assert(self.supported_chains@.take(0) =~= Seq::<u64>::empty());
        while i < self.supported_chains.len()
            invariant
                i <= self.supported_chains@.len(),
                out@ == intermediate_chains(self.supported_chains@.take(i as int), self.bridges@, source_chain, target_chain, params.preferred_chains@),
            decreases self.supported_chains.len() - i,
        {
            let c = self.supported_chains[i];
            assert(self.supported_chains@.take(i + 1).drop_last() =~= self.supported_chains@.take(i as int));
            if c != source_chain && c != target_chain && self.has_bridge(source_chain, c) && self.has_bridge(c, target_chain)
                && (params.preferred_chains.len() == 0 || contains_u64(&params.preferred_chains, c)) {
                out.push(c);
            }
            i = i + 1;
        }
        assert(self.supported_chains@.take(self.supported_chains@.len() as int) =~= self.supported_chains@);
        out
    }

    /// The two-hop routes through each intermediate chain not avoided.
    pub fn find_multi_hop_routes(&self, source_chain: u64, target_chain: u64, source_asset: [u8; 20], target_asset: [u8; 20], amount: U256, params: &RouteOptimizationParams) -> (r: Vec<SwapRoute>)
        ensures
            routes_view(r@) == multi_hop_routes(
                intermediate_chains(self.supported_chains@, self.bridges@, source_chain, target_chain, params.preferred_chains@),
                params.avoid_chains@, source_chain, target_chain, source_asset@, target_asset@, amount.value(),
            ),
    {
        let mids = self.find_intermediate_chains(source_chain, target_chain, params);
        let mut routes: Vec<SwapRoute> = Vec::new();
        let mut i: usize = 0;
        assert(mids@.take(0) =~= Seq::<u64>::empty());
        assert(routes_view(routes@) =~= Seq::<RouteModel>::empty());
        while i < mids.len()
            invariant
                i <= mids@.len(),
                routes_view(routes@) == multi_hop_routes(mids@.take(i as int), params.avoid_chains@, source_chain, target_chain, source_asset@, target_asset@, amount.value()),
            decreases mids.len() - i,
        {
            let mid = mids[i];
            assert(mids@.take(i + 1).drop_last() =~= mids@.take(i as int));
            if !contains_u64(&params.avoid_chains, mid) {
                let route = self.build_multi_hop_route(source_chain, mid, target_chain, source_asset, target_asset, amount);
                let ghost before = routes@;
                routes.push(route);
                assert(routes_view(routes@) =~= routes_view(before).push(route@));
            }
            i = i + 1;
        }
        assert(mids@.take(mids@.len() as int) =~= mids@);
        routes
    }

    /// The routes that give at least the minimum output and pass no avoided
    /// chain, in order.
    pub fn filter_routes(&self, routes: Vec<SwapRoute>, params: &RouteOptimizationParams) -> (r: Vec<SwapRoute>)
        ensures
            routes_view(r@) == kept_routes(routes_view(routes@), params.min_liquidity.value(), params.avoid_chains@),
    {
        let ghost all = routes_view(routes@);
        let mut rest = routes;
        let mut kept: Vec<SwapRoute> = Vec::new();
        let n_routes = rest.len();
        let ghost n = n_routes as nat;
        let mut taken: usize = 0;
        assert(all.take(0) =~= Seq::<RouteModel>::empty());
        assert(routes_view(kept@) =~= Seq::<RouteModel>::empty());
        while rest.len() > 0
            invariant
                all.len() == n,
                n <= usize::MAX,
                taken + rest@.len() == n,
                routes_view(rest@) == all.skip(taken as int),
                routes_view(kept@) == kept_routes(all.take(taken as int), params.min_liquidity.value(), params.avoid_chains@),
            decreases rest.len(),
        {
            let ghost old_rest = rest@;
            assert(routes_view(old_rest)[0] == old_rest[0]@);
            let route = rest.remove(0);
            assert(route@ == all[taken as int]);
            assert(all.take(taken + 1).drop_last() =~= all.take(taken as int));
            assert forall|q: int| 0 <= q < rest@.len() implies #[trigger] routes_view(rest@)[q] == all.skip(taken + 1)[q] by {
                assert(rest@[q] == old_rest[q + 1]);
                assert(routes_view(old_rest)[q + 1] == old_rest[q + 1]@);
            }
            assert(routes_view(rest@) =~= all.skip(taken + 1));
            let mut keep = !route.amount_out_below(&params.min_liquidity);
            let mut h: usize = 0;
            while h < route.hops.len()
                invariant
                    h <= route.hops@.len(),
                    keep == (route@.amount_out >= params.min_liquidity.value() && forall|q: int| 0 <= q < h ==> !params.avoid_chains@.contains(#[trigger] route.hops@[q])),
                decreases route.hops.len() - h,
            {
                if contains_u64(&params.avoid_chains, route.hops[h]) {
                    keep = false;
                }
                h = h + 1;
            }
            assert(keep == route_kept(route@, params.min_liquidity.value(), params.avoid_chains@)) by {
                if route_kept(route@, params.min_liquidity.value(), params.avoid_chains@) {
                    assert forall|q: int| 0 <= q < route.hops@.len() implies !params.avoid_chains@.contains(#[trigger] route.hops@[q]) by {
                        assert(route@.hops[q] == route.hops@[q]);
                    }
                }
            }
            assert(all.take(taken + 1).last() == all[taken as int]);
            if keep {
                let ghost before = kept@;
                kept.push(route);
                assert(routes_view(kept@) =~= routes_view(before).push(all[taken as int]));
            }
            taken = taken + 1;
        }
        assert(all.take(n as int) =~= all);
        kept
    }

    /// Every route between two chains, filtered by the parameters (see
    /// [`RouteOptimizer::candidate_routes`] and [`kept_routes`]).
    pub fn find_all_routes(&self, source_chain: u64, target_chain: u64, source_asset: [u8; 20], target_asset: [u8; 20], amount: U256, params: &RouteOptimizationParams) -> (r: Result<Vec<SwapRoute>, PositionManagerError>)
        ensures
            match self.candidate_routes(source_chain, target_chain, source_asset@, target_asset@, amount.value(), params.max_hops, params.avoid_chains@, params.preferred_chains@) {
                Ok(cands) => r matches Ok(rs) && routes_view(rs@) == kept_routes(cands, params.min_liquidity.value(), params.avoid_chains@),
                Err(e) => r == Err::<Vec<SwapRoute>, PositionManagerError>(e),
            },
    {
        let mut routes: Vec<SwapRoute> = Vec::new();
        if source_chain == target_chain {
            match self.build_direct_route(source_chain, source_asset, target_asset, amount) {
                Ok(route) => {
                    routes.push(route);
                    assert(routes_view(routes@) =~= seq![direct_model(source_chain, source_asset@, target_asset@, amount.value())]);
                },
                Err(e) => {
                    return Err(e);
                },
            }
        } else {
            match self.build_bridge_route(source_chain, target_chain, source_asset, target_asset, amount) {
                Ok(route) => {
                    routes.push(route);
                    assert(routes_view(routes@) =~= seq![bridge_model(source_chain, target_chain, source_asset@, target_asset@, amount.value())]);
                },
                Err(e) => {
                    return Err(e);
                },
            }
        }
        let ghost first = routes_view(routes@);
        if params.max_hops > 1 {
            let mut multi = self.find_multi_hop_routes(source_chain, target_chain, source_asset, target_asset, amount, params);
            let ghost m = routes_view(multi@);
            routes.append(&mut multi);
            assert(routes_view(routes@) =~= first + m);
        } else {
            assert(routes_view(routes@) =~= first + Seq::<RouteModel>::empty());
        }
        Ok(self.filter_routes(routes, params))
    }
}

impl SwapRoute {
    /// Whether the output is below `min`.
    pub fn amount_out_below(&self, min: &U256) -> (r: bool)
        ensures
            r == (self.amount_out.value() < min.value()),
    {
        self.amount_out.checked_sub(min).is_none()
    }
}


/// A route kept for reuse.
#[derive(Clone, Debug)]
pub struct CachedRoute {
    pub route: SwapRoute,
    /// When it was stored (Unix milliseconds).
    pub timestamp: u64,
    pub ttl_ms: u64,
}

impl CachedRoute {
    /// Whether the entry has outlived its time to live at `now` (Unix
    /// milliseconds).
    pub fn is_expired(&self, now: u64) -> (r: bool)
        requires
            self.timestamp + self.ttl_ms <= u64::MAX,
        ensures
            r == (now > self.timestamp + self.ttl_ms),
    {
        now > self.timestamp + self.ttl_ms
    }
}

} // verus!
