use atlas_sphere::positions::{DexRouter, PositionManagerError, U256};
use atlas_sphere::route_optimizer::{estimate_bridge_fee, RouteOptimizationParams, RouteOptimizer};

const ONE: u128 = 1_000_000_000_000_000_000;

fn amount(v: u128) -> U256 {
    U256::from_u128(v)
}

fn asset(b: u8) -> [u8; 20] {
    [b; 20]
}

fn router(chain_id: u64) -> DexRouter {
    DexRouter { chain_id, router_address: [1; 20], name: "uni".to_string(), version: "2".to_string() }
}

fn params(max_hops: u32, avoid: Vec<u64>, preferred: Vec<u64>, min: u128) -> RouteOptimizationParams {
    RouteOptimizationParams { max_hops, avoid_chains: avoid, preferred_chains: preferred, min_liquidity: amount(min) }
}

fn optimizer() -> RouteOptimizer {
    let mut o = RouteOptimizer::new(vec![1, 10, 137, 42161]);
    o.add_bridge_contract(1, 42161);
    o.add_bridge_contract(1, 10);
    o.add_bridge_contract(10, 42161);
    o.add_bridge_contract(1, 137);
    o.add_bridge_contract(137, 42161);
    o.add_dex_router(1, router(1));
    o
}

#[test]
fn test_route_optimizer() {
    let chains = vec![1, 10, 137, 42161];
    let optimizer = RouteOptimizer::new(chains.clone());
    assert_eq!(optimizer.supported_chains.len(), chains.len());
}

#[test]
fn bridge_fee_is_base_plus_three_basis_points_of_ten() {
    assert_eq!(estimate_bridge_fee(&amount(ONE)), amount(4_000_000_000_000_000));
    assert_eq!(estimate_bridge_fee(&amount(0)), amount(1_000_000_000_000_000));
    // amount * 30 overflows: only the base fee
    let huge = U256 { hi: u128::MAX, lo: 0 };
    assert_eq!(estimate_bridge_fee(&huge), amount(1_000_000_000_000_000));
}

#[test]
fn direct_route_needs_router_and_config() {
    let o = optimizer();
    let r = o.build_direct_route(1, asset(1), asset(2), amount(5)).unwrap();
    assert_eq!(r.hops, vec![1]);
    assert_eq!(r.amount_out, amount(5));
    assert_eq!(r.gas_estimate, amount(150_000));
    assert_eq!(o.build_direct_route(137, asset(1), asset(2), amount(5)).err(), Some(PositionManagerError::DexRouterNotFound(137)));
    let mut o2 = optimizer();
    o2.add_dex_router(56, router(56));
    assert_eq!(o2.build_direct_route(56, asset(1), asset(2), amount(5)).err(), Some(PositionManagerError::ChainNotFound(56)));
    assert!(o2.get_dex_router(56).is_ok());
}

#[test]
fn bridge_route_takes_the_fee() {
    let o = optimizer();
    let r = o.build_bridge_route(1, 42161, asset(1), asset(2), amount(ONE)).unwrap();
    assert_eq!(r.amount_out, amount(996_000_000_000_000_000));
    assert_eq!(r.hops, vec![1, 42161]);
    assert_eq!(r.gas_estimate, amount(200_000));
    let small = o.build_bridge_route(1, 42161, asset(1), asset(2), amount(10)).unwrap();
    assert_eq!(small.amount_out, amount(0));
    assert_eq!(o.build_bridge_route(42161, 1, asset(1), asset(2), amount(10)).err(), Some(PositionManagerError::BridgeNotFound(42161, 1)));
    assert!(o.has_bridge(1, 137));
    assert!(!o.has_bridge(137, 1));
}

#[test]
fn multi_hop_routes_through_intermediates() {
    let o = optimizer();
    assert_eq!(o.find_intermediate_chains(1, 42161, &params(2, vec![], vec![], 0)), vec![10, 137]);
    assert_eq!(o.find_intermediate_chains(1, 42161, &params(2, vec![], vec![137], 0)), vec![137]);
    let r = o.build_multi_hop_route(1, 10, 42161, asset(1), asset(2), amount(ONE));
    assert_eq!(r.hops, vec![1, 10, 42161]);
    assert_eq!(r.amount_out, amount(992_012_000_000_000_000));
    assert_eq!(r.gas_estimate, amount(400_000));
}

#[test]
fn find_all_routes_filters() {
    let o = optimizer();
    let all = o.find_all_routes(1, 42161, asset(1), asset(2), amount(ONE), &params(2, vec![], vec![], 0)).unwrap();
    let hops: Vec<Vec<u64>> = all.iter().map(|r| r.hops.clone()).collect();
    assert_eq!(hops, vec![vec![1, 42161], vec![1, 10, 42161], vec![1, 137, 42161]]);
    let one_hop = o.find_all_routes(1, 42161, asset(1), asset(2), amount(ONE), &params(1, vec![], vec![], 0)).unwrap();
    assert_eq!(one_hop.len(), 1);
    let avoid = o.find_all_routes(1, 42161, asset(1), asset(2), amount(ONE), &params(2, vec![10], vec![], 0)).unwrap();
    let hops: Vec<Vec<u64>> = avoid.iter().map(|r| r.hops.clone()).collect();
    assert_eq!(hops, vec![vec![1, 42161], vec![1, 137, 42161]]);
    // the two-hop routes give less than the minimum
    let min = o.find_all_routes(1, 42161, asset(1), asset(2), amount(ONE), &params(2, vec![], vec![], 995_000_000_000_000_000)).unwrap();
    assert_eq!(min.len(), 1);
    assert_eq!(o.find_all_routes(42161, 1, asset(1), asset(2), amount(ONE), &params(2, vec![], vec![], 0)).err(), Some(PositionManagerError::BridgeNotFound(42161, 1)));
    let same = o.find_all_routes(1, 1, asset(1), asset(2), amount(ONE), &params(2, vec![], vec![], 0)).unwrap();
    assert_eq!(same.len(), 1);
    assert_eq!(same[0].hops, vec![1]);
}

#[test]
fn test_cached_route_expiry() {
    let route = atlas_sphere::route_optimizer::SwapRoute {
        source_chain: 1,
        target_chain: 137,
        source_asset: [0; 20],
        target_asset: [0; 20],
        amount_in: amount(1000),
        amount_out: amount(1000),
        hops: vec![1, 137],
        gas_estimate: amount(100_000),
    };
    let cached = atlas_sphere::route_optimizer::CachedRoute { route, timestamp: 0, ttl_ms: 60000 };
    let now = std::time::SystemTime::now().duration_since(std::time::UNIX_EPOCH).unwrap().as_millis() as u64;
    assert!(cached.is_expired(now));
    assert!(!cached.is_expired(60_000));
    assert!(cached.is_expired(60_001));
}
