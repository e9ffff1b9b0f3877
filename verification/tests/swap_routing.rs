use atlas_sphere::positions::U256;
use atlas_sphere::routing::{
    build_atomic_swap, find_best_route, find_bridgeable_token, find_intermediate_chains, get_dex_router, get_weth, get_x3_bridge,
    known_address, quote_swap, ChainInfo, KnownAddress, RouteAction, RouteLeg, SwapRouter,
};

/// A registry of the chains the scenarios below route between.
fn registry() -> Vec<ChainInfo> {
    [
        (1, 12_000),
        (42161, 250),
        (137, 2_000),
        (8453, 2_000),
        (10, 2_000),
        (56, 3_000),
        (43114, 2_000),
        (324, 1_000),
        (250, 1_000),
        (1088, 4_000),
    ]
    .iter()
    .map(|&(chain_id, block_time_ms)| ChainInfo { chain_id, block_time_ms })
    .collect()
}

fn router() -> SwapRouter {
    SwapRouter::new(registry())
}

fn amount(v: u128) -> U256 {
    U256::from_u128(v)
}

fn low_address(v: u64) -> [u8; 20] {
    let mut a = [0u8; 20];
    a[12..].copy_from_slice(&v.to_be_bytes());
    a
}

fn usdc_eth() -> [u8; 20] {
    known_address(KnownAddress::UsdcEth)
}

#[test]
fn test_same_chain_route() {
    let router = router();
    let route = router.find_route(1, usdc_eth(), 1, known_address(KnownAddress::WethEth), amount(1000_000000));
    assert!(route.is_some());
    let route = route.unwrap();
    assert_eq!(route.legs.len(), 1);
    assert_eq!(route.legs[0].action, RouteAction::Swap);
}

#[test]
fn test_cross_chain_route() {
    let router = router();
    let route = router.find_route(1, usdc_eth(), 42161, known_address(KnownAddress::UsdcArb), amount(1000_000000));
    assert!(route.is_some());
    let route = route.unwrap();
    assert!(route.legs.iter().any(|l| l.action == RouteAction::Bridge));
    assert!(route.total_time_ms < 60000);
}

#[test]
fn test_build_comit_bundle() {
    let router = router();
    let sender = low_address(0xDEAD);
    let recipient = low_address(0xBEEF);
    let route = router.find_route(1, usdc_eth(), 42161, usdc_eth(), amount(1000_000000)).unwrap();
    let bundle = router.build_comit_bundle(&route, sender, recipient, 1);
    assert!(!bundle.payloads.is_empty());
    assert_ne!(bundle.prepare_root, [0u8; 32]);
}

#[test]
fn test_quote() {
    let quote = quote_swap(registry(), 1, usdc_eth(), 8453, usdc_eth(), amount(1000_000000));
    assert!(quote.is_some());
    let quote = quote.unwrap();
    assert!(quote.output_amount.hi > 0 || quote.output_amount.lo > 0);
    assert_eq!(quote.input_amount.hi, 0);
    assert_eq!(quote.output_amount.hi, 0);
    assert!(quote.output_amount.lo < quote.input_amount.lo);
}

#[test]
fn test_multi_routes() {
    let router = router();
    let routes = router.find_routes(137, known_address(KnownAddress::UsdcPolygon), 42161, known_address(KnownAddress::WethArb), amount(1000_000000), 3);
    assert!(!routes.is_empty());
    for i in 1..routes.len() {
        assert!(routes[i - 1].score <= routes[i].score);
    }
}

#[test]
fn test_103_chains_accessible() {
    let router = router();
    let token = low_address(0x1234);
    let test_chains = vec![(1, 42161), (137, 8453), (56, 43114), (10, 324), (250, 1088)];
    for (from, to) in test_chains {
        let route = router.find_route(from, token, to, token, amount(1000));
        assert!(route.is_some(), "Failed route from {} to {}", from, to);
    }
}

#[test]
fn test_bridge_payload_includes_amount_word() {
    let router = router();
    let leg = RouteLeg {
        from_chain: 1,
        to_chain: 42161,
        from_token: usdc_eth(),
        to_token: known_address(KnownAddress::UsdcArb),
        action: RouteAction::Bridge,
        estimated_gas: amount(50_000),
        estimated_time_ms: 500,
    };
    let value = amount(123_456_789);
    let payload = router.encode_bridge_payload(&leg, low_address(0xDEAD), low_address(0xBEEF), value);
    let expected = value.to_be_bytes();
    assert!(payload.calldata.windows(32).any(|w| w == expected));
}

#[test]
fn test_unwrap_payload_includes_amount_word() {
    let router = router();
    let weth = known_address(KnownAddress::WethEth);
    let leg = RouteLeg {
        from_chain: 1,
        to_chain: 1,
        from_token: weth,
        to_token: weth,
        action: RouteAction::Unwrap,
        estimated_gas: amount(50_000),
        estimated_time_ms: 100,
    };
    let value = amount(42_000_000);
    let payload = router.encode_unwrap_payload(&leg, value);
    let expected = value.to_be_bytes();
    assert_eq!(&payload.calldata[4..36], &expected);
}

#[test]
fn unknown_chains_have_no_route() {
    let router = router();
    assert!(router.find_route(1, usdc_eth(), 999_999, usdc_eth(), amount(5)).is_none());
    assert!(router.find_route(999_999, usdc_eth(), 1, usdc_eth(), amount(5)).is_none());
    assert!(router.quote(999_999, usdc_eth(), 1, usdc_eth(), amount(5)).is_none());
    assert!(router.find_routes(999_999, usdc_eth(), 1, usdc_eth(), amount(5), 3).is_empty());
    assert!(build_atomic_swap(registry(), 1, usdc_eth(), 999_999, usdc_eth(), amount(5), [0; 20], [0; 20], 1).is_none());
    assert_eq!(router.get_chain(42161), Some(250));
    assert_eq!(router.get_chain(7), None);
}

#[test]
fn same_token_same_chain_route_is_empty() {
    let route = find_best_route(registry(), 1, usdc_eth(), 1, usdc_eth(), amount(10_000)).unwrap();
    assert!(route.legs.is_empty());
    assert_eq!(route.total_gas, amount(0));
    assert_eq!(route.total_time_ms, 0);
    assert_eq!(route.score, 0);
    assert_eq!(route.estimated_output, amount(9_950));
}

#[test]
fn cross_chain_route_swaps_bridges_and_swaps() {
    let router = router();
    let token = low_address(0x1234);
    let route = router.find_route(137, token, 8453, token, amount(1000)).unwrap();
    let actions: Vec<RouteAction> = route.legs.iter().map(|l| l.action).collect();
    assert_eq!(actions, vec![RouteAction::Swap, RouteAction::Bridge, RouteAction::Swap]);
    assert_eq!(route.legs[0].to_token, known_address(KnownAddress::UsdcPolygon));
    assert_eq!(route.legs[1].from_token, known_address(KnownAddress::UsdcPolygon));
    assert_eq!(route.legs[1].to_token, known_address(KnownAddress::UsdcBase));
    assert_eq!(route.total_gas, amount(350_000));
    assert_eq!(route.total_time_ms, 2_000 + 6_000 + 2_000);
    // (10 * 6 + 35 * 4) / 10
    assert_eq!(route.score, 20);
    // 1000 less 0.5%
    assert_eq!(route.estimated_output, amount(995));
}

#[test]
fn slippage_rounds_down() {
    let route = find_best_route(registry(), 1, usdc_eth(), 1, usdc_eth(), amount(199)).unwrap();
    // 199 * 9950 / 10000 = 198.005
    assert_eq!(route.estimated_output, amount(198));
    let big = U256 { hi: 1, lo: 0 };
    let route = find_best_route(registry(), 1, usdc_eth(), 1, usdc_eth(), big).unwrap();
    // 2^128 * 199 / 200
    let expected_lo: u128 = u128::MAX - (u128::MAX / 200) ;
    assert_eq!(route.estimated_output.hi, 0);
    assert_eq!(route.estimated_output.lo, expected_lo);
}

#[test]
fn route_via_hub_chains_two_hops() {
    let router = router();
    let token = low_address(0x1234);
    let via = router.find_route_via(1, 137, token, 42161, token, amount(1_000_000)).unwrap();
    let actions: Vec<RouteAction> = via.legs.iter().map(|l| l.action).collect();
    assert_eq!(actions, vec![RouteAction::Swap, RouteAction::Bridge, RouteAction::Bridge, RouteAction::Swap]);
    assert_eq!(via.total_gas, amount(400_000));
    assert_eq!(via.total_time_ms, 2_000 + 6_000 + 6_000 + 250);
    assert_eq!(via.estimated_output, amount(990_025));
    assert!(router.find_route_via(999_999, 137, token, 42161, token, amount(5)).is_none());
}

#[test]
fn find_routes_sorts_and_truncates() {
    let router = router();
    let token = low_address(0x1234);
    let all = router.find_routes(137, token, 42161, token, amount(1_000_000), 10);
    // direct, then via 1, 8453 and 10
    assert_eq!(all.len(), 4);
    for i in 1..all.len() {
        assert!(all[i - 1].score <= all[i].score);
    }
    let two = router.find_routes(137, token, 42161, token, amount(1_000_000), 2);
    assert_eq!(two.len(), 2);
    assert_eq!(two[0].score, all[0].score);
    assert_eq!(two[1].score, all[1].score);
    assert!(router.find_routes(137, token, 42161, token, amount(1_000_000), 0).is_empty());
}

#[test]
fn intermediate_chains_skip_endpoints() {
    assert_eq!(find_intermediate_chains(137, 42161), vec![1, 8453, 10]);
    assert_eq!(find_intermediate_chains(56, 250), vec![1, 42161, 137, 8453, 10]);
}

#[test]
fn bridgeable_tokens_and_addresses() {
    assert_eq!(find_bridgeable_token(137, &usdc_eth()), usdc_eth());
    assert_eq!(find_bridgeable_token(137, &low_address(1)), known_address(KnownAddress::UsdcPolygon));
    assert_eq!(find_bridgeable_token(999, &low_address(1)), usdc_eth());
    assert_eq!(get_dex_router(56), known_address(KnownAddress::Pancakeswap));
    assert_eq!(get_dex_router(999), known_address(KnownAddress::UniswapV2));
    assert_eq!(get_weth(43114), known_address(KnownAddress::Wavax));
    let bridge = get_x3_bridge(42161);
    assert_eq!(&bridge[0..4], &[0xA7, 0x1A, 0x50, 0x00]);
    assert_eq!(&bridge[4..16], &[0u8; 12]);
    assert_eq!(&bridge[16..20], &42161u32.to_be_bytes());
}

#[test]
fn payload_encodings() {
    let router = router();
    let weth = known_address(KnownAddress::WethEth);
    let mut leg = RouteLeg {
        from_chain: 137,
        to_chain: 8453,
        from_token: weth,
        to_token: weth,
        action: RouteAction::Swap,
        estimated_gas: amount(150_000),
        estimated_time_ms: 2_000,
    };
    let value = amount(0x0102);
    let swap = router.encode_swap_payload(&leg, low_address(1), value);
    assert_eq!(swap.chain_id, 137);
    assert_eq!(swap.target, known_address(KnownAddress::Quickswap));
    assert_eq!(swap.gas_limit, 200_000);
    assert_eq!(swap.calldata.len(), 68);
    assert_eq!(&swap.calldata[0..4], &[0x38, 0xed, 0x17, 0x39]);
    assert_eq!(&swap.calldata[34..36], &[0x01, 0x02]);
    assert_eq!(&swap.calldata[36..68], &[0u8; 32]);

    leg.action = RouteAction::Bridge;
    let recipient = low_address(0xBEEF);
    let bridge = router.encode_bridge_payload(&leg, low_address(1), recipient, value);
    assert_eq!(bridge.target, get_x3_bridge(137));
    assert_eq!(bridge.gas_limit, 100_000);
    assert_eq!(&bridge.calldata[0..4], &[0xBB; 4]);
    assert_eq!(&bridge.calldata[4..24], &recipient);
    assert_eq!(&bridge.calldata[56..64], &8453u64.to_be_bytes());
    assert_eq!(bridge.calldata.len(), 64);

    leg.action = RouteAction::Wrap;
    let wrap = router.encode_wrap_payload(&leg, value);
    assert_eq!(wrap.target, known_address(KnownAddress::Wmatic));
    assert_eq!(wrap.calldata, vec![0xd0, 0xe3, 0x0d, 0xb0]);
    assert_eq!(wrap.value, value);
    assert_eq!(wrap.gas_limit, 50_000);

    leg.action = RouteAction::Unwrap;
    let unwrap = router.encode_unwrap_payload(&leg, value);
    assert_eq!(&unwrap.calldata[0..4], &[0x2e, 0x1a, 0x7d, 0x4d]);
    assert_eq!(unwrap.value, amount(0));
}

#[test]
fn bundle_root_depends_on_nonce_and_payloads() {
    let router = router();
    let route = router.find_route(1, usdc_eth(), 42161, usdc_eth(), amount(1_000)).unwrap();
    let a = router.build_comit_bundle(&route, low_address(1), low_address(2), 1);
    let b = router.build_comit_bundle(&route, low_address(1), low_address(2), 2);
    let c = router.build_comit_bundle(&route, low_address(1), low_address(3), 1);
    assert_eq!(a.payloads.len(), route.legs.len());
    assert_eq!(a.nonce, 1);
    assert_eq!(a.total_value, amount(1_000));
    assert_ne!(a.prepare_root, b.prepare_root);
    assert_ne!(a.prepare_root, c.prepare_root);
    let again = router.calculate_prepare_root(&a.payloads, 1);
    assert_eq!(again, a.prepare_root);
    let built = build_atomic_swap(registry(), 1, usdc_eth(), 42161, usdc_eth(), amount(1_000), low_address(1), low_address(2), 1).unwrap();
    assert_eq!(built.prepare_root, a.prepare_root);
}
