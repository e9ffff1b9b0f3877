use atlas_sphere::accounting::{AccountingEngine, UsdNormalizer};
use atlas_sphere::positions::PositionManagerError;
use atlas_sphere::positions::U256;

const ONE: u128 = 1_000_000_000_000_000_000;

fn address(last: u8) -> [u8; 20] {
    let mut a = [0u8; 20];
    a[0] = 0xab;
    a[19] = last;
    a
}

fn id(last: u8) -> [u8; 16] {
    let mut a = [0u8; 16];
    a[15] = last;
    a
}

fn amount(v: u128) -> U256 {
    U256::from_u128(v)
}

#[test]
fn test_usd_normalizer() {
    let mut normalizer = UsdNormalizer::new();
    let asset = address(1);
    normalizer.update_price(asset, amount(ONE), 0);
    let value = normalizer.normalize_to_usd(&asset, amount(2 * ONE)).unwrap();
    assert_eq!(value, amount(2 * ONE));
}

#[test]
fn normalizer_prices_stablecoins_and_errors() {
    let mut normalizer = UsdNormalizer::new();
    let eth = address(1);
    let usdc = address(2);
    let unknown = address(3);
    normalizer.update_price(eth, amount(2_000 * ONE), 7);
    assert_eq!(normalizer.last_update(), 7);
    // half a token at 2000 USD
    assert_eq!(normalizer.normalize_to_usd(&eth, amount(ONE / 2)), Ok(amount(1_000 * ONE)));
    // the latest price wins
    normalizer.update_price(eth, amount(3_000 * ONE), 9);
    assert_eq!(normalizer.normalize_to_usd(&eth, amount(ONE)), Ok(amount(3_000 * ONE)));
    assert_eq!(normalizer.last_update(), 9);
    // rounding down
    normalizer.update_price(eth, amount(1), 10);
    assert_eq!(normalizer.normalize_to_usd(&eth, amount(ONE - 1)), Ok(amount(0)));
    // stablecoins are worth their amount, price or not
    normalizer.register_stablecoin(usdc);
    normalizer.register_stablecoin(usdc);
    assert_eq!(normalizer.normalize_to_usd(&usdc, amount(42)), Ok(amount(42)));
    // no price
    let expected = format!("0x{}", "ab".to_owned() + &"00".repeat(18) + "03");
    assert_eq!(normalizer.normalize_to_usd(&unknown, amount(1)), Err(PositionManagerError::PriceFeedNotFound(expected)));
    // overflow of amount * price
    normalizer.update_price(eth, U256 { hi: 1, lo: 0 }, 11);
    assert_eq!(normalizer.normalize_to_usd(&eth, U256 { hi: 1, lo: 0 }), Err(PositionManagerError::ArithmeticOverflow));
}

#[test]
fn update_balance_without_price_records_zero_value() {
    let mut engine = AccountingEngine::new();
    engine.update_balance(id(1), address(9), amount(ONE), 1).unwrap();
    let b = engine.get_balance(&id(1)).unwrap();
    assert_eq!(b.amount, amount(ONE));
    assert_eq!(b.value_usd, amount(0));
    assert_eq!(b.chain_id, 1);
}

#[test]
fn update_balance_overflow_fails_without_change() {
    let mut engine = AccountingEngine::new();
    let eth = address(1);
    engine.update_price(eth, U256 { hi: 1, lo: 0 }, 0);
    let r = engine.update_balance(id(1), eth, U256 { hi: 1, lo: 0 }, 1);
    assert_eq!(r, Err(PositionManagerError::ArithmeticOverflow));
    assert!(engine.get_balance(&id(1)).is_none());
}

#[test]
fn balances_read_back_and_stay_sorted() {
    let mut engine = AccountingEngine::new();
    let usdc = address(2);
    engine.register_stablecoin(usdc);
    engine.update_balance(id(5), usdc, amount(50), 1).unwrap();
    engine.update_balance(id(2), usdc, amount(20), 137).unwrap();
    engine.update_balance(id(9), usdc, amount(90), 1).unwrap();
    engine.update_balance(id(5), usdc, amount(55), 10).unwrap();
    let b = engine.get_balance(&id(5)).unwrap();
    assert_eq!(b.amount, amount(55));
    assert_eq!(b.value_usd, amount(55));
    assert_eq!(b.chain_id, 10);
    let snap = engine.take_snapshot(1_000, [7u8; 32]);
    let ids: Vec<[u8; 16]> = snap.positions.iter().map(|p| p.position_id).collect();
    assert_eq!(ids, vec![id(2), id(5), id(9)]);
    assert_eq!(snap.total_value_usd, amount(165));
    assert_eq!(snap.timestamp, 1_000);
    assert_eq!(snap.snapshot_id, [7u8; 32]);
    let chains: Vec<(u64, U256, usize, usize)> =
        snap.chain_breakdown.iter().map(|c| (c.chain_id, c.total_value_usd, c.asset_count, c.positions_count)).collect();
    assert_eq!(chains, vec![(1, amount(90), 1, 1), (10, amount(55), 1, 1), (137, amount(20), 1, 1)]);
}

#[test]
fn test_accounting_engine() {
    let mut engine = AccountingEngine::new();
    let position_id = id(1);
    let asset = address(1);
    let value = amount(ONE);
    engine.update_balance(position_id, asset, value, 1).unwrap();
    let balance = engine.get_balance(&position_id).unwrap();
    assert_eq!(balance.amount, value);
}

#[test]
fn snapshot_history_keeps_the_latest_hundred() {
    let mut engine = AccountingEngine::new();
    assert!(engine.latest_snapshot().is_none());
    for t in 0..105u64 {
        engine.take_snapshot(t, [t as u8; 32]);
    }
    assert_eq!(engine.snapshot_history(1000).len(), 100);
    assert_eq!(engine.snapshot_history(1000)[0].timestamp, 5);
    assert_eq!(engine.latest_snapshot().unwrap().timestamp, 104);
    let last3: Vec<u64> = engine.snapshot_history(3).iter().map(|s| s.timestamp).collect();
    assert_eq!(last3, vec![102, 103, 104]);
    assert!(engine.snapshot_history(0).is_empty());
}

#[test]
fn snapshot_diff_through_engine() {
    let mut engine = AccountingEngine::new();
    let usdc = address(2);
    engine.register_stablecoin(usdc);
    engine.update_balance(id(1), usdc, amount(10), 1).unwrap();
    let s1 = engine.take_snapshot(1, [1; 32]);
    engine.update_balance(id(1), usdc, amount(15), 1).unwrap();
    engine.update_balance(id(2), usdc, amount(5), 1).unwrap();
    let s2 = engine.take_snapshot(2, [2; 32]);
    let d = engine.calculate_diff(&s1, &s2);
    assert_eq!(d.added.len(), 1);
    assert_eq!(d.changed.len(), 1);
    assert_eq!(d.removed.len(), 0);
    assert_eq!(d.total_value_change, amount(10));
}

#[test]
fn portfolio_summary_groups_by_chain_and_asset() {
    let mut engine = AccountingEngine::new();
    let usdc = address(2);
    let eth = address(1);
    let unpriced = address(3);
    engine.register_stablecoin(usdc);
    engine.update_price(eth, amount(2 * ONE), 0);
    engine.update_balance(id(1), usdc, amount(100), 137).unwrap();
    engine.update_balance(id(2), eth, amount(3), 1).unwrap();
    engine.update_balance(id(3), usdc, amount(50), 1).unwrap();
    engine.update_balance(id(4), eth, amount(1), 137).unwrap();
    let summary = engine.get_portfolio_summary().unwrap();
    // 100 + 6 + 50 + 2
    assert_eq!(summary.total_value_usd, amount(158));
    let chains: Vec<(u64, U256, usize)> = summary.chain_breakdown.iter().map(|c| (c.chain_id, c.total_value_usd, c.positions_count)).collect();
    // chains in the order they first occur among the balances (ids 1, 2, ...)
    assert_eq!(chains, vec![(137, amount(102), 2), (1, amount(56), 2)]);
    assert_eq!(summary.asset_breakdown.len(), 2);
    let first = &summary.asset_breakdown[0];
    assert_eq!(first.asset_address, eth);
    assert_eq!(first.symbol, format!("Asset_0xab{}01", "00".repeat(18)));
    assert_eq!(first.total_amount, amount(4));
    assert_eq!(first.total_value_usd, amount(8));
    assert_eq!(first.chains_distribution, vec![(1, amount(3)), (137, amount(1))]);
    let second = &summary.asset_breakdown[1];
    assert_eq!(second.asset_address, usdc);
    assert_eq!(second.total_amount, amount(150));
    assert_eq!(second.total_value_usd, amount(150));
    assert!(!summary.rebalance_needed);
    assert_eq!(summary.active_arbitrage_ops, 0);
    // an unpriced asset is recorded at value 0
    engine.update_balance(id(5), unpriced, amount(1), 1).unwrap();
    assert_eq!(engine.get_portfolio_summary().unwrap().total_value_usd, amount(158));
}
