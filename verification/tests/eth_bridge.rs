use atlas_sphere::eth_bridge::{DepositStatus, ERC20Token, EthereumBridge};

fn validators() -> Vec<String> {
    (0..7).map(|i| format!("validator_{}", i)).collect()
}

fn usdc() -> ERC20Token {
    ERC20Token { address: "0xUSDC".to_string(), name: "USDC".to_string(), decimals: 6, total_supply: 1_000_000_000_000u128 }
}

#[test]
fn test_bridge_creation() {
    let bridge = EthereumBridge::new(validators());
    assert_eq!(bridge.validators.len(), 7);
}

#[test]
fn test_register_token() {
    let mut bridge = EthereumBridge::new(validators());
    let usdc = ERC20Token {
        address: "0xA0b86991c6218b36c1d19D4a2e9Eb0cE3606eB48".to_string(),
        name: "USDC".to_string(),
        decimals: 6,
        total_supply: 1_000_000_000_000u128,
    };
    assert!(bridge.register_token(usdc).is_ok());
}

#[test]
fn test_lock_on_ethereum() {
    let mut bridge = EthereumBridge::new(validators());
    bridge.register_token(usdc()).ok();
    let deposit = bridge.lock_on_ethereum("0xAlice".to_string(), "0xUSDC".to_string(), 1_000_000u128, 17_000_000, "0xtxhash".to_string());
    assert!(deposit.is_ok());
}

#[test]
fn test_confirm_deposit() {
    let mut bridge = EthereumBridge::new(validators());
    bridge.register_token(usdc()).ok();
    let deposit = bridge
        .lock_on_ethereum("0xAlice".to_string(), "0xUSDC".to_string(), 1_000_000u128, 17_000_000, "0xtxhash".to_string())
        .unwrap();
    assert!(bridge.confirm_deposit(&deposit.id, 17_000_012).is_ok());
}

#[test]
fn test_create_bridge_message() {
    let mut bridge = EthereumBridge::new(validators());
    bridge.register_token(usdc()).ok();
    let deposit = bridge
        .lock_on_ethereum("0xAlice".to_string(), "0xUSDC".to_string(), 1_000_000u128, 17_000_000, "0xtxhash".to_string())
        .unwrap();
    bridge.confirm_deposit(&deposit.id, 17_000_012).ok();
    let msg = bridge.create_bridge_message(deposit.id);
    assert!(msg.is_ok());
}

#[test]
fn test_validator_signing() {
    let mut bridge = EthereumBridge::new(validators());
    bridge.register_token(usdc()).ok();
    let deposit = bridge
        .lock_on_ethereum("0xAlice".to_string(), "0xUSDC".to_string(), 1_000_000u128, 17_000_000, "0xtxhash".to_string())
        .unwrap();
    bridge.confirm_deposit(&deposit.id, 17_000_012).ok();
    let msg = bridge.create_bridge_message(deposit.id).unwrap();
    for i in 0..5 {
        assert!(bridge.sign_message(&msg.id, i as u32, vec![i as u8]).is_ok());
    }
}

#[test]
fn test_execute_mint() {
    let mut bridge = EthereumBridge::new(validators());
    bridge.register_token(usdc()).ok();
    let deposit = bridge
        .lock_on_ethereum("0xAlice".to_string(), "0xUSDC".to_string(), 1_000_000u128, 17_000_000, "0xtxhash".to_string())
        .unwrap();
    bridge.confirm_deposit(&deposit.id, 17_000_012).ok();
    let msg = bridge.create_bridge_message(deposit.id).unwrap();
    for i in 0..5 {
        bridge.sign_message(&msg.id, i as u32, vec![i as u8]).ok();
    }
    let result = bridge.execute_mint(&msg.id, "0xAlice_X3".to_string(), 1000);
    assert!(result.is_ok());
}

#[test]
fn test_burn_wrapped() {
    let mut bridge = EthereumBridge::new(validators());
    bridge.register_token(usdc()).ok();
    let deposit = bridge
        .lock_on_ethereum("0xAlice".to_string(), "0xUSDC".to_string(), 1_000_000u128, 17_000_000, "0xtxhash".to_string())
        .unwrap();
    bridge.confirm_deposit(&deposit.id, 17_000_012).ok();
    let msg = bridge.create_bridge_message(deposit.id).unwrap();
    for i in 0..5 {
        bridge.sign_message(&msg.id, i as u32, vec![i as u8]).ok();
    }
    bridge.execute_mint(&msg.id, "0xAlice_X3".to_string(), 1000).ok();
    let burn_result = bridge.burn_wrapped("0xAlice_X3".to_string(), "0xUSDC".to_string(), 500_000u128);
    assert!(burn_result.is_ok());
}

#[test]
fn test_refund_deposit() {
    let mut bridge = EthereumBridge::new(validators());
    bridge.register_token(usdc()).ok();
    let deposit = bridge
        .lock_on_ethereum("0xAlice".to_string(), "0xUSDC".to_string(), 1_000_000u128, 17_000_000, "0xtxhash".to_string())
        .unwrap();
    let refund = bridge.refund_deposit(&deposit.id, "User cancelled".to_string());
    assert!(refund.is_ok());
}

#[test]
fn mint_credits_and_burn_debits_the_wrapped_balance() {
    let mut bridge = EthereumBridge::new(validators());
    bridge.register_token(usdc()).ok();
    let deposit = bridge
        .lock_on_ethereum("0xAlice".to_string(), "0xUSDC".to_string(), 1_000_000u128, 17_000_000, "0xtxhash".to_string())
        .unwrap();
    bridge.confirm_deposit(&deposit.id, 17_000_012).unwrap();
    let msg = bridge.create_bridge_message(deposit.id.clone()).unwrap();
    for i in 0..5 {
        bridge.sign_message(&msg.id, i as u32, vec![i as u8]).unwrap();
    }
    bridge.execute_mint(&msg.id, "0xAlice_X3".to_string(), 1000).unwrap();
    assert_eq!(bridge.get_wrapped_balance("0xAlice_X3", "0xUSDC"), 1_000_000);
    bridge.burn_wrapped("0xAlice_X3".to_string(), "0xUSDC".to_string(), 400_000).unwrap();
    assert_eq!(bridge.get_wrapped_balance("0xAlice_X3", "0xUSDC"), 600_000);
    assert!(bridge.burn_wrapped("0xAlice_X3".to_string(), "0xUSDC".to_string(), 600_001).is_err());
    assert!(matches!(bridge.get_deposit_status(&deposit.id), Some(DepositStatus::Minted { .. })));
}

#[test]
fn unknown_token_and_double_signature_are_refused() {
    let mut bridge = EthereumBridge::new(validators());
    assert!(bridge.lock_on_ethereum("0xAlice".to_string(), "0xDAI".to_string(), 5, 1, "0xt".to_string()).is_err());
    bridge.register_token(usdc()).unwrap();
    let deposit = bridge.lock_on_ethereum("0xAlice".to_string(), "0xUSDC".to_string(), 5, 100, "0xt".to_string()).unwrap();
    assert!(bridge.confirm_deposit(&deposit.id, 105).is_err());
    bridge.confirm_deposit(&deposit.id, 112).unwrap();
    let msg = bridge.create_bridge_message(deposit.id).unwrap();
    bridge.sign_message(&msg.id, 0, vec![0]).unwrap();
    assert!(bridge.sign_message(&msg.id, 0, vec![0]).is_err());
    assert!(bridge.execute_mint(&msg.id, "bob".to_string(), 1).is_err());
}
