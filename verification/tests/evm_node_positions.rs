use blake2::Digest;
use atlas_sphere::evm::{
    check_execute_payload, derive_target, estimation_config, finish_interpreter_call, gas_estimate_with_buffer, compute_state_root, estimate_gas_evm, exit_reason_to_error, fee_delta, fee_for, map_exit_reason, settle_execution,
    validate_evm, EvmConfig, EvmError, EvmStateChange, ExitOutcome, RunnerOutcome,
};
use atlas_sphere::node::{compute_enable_grandpa, slot_duration_for_spec, HealthStatus, JobStatusEntry, NodeFeatureFlags, Pagination, SidecarState};
use atlas_sphere::positions::{calculate_diff, PositionBalance, PositionSnapshot, U256};
use std::time::Duration;

fn config(price: u64) -> EvmConfig {
    EvmConfig { chain_id: 3375, gas_limit: 1_000_000, gas_price: [price, 0, 0, 0], base_fee: [1, 0, 0, 0] }
}

#[test]
fn estimate_gas_counts_zero_and_nonzero_bytes() {
    assert_eq!(estimate_gas_evm(&[0, 1, 0, 2]), Ok(21_000 + 4 + 16 + 4 + 16));
    assert_eq!(estimate_gas_evm(&[]), Err(EvmError::InvalidPayload));
}

#[test]
fn validate_evm_rejects_only_empty_payloads() {
    assert_eq!(validate_evm(&[0x60]), Ok(()));
    assert_eq!(validate_evm(&[]), Err(EvmError::InvalidPayload));
    assert_eq!(check_execute_payload(&[], true), Ok(()));
    assert_eq!(check_execute_payload(&[], false), Err(EvmError::InvalidPayload));
}

#[test]
fn evm_config_getters() {
    let c = config(7);
    assert_eq!(c.chain_id(), 3375);
    assert_eq!(c.gas_limit(), 1_000_000);
    assert_eq!(c.gas_price(), [7, 0, 0, 0]);
    assert_eq!(c.base_fee(), [1, 0, 0, 0]);
}

#[test]
fn test_exit_reason_conversion() {
    let err = exit_reason_to_error(ExitOutcome::Revert, 1000);
    assert_eq!(err, EvmError::ExecutionReverted);
}

#[test]
fn exit_reasons_map_to_errors() {
    assert_eq!(exit_reason_to_error(ExitOutcome::InvalidCode(0xfe), 5), EvmError::InvalidOpcode(0xfe));
    assert_eq!(exit_reason_to_error(ExitOutcome::Fatal, 0x1_2345_6789), EvmError::ExecutionFailed(0x10 | 0x0345_6789));
    assert_eq!(exit_reason_to_error(ExitOutcome::OtherError, 77), EvmError::ExecutionFailed(77));
    assert_eq!(map_exit_reason(ExitOutcome::Fatal, 77), EvmError::ExecutionFailed(77));
    assert_eq!(map_exit_reason(ExitOutcome::OutOfGas, 77), EvmError::OutOfGas);
}

#[test]
fn test_state_root_computation() {
    let empty_root = compute_state_root(&[]);
    assert_eq!(empty_root, [0u8; 32]);
    let change = EvmStateChange { address: [0u8; 20], balance_delta: 100, nonce_delta: 1, storage_changes: vec![], code: None };
    let root = compute_state_root(&[change]);
    assert_ne!(root, [0u8; 32]);
}

#[test]
fn fee_saturates_and_delta_negates() {
    assert_eq!(fee_for(21_000, [2, 0, 0, 0]), 42_000);
    assert_eq!(fee_for(0, [0, 0, 5, 0]), 0);
    assert_eq!(fee_for(1, [0, 0, 1, 0]), u128::MAX);
    assert_eq!(fee_for(2, [0, 1, 0, 0]), 2u128 << 64);
    assert_eq!(fee_delta(42_000), -42_000);
    assert_eq!(fee_delta(u128::MAX), i128::MIN);
}

#[test]
fn settle_debits_the_fee_from_the_caller() {
    let outcome = RunnerOutcome { exit_reason: ExitOutcome::Succeed, output: vec![1, 2], gas_used: 21_000, logs: vec![] };
    let res = settle_execution(outcome, [9u8; 20], &config(3)).unwrap();
    assert!(res.success);
    assert_eq!(res.output, vec![1, 2]);
    assert_eq!(res.state_changes.len(), 1);
    assert_eq!(res.state_changes[0].balance_delta, -63_000);
    assert_eq!(res.state_changes[0].nonce_delta, 1);
    assert_eq!(res.state_root, compute_state_root(&res.state_changes));
    let failed = RunnerOutcome { exit_reason: ExitOutcome::Revert, output: vec![], gas_used: 5, logs: vec![] };
    assert!(matches!(settle_execution(failed, [9u8; 20], &config(3)), Err(EvmError::ExecutionReverted)));
}

#[test]
fn slot_duration_halves_from_spec_version_five() {
    assert_eq!(slot_duration_for_spec(4), Duration::from_millis(400));
    assert_eq!(slot_duration_for_spec(5), Duration::from_millis(200));
    assert_eq!(slot_duration_for_spec(9), Duration::from_millis(200));
}

#[test]
fn grandpa_runs_unless_disabled_or_flash_finality() {
    let flags = NodeFeatureFlags::default();
    assert!(compute_enable_grandpa(false, flags));
    assert!(!compute_enable_grandpa(true, flags));
    let flash = NodeFeatureFlags { enable_flash_finality: true, ..NodeFeatureFlags::default() };
    assert!(!compute_enable_grandpa(false, flash));
}

#[test]
fn sidecar_and_gateway_defaults() {
    let entry = JobStatusEntry::new("queued".to_string(), None, Some("none".to_string()));
    assert_eq!(entry.status, "queued");
    assert_eq!(entry.error, Some("none".to_string()));
    let state = SidecarState::new();
    assert_eq!(state.jobs_completed, 0);
    assert!(!state.registered);
    assert_eq!(Pagination::default_limit(), 20);
    assert_eq!(Pagination { limit: 500, offset: 0 }.effective_limit(), 100);
    assert_eq!(Pagination { limit: 5, offset: 0 }.effective_limit(), 5);
    assert_eq!(HealthStatus::Degraded.to_string(), "degraded");
}

fn amount(v: u128) -> U256 {
    U256::from_u128(v)
}

fn balance(id: u8, amt: u128, value: u128) -> PositionBalance {
    PositionBalance { position_id: [id; 16], asset: [0xAA; 20], amount: amount(amt), value_usd: amount(value), chain_id: 1 }
}

fn snapshot(ts: u64, positions: Vec<PositionBalance>, total: u128) -> PositionSnapshot {
    PositionSnapshot { snapshot_id: [0; 32], timestamp: ts, positions, total_value_usd: amount(total), chain_breakdown: vec![] }
}

#[test]
fn snapshot_diff_finds_added_removed_and_changed() {
    let s1 = snapshot(10, vec![balance(1, 5, 50), balance(2, 7, 70)], 120);
    let s2 = snapshot(20, vec![balance(2, 8, 80), balance(3, 1, 10)], 90);
    let d = calculate_diff(&s1, &s2);
    assert_eq!(d.from_timestamp, 10);
    assert_eq!(d.to_timestamp, 20);
    assert_eq!(d.added.len(), 1);
    assert_eq!(d.added[0].position_id, [3; 16]);
    assert_eq!(d.removed.len(), 1);
    assert_eq!(d.removed[0].position_id, [1; 16]);
    assert_eq!(d.changed.len(), 1);
    assert_eq!(d.changed[0].old_amount, amount(7));
    assert_eq!(d.changed[0].new_amount, amount(8));
    assert_eq!(d.total_value_change, U256::zero());
    let up = calculate_diff(&s2, &s1);
    assert_eq!(up.total_value_change, amount(30));
}

#[test]
fn wide_arithmetic_carries_and_saturates() {
    let max_low = U256 { hi: 0, lo: u128::MAX };
    let one = U256::from_u128(1);
    assert_eq!(max_low.saturating_add(&one), U256 { hi: 1, lo: 0 });
    let max = U256 { hi: u128::MAX, lo: u128::MAX };
    assert_eq!(max.saturating_add(&one), max);
    assert_eq!(U256 { hi: 1, lo: 0 }.checked_sub(&one), Some(max_low));
    assert_eq!(one.checked_sub(&max_low), None);
    assert!(one.is_positive());
    assert!(!U256::zero().is_positive());
}

#[test]
fn interpreter_target_is_blake2_prefix() {
    let payload = [0x60u8, 0x00, 0x60, 0x00];
    let full = blake2::Blake2b::<blake2::digest::consts::U32>::digest(&payload);
    assert_eq!(derive_target(&payload).to_vec(), full[..20].to_vec());
    assert_ne!(derive_target(&payload), derive_target(&[0x60u8]));
}

#[test]
fn interpreter_call_finishes_with_data_or_error() {
    let ok = finish_interpreter_call(ExitOutcome::Succeed, 21_000, vec![1, 2]).unwrap();
    assert!(ok.success);
    assert_eq!(ok.output, vec![1, 2]);
    assert_eq!(ok.gas_used, 21_000);
    assert!(ok.logs.is_empty());
    assert!(ok.state_changes.is_empty());
    assert_eq!(ok.state_root, [0u8; 32]);
    assert_eq!(finish_interpreter_call(ExitOutcome::Revert, 5, vec![]).err(), Some(EvmError::ExecutionReverted));
    assert_eq!(finish_interpreter_call(ExitOutcome::Fatal, 0x1_0000_0007, vec![]).err(), Some(EvmError::ExecutionFailed(7)));
}

#[test]
fn gas_estimates_add_ten_percent() {
    assert_eq!(gas_estimate_with_buffer(21_000), 23_100);
    assert_eq!(gas_estimate_with_buffer(9), 9);
    assert_eq!(gas_estimate_with_buffer(u64::MAX), u64::MAX / 10);
    let c = estimation_config(&config(3));
    assert_eq!(c.gas_limit, u64::MAX / 2);
    assert_eq!(c.chain_id, 3375);
    assert_eq!(c.gas_price, [3, 0, 0, 0]);
}
