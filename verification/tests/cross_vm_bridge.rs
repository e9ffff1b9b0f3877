use atlas_sphere::cross_vm::{
    BridgeConfig, CrossVmBridge, CrossVmDispatcher, CrossVmEvent, CrossVmOperation, CrossVmResult, DispatchError,
    NoOpDispatcher, OperationState, PreparedOperation, TwoPhaseCommitPhase, VmType, DEFAULT_MAX_TRANSFER_AMOUNT, MAX_BATCH_SIZE, lock_decision,
};
use std::cell::{Cell, RefCell};
use std::collections::BTreeMap;

#[test]
fn test_cross_vm_operation_queue() {
    let mut bridge = CrossVmBridge::new();
    let op = CrossVmOperation::TransferToEvm { source: vec![1; 32], destination: [0u8; 20], amount: 1000 };
    let nonce = bridge.queue_operation(op).unwrap();
    assert_eq!(nonce, 1);
    assert_eq!(bridge.pending_count(), 1);
}

#[test]
fn test_cross_vm_execute_pending() {
    let mut bridge = CrossVmBridge::new();
    let op = CrossVmOperation::TransferToSvm { source: [1u8; 20], destination: vec![2; 32], amount: 500 };
    bridge.queue_operation(op).unwrap();
    let results = bridge.execute_pending().unwrap();
    assert_eq!(results.len(), 1);
    assert!(results[0].success);
    assert_eq!(bridge.completed_count(), 1);
}

#[test]
fn test_atomic_swap_rollback_marks_rolled_back() {
    let mut bridge = CrossVmBridge::new();
    let op = CrossVmOperation::AtomicSwap {
        evm_party: [0u8; 20],
        svm_party: vec![0u8; 32],
        evm_asset: [0u8; 20],
        svm_asset: vec![0u8; 32],
        evm_amount: 1_000,
        svm_amount: 2_000,
    };
    bridge.queue_operation(op.clone()).unwrap();
    assert_eq!(bridge.pending_count(), 1);
    assert!(bridge.rollback_operation(0).is_ok());
    assert_eq!(bridge.pending_count(), 0);
    assert_eq!(bridge.completed_count(), 0);
    assert_eq!(bridge.failed_count(), 0);
}

#[test]
fn test_cross_vm_result() {
    let success_result = CrossVmResult::success(vec![1, 2, 3], 50_000);
    assert!(success_result.success);
    assert_eq!(success_result.gas_used, 50_000);
    let failed_result = CrossVmResult::failed(vec![69, 114, 114], 25_000);
    assert!(!failed_result.success);
    assert!(failed_result.error.is_some());
}

#[test]
fn test_execute_with_noop_dispatcher() {
    let mut bridge = CrossVmBridge::new();
    let dispatcher = NoOpDispatcher;
    let op = CrossVmOperation::TransferToEvm { source: vec![1; 32], destination: [2u8; 20], amount: 1000 };
    bridge.queue_operation(op).unwrap();
    let (results, events) = bridge.execute_with_dispatcher(&dispatcher).unwrap();
    assert_eq!(results.len(), 1);
    assert!(results[0].success);
    assert_eq!(events.len(), 2);
    assert!(matches!(events[0], CrossVmEvent::TransferInitiated { .. }));
    assert!(matches!(events[1], CrossVmEvent::TransferCompleted { .. }));
}

#[test]
fn test_dispatcher_call_evm() {
    let mut bridge = CrossVmBridge::new();
    let dispatcher = NoOpDispatcher;
    let op = CrossVmOperation::CallEvm { caller: vec![0u8; 32], contract: [0xAA; 20], input: vec![0xDE, 0xAD], value: 0 };
    bridge.queue_operation(op).unwrap();
    let (results, _events) = bridge.execute_with_dispatcher(&dispatcher).unwrap();
    assert_eq!(results.len(), 1);
    assert!(results[0].success);
    assert_eq!(results[0].gas_used, 21_000);
}

#[test]
fn test_dispatcher_call_svm() {
    let mut bridge = CrossVmBridge::new();
    let dispatcher = NoOpDispatcher;
    let op = CrossVmOperation::CallSvm { caller: [0xBB; 20], pallet_index: 5, call_index: 2, input: vec![1, 2, 3] };
    bridge.queue_operation(op).unwrap();
    let (results, _events) = bridge.execute_with_dispatcher(&dispatcher).unwrap();
    assert_eq!(results.len(), 1);
    assert!(results[0].success);
    assert_eq!(results[0].gas_used, 5_000);
}

#[test]
fn test_vm_type_encode_decode() {
    let evm = VmType::Evm;
    let encoded = evm.encode();
    let decoded = VmType::decode(&mut &encoded[..]).unwrap();
    assert_eq!(decoded, VmType::Evm);
}

#[test]
fn vm_type_encodings_round_trip_and_reject_unknown_index() {
    for t in [VmType::Evm, VmType::Svm, VmType::X3] {
        let encoded = t.encode();
        assert_eq!(encoded.len(), 1);
        let mut input: &[u8] = &encoded[..];
        assert_eq!(VmType::decode(&mut input).unwrap(), t);
        assert!(input.is_empty());
    }
    assert_eq!(VmType::Svm.encode(), vec![1u8]);
    let bad = [7u8];
    assert!(VmType::decode(&mut &bad[..]).is_err());
    let empty: [u8; 0] = [];
    assert!(VmType::decode(&mut &empty[..]).is_err());
}

#[test]
fn test_validation_rejects_zero_amounts() {
    let mut bridge = CrossVmBridge::new();
    let op = CrossVmOperation::TransferToEvm { source: vec![1; 32], destination: [0u8; 20], amount: 0 };
    assert!(bridge.queue_operation(op).is_err());
    let op2 = CrossVmOperation::TransferToSvm { source: [0u8; 20], destination: vec![1; 32], amount: 0 };
    assert!(bridge.queue_operation(op2).is_err());
}

#[test]
fn test_validation_rejects_invalid_address_lengths() {
    let mut bridge = CrossVmBridge::new();
    let op = CrossVmOperation::TransferToEvm { source: vec![1; 20], destination: [0u8; 20], amount: 100 };
    assert!(bridge.queue_operation(op).is_err());
    let op2 = CrossVmOperation::TransferToSvm { source: [0u8; 20], destination: vec![1; 20], amount: 100 };
    assert!(bridge.queue_operation(op2).is_err());
}

#[test]
fn test_multiple_operations_batch_execute() {
    let mut bridge = CrossVmBridge::new();
    let dispatcher = NoOpDispatcher;
    bridge.queue_operation(CrossVmOperation::TransferToEvm { source: vec![1; 32], destination: [2u8; 20], amount: 100 }).unwrap();
    bridge.queue_operation(CrossVmOperation::TransferToSvm { source: [3u8; 20], destination: vec![4; 32], amount: 200 }).unwrap();
    bridge
        .queue_operation(CrossVmOperation::CallEvm { caller: vec![5; 32], contract: [6u8; 20], input: vec![0xAB], value: 0 })
        .unwrap();
    assert_eq!(bridge.pending_count(), 3);
    let (results, events) = bridge.execute_with_dispatcher(&dispatcher).unwrap();
    assert_eq!(results.len(), 3);
    assert!(results.iter().all(|r| r.success));
    assert_eq!(bridge.completed_count(), 3);
    assert_eq!(bridge.pending_count(), 0);
    assert!(events.len() >= 3);
}

#[test]
fn test_get_operation_states() {
    let mut bridge = CrossVmBridge::new();
    bridge.queue_operation(CrossVmOperation::TransferToEvm { source: vec![1; 32], destination: [2u8; 20], amount: 500 }).unwrap();
    let states = bridge.get_operation_states();
    assert_eq!(states.len(), 1);
    assert!(matches!(states[0].1, OperationState::Pending));
}

#[test]
fn test_nonces_are_monotonically_increasing() {
    let mut bridge = CrossVmBridge::new();
    let n1 = bridge.queue_operation(CrossVmOperation::TransferToEvm { source: vec![1; 32], destination: [0u8; 20], amount: 100 }).unwrap();
    let n2 = bridge.queue_operation(CrossVmOperation::TransferToSvm { source: [0u8; 20], destination: vec![1; 32], amount: 200 }).unwrap();
    assert_eq!(n1, 1);
    assert_eq!(n2, 2);
    assert!(bridge.is_nonce_used(1));
    assert!(bridge.is_nonce_used(2));
    assert!(!bridge.is_nonce_used(3));
}

#[test]
fn test_nonces_survive_clear() {
    let mut bridge = CrossVmBridge::new();
    bridge.queue_operation(CrossVmOperation::TransferToEvm { source: vec![1; 32], destination: [0u8; 20], amount: 100 }).unwrap();
    bridge.clear();
    let n = bridge.queue_operation(CrossVmOperation::TransferToEvm { source: vec![1; 32], destination: [0u8; 20], amount: 100 }).unwrap();
    assert_eq!(n, 2);
}

#[test]
fn test_peek_nonce() {
    let bridge = CrossVmBridge::new();
    assert_eq!(bridge.peek_nonce(), 1);
}

#[test]
fn test_circuit_breaker_pauses_bridge() {
    let mut bridge = CrossVmBridge::new();
    assert!(!bridge.is_paused());
    bridge.pause();
    assert!(bridge.is_paused());
    let op = CrossVmOperation::TransferToEvm { source: vec![1; 32], destination: [0u8; 20], amount: 100 };
    assert!(bridge.queue_operation(op).is_err());
    assert!(bridge.execute_pending().is_err());
    bridge.resume();
    assert!(!bridge.is_paused());
}

#[test]
fn test_transfer_amount_limit() {
    let config = BridgeConfig { max_transfer_amount: 1000, ..BridgeConfig::default() };
    let mut bridge = CrossVmBridge::with_config(config);
    let ok_op = CrossVmOperation::TransferToEvm { source: vec![1; 32], destination: [0u8; 20], amount: 999 };
    assert!(bridge.queue_operation(ok_op).is_ok());
    let bad_op = CrossVmOperation::TransferToEvm { source: vec![1; 32], destination: [0u8; 20], amount: 1001 };
    assert!(bridge.queue_operation(bad_op).is_err());
}

#[test]
fn test_epoch_volume_circuit_breaker() {
    let config = BridgeConfig { max_epoch_volume: 500, ..BridgeConfig::default() };
    let mut bridge = CrossVmBridge::with_config(config);
    bridge.queue_operation(CrossVmOperation::TransferToEvm { source: vec![1; 32], destination: [0u8; 20], amount: 300 }).unwrap();
    let result = bridge.queue_operation(CrossVmOperation::TransferToEvm { source: vec![1; 32], destination: [0u8; 20], amount: 201 });
    assert!(result.is_err());
    assert!(bridge.is_paused());
    bridge.reset_epoch_volume();
    bridge.resume();
    assert!(!bridge.is_paused());
    assert_eq!(bridge.config.epoch_volume, 0);
}

#[test]
fn test_batch_size_limit() {
    let config = BridgeConfig { max_batch_size: 2u32, ..BridgeConfig::default() };
    let mut bridge = CrossVmBridge::with_config(config);
    let make_op = |amt| CrossVmOperation::TransferToEvm { source: vec![1; 32], destination: [0u8; 20], amount: amt };
    assert!(bridge.queue_operation(make_op(10)).is_ok());
    assert!(bridge.queue_operation(make_op(20)).is_ok());
    assert!(bridge.queue_operation(make_op(30)).is_err());
}

#[test]
fn test_2pc_prepare_commit_lifecycle() {
    let mut bridge = CrossVmBridge::new();
    let dispatcher = NoOpDispatcher;
    bridge.queue_operation(CrossVmOperation::TransferToEvm { source: vec![1; 32], destination: [2u8; 20], amount: 100 }).unwrap();
    let (nonces, prepare_events) = bridge.prepare(&dispatcher).unwrap();
    assert_eq!(nonces.len(), 1);
    assert_eq!(bridge.prepared_count(), 1);
    assert!(prepare_events.iter().any(|e| matches!(e, CrossVmEvent::PrepareCompleted { .. })));
    let (results, commit_events) = bridge.commit(&dispatcher).unwrap();
    assert_eq!(results.len(), 1);
    assert!(results[0].success);
    assert_eq!(bridge.prepared_count(), 0);
    assert_eq!(bridge.completed_count(), 1);
    assert!(commit_events.iter().any(|e| matches!(e, CrossVmEvent::CommitCompleted { .. })));
}

#[test]
fn test_2pc_abort_releases_locks() {
    let mut bridge = CrossVmBridge::new();
    let dispatcher = NoOpDispatcher;
    bridge.queue_operation(CrossVmOperation::TransferToSvm { source: [1u8; 20], destination: vec![2; 32], amount: 500 }).unwrap();
    let (nonces, _) = bridge.prepare(&dispatcher).unwrap();
    assert_eq!(nonces.len(), 1);
    assert_eq!(bridge.prepared_count(), 1);
    let abort_events = bridge.abort();
    assert_eq!(bridge.prepared_count(), 0);
    assert!(abort_events.iter().any(|e| matches!(e, CrossVmEvent::Aborted { .. })));
}

#[test]
fn abort_puts_the_operations_back_in_the_queue() {
    let mut bridge = CrossVmBridge::new();
    let dispatcher = NoOpDispatcher;
    bridge.queue_operation(CrossVmOperation::TransferToSvm { source: [1u8; 20], destination: vec![2; 32], amount: 500 }).unwrap();
    let before = bridge.pending_count();
    bridge.prepare(&dispatcher).unwrap();
    bridge.abort();
    assert_eq!(bridge.pending_count(), before);
    let results = bridge.execute_pending().unwrap();
    assert_eq!(results.len(), 1);
}

#[test]
fn test_2pc_atomic_execute_convenience() {
    let mut bridge = CrossVmBridge::new();
    let dispatcher = NoOpDispatcher;
    bridge
        .queue_operation(CrossVmOperation::CallEvm { caller: vec![0xAA; 32], contract: [0xBB; 20], input: vec![1, 2, 3], value: 0 })
        .unwrap();
    bridge.queue_operation(CrossVmOperation::CallSvm { caller: [0xCC; 20], pallet_index: 1, call_index: 0, input: vec![4, 5, 6] }).unwrap();
    let (results, events) = bridge.atomic_execute(&dispatcher).unwrap();
    assert_eq!(results.len(), 2);
    assert!(results.iter().all(|r| r.success));
    assert_eq!(bridge.completed_count(), 2);
    assert!(events.iter().any(|e| matches!(e, CrossVmEvent::PrepareCompleted { .. })));
    assert!(events.iter().any(|e| matches!(e, CrossVmEvent::CommitCompleted { .. })));
}

#[test]
fn test_2pc_commit_with_no_prepared_fails() {
    let mut bridge = CrossVmBridge::new();
    let dispatcher = NoOpDispatcher;
    let result = bridge.commit(&dispatcher);
    assert!(result.is_err());
}

#[test]
fn test_2pc_prepare_on_paused_bridge_fails() {
    let mut bridge = CrossVmBridge::new();
    let dispatcher = NoOpDispatcher;
    bridge.pause();
    let result = bridge.prepare(&dispatcher);
    assert!(result.is_err());
}

#[test]
fn test_2pc_batch_prepare_all_or_nothing() {
    let mut bridge = CrossVmBridge::new();
    let dispatcher = NoOpDispatcher;
    for i in 1u8..=3 {
        bridge.queue_operation(CrossVmOperation::TransferToEvm { source: vec![i; 32], destination: [i; 20], amount: 100 }).unwrap();
    }
    let (nonces, events) = bridge.prepare(&dispatcher).unwrap();
    assert_eq!(nonces.len(), 3);
    assert_eq!(bridge.prepared_count(), 3);
    let prepare_count = events.iter().filter(|e| matches!(e, CrossVmEvent::PrepareCompleted { .. })).count();
    assert_eq!(prepare_count, 3);
}

#[test]
fn test_caller_evm_address_derived_from_svm_pubkey() {
    let mut caller = vec![0u8; 32];
    for i in 12..32 {
        caller[i] = (i - 12) as u8 + 0xA0;
    }
    let mut bridge = CrossVmBridge::new();
    let dispatcher = NoOpDispatcher;
    bridge.queue_operation(CrossVmOperation::CallEvm { caller, contract: [0xFF; 20], input: vec![], value: 0 }).unwrap();
    let (results, _) = bridge.execute_with_dispatcher(&dispatcher).unwrap();
    assert!(results[0].success);
}

#[test]
fn test_caller_svm_address_derived_from_evm_address() {
    let caller = [0xAB; 20];
    let mut bridge = CrossVmBridge::new();
    let dispatcher = NoOpDispatcher;
    bridge.queue_operation(CrossVmOperation::CallSvm { caller, pallet_index: 0, call_index: 0, input: vec![] }).unwrap();
    let (results, _) = bridge.execute_with_dispatcher(&dispatcher).unwrap();
    assert!(results[0].success);
}

#[test]
fn test_dispatcher_routes_transfer_to_evm() {
    let mut bridge = CrossVmBridge::new();
    let dispatcher = NoOpDispatcher;
    bridge.queue_operation(CrossVmOperation::TransferToEvm { source: vec![1; 32], destination: [2u8; 20], amount: 1000 }).unwrap();
    let (results, _) = bridge.execute_with_dispatcher(&dispatcher).unwrap();
    assert_eq!(results.len(), 1);
    assert!(results[0].success);
    assert_eq!(results[0].gas_used, 21_000);
}

#[test]
fn test_dispatcher_routes_transfer_to_svm() {
    let mut bridge = CrossVmBridge::new();
    let dispatcher = NoOpDispatcher;
    bridge.queue_operation(CrossVmOperation::TransferToSvm { source: [1u8; 20], destination: vec![2; 32], amount: 500 }).unwrap();
    let (results, _) = bridge.execute_with_dispatcher(&dispatcher).unwrap();
    assert_eq!(results.len(), 1);
    assert!(results[0].success);
    assert_eq!(results[0].gas_used, 5_000);
}

#[test]
fn test_dispatcher_routes_atomic_swap() {
    let mut bridge = CrossVmBridge::new();
    let dispatcher = NoOpDispatcher;
    bridge
        .queue_operation(CrossVmOperation::AtomicSwap {
            evm_party: [0xAA; 20],
            svm_party: vec![0xBB; 32],
            evm_asset: [0u8; 20],
            svm_asset: vec![0u8; 32],
            evm_amount: 1000,
            svm_amount: 2000,
        })
        .unwrap();
    let (results, _) = bridge.execute_with_dispatcher(&dispatcher).unwrap();
    assert_eq!(results.len(), 1);
    assert!(results[0].success);
    assert_eq!(results[0].gas_used, 26_000);
}

#[test]
fn test_bridge_config_default() {
    let config = BridgeConfig::default();
    assert_eq!(config.max_transfer_amount, DEFAULT_MAX_TRANSFER_AMOUNT);
    assert!(!config.paused);
    assert_eq!(config.max_batch_size, MAX_BATCH_SIZE as u32);
    assert_eq!(config.epoch_volume, 0);
}

#[test]
fn test_bridge_with_config() {
    let config = BridgeConfig { max_transfer_amount: 42, paused: false, max_batch_size: 10u32, epoch_volume: 0, max_epoch_volume: 1000 };
    let bridge = CrossVmBridge::with_config(config);
    assert_eq!(bridge.config.max_transfer_amount, 42);
    assert_eq!(bridge.config.max_batch_size, 10);
    assert_eq!(bridge.config.max_epoch_volume, 1000);
}

#[test]
fn test_full_2pc_lifecycle_multi_op_batch() {
    let mut bridge = CrossVmBridge::new();
    let dispatcher = NoOpDispatcher;
    let n1 = bridge.queue_operation(CrossVmOperation::TransferToEvm { source: vec![1; 32], destination: [2u8; 20], amount: 100 }).unwrap();
    let n2 = bridge
        .queue_operation(CrossVmOperation::CallEvm { caller: vec![3; 32], contract: [4u8; 20], input: vec![0xAB, 0xCD], value: 0 })
        .unwrap();
    let n3 = bridge
        .queue_operation(CrossVmOperation::AtomicSwap {
            evm_party: [5u8; 20],
            svm_party: vec![6; 32],
            evm_asset: [0u8; 20],
            svm_asset: vec![0u8; 32],
            evm_amount: 500,
            svm_amount: 1000,
        })
        .unwrap();
    assert_eq!((n1, n2, n3), (1, 2, 3));
    let (results, events) = bridge.atomic_execute(&dispatcher).unwrap();
    assert_eq!(results.len(), 3);
    assert!(results.iter().all(|r| r.success));
    assert_eq!(bridge.completed_count(), 3);
    assert_eq!(bridge.pending_count(), 0);
    assert_eq!(bridge.prepared_count(), 0);
    let prepare_count = events.iter().filter(|e| matches!(e, CrossVmEvent::PrepareCompleted { .. })).count();
    let commit_count = events.iter().filter(|e| matches!(e, CrossVmEvent::CommitCompleted { .. })).count();
    assert_eq!(prepare_count, 3);
    assert_eq!(commit_count, 3);
}

#[test]
fn test_circuit_breaker_auto_trips_and_recovers() {
    let config = BridgeConfig { max_epoch_volume: 1000, ..BridgeConfig::default() };
    let mut bridge = CrossVmBridge::with_config(config);
    bridge.queue_operation(CrossVmOperation::TransferToEvm { source: vec![1; 32], destination: [0u8; 20], amount: 600 }).unwrap();
    let result = bridge.queue_operation(CrossVmOperation::TransferToEvm { source: vec![1; 32], destination: [0u8; 20], amount: 500 });
    assert!(result.is_err());
    assert!(bridge.is_paused());
    bridge.reset_epoch_volume();
    bridge.resume();
    bridge.queue_operation(CrossVmOperation::TransferToEvm { source: vec![1; 32], destination: [0u8; 20], amount: 100 }).unwrap();
    assert!(!bridge.is_paused());
}

#[test]
fn test_message_to_evm_queues_and_executes() {
    let mut bridge = CrossVmBridge::new();
    let op = CrossVmOperation::MessageToEvm { sender: vec![0xAA; 32], target_contract: [0xBB; 20], message: b"hello evm".to_vec(), nonce: 42 };
    let queued_nonce = bridge.queue_operation(op).unwrap();
    assert_eq!(bridge.pending_count(), 1);
    let results = bridge.execute_pending().unwrap();
    assert_eq!(results.len(), 1);
    assert!(results[0].success);
    assert_eq!(bridge.completed_count(), 1);
    assert_eq!(bridge.pending_count(), 0);
    assert_eq!(results[0].gas_used, 50_000);
    let out = &results[0].output;
    assert!(out.windows(8).any(|w| w == b"SVM:msg:"), "Output should contain SVM:msg: prefix");
    assert!(out.windows(6).any(|w| w == b"->EVM:"), "Output should contain ->EVM: hop marker");
    let _ = queued_nonce;
}

#[test]
fn test_message_to_svm_queues_and_executes() {
    let mut bridge = CrossVmBridge::new();
    let op = CrossVmOperation::MessageToSvm { sender: [0xCC; 20], target_program: vec![0xDD; 32], message: b"hello svm".to_vec(), nonce: 99 };
    bridge.queue_operation(op).unwrap();
    let results = bridge.execute_pending().unwrap();
    assert_eq!(results.len(), 1);
    assert!(results[0].success);
    assert_eq!(results[0].gas_used, 50_000);
    let out = &results[0].output;
    assert!(out.windows(8).any(|w| w == b"EVM:msg:"), "Output should contain EVM:msg: prefix");
    assert!(out.windows(6).any(|w| w == b"->SVM:"), "Output should contain ->SVM: hop marker");
}

#[test]
fn test_message_to_evm_max_size_enforced() {
    let mut bridge = CrossVmBridge::new();
    let oversized = vec![0u8; 1025];
    let op = CrossVmOperation::MessageToEvm { sender: vec![1u8; 32], target_contract: [2u8; 20], message: oversized, nonce: 1 };
    let result = bridge.queue_operation(op);
    assert!(result.is_err(), "Oversized MessageToEvm must be rejected at queue time");
    assert_eq!(bridge.pending_count(), 0);
}

#[test]
fn test_message_to_svm_max_size_enforced() {
    let mut bridge = CrossVmBridge::new();
    let oversized = vec![0u8; 1025];
    let op = CrossVmOperation::MessageToSvm { sender: [1u8; 20], target_program: vec![2u8; 32], message: oversized, nonce: 2 };
    let result = bridge.queue_operation(op);
    assert!(result.is_err(), "Oversized MessageToSvm must be rejected at queue time");
    assert_eq!(bridge.pending_count(), 0);
}

#[test]
fn test_message_to_evm_exact_boundary_accepted() {
    let mut bridge = CrossVmBridge::new();
    let op = CrossVmOperation::MessageToEvm { sender: vec![1u8; 32], target_contract: [2u8; 20], message: vec![0xAB; 1024], nonce: 3 };
    bridge.queue_operation(op).unwrap();
    let results = bridge.execute_pending().unwrap();
    assert_eq!(results.len(), 1);
    assert!(results[0].success);
}

#[test]
fn test_cross_vm_message_nonce_ordering() {
    let mut bridge = CrossVmBridge::new();
    let n1 = bridge
        .queue_operation(CrossVmOperation::MessageToEvm { sender: vec![1u8; 32], target_contract: [2u8; 20], message: b"original".to_vec(), nonce: 1 })
        .unwrap();
    let n2 = bridge
        .queue_operation(CrossVmOperation::MessageToSvm { sender: [3u8; 20], target_program: vec![4u8; 32], message: b"second".to_vec(), nonce: 2 })
        .unwrap();
    let n3 = bridge
        .queue_operation(CrossVmOperation::MessageToEvm { sender: vec![5u8; 32], target_contract: [6u8; 20], message: b"third".to_vec(), nonce: 3 })
        .unwrap();
    assert!(n1 < n2, "nonce ordering violated: n1={n1} n2={n2}");
    assert!(n2 < n3, "nonce ordering violated: n2={n2} n3={n3}");
    let results = bridge.execute_pending().unwrap();
    assert_eq!(results.len(), 3);
    assert!(results.iter().all(|r| r.success));
}

#[test]
fn test_cross_vm_nonce_replay_protection() {
    let mut bridge = CrossVmBridge::new();
    bridge
        .queue_operation(CrossVmOperation::MessageToEvm { sender: vec![1u8; 32], target_contract: [2u8; 20], message: b"original".to_vec(), nonce: 1 })
        .unwrap();
    bridge.execute_pending().unwrap();
    assert!(!bridge.used_nonces_snapshot().is_empty(), "Used nonces must be tracked for replay protection");
}

#[test]
fn used_nonces_snapshot_is_sorted_and_complete() {
    let mut bridge = CrossVmBridge::new();
    for _ in 0..3 {
        bridge.queue_operation(CrossVmOperation::TransferToEvm { source: vec![1; 32], destination: [0u8; 20], amount: 5 }).unwrap();
    }
    assert_eq!(bridge.used_nonces_snapshot(), vec![1u64, 2, 3]);
}

#[test]
fn test_message_passing_through_two_phase_commit() {
    let mut bridge = CrossVmBridge::new();
    let dispatcher = NoOpDispatcher;
    bridge
        .queue_operation(CrossVmOperation::MessageToEvm { sender: vec![0x11; 32], target_contract: [0x22; 20], message: b"2pc evm msg".to_vec(), nonce: 10 })
        .unwrap();
    bridge
        .queue_operation(CrossVmOperation::MessageToSvm { sender: [0x33; 20], target_program: vec![0x44; 32], message: b"2pc svm msg".to_vec(), nonce: 11 })
        .unwrap();
    let (results, events) = bridge.atomic_execute(&dispatcher).unwrap();
    assert_eq!(results.len(), 2);
    assert!(results.iter().all(|r| r.success));
    let commit_count = events.iter().filter(|e| matches!(e, CrossVmEvent::CommitCompleted { .. })).count();
    assert_eq!(commit_count, 2, "Both messages should emit CommitCompleted events");
}

#[test]
fn swap_event_carries_its_amounts() {
    let swap_event = CrossVmBridge::emit_swap_event(100, 200, 50_000);
    assert_eq!(swap_event, CrossVmEvent::AtomicSwapExecuted { evm_amount: 100, svm_amount: 200, gas_used: 50_000 });
}

/// A dispatcher that keeps simple in-memory balances and counts its calls.
struct StubKernelDispatcher {
    evm_balances: RefCell<BTreeMap<[u8; 20], u128>>,
    svm_balances: RefCell<BTreeMap<[u8; 32], u64>>,
    evm_calls: Cell<u32>,
    svm_calls: Cell<u32>,
    fail_next_svm_prepare: Cell<bool>,
}

impl StubKernelDispatcher {
    fn new() -> Self {
        Self {
            evm_balances: RefCell::new(BTreeMap::new()),
            svm_balances: RefCell::new(BTreeMap::new()),
            evm_calls: Cell::new(0),
            svm_calls: Cell::new(0),
            fail_next_svm_prepare: Cell::new(false),
        }
    }

    fn set_evm_balance(&mut self, address: [u8; 20], amount: u128) {
        self.evm_balances.borrow_mut().insert(address, amount);
    }

    fn set_svm_balance(&mut self, pubkey: [u8; 32], lamports: u64) {
        self.svm_balances.borrow_mut().insert(pubkey, lamports);
    }

    fn fail_next_svm_prepare(&self) {
        self.fail_next_svm_prepare.set(true);
    }

    fn parse_amount_suffix(input: &[u8], prefix: &[u8]) -> Option<u128> {
        if !input.starts_with(prefix) {
            return None;
        }
        let amount_bytes = input.get(prefix.len()..prefix.len() + 16)?;
        let mut amount_arr = [0u8; 16];
        amount_arr.copy_from_slice(amount_bytes);
        Some(u128::from_le_bytes(amount_arr))
    }

    fn evm_transfer(&self, from: &[u8; 20], to: &[u8; 20], amount: u128) -> Result<(), DispatchError> {
        let mut balances = self.evm_balances.borrow_mut();
        let from_bal = balances.get(from).copied().unwrap_or(0);
        if from_bal < amount {
            return Err(DispatchError::Other("Insufficient EVM balance"));
        }
        balances.insert(*from, from_bal.saturating_sub(amount));
        let to_bal = balances.get(to).copied().unwrap_or(0);
        balances.insert(*to, to_bal.saturating_add(amount));
        Ok(())
    }
}

impl CrossVmDispatcher for StubKernelDispatcher {
    fn execute_evm_tx(&self, caller: &[u8; 20], target: &[u8; 20], input: &[u8], value: u128) -> Result<CrossVmResult, DispatchError> {
        self.evm_calls.set(self.evm_calls.get() + 1);
        if let Some(amount) = Self::parse_amount_suffix(input, b"LOCK_EVM_SWAP:") {
            self.evm_transfer(caller, target, amount)?;
        } else if let Some(amount) = Self::parse_amount_suffix(input, b"REFUND_EVM_SWAP:") {
            self.evm_transfer(caller, target, amount)?;
        } else if let Some(amount) = Self::parse_amount_suffix(input, b"COMMIT_EVM_SWAP:") {
            self.evm_transfer(caller, target, amount)?;
        } else if value > 0 {
            if self.evm_balances.borrow().contains_key(caller) {
                self.evm_transfer(caller, target, value)?;
            }
        }
        let gas = 21_000u64 + (input.len() as u64) * 16;
        Ok(CrossVmResult::success(Vec::new(), gas))
    }

    fn execute_svm_tx(&self, caller: &[u8; 32], _program_id: &[u8; 32], input: &[u8]) -> Result<CrossVmResult, DispatchError> {
        self.svm_calls.set(self.svm_calls.get() + 1);
        if input.starts_with(b"LOCK_SVM_SWAP:") {
            if self.fail_next_svm_prepare.replace(false) {
                return Err(DispatchError::Other("Injected SVM prepare failure"));
            }
            if let Some(amount_u128) = Self::parse_amount_suffix(input, b"LOCK_SVM_SWAP:") {
                let amount = amount_u128.min(u64::MAX as u128) as u64;
                let mut balances = self.svm_balances.borrow_mut();
                let current = balances.get(caller).copied().unwrap_or(0);
                if current < amount {
                    return Err(DispatchError::Other("Insufficient SVM balance"));
                }
                balances.insert(*caller, current.saturating_sub(amount));
            }
        } else if let Some(amount_u128) = Self::parse_amount_suffix(input, b"COMMIT_SVM_SWAP:") {
            let amount = amount_u128.min(u64::MAX as u128) as u64;
            let mut balances = self.svm_balances.borrow_mut();
            let current = balances.get(caller).copied().unwrap_or(0);
            balances.insert(*caller, current.saturating_add(amount));
        }
        let compute = 5_000u64 + (input.len() as u64) * 2;
        Ok(CrossVmResult::success(Vec::new(), compute))
    }

    fn get_evm_balance(&self, address: &[u8; 20]) -> u128 {
        self.evm_balances.borrow().get(address).copied().unwrap_or(0)
    }

    fn get_svm_balance(&self, pubkey: &[u8; 32]) -> u64 {
        self.svm_balances.borrow().get(pubkey).copied().unwrap_or(0)
    }
}

#[test]
fn test_transfer_to_evm_with_stub_kernel_dispatcher() {
    let mut dispatcher = StubKernelDispatcher::new();
    let svm_payer = [0xAA; 32];
    let evm_recipient = [0xBB; 20];
    dispatcher.set_svm_balance(svm_payer, 1_000_000_000);
    let mut bridge = CrossVmBridge::new();
    bridge
        .queue_operation(CrossVmOperation::TransferToEvm { source: svm_payer.to_vec(), destination: evm_recipient, amount: 500_000 })
        .expect("queue should succeed");
    let (results, events) = bridge.execute_with_dispatcher(&dispatcher).expect("execute_with_dispatcher must not fail");
    assert_eq!(results.len(), 1, "one result per queued op");
    assert!(results[0].success, "transfer must succeed with funded source");
    let completed_events = events.iter().filter(|e| matches!(e, CrossVmEvent::TransferCompleted { .. })).count();
    assert_eq!(completed_events, 1, "exactly one TransferCompleted event");
}

#[test]
fn test_call_evm_routes_to_evm_dispatcher() {
    let mut dispatcher = StubKernelDispatcher::new();
    dispatcher.set_evm_balance([0xCC; 20], 10_000);
    let mut bridge = CrossVmBridge::new();
    bridge
        .queue_operation(CrossVmOperation::CallEvm { caller: vec![0u8; 32], contract: [0xCC; 20], input: vec![0xAB, 0xCD, 0xEF], value: 0 })
        .expect("queue should succeed");
    let (results, _events) = bridge.execute_with_dispatcher(&dispatcher).expect("execute must succeed");
    assert!(results[0].success);
    assert_eq!(results[0].gas_used, 21_048, "gas must reflect input size");
    assert_eq!(dispatcher.evm_calls.get(), 1, "exactly one EVM dispatch call");
    assert_eq!(dispatcher.svm_calls.get(), 0, "no SVM dispatch calls");
}

#[test]
fn test_call_svm_routes_to_svm_dispatcher() {
    let mut dispatcher = StubKernelDispatcher::new();
    dispatcher.set_svm_balance([0xDD; 32], 9_999);
    let mut bridge = CrossVmBridge::new();
    bridge
        .queue_operation(CrossVmOperation::CallSvm { caller: [0xDD; 20], pallet_index: 1, call_index: 2, input: vec![1, 2] })
        .expect("queue should succeed");
    let (results, _events) = bridge.execute_with_dispatcher(&dispatcher).expect("execute must succeed");
    assert!(results[0].success);
    assert_eq!(results[0].gas_used, 5_008, "compute reflects input size");
    assert_eq!(dispatcher.svm_calls.get(), 1, "exactly one SVM dispatch call");
    assert_eq!(dispatcher.evm_calls.get(), 0, "no EVM dispatch calls");
}

#[test]
fn test_atomic_swap_stub_dispatcher_both_legs_succeed() {
    let mut dispatcher = StubKernelDispatcher::new();
    let evm_party = [0x11; 20];
    let svm_party = [0x22; 32];
    dispatcher.set_evm_balance(evm_party, 5_000_000);
    dispatcher.set_svm_balance(svm_party, 5_000_000_000);
    let mut bridge = CrossVmBridge::new();
    bridge
        .queue_operation(CrossVmOperation::AtomicSwap {
            evm_party,
            svm_party: svm_party.to_vec(),
            evm_asset: [0u8; 20],
            svm_asset: vec![0u8; 32],
            evm_amount: 1_000,
            svm_amount: 2_000,
        })
        .expect("queue should succeed");
    let (results, events) = bridge.execute_with_dispatcher(&dispatcher).expect("execute must succeed");
    assert_eq!(results.len(), 1);
    assert!(results[0].success, "atomic-swap must succeed with funded parties");
    let swap_events: Vec<_> = events.iter().filter(|e| matches!(e, CrossVmEvent::AtomicSwapExecuted { .. })).collect();
    assert_eq!(swap_events.len(), 1, "one AtomicSwapExecuted event expected");
}

#[test]
fn test_atomic_swap_restores_evm_balance_on_svm_prepare_failure() {
    let mut dispatcher = StubKernelDispatcher::new();
    let evm_party = [0x41; 20];
    let svm_party = [0x42; 32];
    let initial_evm_balance = 10_000u128;
    dispatcher.set_evm_balance(evm_party, initial_evm_balance);
    dispatcher.set_svm_balance(svm_party, 10_000);
    dispatcher.fail_next_svm_prepare();
    let mut bridge = CrossVmBridge::new();
    bridge
        .queue_operation(CrossVmOperation::AtomicSwap {
            evm_party,
            svm_party: svm_party.to_vec(),
            evm_asset: [0u8; 20],
            svm_asset: vec![0u8; 32],
            evm_amount: 1_000,
            svm_amount: 2_000,
        })
        .expect("queue should succeed");
    let (results, _events) = bridge.execute_with_dispatcher(&dispatcher).expect("execute_with_dispatcher should not panic");
    assert_eq!(results.len(), 0, "atomic swap should fail and produce no success result");
    assert_eq!(bridge.failed_count(), 1, "failed operation must be recorded");
    assert_eq!(dispatcher.get_evm_balance(&evm_party), initial_evm_balance, "EVM balance must be fully restored after compensation");
}

#[test]
fn test_cross_vm_event_variants() {
    let event = CrossVmEvent::TransferInitiated { operation_id: 1, source_vm: VmType::Evm, dest_vm: VmType::Svm, amount: 42 };
    let encoded = event.encode();
    let decoded = CrossVmEvent::decode(&mut &encoded[..]).unwrap();
    assert_eq!(decoded, event);
    let swap_event = CrossVmBridge::emit_swap_event(100, 200, 50_000);
    assert!(matches!(swap_event, CrossVmEvent::AtomicSwapExecuted { .. }));
}

#[test]
fn test_2pc_events_encode_decode() {
    let prepare_event = CrossVmEvent::PrepareCompleted { nonce: 42, evm_gas_reserved: 100_000, svm_compute_reserved: 200_000 };
    let encoded = prepare_event.encode();
    let decoded = CrossVmEvent::decode(&mut &encoded[..]).unwrap();
    assert_eq!(decoded, prepare_event);
    let commit_event = CrossVmEvent::CommitCompleted { nonce: 42, total_gas_used: 150_000 };
    let encoded = commit_event.encode();
    let decoded = CrossVmEvent::decode(&mut &encoded[..]).unwrap();
    assert_eq!(decoded, commit_event);
    let abort_event = CrossVmEvent::Aborted { nonce: 42, reason: b"test abort".to_vec() };
    let encoded = abort_event.encode();
    let decoded = CrossVmEvent::decode(&mut &encoded[..]).unwrap();
    assert_eq!(decoded, abort_event);
    let cb_event = CrossVmEvent::CircuitBreakerTripped { epoch_volume: 1_000_000, max_epoch_volume: 500_000 };
    let encoded = cb_event.encode();
    let decoded = CrossVmEvent::decode(&mut &encoded[..]).unwrap();
    assert_eq!(decoded, cb_event);
}

#[test]
fn test_two_phase_commit_phase_encode_decode() {
    for phase in [TwoPhaseCommitPhase::Init, TwoPhaseCommitPhase::Prepared, TwoPhaseCommitPhase::Committed, TwoPhaseCommitPhase::Aborted(b"fail".to_vec())] {
        let encoded = phase.encode();
        let decoded = TwoPhaseCommitPhase::decode(&mut &encoded[..]).unwrap();
        assert_eq!(decoded, phase);
    }
}

#[test]
fn event_encoding_layout_is_scale() {
    let e = CrossVmEvent::CommitCompleted { nonce: 1, total_gas_used: 2 };
    assert_eq!(e.encode(), vec![5, 1, 0, 0, 0, 0, 0, 0, 0, 2, 0, 0, 0, 0, 0, 0, 0]);
    let a = CrossVmEvent::Aborted { nonce: 0, reason: vec![9; 3] };
    assert_eq!(a.encode(), vec![6, 0, 0, 0, 0, 0, 0, 0, 0, 12, 9, 9, 9]);
    let long = CrossVmEvent::TransferFailed { operation_id: 7, reason: vec![1; 300] };
    let bytes = long.encode();
    assert_eq!(&bytes[9..11], &[0xb1, 0x04]);
    assert_eq!(bytes.len(), 1 + 8 + 2 + 300);
}

#[test]
fn decoding_leaves_the_rest_and_rejects_bad_input() {
    let mut bytes = CrossVmEvent::TransferCompleted { operation_id: 3, gas_used: 4 }.encode();
    bytes.extend_from_slice(&[0xAA, 0xBB]);
    let mut input: &[u8] = &bytes[..];
    let e = CrossVmEvent::decode(&mut input).unwrap();
    assert_eq!(e, CrossVmEvent::TransferCompleted { operation_id: 3, gas_used: 4 });
    assert_eq!(input, &[0xAA, 0xBB]);
    let unknown = [9u8, 0, 0];
    assert!(CrossVmEvent::decode(&mut &unknown[..]).is_err());
    let short = [1u8, 0, 0];
    assert!(CrossVmEvent::decode(&mut &short[..]).is_err());
    // A length of 1 written in the two-byte form is not the shortest form.
    let noncanonical = [3u8, 0x05, 0x00, 0xFF];
    assert!(TwoPhaseCommitPhase::decode(&mut &noncanonical[..]).is_err());
}

#[test]
fn test_prepared_operation_encode_decode() {
    let prep = PreparedOperation {
        nonce: 1,
        operation: CrossVmOperation::TransferToEvm { source: vec![1; 32], destination: [2u8; 20], amount: 100 },
        phase: TwoPhaseCommitPhase::Prepared,
        evm_gas_reserved: 25_000,
        svm_compute_reserved: 5_000,
        source_lock_receipt: b"SVM_LOCK".to_vec(),
        dest_lock_receipt: b"DEST_OK".to_vec(),
    };
    let encoded = prep.encode();
    let decoded = PreparedOperation::decode(&mut &encoded[..]).unwrap();
    assert_eq!(decoded.nonce, 1);
    assert_eq!(decoded.phase, TwoPhaseCommitPhase::Prepared);
}

#[test]
fn every_operation_kind_round_trips() {
    let ops = vec![
        CrossVmOperation::TransferToEvm { source: vec![1; 32], destination: [2u8; 20], amount: 100 },
        CrossVmOperation::TransferToSvm { source: [3u8; 20], destination: vec![4; 32], amount: u128::MAX },
        CrossVmOperation::CallEvm { caller: vec![5; 32], contract: [6u8; 20], input: vec![7; 70], value: 9 },
        CrossVmOperation::CallSvm { caller: [8u8; 20], pallet_index: 1, call_index: 2, input: vec![] },
        CrossVmOperation::AtomicSwap {
            evm_party: [9u8; 20],
            svm_party: vec![10; 32],
            evm_asset: [11u8; 20],
            svm_asset: vec![12; 32],
            evm_amount: 13,
            svm_amount: 14,
        },
        CrossVmOperation::MessageToEvm { sender: vec![15; 32], target_contract: [16u8; 20], message: b"m".to_vec(), nonce: 17 },
        CrossVmOperation::MessageToSvm { sender: [18u8; 20], target_program: vec![19; 32], message: vec![0; 20_000], nonce: 20 },
    ];
    for op in ops {
        let mut bytes = op.encode();
        bytes.push(0xEE);
        let mut input: &[u8] = &bytes[..];
        let back = CrossVmOperation::decode(&mut input).unwrap();
        assert_eq!(back, op);
        assert_eq!(input, &[0xEE]);
        let prep = PreparedOperation {
            nonce: 77,
            operation: op.clone(),
            phase: TwoPhaseCommitPhase::Aborted(b"why".to_vec()),
            evm_gas_reserved: 1,
            svm_compute_reserved: 2,
            source_lock_receipt: vec![],
            dest_lock_receipt: vec![3; 65],
        };
        let enc = prep.encode();
        let dec = PreparedOperation::decode(&mut &enc[..]).unwrap();
        assert_eq!(dec.operation, op);
        assert_eq!(dec.phase, TwoPhaseCommitPhase::Aborted(b"why".to_vec()));
        assert_eq!(dec.dest_lock_receipt, vec![3; 65]);
    }
}

/// Records every request and fails the `fail_at`-th one (counting from 0).
struct RecordingDispatcher {
    log: RefCell<Vec<(&'static str, Vec<u8>, Vec<u8>, Vec<u8>, u128)>>,
    fail_at: Option<usize>,
    balances: (u128, u64),
}

impl RecordingDispatcher {
    fn new(fail_at: Option<usize>) -> Self {
        RecordingDispatcher { log: RefCell::new(Vec::new()), fail_at, balances: (u128::MAX, u64::MAX) }
    }

    fn answer(&self) -> Result<CrossVmResult, DispatchError> {
        let n = self.log.borrow().len() - 1;
        if self.fail_at == Some(n) {
            Err(DispatchError::Other("refused"))
        } else {
            Ok(CrossVmResult::success(vec![n as u8], 1_000 + n as u64))
        }
    }
}

impl CrossVmDispatcher for RecordingDispatcher {
    fn execute_evm_tx(&self, caller: &[u8; 20], target: &[u8; 20], input: &[u8], value: u128) -> Result<CrossVmResult, DispatchError> {
        self.log.borrow_mut().push(("evm", caller.to_vec(), target.to_vec(), input.to_vec(), value));
        self.answer()
    }

    fn execute_svm_tx(&self, caller: &[u8; 32], program_id: &[u8; 32], input: &[u8]) -> Result<CrossVmResult, DispatchError> {
        self.log.borrow_mut().push(("svm", caller.to_vec(), program_id.to_vec(), input.to_vec(), 0));
        self.answer()
    }

    fn get_evm_balance(&self, _address: &[u8; 20]) -> u128 {
        self.balances.0
    }

    fn get_svm_balance(&self, _pubkey: &[u8; 32]) -> u64 {
        self.balances.1
    }
}

fn tagged(tag: &str, amount: u128) -> Vec<u8> {
    let mut v = tag.as_bytes().to_vec();
    v.extend_from_slice(&amount.to_le_bytes());
    v
}

fn swap_op() -> CrossVmOperation {
    CrossVmOperation::AtomicSwap {
        evm_party: [0xAA; 20],
        svm_party: vec![0xBB; 32],
        evm_asset: [0u8; 20],
        svm_asset: vec![0u8; 32],
        evm_amount: 1000,
        svm_amount: 2000,
    }
}

#[test]
fn swap_legs_are_sent_in_order_and_commit_gas_is_reported() {
    let d = RecordingDispatcher::new(None);
    let mut bridge = CrossVmBridge::new();
    bridge.queue_operation(swap_op()).unwrap();
    let (results, _) = bridge.execute_with_dispatcher(&d).unwrap();
    let log = d.log.borrow();
    let legs: Vec<(&str, Vec<u8>, Vec<u8>, Vec<u8>, u128)> = log.clone();
    assert_eq!(legs.len(), 4);
    assert_eq!(legs[0], ("evm", vec![0xAA; 20], vec![0; 20], tagged("LOCK_EVM_SWAP:", 1000), 1000));
    assert_eq!(legs[1], ("svm", vec![0xBB; 32], vec![0; 32], tagged("LOCK_SVM_SWAP:", 2000), 0));
    assert_eq!(legs[2], ("evm", vec![0; 20], vec![0xAA; 20], tagged("COMMIT_EVM_SWAP:", 1000), 1000));
    assert_eq!(legs[3], ("svm", vec![0xBB; 32], vec![0; 32], tagged("COMMIT_SVM_SWAP:", 2000), 0));
    assert_eq!(results.len(), 1);
    // the two commit legs' gas: 1002 + 1003
    assert_eq!(results[0].gas_used, 2005);
    assert!(results[0].output.is_empty());
}

#[test]
fn failed_svm_commit_refunds_the_escrow() {
    let d = RecordingDispatcher::new(Some(3));
    let mut bridge = CrossVmBridge::new();
    bridge.queue_operation(swap_op()).unwrap();
    let (results, _) = bridge.execute_with_dispatcher(&d).unwrap();
    let log = d.log.borrow();
    assert_eq!(log.len(), 5);
    assert_eq!(log[4], ("evm", vec![0; 20], vec![0xAA; 20], tagged("REFUND_EVM_SWAP:", 1000), 1000));
    assert!(results.is_empty());
    assert_eq!(bridge.failed_count(), 1);
}

#[test]
fn failed_evm_escrow_sends_nothing_more() {
    let d = RecordingDispatcher::new(Some(0));
    let mut bridge = CrossVmBridge::new();
    bridge.queue_operation(swap_op()).unwrap();
    bridge.execute_with_dispatcher(&d).unwrap();
    assert_eq!(d.log.borrow().len(), 1);
    assert_eq!(bridge.failed_count(), 1);
}

#[test]
fn pallet_call_request_encodes_pallet_call_and_payload() {
    let d = RecordingDispatcher::new(None);
    let mut bridge = CrossVmBridge::new();
    bridge.queue_operation(CrossVmOperation::CallSvm { caller: [0xDD; 20], pallet_index: 1, call_index: 2, input: vec![7, 8] }).unwrap();
    let (results, _) = bridge.execute_with_dispatcher(&d).unwrap();
    let log = d.log.borrow();
    let mut caller = vec![0u8; 12];
    caller.extend_from_slice(&[0xDD; 20]);
    assert_eq!(log.len(), 1);
    assert_eq!(log[0], ("svm", caller, vec![0; 32], vec![1, 2, 7, 8], 0));
    assert_eq!(results[0].output, vec![0]);
    assert_eq!(results[0].gas_used, 1_000);
}

#[test]
fn refused_lock_aborts_the_batch_without_change() {
    let mut d = RecordingDispatcher::new(None);
    d.balances = (500, 0);
    let mut bridge = CrossVmBridge::new();
    bridge.queue_operation(CrossVmOperation::CallEvm { caller: vec![1; 32], contract: [2; 20], input: vec![], value: 0 }).unwrap();
    bridge.queue_operation(CrossVmOperation::TransferToSvm { source: [3; 20], destination: vec![4; 32], amount: 600 }).unwrap();
    let before = bridge.peek_nonce();
    let (nonces, events) = bridge.prepare(&d).unwrap();
    assert!(nonces.is_empty());
    assert_eq!(bridge.prepared_count(), 0);
    assert_eq!(bridge.peek_nonce(), before);
    assert_eq!(bridge.pending_count(), 2);
    // PrepareCompleted for the call, its abort, and the refused lock's abort
    assert_eq!(events.len(), 3);
    // with enough balance the same batch prepares under consecutive nonces
    d.balances = (600, 0);
    let (nonces, _) = bridge.prepare(&d).unwrap();
    assert_eq!(nonces, vec![before, before + 1]);
    assert_eq!(bridge.prepared_count(), 2);
}

#[test]
fn lock_decision_compares_the_paying_balances() {
    let to_evm = CrossVmOperation::TransferToEvm { source: vec![1; 32], destination: [2; 20], amount: 100 };
    assert!(lock_decision(&to_evm, 0, 100));
    assert!(!lock_decision(&to_evm, u128::MAX, 99));
    let to_svm = CrossVmOperation::TransferToSvm { source: [1; 20], destination: vec![2; 32], amount: 100 };
    assert!(lock_decision(&to_svm, 100, 0));
    assert!(!lock_decision(&to_svm, 99, u64::MAX));
    assert!(lock_decision(&swap_op(), 1000, 2000));
    assert!(!lock_decision(&swap_op(), 999, 2000));
    assert!(!lock_decision(&swap_op(), 1000, 1999));
    let call = CrossVmOperation::CallEvm { caller: vec![1; 32], contract: [2; 20], input: vec![], value: 5 };
    assert!(lock_decision(&call, 0, 0));
}

#[test]
fn atomic_execute_aborts_the_whole_batch_when_a_commit_fails() {
    // the second operation's single request (request 1) is refused
    let d = RecordingDispatcher::new(Some(1));
    let mut bridge = CrossVmBridge::new();
    let call = |c: u8| CrossVmOperation::CallEvm { caller: vec![c; 32], contract: [2; 20], input: vec![], value: 0 };
    bridge.queue_operation(call(1)).unwrap();
    bridge.queue_operation(call(3)).unwrap();
    let first_nonce = bridge.peek_nonce();
    let completed_before = bridge.completed_count();
    let (results, events) = bridge.atomic_execute(&d).unwrap();
    assert!(results.is_empty());
    assert_eq!(bridge.completed_count(), completed_before);
    assert_eq!(bridge.failed_count(), 2);
    assert_eq!(bridge.prepared_count(), 0);
    assert!(!events.iter().any(|e| matches!(e, CrossVmEvent::CommitCompleted { .. })));
    let aborted: Vec<u64> = events
        .iter()
        .filter_map(|e| match e {
            CrossVmEvent::Aborted { nonce, .. } => Some(*nonce),
            _ => None,
        })
        .collect();
    assert_eq!(aborted, vec![first_nonce, first_nonce + 1]);
    match &events[events.len() - 2] {
        CrossVmEvent::Aborted { reason, .. } => assert_eq!(reason, &b"Batch commit failed - peer commit rejected".to_vec()),
        _ => panic!("expected an abort"),
    }
}

#[test]
fn atomic_execute_commits_when_every_commit_succeeds() {
    let d = RecordingDispatcher::new(None);
    let mut bridge = CrossVmBridge::new();
    bridge.queue_operation(CrossVmOperation::CallEvm { caller: vec![1; 32], contract: [2; 20], input: vec![], value: 0 }).unwrap();
    bridge.queue_operation(CrossVmOperation::CallEvm { caller: vec![3; 32], contract: [2; 20], input: vec![], value: 0 }).unwrap();
    let (results, events) = bridge.atomic_execute(&d).unwrap();
    assert_eq!(results.len(), 2);
    assert_eq!(bridge.completed_count(), 2);
    assert_eq!(events.iter().filter(|e| matches!(e, CrossVmEvent::CommitCompleted { .. })).count(), 2);
}

#[test]
fn prepare_traced_refuses_exactly_on_a_short_balance() {
    let mut d = RecordingDispatcher::new(None);
    d.balances = (599, 0);
    let mut bridge = CrossVmBridge::new();
    bridge.queue_operation(CrossVmOperation::TransferToSvm { source: [3; 20], destination: vec![4; 32], amount: 600 }).unwrap();
    let (r, _reads) = bridge.prepare_traced(&d);
    assert!(r.unwrap().0.is_empty());
    d.balances = (600, 0);
    let (r, _reads) = bridge.prepare_traced(&d);
    assert_eq!(r.unwrap().0.len(), 1);
}
