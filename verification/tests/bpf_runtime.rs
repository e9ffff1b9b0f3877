use atlas_sphere::bpf_runtime::{
    compute_state_root, create_test_program, finish_bpf_run, serialize_accounts, writable_updates, AtlasSyscallContext, ProgramOutcome,
};
use atlas_sphere::svm::{AccountUpdate, SvmAccountMeta, SvmError};
use blake2::Digest;

fn blake2_256(data: &[u8]) -> [u8; 32] {
    let out = blake2::Blake2b::<blake2::digest::consts::U32>::digest(data);
    let mut h = [0u8; 32];
    h.copy_from_slice(&out);
    h
}

fn account(key: u8, signer: bool, writable: bool, lamports: u64, data: Vec<u8>) -> (SvmAccountMeta, AccountUpdate) {
    (SvmAccountMeta { pubkey: [key; 32], is_signer: signer, is_writable: writable }, AccountUpdate { lamports, data })
}

#[test]
fn accounts_serialize_in_the_documented_layout() {
    let accounts = vec![account(1, true, false, 0x0102, vec![9, 8]), account(2, false, true, 5, vec![])];
    let buf = serialize_accounts(&accounts);
    let mut expected = vec![2, 0, 0, 0];
    expected.extend_from_slice(&[1u8; 32]);
    expected.extend_from_slice(&0x0102u64.to_le_bytes());
    expected.extend_from_slice(&[1, 0]);
    expected.extend_from_slice(&2u32.to_le_bytes());
    expected.extend_from_slice(&[9, 8]);
    expected.extend_from_slice(&[2u8; 32]);
    expected.extend_from_slice(&5u64.to_le_bytes());
    expected.extend_from_slice(&[0, 1]);
    expected.extend_from_slice(&0u32.to_le_bytes());
    assert_eq!(buf, expected);
    assert_eq!(serialize_accounts(&vec![]), vec![0, 0, 0, 0]);
}

#[test]
fn only_writable_updates_are_surfaced() {
    let accounts = vec![account(1, true, false, 1, vec![1]), account(2, false, true, 2, vec![2]), account(3, false, true, 3, vec![])];
    let ups = writable_updates(&accounts);
    assert_eq!(ups, vec![AccountUpdate { lamports: 2, data: vec![2] }, AccountUpdate { lamports: 3, data: vec![] }]);
}

#[test]
fn metering_saturates() {
    let mut c = AtlasSyscallContext::new(10);
    c.consume(4);
    assert_eq!((c.compute_units_used, c.get_remaining()), (4, 6));
    c.consume(100);
    assert_eq!((c.compute_units_used, c.get_remaining()), (104, 0));
    c.consume(u64::MAX);
    assert_eq!(c.compute_units_used, u64::MAX);
}

#[test]
fn state_root_covers_logs_and_output() {
    assert_eq!(compute_state_root(&vec![], &[]), [0u8; 32]);
    assert_eq!(compute_state_root(&vec![vec![1, 2], vec![3]], &[4]), blake2_256(&[1, 2, 3, 4]));
}

#[test]
fn runs_settle_by_return_value_and_budget() {
    let mut c = AtlasSyscallContext::new(100);
    let r = finish_bpf_run(&mut c, 2, 100, ProgramOutcome::Returned(0)).unwrap();
    assert!(r.success);
    assert_eq!(r.output, vec![0]);
    assert_eq!(r.compute_units_used, 2);
    assert_eq!(r.state_root, blake2_256(&[0]));
    let mut c = AtlasSyscallContext::new(100);
    let r = finish_bpf_run(&mut c, 2, 100, ProgramOutcome::Returned(0x1_05)).unwrap();
    assert!(!r.success);
    assert_eq!(r.output, vec![5]);
    let mut c = AtlasSyscallContext::new(100);
    let r = finish_bpf_run(&mut c, 2, 100, ProgramOutcome::Faulted).unwrap();
    assert!(!r.success);
    assert!(r.output.is_empty());
    assert_eq!(r.state_root, [0u8; 32]);
    let mut c = AtlasSyscallContext::new(100);
    assert_eq!(finish_bpf_run(&mut c, 100, 100, ProgramOutcome::Returned(0)).err(), Some(SvmError::OutOfComputeUnits));
}

#[test]
fn test_program_returns_zero() {
    let p = create_test_program();
    assert_eq!(p.len(), 16);
    assert_eq!(p[0], 0xb7);
    assert_eq!(p[8], 0x95);
}
