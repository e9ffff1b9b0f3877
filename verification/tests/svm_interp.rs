use atlas_sphere::svm::{alu64, dispatch_syscall, execute_bpf, validate_program, SvmConfig, SvmError, NREG};

fn default_config() -> SvmConfig {
    SvmConfig::default()
}

/// `r0 = imm; exit`
fn prog_return(val: i32) -> Vec<u8> {
    let mut p = Vec::new();
    p.extend_from_slice(&[0xb7, 0x00, 0x00, 0x00]);
    p.extend_from_slice(&val.to_le_bytes());
    p.extend_from_slice(&[0x95, 0x00, 0x00, 0x00, 0x00, 0x00, 0x00, 0x00]);
    p
}

#[test]
fn test_return_zero_is_success() {
    let prog = prog_return(0);
    let res = execute_bpf(&prog, &[], &default_config()).unwrap();
    assert!(res.success, "r0=0 should be success");
}

#[test]
fn test_return_nonzero_is_failure() {
    let prog = prog_return(1);
    let res = execute_bpf(&prog, &[], &default_config()).unwrap();
    assert!(!res.success, "r0=1 should be failure");
}

#[test]
fn test_alu_add() {
    let mut p = Vec::new();
    p.extend_from_slice(&[0xb7, 0x00, 0x00, 0x00, 0x03, 0x00, 0x00, 0x00]);
    p.extend_from_slice(&[0x07, 0x00, 0x00, 0x00, 0x04, 0x00, 0x00, 0x00]);
    p.extend_from_slice(&[0x95, 0x00, 0x00, 0x00, 0x00, 0x00, 0x00, 0x00]);
    let res = execute_bpf(&p, &[], &default_config()).unwrap();
    let r0 = u64::from_le_bytes(res.output.as_slice().try_into().unwrap_or([0; 8]));
    assert_eq!(r0, 7);
}

#[test]
fn test_compute_unit_enforcement() {
    let mut p = Vec::new();
    p.extend_from_slice(&[0xb7, 0x00, 0x00, 0x00, 0x00, 0x00, 0x00, 0x00]);
    p.extend_from_slice(&[0x05, 0x00, 0xff, 0xff, 0x00, 0x00, 0x00, 0x00]);
    let mut cfg = default_config();
    cfg.compute_unit_limit = 10;
    let res = execute_bpf(&p, &[], &cfg);
    assert!(matches!(res, Err(SvmError::OutOfComputeUnits)));
}

#[test]
fn test_validate_valid_prog() {
    let prog = prog_return(0);
    assert!(validate_program(&prog).is_ok());
}

#[test]
fn test_validate_empty_fails() {
    assert_eq!(validate_program(&[]), Err(SvmError::InvalidPayload));
}

#[test]
fn test_validate_odd_size_fails() {
    assert_eq!(validate_program(&[0x95, 0x00, 0x00]), Err(SvmError::InvalidPayload));
}

#[test]
fn test_cpi_syscall_not_implemented_returns_error_code() {
    let regs = [0u64; NREG];
    let cpi_c = dispatch_syscall(0xcb228b32, &regs, &[]);
    let cpi_rust = dispatch_syscall(0xd7449092, &regs, &[]);
    assert_ne!(cpi_c, 0);
    assert_ne!(cpi_rust, 0);
}

#[test]
fn other_syscalls_answer_zero() {
    let regs = [0u64; NREG];
    assert_eq!(dispatch_syscall(0x207559bd, &regs, &[]), 0);
    assert_eq!(dispatch_syscall(0x686093bb, &regs, &[]), 1);
}

#[test]
fn empty_payload_is_invalid_for_execution() {
    assert!(matches!(execute_bpf(&[], &[], &default_config()), Err(SvmError::InvalidPayload)));
}

#[test]
fn alu64_division_by_zero_fails() {
    // Operation 0x3 is division, 0x0 wrapping addition.
    assert!(alu64(0x3, 10, 0).is_err());
    assert_eq!(alu64(0x3, 10, 3).unwrap(), 3);
    assert_eq!(alu64(0x0, u64::MAX, 2).unwrap(), 1);
}

#[test]
fn output_is_the_little_endian_r0() {
    let res = execute_bpf(&prog_return(0x0102), &[], &default_config()).unwrap();
    assert_eq!(res.output, vec![0x02, 0x01, 0, 0, 0, 0, 0, 0]);
}

#[test]
fn loads_through_r1_read_the_input() {
    // ldxb r0, [r1 + 1]; exit
    let prog = vec![0x71, 0x10, 0x01, 0x00, 0, 0, 0, 0, 0x95, 0, 0, 0, 0, 0, 0, 0];
    let res = execute_bpf(&prog, &[5, 42, 9], &default_config()).unwrap();
    assert_eq!(res.output, 42u64.to_le_bytes().to_vec());
    assert!(!res.success);
    // mov r0, r2 (the input length); exit
    let prog = vec![0xbf, 0x20, 0, 0, 0, 0, 0, 0, 0x95, 0, 0, 0, 0, 0, 0, 0];
    let res = execute_bpf(&prog, &[5, 42, 9], &default_config()).unwrap();
    assert_eq!(res.output, 3u64.to_le_bytes().to_vec());
    // mov r0, r1: the input region starts at address 4096
    let prog = vec![0xbf, 0x10, 0, 0, 0, 0, 0, 0, 0x95, 0, 0, 0, 0, 0, 0, 0];
    let res = execute_bpf(&prog, &[1], &default_config()).unwrap();
    assert_eq!(res.output, 4096u64.to_le_bytes().to_vec());
}
