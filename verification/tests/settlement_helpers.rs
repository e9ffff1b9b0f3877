use atlas_sphere::cross_vm::{settle_swap_commit, CrossVmResult, DispatchError};
use atlas_sphere::persistence::present_values;

#[test]
fn swap_commit_settles_on_the_svm_leg() {
    let evm = CrossVmResult::success(vec![9], 21_000);
    let ok = settle_swap_commit(&evm, Ok(CrossVmResult::success(vec![1], 5_000))).unwrap();
    assert!(ok.success);
    assert!(ok.output.is_empty());
    assert_eq!(ok.gas_used, 26_000);
    match settle_swap_commit(&evm, Err(DispatchError::Other("svm down"))) {
        Err(DispatchError::Other(m)) => assert_eq!(m, "svm down"),
        Ok(_) => panic!("the failed leg must fail the swap"),
    }
    let big = CrossVmResult::success(vec![], u64::MAX);
    assert_eq!(settle_swap_commit(&big, Ok(CrossVmResult::success(vec![], 1))).unwrap().gas_used, u64::MAX);
}

#[test]
fn only_found_values_are_kept() {
    let found = vec![Some(vec![1u8]), None, Some(vec![]), None, Some(vec![2, 3])];
    assert_eq!(present_values(&found), vec![vec![1u8], vec![], vec![2, 3]]);
    assert!(present_values(&vec![]).is_empty());
}
