use atlas_sphere::court::{AgentIdentity, ChainComparison, Court, CourtConfig, CourtError, DisputeId, DisputeState, DisputeType, VerdictOutcome};
use atlas_sphere::fees::{CommitRevealProof, EconomicEngine, Eip1559FeeMarket, SlashingInsuranceFund};
use atlas_sphere::hotstuff::{apply_block, Block, BlockError, BlockHeader, ChainState, QC};

#[test]
fn test_eip1559_fee_adjustment() {
    let mut market = Eip1559FeeMarket::new(1000);
    let initial = market.base_fee;
    market.adjust_base_fee_percent(75);
    assert!(market.base_fee > initial);
    market.adjust_base_fee_percent(25);
    assert!(market.base_fee < initial);
}

#[test]
fn fee_adjustment_moves_by_one_eighth() {
    let mut market = Eip1559FeeMarket::new(1000);
    market.adjust_base_fee_percent(75);
    assert_eq!(market.base_fee, 1125);
    market.adjust_base_fee_percent(50);
    assert_eq!(market.base_fee, 1125);
    market.adjust_base_fee_percent(10);
    assert_eq!(market.base_fee, 985);
}

#[test]
fn test_fee_split() {
    let market = Eip1559FeeMarket::new(1000);
    let (burned, validator) = market.split_fee(1000);
    assert_eq!(burned, 700);
    assert_eq!(validator, 300);
}

#[test]
fn fee_split_rounds_the_burn_down() {
    let market = Eip1559FeeMarket::new(1);
    assert_eq!(market.split_fee(7), (4, 3));
    assert_eq!(market.split_fee(0), (0, 0));
}

#[test]
fn test_commit_reveal_proof() {
    let tx_data = b"transaction_payload".to_vec();
    let proof = CommitRevealProof::new(tx_data.clone(), vec![]);
    assert!(proof.verify());
    let mut bad_proof = proof.clone();
    bad_proof.tx_data[0] = 99;
    assert!(!bad_proof.verify());
}

#[test]
fn test_slashing_insurance_fund() {
    let mut fund = SlashingInsuranceFund::new();
    fund.contribute_from_slash(1000);
    assert_eq!(fund.pool_balance, 50);
    fund.file_claim("claim-1".to_string(), 30);
    assert!(fund.process_claim("claim-1", true));
    assert_eq!(fund.pool_balance, 20);
}

#[test]
fn test_economic_engine_integration() {
    let mut engine = EconomicEngine::new(100);
    let (burned, validator) = engine.process_transaction_percent(b"tx".to_vec(), 60);
    assert_eq!(burned, 70);
    assert_eq!(validator, 30);
    engine.slash_validator(1000);
    assert_eq!(engine.insurance_fund.pool_balance, 50);
    assert!(engine.total_fees_collected > 0);
    assert!(engine.total_burned > 0);
}

#[test]
fn test_deny_claim_insufficient_funds() {
    let mut fund = SlashingInsuranceFund::new();
    fund.file_claim("claim-100k".to_string(), 100000);
    assert!(!fund.process_claim("claim-100k", true));
}

#[test]
fn rejected_or_unknown_claims_pay_nothing() {
    let mut fund = SlashingInsuranceFund::new();
    fund.contribute_from_slash(10_000);
    fund.file_claim("c".to_string(), 10);
    assert!(!fund.process_claim("c", false));
    assert!(!fund.process_claim("missing", true));
    assert_eq!(fund.pool_balance, 500);
}

fn test_agent() -> AgentIdentity {
    AgentIdentity { pubkey: [7u8; 32], ephemeral: false }
}

#[test]
fn test_matching_chains_not_guilty() {
    let mut court = Court::new(CourtConfig::default());
    let id = court.file_dispute(DisputeType::ExecutionDivergence { proof_chain_hash: [0xAA; 32] }, test_agent(), 100).unwrap();
    let verdict = court.adjudicate(id, true, ChainComparison::Matched { chain_hash: [0xAA; 32] }, 105).unwrap();
    assert_eq!(verdict.outcome, VerdictOutcome::NotGuilty);
    assert_eq!(verdict.replay_proof_hash, Some([0xAA; 32]));
}

#[test]
fn test_divergent_chains_guilty() {
    let mut court = Court::new(CourtConfig::default());
    let id = court.file_dispute(DisputeType::ExecutionDivergence { proof_chain_hash: [0xAA; 32] }, test_agent(), 100).unwrap();
    let verdict = court.adjudicate(id, true, ChainComparison::Diverged { replay_hash: [0xBB; 32] }, 105).unwrap();
    assert_eq!(verdict.outcome, VerdictOutcome::Guilty);
}

#[test]
fn invalid_disputed_chain_is_guilty() {
    let mut court = Court::new(CourtConfig::default());
    let id = court.file_dispute(DisputeType::InvalidProof { proof_hash: [1; 32] }, test_agent(), 0).unwrap();
    let verdict = court.adjudicate(id, false, ChainComparison::Matched { chain_hash: [0; 32] }, 1).unwrap();
    assert_eq!(verdict.outcome, VerdictOutcome::Guilty);
    assert_eq!(verdict.replay_proof_hash, None);
}

#[test]
fn a_resolved_dispute_cannot_be_adjudicated_again() {
    let mut court = Court::new(CourtConfig::default());
    let id = court.file_dispute(DisputeType::InvalidProof { proof_hash: [1; 32] }, test_agent(), 0).unwrap();
    court.adjudicate(id, true, ChainComparison::Matched { chain_hash: [0; 32] }, 1).unwrap();
    let again = court.adjudicate(id, false, ChainComparison::Matched { chain_hash: [0; 32] }, 2);
    assert!(matches!(again, Err(CourtError::DisputeNotFileable(_))));
    assert!(matches!(court.adjudicate(DisputeId(9), true, ChainComparison::Matched { chain_hash: [0; 32] }, 2), Err(CourtError::DisputeNotFound(_))));
}

#[test]
fn late_adjudication_dismisses_the_dispute() {
    let mut court = Court::new(CourtConfig::default());
    let id = court.file_dispute(DisputeType::InvalidProof { proof_hash: [1; 32] }, test_agent(), 10).unwrap();
    let r = court.adjudicate(id, true, ChainComparison::Matched { chain_hash: [0; 32] }, 111);
    assert!(matches!(r, Err(CourtError::DeadlineExceeded(_))));
    assert_eq!(court.docket().get(id).unwrap().state, DisputeState::Dismissed);
}

#[test]
fn timeouts_dismiss_only_overdue_filed_disputes() {
    let mut court = Court::new(CourtConfig::default());
    let a = court.file_dispute(DisputeType::InvalidProof { proof_hash: [1; 32] }, test_agent(), 0).unwrap();
    let b = court.file_dispute(DisputeType::InvalidProof { proof_hash: [2; 32] }, test_agent(), 50).unwrap();
    let ids = court.process_timeouts(120);
    assert_eq!(ids, vec![a]);
    assert_eq!(court.docket().get(a).unwrap().state, DisputeState::Dismissed);
    assert_eq!(court.docket().get(b).unwrap().state, DisputeState::Filed);
}

#[test]
fn double_execution_needs_two_chains() {
    let mut court = Court::new(CourtConfig::default());
    let id = court
        .file_dispute(DisputeType::DoubleExecution { intent_id: [3; 32], first_proof: [4; 32], second_proof: [5; 32] }, test_agent(), 0)
        .unwrap();
    let v = court.adjudicate_double_execution(id, 2, 0, 5).unwrap();
    assert_eq!(v.outcome, VerdictOutcome::NotGuilty);
    let id2 = court
        .file_dispute(DisputeType::DoubleExecution { intent_id: [3; 32], first_proof: [4; 32], second_proof: [5; 32] }, test_agent(), 0)
        .unwrap();
    let v2 = court.adjudicate_double_execution(id2, 2, 3, 5).unwrap();
    assert_eq!(v2.outcome, VerdictOutcome::Guilty);
    assert_eq!(court.config().finality_window, 100);
}

#[test]
fn double_execution_verdict_is_final() {
    let mut court = Court::new(CourtConfig::default());
    let id = court
        .file_dispute(DisputeType::DoubleExecution { intent_id: [3; 32], first_proof: [4; 32], second_proof: [5; 32] }, test_agent(), 0)
        .unwrap();
    let v = court.adjudicate_double_execution(id, 0, 0, 5).unwrap();
    assert_eq!(v.outcome, VerdictOutcome::NotGuilty);
    let again = court.adjudicate_double_execution(id, 2, 3, 6);
    assert!(matches!(again, Err(CourtError::DisputeNotFileable(x)) if x == id));
    let d = court.docket().get(id).unwrap();
    assert_eq!(d.state, DisputeState::Resolved);
    assert_eq!(d.verdict.as_ref().unwrap().outcome, VerdictOutcome::NotGuilty);
    assert_eq!(d.verdict.as_ref().unwrap().rendered_at, 5);
}

fn block_on(parent: [u8; 32], post: [u8; 32]) -> Block {
    Block {
        header: BlockHeader {
            parent_hash: parent,
            height: 1,
            round: 0,
            timestamp: 0,
            validator_set_hash: [0; 32],
            qc: QC { view: 0, block_hash: [0; 32], signatures: vec![] },
            proposer: [0; 32],
        },
        actions: vec![],
        action_dag_root: [0; 32],
        execution_order_hash: [0; 32],
        state_root_pre: [0; 32],
        state_root_post: post,
        receipts_root: [0; 32],
        slashing_events: vec![],
    }
}

#[test]
fn apply_block_checks_parent_and_post_state() {
    let state = ChainState { last_block: [1; 32], state_root: [9; 32] };
    let ok = apply_block(&state, &block_on([1; 32], [9; 32]));
    let next = match ok {
        Ok(s) => s,
        Err(_) => panic!("block on the right parent with the right post state applies"),
    };
    assert_eq!(next.state_root(), [9; 32]);
    assert!(matches!(apply_block(&state, &block_on([2; 32], [9; 32])), Err(BlockError::InvalidParent)));
    assert!(matches!(apply_block(&state, &block_on([1; 32], [8; 32])), Err(BlockError::StateMismatch)));
}
