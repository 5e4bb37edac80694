use commitment_core::engine::{AttestationEngineContract, FeeEntry, HealthMetrics};
use commitment_core::ledger::has_violations;
use commitment_core::types::{Commitment, CommitmentError, CommitmentRules, Status};

fn rules(duration_days: u32, max_loss_percent: u32, min_fee_threshold: i128) -> CommitmentRules {
    CommitmentRules {
        duration_days,
        max_loss_percent,
        commitment_type: String::from("balanced"),
        early_exit_penalty: 10,
        min_fee_threshold,
    }
}

fn store_core_commitment(
    commitment_id: u64,
    owner: &str,
    amount: i128,
    current_value: i128,
    max_loss_percent: u32,
    duration_days: u32,
    created_at: u64,
) -> Commitment {
    Commitment {
        commitment_id,
        owner: String::from(owner),
        nft_token_id: 1,
        rules: rules(duration_days, max_loss_percent, 1000),
        amount,
        asset_address: String::from("asset"),
        created_at,
        expires_at: created_at + duration_days as u64 * 86400,
        current_value,
        status: Status::Active,
    }
}

fn setup_test_env() -> (AttestationEngineContract, String) {
    let admin = String::from("admin");
    let engine = AttestationEngineContract::initialize(admin.clone(), String::from("core"));
    (engine, admin)
}

#[test]
fn test_attest() {
    let (mut engine, _admin) = setup_test_env();
    let commitment = Commitment {
        commitment_id: 1,
        owner: String::from("owner"),
        nft_token_id: 1,
        rules: CommitmentRules {
            duration_days: 10,
            max_loss_percent: 20,
            commitment_type: String::from("safe"),
            early_exit_penalty: 0,
            min_fee_threshold: 0,
        },
        amount: 1_000,
        asset_address: String::from("asset"),
        created_at: 0,
        expires_at: 100,
        current_value: 1_000,
        status: Status::Active,
    };
    let passed = engine.attest(
        commitment.commitment_id,
        false,
        String::from("health_check"),
        Vec::new(),
        String::from("verifier"),
        0,
    );
    assert!(passed);
    let atts = engine.get_attestations(commitment.commitment_id);
    assert!(atts.len() == 1);
}

#[test]
fn test_verify_compliance() {
    let now: u64 = 50;
    let (mut engine, admin) = setup_test_env();
    let base_rules = CommitmentRules {
        duration_days: 10,
        max_loss_percent: 20,
        commitment_type: String::from("safe"),
        early_exit_penalty: 0,
        min_fee_threshold: 100,
    };
    let mut commitment = Commitment {
        commitment_id: 1,
        owner: String::from("owner"),
        nft_token_id: 1,
        rules: base_rules.clone(),
        amount: 1_000,
        asset_address: String::from("asset"),
        created_at: 0,
        expires_at: 100,
        current_value: 900,
        status: Status::Active,
    };
    assert_eq!(engine.record_fees(&admin, 1, 100), Ok(()));
    assert!(engine.verify_compliance(&commitment, false, now));

    // Loss limit exceeded
    commitment.current_value = 700;
    assert!(!engine.verify_compliance(&commitment, false, now));

    // Duration expired
    commitment.current_value = 900;
    commitment.expires_at = 40;
    assert!(!engine.verify_compliance(&commitment, false, now));

    // Fee threshold not met: a commitment with no recorded fees
    commitment.expires_at = 100;
    commitment.commitment_id = 2;
    assert!(!engine.verify_compliance(&commitment, false, now));

    // Active violations
    assert!(!engine.verify_compliance(&commitment, true, now));

    // duration_days == 0 bypasses the duration check; amount == 0 gives no drawdown
    let mut commitment3 = Commitment {
        commitment_id: 3,
        owner: String::from("owner"),
        nft_token_id: 3,
        rules: CommitmentRules { duration_days: 0, ..base_rules },
        amount: 0,
        asset_address: String::from("asset"),
        created_at: 0,
        expires_at: 0,
        current_value: 0,
        status: Status::Active,
    };
    assert!(!engine.verify_compliance(&commitment3, false, now));
    commitment3.rules.min_fee_threshold = 0;
    assert!(engine.verify_compliance(&commitment3, false, now));
}

#[test]
fn test_initialize() {
    let (engine, _admin) = setup_test_env();
    let _attestations = engine.get_attestations(7);
}

#[test]
fn test_get_attestations_empty() {
    let (engine, _admin) = setup_test_env();
    let attestations = engine.get_attestations(1);
    assert_eq!(attestations.len(), 0);
}

#[test]
fn test_get_health_metrics_basic() {
    let (engine, _admin) = setup_test_env();
    let c = store_core_commitment(1, "owner", 1000, 950, 10, 30, 1000);
    let metrics = engine.get_health_metrics(&c, has_violations(&c, 0));
    assert_eq!(metrics.commitment_id, 1);
    assert!(metrics.compliance_score <= 100);
}

#[test]
fn test_get_health_metrics_drawdown_calculation() {
    let (engine, _admin) = setup_test_env();
    let c = store_core_commitment(1, "owner", 1000, 900, 10, 30, 1000);
    let metrics = engine.get_health_metrics(&c, has_violations(&c, 0));
    assert_eq!(metrics.drawdown_percent, 10);
}

#[test]
fn test_get_health_metrics_zero_initial_value() {
    let (engine, _admin) = setup_test_env();
    let c = store_core_commitment(1, "owner", 0, 0, 10, 30, 1000);
    let metrics = engine.get_health_metrics(&c, has_violations(&c, 0));
    assert!(metrics.drawdown_percent >= 0);
    assert_eq!(metrics.initial_value, 0);
}

#[test]
fn test_calculate_compliance_score_base() {
    let (engine, _admin) = setup_test_env();
    let c = store_core_commitment(1, "owner", 1000, 950, 10, 30, 1000);
    let score = engine.calculate_compliance_score(&c, has_violations(&c, 0));
    assert!(score <= 100);
}

#[test]
fn test_calculate_compliance_score_clamping() {
    let (engine, _admin) = setup_test_env();
    let c = store_core_commitment(1, "owner", 1000, 950, 10, 30, 1000);
    let score = engine.calculate_compliance_score(&c, has_violations(&c, 0));
    assert!(score <= 100);
}

#[test]
fn test_get_health_metrics_includes_compliance_score() {
    let (engine, _admin) = setup_test_env();
    let c = store_core_commitment(1, "owner", 1000, 950, 10, 30, 1000);
    let metrics = engine.get_health_metrics(&c, has_violations(&c, 0));
    assert!(metrics.compliance_score <= 100);
}

#[test]
fn test_get_health_metrics_last_attestation() {
    let (engine, _admin) = setup_test_env();
    let c = store_core_commitment(1, "owner", 1000, 950, 10, 30, 1000);
    let metrics = engine.get_health_metrics(&c, has_violations(&c, 0));
    assert_eq!(metrics.last_attestation, 0);
}

#[test]
fn test_all_three_functions_work_together() {
    let (engine, _admin) = setup_test_env();
    let c = store_core_commitment(1, "owner", 1000, 950, 10, 30, 1000);
    let violations = has_violations(&c, 0);
    let attestations = engine.get_attestations(1);
    let metrics = engine.get_health_metrics(&c, violations);
    let score = engine.calculate_compliance_score(&c, violations);
    assert_eq!(attestations.len(), 0);
    assert_eq!(metrics.commitment_id, 1);
    assert!(score <= 100);
    assert_eq!(metrics.compliance_score, score);
}

#[test]
fn test_get_attestations_returns_empty_vec_when_none_exist() {
    let (engine, _admin) = setup_test_env();
    let attestations1 = engine.get_attestations(1);
    let attestations2 = engine.get_attestations(2);
    assert_eq!(attestations1.len(), 0);
    assert_eq!(attestations2.len(), 0);
}

#[test]
fn test_health_metrics_structure() {
    let (engine, _admin) = setup_test_env();
    let c = store_core_commitment(1, "owner", 1000, 1000, 10, 30, 1000);
    let metrics = engine.get_health_metrics(&c, has_violations(&c, 0));
    assert_eq!(metrics.commitment_id, 1);
    assert_eq!(metrics.current_value, 1000);
    assert_eq!(metrics.initial_value, 1000);
    assert_eq!(metrics.drawdown_percent, 0);
    assert_eq!(metrics.fees_generated, 0);
    assert_eq!(metrics.volatility_exposure, 0);
    assert_eq!(metrics.last_attestation, 0);
    assert!(metrics.compliance_score <= 100);
}

#[test]
fn test_attest_and_get_metrics() {
    let (mut engine, admin) = setup_test_env();
    let now: u64 = 12345;
    let c = store_core_commitment(5, "owner", 1000, 1000, 10, 30, 1000);
    let data = vec![(String::from("note"), String::from("test attestation"))];
    engine.attest(5, has_violations(&c, now), String::from("general"), data, admin.clone(), now);

    let attestations = engine.get_attestations(5);
    assert_eq!(attestations.len(), 1);
    assert_eq!(attestations[0].attestation_type, "general");

    let metrics = engine.get_health_metrics(&c, has_violations(&c, now));
    assert!(metrics.last_attestation > 0);
}

#[test]
fn test_attest_event() {
    let (mut engine, admin) = setup_test_env();
    let passed = engine.attest(9, false, String::from("health_check"), Vec::new(), admin.clone(), 0);
    let attestations = engine.get_attestations(9);
    assert_eq!(attestations[0].attestation_type, "health_check");
    assert_eq!(attestations[0].verified_by, admin);
    assert_eq!(passed, true);
    assert_eq!(attestations[0].passed, true);
}

#[test]
fn test_record_fees_event() {
    let (mut engine, admin) = setup_test_env();
    let c = store_core_commitment(9, "owner", 1000, 1000, 10, 30, 1000);
    assert_eq!(engine.record_fees(&admin, 9, 100), Ok(()));
    let metrics = engine.get_health_metrics(&c, false);
    assert_eq!(metrics.fees_generated, 100);
}

#[test]
fn test_record_drawdown_event() {
    let (engine, admin) = setup_test_env();
    let c = store_core_commitment(9, "owner", 1000, 1000, 10, 30, 1000);
    assert_eq!(engine.record_drawdown(&admin, &c, 950), Ok(5));
}

#[test]
fn test_calculate_compliance_score_event() {
    let (engine, _admin) = setup_test_env();
    let c = store_core_commitment(9, "owner", 1000, 1000, 10, 30, 1000);
    // No drawdown and no violation, but no fees against a threshold of 1000:
    // only the fee shortfall penalty applies.
    let score = engine.calculate_compliance_score(&c, has_violations(&c, 0));
    assert_eq!(score, 80);
}

// Further cases.

#[test]
fn drawdown_formula_values() {
    let (engine, admin) = setup_test_env();
    let c = store_core_commitment(1, "owner", 1000, 1000, 10, 30, 0);
    assert_eq!(engine.record_drawdown(&admin, &c, 900), Ok(10));
    assert_eq!(engine.record_drawdown(&admin, &c, 700), Ok(30));
    let zero = store_core_commitment(2, "owner", 0, 0, 10, 30, 0);
    assert_eq!(engine.record_drawdown(&admin, &zero, 700), Ok(0));
}

#[test]
fn record_drawdown_rejects_others_and_out_of_range() {
    let (engine, admin) = setup_test_env();
    let c = store_core_commitment(1, "owner", 1000, 1000, 10, 30, 0);
    assert_eq!(
        engine.record_drawdown(&String::from("mallory"), &c, 900),
        Err(CommitmentError::Unauthorized)
    );
    assert_eq!(engine.record_drawdown(&admin, &c, i128::MAX), Err(CommitmentError::InvalidAmount));
}

#[test]
fn verify_compliance_scenario_values() {
    let (mut engine, admin) = setup_test_env();
    let mut c = store_core_commitment(1, "owner", 1000, 900, 20, 10, 0);
    c.rules.min_fee_threshold = 100;
    engine.record_fees(&admin, 1, 100).unwrap();
    let now: u64 = 50;
    assert!(engine.verify_compliance(&c, false, now));
    c.current_value = 700;
    assert!(!engine.verify_compliance(&c, false, now));
    c.current_value = 900;
    assert!(!engine.verify_compliance(&c, false, c.expires_at));
    assert!(!engine.verify_compliance(&c, true, now));
    c.rules.min_fee_threshold = 101;
    assert!(!engine.verify_compliance(&c, false, now));
}

#[test]
fn score_formula_values() {
    let (mut engine, admin) = setup_test_env();
    let mut c = store_core_commitment(1, "owner", 1000, 1000, 10, 30, 0);
    c.rules.min_fee_threshold = 0;
    assert_eq!(engine.calculate_compliance_score(&c, false), 100);
    // 5% drawdown against a 10% ceiling costs half the drawdown weight.
    c.current_value = 950;
    assert_eq!(engine.calculate_compliance_score(&c, false), 75);
    assert_eq!(engine.calculate_compliance_score(&c, true), 45);
    c.rules.min_fee_threshold = 10;
    assert_eq!(engine.calculate_compliance_score(&c, true), 25);
    engine.record_fees(&admin, 1, 10).unwrap();
    assert_eq!(engine.calculate_compliance_score(&c, true), 45);
    // A drawdown far past the ceiling clamps the score at zero.
    c.current_value = 0;
    assert_eq!(engine.calculate_compliance_score(&c, true), 0);
}

#[test]
fn score_is_bounded_for_zero_amount() {
    let (engine, _admin) = setup_test_env();
    let mut c = store_core_commitment(1, "owner", 0, 500, 0, 0, 0);
    c.rules.min_fee_threshold = i128::MIN;
    let score = engine.calculate_compliance_score(&c, false);
    assert_eq!(score, 100);
    c.rules.min_fee_threshold = i128::MAX;
    assert_eq!(engine.calculate_compliance_score(&c, true), 50);
}

#[test]
fn fees_accumulate_over_two_records() {
    let (mut engine, admin) = setup_test_env();
    let c = store_core_commitment(4, "owner", 1000, 1000, 10, 30, 0);
    assert_eq!(engine.record_fees(&admin, 4, 100), Ok(()));
    assert_eq!(engine.record_fees(&admin, 4, 100), Ok(()));
    let metrics: HealthMetrics = engine.get_health_metrics(&c, false);
    assert_eq!(metrics.fees_generated, 200);
    let other = store_core_commitment(5, "owner", 1000, 1000, 10, 30, 0);
    assert_eq!(engine.get_health_metrics(&other, false).fees_generated, 0);
}

#[test]
fn record_fees_errors() {
    let (mut engine, admin) = setup_test_env();
    assert_eq!(engine.record_fees(&String::from("mallory"), 1, 5), Err(CommitmentError::Unauthorized));
    assert_eq!(engine.record_fees(&admin, 1, -1), Err(CommitmentError::InvalidAmount));
    assert_eq!(engine.record_fees(&admin, 1, i128::MAX), Ok(()));
    assert_eq!(engine.record_fees(&admin, 1, 1), Err(CommitmentError::InvalidAmount));
}

#[test]
fn attestations_keep_order_and_record_verdict() {
    let (mut engine, admin) = setup_test_env();
    assert!(engine.attest(3, false, String::from("first"), Vec::new(), admin.clone(), 10));
    assert!(!engine.attest(4, true, String::from("elsewhere"), Vec::new(), admin.clone(), 15));
    assert!(!engine.attest(3, true, String::from("second"), Vec::new(), admin.clone(), 20));
    let atts = engine.get_attestations(3);
    assert_eq!(atts.len(), 2);
    assert_eq!(atts[0].attestation_type, "first");
    assert_eq!(atts[1].attestation_type, "second");
    assert!(atts[0].passed);
    assert!(!atts[1].passed);
    let c = store_core_commitment(3, "owner", 1000, 1000, 10, 30, 0);
    assert_eq!(engine.get_health_metrics(&c, false).last_attestation, 20);
}

#[test]
fn restore_rejects_duplicate_or_negative_fees() {
    let entry = |commitment_id: u64, total: i128| FeeEntry { commitment_id, total };
    let engine = AttestationEngineContract::restore(
        String::from("admin"),
        String::from("core"),
        Vec::new(),
        vec![entry(1, 5), entry(2, 7)],
    )
    .unwrap();
    let c = store_core_commitment(2, "owner", 1000, 1000, 10, 30, 0);
    assert_eq!(engine.get_health_metrics(&c, false).fees_generated, 7);
    assert!(AttestationEngineContract::restore(
        String::from("admin"),
        String::from("core"),
        Vec::new(),
        vec![entry(1, 5), entry(1, 7)],
    )
    .is_none());
    assert!(AttestationEngineContract::restore(
        String::from("admin"),
        String::from("core"),
        Vec::new(),
        vec![entry(1, -5)],
    )
    .is_none());
}
