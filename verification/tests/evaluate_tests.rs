use oracleguard::evaluate::{evaluate_disbursement, EvaluationResult};
use oracleguard::intent::{
    AssetIdV1, CardanoAddressV1, DisbursementIntentV1, OracleFactEvalV1, OracleFactProvenanceV1,
    INTENT_VERSION_V1,
};
use oracleguard::reason::DisbursementReasonCode;

fn demo_intent_at(requested: u64, price: u64) -> DisbursementIntentV1 {
    DisbursementIntentV1 {
        intent_version: INTENT_VERSION_V1,
        policy_ref: [0x11; 32],
        allocation_id: [0x22; 32],
        requester_id: [0x33; 32],
        oracle_fact: OracleFactEvalV1 {
            asset_pair: *b"ADA/USD\0\0\0\0\0\0\0\0\0",
            price_microusd: price,
            source: *b"charli3\0\0\0\0\0\0\0\0\0",
        },
        oracle_provenance: OracleFactProvenanceV1 {
            timestamp_unix: 1_713_000_000_000,
            expiry_unix: 1_713_000_300_000,
            aggregator_utxo_ref: [0x44; 32],
        },
        requested_amount_lovelace: requested,
        destination: CardanoAddressV1 { bytes: [0x55; 57], length: 57 },
        asset: AssetIdV1::ada(),
    }
}

fn demo_intent(requested: u64) -> DisbursementIntentV1 {
    demo_intent_at(requested, 450_000)
}

#[test]
fn evaluation_result_variant_set_is_frozen() {
    let cases = [
        EvaluationResult::Allow { authorized_amount_lovelace: 1, release_cap_basis_points: 7_500 },
        EvaluationResult::Deny { reason: DisbursementReasonCode::AmountZero },
    ];
    for r in cases {
        let _: u8 = match r {
            EvaluationResult::Allow { .. } => 0,
            EvaluationResult::Deny { .. } => 1,
        };
    }
}

#[test]
fn allow_equality_is_field_wise() {
    let a = EvaluationResult::Allow {
        authorized_amount_lovelace: 700_000_000,
        release_cap_basis_points: 7_500,
    };
    let b = EvaluationResult::Allow {
        authorized_amount_lovelace: 700_000_000,
        release_cap_basis_points: 7_500,
    };
    let c = EvaluationResult::Allow {
        authorized_amount_lovelace: 700_000_000,
        release_cap_basis_points: 10_000,
    };
    assert_eq!(a, b);
    assert_ne!(a, c);
}

#[test]
fn deny_equality_is_reason_wise() {
    let a = EvaluationResult::Deny { reason: DisbursementReasonCode::AmountZero };
    let b = EvaluationResult::Deny { reason: DisbursementReasonCode::AmountZero };
    let c = EvaluationResult::Deny { reason: DisbursementReasonCode::ReleaseCapExceeded };
    assert_eq!(a, b);
    assert_ne!(a, c);
}

#[test]
fn zero_amount_denies_with_amount_zero() {
    let r = evaluate_disbursement(&demo_intent(0), 1_000_000_000);
    assert_eq!(r, EvaluationResult::Deny { reason: DisbursementReasonCode::AmountZero });
}

#[test]
fn evaluate_is_deterministic_for_identical_inputs() {
    let a = evaluate_disbursement(&demo_intent(0), 1_000_000_000);
    let b = evaluate_disbursement(&demo_intent(0), 1_000_000_000);
    assert_eq!(a, b);
}

#[test]
fn evaluate_result_is_copy_and_equates_by_value() {
    let r = evaluate_disbursement(&demo_intent(0), 1_000_000_000);
    let s = r;
    assert_eq!(r, s);
}

#[test]
fn demo_allow_700_ada_at_mid_band() {
    let r = evaluate_disbursement(&demo_intent(700_000_000), 1_000_000_000);
    assert_eq!(
        r,
        EvaluationResult::Allow {
            authorized_amount_lovelace: 700_000_000,
            release_cap_basis_points: 7_500,
        }
    );
}

#[test]
fn demo_deny_900_ada_exceeds_mid_band_cap() {
    let r = evaluate_disbursement(&demo_intent(900_000_000), 1_000_000_000);
    assert_eq!(r, EvaluationResult::Deny { reason: DisbursementReasonCode::ReleaseCapExceeded });
}

#[test]
fn request_exactly_at_cap_is_allowed() {
    let r = evaluate_disbursement(&demo_intent(750_000_000), 1_000_000_000);
    assert_eq!(
        r,
        EvaluationResult::Allow {
            authorized_amount_lovelace: 750_000_000,
            release_cap_basis_points: 7_500,
        }
    );
    let over = evaluate_disbursement(&demo_intent(750_000_001), 1_000_000_000);
    assert_eq!(over, EvaluationResult::Deny { reason: DisbursementReasonCode::ReleaseCapExceeded });
}

#[test]
fn zero_price_denies_with_oracle_price_zero() {
    let r = evaluate_disbursement(&demo_intent_at(700_000_000, 0), 1_000_000_000);
    assert_eq!(r, EvaluationResult::Deny { reason: DisbursementReasonCode::OraclePriceZero });
}

#[test]
fn amount_zero_is_checked_before_price_zero() {
    let r = evaluate_disbursement(&demo_intent_at(0, 0), 1_000_000_000);
    assert_eq!(r, EvaluationResult::Deny { reason: DisbursementReasonCode::AmountZero });
}

#[test]
fn band_follows_the_price() {
    let low = evaluate_disbursement(&demo_intent_at(500_000_000, 258_000), 1_000_000_000);
    assert_eq!(
        low,
        EvaluationResult::Allow {
            authorized_amount_lovelace: 500_000_000,
            release_cap_basis_points: 5_000,
        }
    );
    let low_over = evaluate_disbursement(&demo_intent_at(700_000_000, 258_000), 1_000_000_000);
    assert_eq!(low_over, EvaluationResult::Deny { reason: DisbursementReasonCode::ReleaseCapExceeded });
    let high = evaluate_disbursement(&demo_intent_at(1_000_000_000, 500_000), 1_000_000_000);
    assert_eq!(
        high,
        EvaluationResult::Allow {
            authorized_amount_lovelace: 1_000_000_000,
            release_cap_basis_points: 10_000,
        }
    );
}

#[test]
fn provenance_does_not_change_the_decision() {
    let a = demo_intent(700_000_000);
    let mut b = a;
    b.oracle_provenance = OracleFactProvenanceV1 {
        timestamp_unix: 1,
        expiry_unix: 2,
        aggregator_utxo_ref: [0xEE; 32],
    };
    assert_eq!(evaluate_disbursement(&a, 1_000_000_000), evaluate_disbursement(&b, 1_000_000_000));
}

#[test]
fn shrinking_an_allowed_request_stays_allowed() {
    for requested in [1u64, 1_000, 349_999_999, 700_000_000] {
        match evaluate_disbursement(&demo_intent(requested), 1_000_000_000) {
            EvaluationResult::Allow { authorized_amount_lovelace, .. } => {
                assert_eq!(authorized_amount_lovelace, requested)
            }
            other => panic!("expected allow, got {other:?}"),
        }
    }
}
