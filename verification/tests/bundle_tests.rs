use oracleguard::bundle::{decode_bundle, load_bundle, verify_bundle, verify_evidence, BundleLoadError};
use oracleguard::encoding::intent_id;
use oracleguard::evaluate::EvaluationResult;
use oracleguard::evidence::{
    encode_evidence, AuthorizationSnapshotV1, DisbursementEvidenceV1, EvidenceDecodeError,
    ExecutionOutcomeV1, FulfillmentRejectionKindV1, EVIDENCE_VERSION_V1,
};
use oracleguard::integrity::check_integrity;
use oracleguard::intent::{
    AssetIdV1, AuthorizedEffectV1, CardanoAddressV1, DisbursementIntentV1, OracleFactEvalV1,
    OracleFactProvenanceV1, INTENT_VERSION_V1,
};
use oracleguard::reason::{AuthorizationGate, DisbursementReasonCode};
use oracleguard::replay::check_replay_equivalence;
use oracleguard::report::{
    AuthorizationExecutionInconsistency, AuthorizedEffectField, VerifierFinding, VerifierReport,
};

const ALLOCATION_BASIS: u64 = 1_000_000_000;

fn non_ada_asset() -> AssetIdV1 {
    let mut asset_name = [0u8; 32];
    asset_name[..5].copy_from_slice(b"TOKEN");
    AssetIdV1 { policy_id: [0xA1; 28], asset_name, asset_name_len: 5 }
}

fn intent(amount: u64, asset: AssetIdV1) -> DisbursementIntentV1 {
    DisbursementIntentV1 {
        intent_version: INTENT_VERSION_V1,
        policy_ref: [0x56; 32],
        allocation_id: [0x0A; 32],
        requester_id: [0x0B; 32],
        oracle_fact: OracleFactEvalV1 {
            asset_pair: *b"ADA/USD\0\0\0\0\0\0\0\0\0",
            price_microusd: 450_000,
            source: *b"charli3\0\0\0\0\0\0\0\0\0",
        },
        oracle_provenance: OracleFactProvenanceV1 {
            timestamp_unix: 1_713_000_000_000,
            expiry_unix: 1_713_000_300_000,
            aggregator_utxo_ref: [0x0C; 32],
        },
        requested_amount_lovelace: amount,
        destination: CardanoAddressV1 { bytes: [0x61; 57], length: 57 },
        asset,
    }
}

fn effect_for(i: &DisbursementIntentV1) -> AuthorizedEffectV1 {
    AuthorizedEffectV1 {
        policy_ref: i.policy_ref,
        allocation_id: i.allocation_id,
        requester_id: i.requester_id,
        destination: i.destination,
        asset: i.asset,
        authorized_amount_lovelace: i.requested_amount_lovelace,
        release_cap_basis_points: 7_500,
    }
}

fn evidence(
    i: DisbursementIntentV1,
    authorization: AuthorizationSnapshotV1,
    execution: ExecutionOutcomeV1,
) -> DisbursementEvidenceV1 {
    let id = intent_id(&i).expect("intent id");
    DisbursementEvidenceV1 {
        evidence_version: EVIDENCE_VERSION_V1,
        intent: i,
        intent_id: id,
        allocation_basis_lovelace: ALLOCATION_BASIS,
        now_unix_ms: 1_713_000_100_000,
        committed_height: 7,
        authorization,
        execution,
    }
}

fn allow_700() -> DisbursementEvidenceV1 {
    let i = intent(700_000_000, AssetIdV1::ada());
    let e = effect_for(&i);
    evidence(
        i,
        AuthorizationSnapshotV1::Authorized { effect: e },
        ExecutionOutcomeV1::Settled { tx_hash: [0xAB; 32] },
    )
}

fn deny_900() -> DisbursementEvidenceV1 {
    evidence(
        intent(900_000_000, AssetIdV1::ada()),
        AuthorizationSnapshotV1::Denied {
            reason: DisbursementReasonCode::ReleaseCapExceeded,
            gate: AuthorizationGate::Grant,
        },
        ExecutionOutcomeV1::DeniedUpstream {
            reason: DisbursementReasonCode::ReleaseCapExceeded,
            gate: AuthorizationGate::Grant,
        },
    )
}

fn reject_non_ada() -> DisbursementEvidenceV1 {
    let i = intent(700_000_000, non_ada_asset());
    let e = effect_for(&i);
    evidence(
        i,
        AuthorizationSnapshotV1::Authorized { effect: e },
        ExecutionOutcomeV1::RejectedAtFulfillment { kind: FulfillmentRejectionKindV1::NonAdaAsset },
    )
}

fn reject_pending() -> DisbursementEvidenceV1 {
    let i = intent(700_000_000, AssetIdV1::ada());
    let e = effect_for(&i);
    evidence(
        i,
        AuthorizationSnapshotV1::Authorized { effect: e },
        ExecutionOutcomeV1::RejectedAtFulfillment {
            kind: FulfillmentRejectionKindV1::ReceiptNotCommitted,
        },
    )
}

fn bundle_bytes(e: &DisbursementEvidenceV1) -> Vec<u8> {
    encode_evidence(e).expect("encode")
}

fn fixture(name: &str) -> Vec<u8> {
    let e = match name {
        "allow_700_ada_bundle.postcard" => allow_700(),
        "deny_900_ada_bundle.postcard" => deny_900(),
        "reject_non_ada_bundle.postcard" => reject_non_ada(),
        "reject_pending_bundle.postcard" => reject_pending(),
        other => panic!("unknown fixture {other}"),
    };
    bundle_bytes(&e)
}

fn missing_file() -> Result<Vec<u8>, std::io::Error> {
    Err(std::io::Error::new(std::io::ErrorKind::NotFound, "no such bundle"))
}

fn loaded(name: &str) -> DisbursementEvidenceV1 {
    load_bundle(Ok(fixture(name))).expect("load fixture")
}

fn run(evidence: &DisbursementEvidenceV1) -> VerifierReport {
    let mut report = VerifierReport::new();
    check_integrity(evidence, &mut report);
    report
}

const MVP_FIXTURES: [&str; 4] = [
    "allow_700_ada_bundle.postcard",
    "deny_900_ada_bundle.postcard",
    "reject_non_ada_bundle.postcard",
    "reject_pending_bundle.postcard",
];

#[test]
fn load_bundle_decodes_allow_fixture() {
    let evidence = load_bundle(Ok(fixture("allow_700_ada_bundle.postcard"))).expect("load");
    assert_eq!(evidence.evidence_version, EVIDENCE_VERSION_V1);
    assert_eq!(evidence, allow_700());
}

#[test]
fn load_bundle_decodes_deny_fixture() {
    let evidence = load_bundle(Ok(fixture("deny_900_ada_bundle.postcard"))).expect("load");
    assert_eq!(evidence.evidence_version, EVIDENCE_VERSION_V1);
    assert_eq!(evidence, deny_900());
}

#[test]
fn load_bundle_decodes_refusal_fixtures() {
    for name in ["reject_non_ada_bundle.postcard", "reject_pending_bundle.postcard"] {
        let evidence = load_bundle(Ok(fixture(name))).expect("load");
        assert_eq!(
            evidence.evidence_version, EVIDENCE_VERSION_V1,
            "fixture {name} did not decode to v1 evidence",
        );
    }
}

#[test]
fn decode_bundle_rejects_trailing_bytes() {
    let bytes = fixture("allow_700_ada_bundle.postcard");
    let mut padded = bytes.clone();
    padded.push(0x00);
    match decode_bundle(&padded) {
        Err(BundleLoadError::Decode(EvidenceDecodeError::TrailingBytes)) => {}
        other => panic!("expected TrailingBytes, got {other:?}"),
    }
}

#[test]
fn decode_bundle_rejects_empty_bytes() {
    match decode_bundle(&[]) {
        Err(BundleLoadError::Decode(EvidenceDecodeError::Malformed)) => {}
        other => panic!("expected Malformed, got {other:?}"),
    }
}

#[test]
fn decode_bundle_rejects_truncated_bytes() {
    let bytes = fixture("deny_900_ada_bundle.postcard");
    match decode_bundle(&bytes[..bytes.len() - 1]) {
        Err(BundleLoadError::Decode(EvidenceDecodeError::Malformed)) => {}
        other => panic!("expected Malformed, got {other:?}"),
    }
}

#[test]
fn load_bundle_surfaces_io_error_for_missing_path() {
    match load_bundle(missing_file()) {
        Err(BundleLoadError::Io(e)) => assert_eq!(e.kind(), std::io::ErrorKind::NotFound),
        other => panic!("expected Io error, got {other:?}"),
    }
}

#[test]
fn load_bundle_is_deterministic_across_calls() {
    let a = loaded("allow_700_ada_bundle.postcard");
    let b = loaded("allow_700_ada_bundle.postcard");
    assert_eq!(a, b);
    let a_bytes = encode_evidence(&a).expect("encode a");
    let b_bytes = encode_evidence(&b).expect("encode b");
    assert_eq!(a_bytes, b_bytes);
}

#[test]
fn allow_fixture_passes_integrity_check() {
    let report = run(&loaded("allow_700_ada_bundle.postcard"));
    assert!(report.is_ok(), "allow fixture had integrity findings: {:?}", report.findings);
}

#[test]
fn deny_fixture_passes_integrity_check() {
    let report = run(&loaded("deny_900_ada_bundle.postcard"));
    assert!(report.is_ok(), "deny fixture had integrity findings: {:?}", report.findings);
}

#[test]
fn refusal_fixtures_pass_integrity_check() {
    for name in ["reject_non_ada_bundle.postcard", "reject_pending_bundle.postcard"] {
        let report = run(&loaded(name));
        assert!(
            report.is_ok(),
            "refusal fixture {name} had integrity findings: {:?}",
            report.findings
        );
    }
}

#[test]
fn version_mismatch_is_flagged() {
    let mut evidence = loaded("allow_700_ada_bundle.postcard");
    evidence.evidence_version = 99;
    let report = run(&evidence);
    assert!(report.findings.contains(&VerifierFinding::EvidenceVersionUnsupported {
        found: 99,
        expected: EVIDENCE_VERSION_V1,
    }));
}

#[test]
fn intent_version_mismatch_is_flagged() {
    let mut evidence = loaded("allow_700_ada_bundle.postcard");
    evidence.intent.intent_version = 7;
    let report = run(&evidence);
    assert!(report.findings.contains(&VerifierFinding::IntentVersionUnsupported {
        found: 7,
        expected: INTENT_VERSION_V1,
    }));
}

#[test]
fn intent_id_mismatch_is_flagged() {
    let mut evidence = loaded("allow_700_ada_bundle.postcard");
    evidence.intent_id = [0xFF; 32];
    let report = run(&evidence);
    let recomputed = intent_id(&evidence.intent).expect("intent id");
    assert!(report.findings.contains(&VerifierFinding::IntentIdMismatch {
        from_intent: recomputed,
        from_record: [0xFF; 32],
    }));
}

#[test]
fn authorized_effect_policy_ref_mismatch_is_flagged() {
    let mut evidence = loaded("allow_700_ada_bundle.postcard");
    if let AuthorizationSnapshotV1::Authorized { ref mut effect } = evidence.authorization {
        effect.policy_ref = [0xEE; 32];
    }
    let report = run(&evidence);
    assert!(
        report.findings.iter().any(|f| matches!(
            f,
            VerifierFinding::AuthorizedEffectMismatch { field: AuthorizedEffectField::PolicyRef }
        )),
        "missing PolicyRef finding: {:?}",
        report.findings
    );
}

#[test]
fn authorized_effect_amount_mismatch_is_flagged() {
    let mut evidence = loaded("allow_700_ada_bundle.postcard");
    if let AuthorizationSnapshotV1::Authorized { ref mut effect } = evidence.authorization {
        effect.authorized_amount_lovelace = 1;
    }
    let report = run(&evidence);
    assert!(
        report.findings.iter().any(|f| matches!(
            f,
            VerifierFinding::AuthorizedEffectMismatch {
                field: AuthorizedEffectField::AuthorizedAmountLovelace,
            }
        )),
        "missing AuthorizedAmountLovelace finding: {:?}",
        report.findings
    );
}

#[test]
fn denied_gate_invariant_break_is_flagged() {
    let mut evidence = loaded("deny_900_ada_bundle.postcard");
    if let AuthorizationSnapshotV1::Denied { ref mut gate, .. } = evidence.authorization {
        *gate = AuthorizationGate::Anchor;
    }
    let report = run(&evidence);
    assert!(
        report.findings.iter().any(|f| matches!(f, VerifierFinding::GateInvariantBroken { .. })),
        "missing GateInvariantBroken finding: {:?}",
        report.findings
    );
}

#[test]
fn authorized_but_denied_execution_is_flagged() {
    let mut evidence = loaded("allow_700_ada_bundle.postcard");
    evidence.execution = ExecutionOutcomeV1::DeniedUpstream {
        reason: DisbursementReasonCode::ReleaseCapExceeded,
        gate: AuthorizationGate::Grant,
    };
    let report = run(&evidence);
    assert!(report.findings.contains(&VerifierFinding::AuthorizationExecutionInconsistent {
        kind: AuthorizationExecutionInconsistency::AuthorizedButDeniedExecution,
    }));
}

#[test]
fn denied_but_settled_execution_is_flagged() {
    let mut evidence = loaded("deny_900_ada_bundle.postcard");
    evidence.execution = ExecutionOutcomeV1::Settled { tx_hash: [0xab; 32] };
    let report = run(&evidence);
    assert!(report.findings.contains(&VerifierFinding::AuthorizationExecutionInconsistent {
        kind: AuthorizationExecutionInconsistency::DeniedButSettledExecution,
    }));
}

#[test]
fn denied_but_fulfillment_rejection_is_flagged() {
    let mut evidence = loaded("deny_900_ada_bundle.postcard");
    evidence.execution =
        ExecutionOutcomeV1::RejectedAtFulfillment { kind: FulfillmentRejectionKindV1::NonAdaAsset };
    let report = run(&evidence);
    assert!(report.findings.contains(&VerifierFinding::AuthorizationExecutionInconsistent {
        kind: AuthorizationExecutionInconsistency::DeniedButFulfillmentRejection,
    }));
}

#[test]
fn denied_reason_mismatch_is_flagged() {
    let mut evidence = loaded("deny_900_ada_bundle.postcard");
    evidence.execution = ExecutionOutcomeV1::DeniedUpstream {
        reason: DisbursementReasonCode::AmountZero,
        gate: AuthorizationGate::Grant,
    };
    let report = run(&evidence);
    assert!(report.findings.contains(&VerifierFinding::AuthorizationExecutionInconsistent {
        kind: AuthorizationExecutionInconsistency::DeniedReasonMismatch,
    }));
}

#[test]
fn denied_gate_mismatch_between_snapshot_and_execution_is_flagged() {
    let mut evidence = loaded("deny_900_ada_bundle.postcard");
    evidence.execution = ExecutionOutcomeV1::DeniedUpstream {
        reason: DisbursementReasonCode::ReleaseCapExceeded,
        gate: AuthorizationGate::Registry,
    };
    let report = run(&evidence);
    assert!(report.findings.contains(&VerifierFinding::AuthorizationExecutionInconsistent {
        kind: AuthorizationExecutionInconsistency::DeniedGateMismatch,
    }));
}

#[test]
fn non_ada_refusal_is_allowed_variant_pairing() {
    let evidence = loaded("reject_non_ada_bundle.postcard");
    assert_ne!(evidence.intent.asset, AssetIdV1::ada());
    let report = run(&evidence);
    assert!(report.is_ok(), "refusal bundle flagged: {:?}", report.findings);
}

#[test]
fn verify_bundle_reports_clean_for_every_mvp_fixture() {
    for name in MVP_FIXTURES {
        let report = verify_bundle(Ok(fixture(name))).expect("verify");
        assert!(report.is_ok(), "bundle {name} produced findings: {:?}", report.findings);
    }
}

#[test]
fn verify_bundle_is_deterministic_across_calls() {
    let a = verify_bundle(Ok(fixture("allow_700_ada_bundle.postcard"))).expect("a");
    let b = verify_bundle(Ok(fixture("allow_700_ada_bundle.postcard"))).expect("b");
    assert_eq!(a, b);
}

#[test]
fn verify_bundle_surfaces_io_error_without_panicking() {
    let err = verify_bundle(missing_file()).expect_err("io");
    match err {
        BundleLoadError::Io(_) => {}
        other => panic!("expected Io, got {other:?}"),
    }
}

#[test]
fn verify_bundle_surfaces_decode_error_as_error() {
    let err = verify_bundle(Ok(vec![0xFF, 0xFF])).expect_err("decode");
    match err {
        BundleLoadError::Decode(EvidenceDecodeError::Malformed) => {}
        other => panic!("expected Decode(Malformed), got {other:?}"),
    }
}

#[test]
fn integrity_findings_come_in_check_order() {
    let mut evidence = loaded("allow_700_ada_bundle.postcard");
    evidence.evidence_version = 2;
    evidence.intent_id = [0x00; 32];
    if let AuthorizationSnapshotV1::Authorized { ref mut effect } = evidence.authorization {
        effect.allocation_id = [0x01; 32];
        effect.asset = non_ada_asset();
    }
    evidence.execution = ExecutionOutcomeV1::DeniedUpstream {
        reason: DisbursementReasonCode::AmountZero,
        gate: AuthorizationGate::Grant,
    };
    let report = run(&evidence);
    let recomputed = intent_id(&evidence.intent).expect("intent id");
    assert_eq!(
        report.findings,
        vec![
            VerifierFinding::EvidenceVersionUnsupported { found: 2, expected: 1 },
            VerifierFinding::IntentIdMismatch { from_intent: recomputed, from_record: [0x00; 32] },
            VerifierFinding::AuthorizedEffectMismatch { field: AuthorizedEffectField::AllocationId },
            VerifierFinding::AuthorizedEffectMismatch { field: AuthorizedEffectField::Asset },
            VerifierFinding::AuthorizationExecutionInconsistent {
                kind: AuthorizationExecutionInconsistency::AuthorizedButDeniedExecution,
            },
        ]
    );
}

#[test]
fn intent_id_ignores_provenance_but_not_amount() {
    let a = intent(700_000_000, AssetIdV1::ada());
    let mut b = a;
    b.oracle_provenance.timestamp_unix += 1;
    b.oracle_provenance.aggregator_utxo_ref = [0xFF; 32];
    assert_eq!(intent_id(&a).unwrap(), intent_id(&b).unwrap());
    let mut c = a;
    c.requested_amount_lovelace += 1;
    assert_ne!(intent_id(&a).unwrap(), intent_id(&c).unwrap());
}

fn varint(mut v: u64, out: &mut Vec<u8>) {
    while v >= 0x80 {
        out.push((v as u8) | 0x80);
        v >>= 7;
    }
    out.push(v as u8);
}

fn identity_bytes(i: &DisbursementIntentV1) -> Vec<u8> {
    let mut out = Vec::new();
    varint(u64::from(i.intent_version), &mut out);
    out.extend_from_slice(&i.policy_ref);
    out.extend_from_slice(&i.allocation_id);
    out.extend_from_slice(&i.requester_id);
    out.extend_from_slice(&i.oracle_fact.asset_pair);
    varint(i.oracle_fact.price_microusd, &mut out);
    out.extend_from_slice(&i.oracle_fact.source);
    varint(i.requested_amount_lovelace, &mut out);
    out.extend_from_slice(&i.destination.bytes);
    out.push(i.destination.length);
    out.extend_from_slice(&i.asset.policy_id);
    out.extend_from_slice(&i.asset.asset_name);
    out.push(i.asset.asset_name_len);
    out
}

#[test]
fn intent_id_is_blake3_of_the_identity_bytes() {
    let i = intent(700_000_000, AssetIdV1::ada());
    let id = intent_id(&i).unwrap();
    let bytes = identity_bytes(&i);
    assert_eq!(bytes.len(), 1 + 96 + 16 + 3 + 16 + 5 + 58 + 61);
    assert_eq!(&id, blake3::hash(&bytes).as_bytes());
    let e = evidence(
        i,
        AuthorizationSnapshotV1::Denied {
            reason: DisbursementReasonCode::PolicyNotFound,
            gate: AuthorizationGate::Anchor,
        },
        ExecutionOutcomeV1::DeniedUpstream {
            reason: DisbursementReasonCode::PolicyNotFound,
            gate: AuthorizationGate::Anchor,
        },
    );
    assert_eq!(e.intent_id, id);
}

#[test]
fn replay_flags_a_band_that_the_evaluator_would_not_select() {
    let mut evidence = loaded("allow_700_ada_bundle.postcard");
    if let AuthorizationSnapshotV1::Authorized { ref mut effect } = evidence.authorization {
        effect.release_cap_basis_points = 10_000;
    }
    let report = verify_evidence(&evidence);
    assert_eq!(
        report.findings,
        vec![VerifierFinding::ReplayDiverged {
            expected: EvaluationResult::Allow {
                authorized_amount_lovelace: 700_000_000,
                release_cap_basis_points: 10_000,
            },
            actual: EvaluationResult::Allow {
                authorized_amount_lovelace: 700_000_000,
                release_cap_basis_points: 7_500,
            },
        }]
    );
}

#[test]
fn replay_flags_an_authorization_the_evaluator_denies() {
    let i = intent(900_000_000, AssetIdV1::ada());
    let e = effect_for(&i);
    let evidence = evidence(
        i,
        AuthorizationSnapshotV1::Authorized { effect: e },
        ExecutionOutcomeV1::Settled { tx_hash: [0x01; 32] },
    );
    let mut report = VerifierReport::new();
    check_replay_equivalence(&evidence, &mut report);
    assert_eq!(
        report.findings,
        vec![VerifierFinding::ReplayDiverged {
            expected: EvaluationResult::Allow {
                authorized_amount_lovelace: 900_000_000,
                release_cap_basis_points: 7_500,
            },
            actual: EvaluationResult::Deny { reason: DisbursementReasonCode::ReleaseCapExceeded },
        }]
    );
}

#[test]
fn replay_skips_denials_decided_before_the_evaluator() {
    let evidence = evidence(
        intent(900_000_000, AssetIdV1::ada()),
        AuthorizationSnapshotV1::Denied {
            reason: DisbursementReasonCode::OracleStale,
            gate: AuthorizationGate::Grant,
        },
        ExecutionOutcomeV1::DeniedUpstream {
            reason: DisbursementReasonCode::OracleStale,
            gate: AuthorizationGate::Grant,
        },
    );
    let report = verify_evidence(&evidence);
    assert!(report.is_ok(), "unexpected findings: {:?}", report.findings);
}

#[test]
fn replay_flags_a_denial_for_the_wrong_evaluator_reason() {
    let evidence = evidence(
        intent(900_000_000, AssetIdV1::ada()),
        AuthorizationSnapshotV1::Denied {
            reason: DisbursementReasonCode::AmountZero,
            gate: AuthorizationGate::Grant,
        },
        ExecutionOutcomeV1::DeniedUpstream {
            reason: DisbursementReasonCode::AmountZero,
            gate: AuthorizationGate::Grant,
        },
    );
    let report = verify_evidence(&evidence);
    assert_eq!(
        report.findings,
        vec![VerifierFinding::ReplayDiverged {
            expected: EvaluationResult::Deny { reason: DisbursementReasonCode::AmountZero },
            actual: EvaluationResult::Deny { reason: DisbursementReasonCode::ReleaseCapExceeded },
        }]
    );
}

#[test]
fn report_default_is_empty_and_push_appends() {
    let mut report = VerifierReport::default();
    assert!(report.is_ok());
    report.push(VerifierFinding::IntentIdRecomputeFailed);
    assert!(!report.is_ok());
    assert_eq!(report.findings, vec![VerifierFinding::IntentIdRecomputeFailed]);
}

#[test]
fn load_errors_convert_from_their_causes() {
    match BundleLoadError::from(EvidenceDecodeError::TrailingBytes) {
        BundleLoadError::Decode(EvidenceDecodeError::TrailingBytes) => {}
        other => panic!("expected Decode(TrailingBytes), got {other:?}"),
    }
    let io = std::io::Error::new(std::io::ErrorKind::PermissionDenied, "denied");
    match BundleLoadError::from(io) {
        BundleLoadError::Io(e) => assert_eq!(e.kind(), std::io::ErrorKind::PermissionDenied),
        other => panic!("expected Io, got {other:?}"),
    }
}
