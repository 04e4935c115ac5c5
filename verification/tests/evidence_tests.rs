use oracleguard::evidence::{
    decode_evidence, encode_evidence, AuthorizationSnapshotV1, DisbursementEvidenceV1,
    EvidenceDecodeError, ExecutionOutcomeV1, FulfillmentRejectionKindV1, EVIDENCE_VERSION_V1,
};
use oracleguard::intent::{
    AssetIdV1, AuthorizedEffectV1, CardanoAddressV1, DisbursementIntentV1, OracleFactEvalV1,
    OracleFactProvenanceV1, INTENT_VERSION_V1,
};
use oracleguard::reason::{AuthorizationGate, DisbursementReasonCode};

fn sample_intent() -> DisbursementIntentV1 {
    DisbursementIntentV1 {
        intent_version: INTENT_VERSION_V1,
        policy_ref: [0x11; 32],
        allocation_id: [0x22; 32],
        requester_id: [0x33; 32],
        oracle_fact: OracleFactEvalV1 {
            asset_pair: *b"ADA/USD\0\0\0\0\0\0\0\0\0",
            price_microusd: 450_000,
            source: *b"charli3\0\0\0\0\0\0\0\0\0",
        },
        oracle_provenance: OracleFactProvenanceV1 {
            timestamp_unix: 1_713_000_000_000,
            expiry_unix: 1_713_000_300_000,
            aggregator_utxo_ref: [0x44; 32],
        },
        requested_amount_lovelace: 700_000_000,
        destination: CardanoAddressV1 { bytes: [0x55; 57], length: 57 },
        asset: AssetIdV1::ada(),
    }
}

fn sample_effect() -> AuthorizedEffectV1 {
    AuthorizedEffectV1 {
        policy_ref: [0x11; 32],
        allocation_id: [0x22; 32],
        requester_id: [0x33; 32],
        destination: CardanoAddressV1 { bytes: [0x55; 57], length: 57 },
        asset: AssetIdV1::ada(),
        authorized_amount_lovelace: 700_000_000,
        release_cap_basis_points: 7_500,
    }
}

fn sample_allow_evidence() -> DisbursementEvidenceV1 {
    DisbursementEvidenceV1 {
        evidence_version: EVIDENCE_VERSION_V1,
        intent: sample_intent(),
        intent_id: [0x77; 32],
        allocation_basis_lovelace: 1_000_000_000,
        now_unix_ms: 1_713_000_100_000,
        committed_height: 42,
        authorization: AuthorizationSnapshotV1::Authorized { effect: sample_effect() },
        execution: ExecutionOutcomeV1::Settled { tx_hash: [0xAB; 32] },
    }
}

fn sample_deny_evidence() -> DisbursementEvidenceV1 {
    DisbursementEvidenceV1 {
        evidence_version: EVIDENCE_VERSION_V1,
        intent: sample_intent(),
        intent_id: [0x88; 32],
        allocation_basis_lovelace: 1_000_000_000,
        now_unix_ms: 1_713_000_100_000,
        committed_height: 43,
        authorization: AuthorizationSnapshotV1::Denied {
            reason: DisbursementReasonCode::ReleaseCapExceeded,
            gate: AuthorizationGate::Grant,
        },
        execution: ExecutionOutcomeV1::DeniedUpstream {
            reason: DisbursementReasonCode::ReleaseCapExceeded,
            gate: AuthorizationGate::Grant,
        },
    }
}

fn sample_refusal_evidence() -> DisbursementEvidenceV1 {
    DisbursementEvidenceV1 {
        evidence_version: EVIDENCE_VERSION_V1,
        intent: sample_intent(),
        intent_id: [0x99; 32],
        allocation_basis_lovelace: 1_000_000_000,
        now_unix_ms: 1_713_000_100_000,
        committed_height: 44,
        authorization: AuthorizationSnapshotV1::Authorized { effect: sample_effect() },
        execution: ExecutionOutcomeV1::RejectedAtFulfillment {
            kind: FulfillmentRejectionKindV1::ReceiptNotCommitted,
        },
    }
}

fn with(authorization: AuthorizationSnapshotV1, execution: ExecutionOutcomeV1) -> DisbursementEvidenceV1 {
    let mut e = sample_allow_evidence();
    e.authorization = authorization;
    e.execution = execution;
    e
}

#[test]
fn evidence_version_constant_is_one() {
    assert_eq!(EVIDENCE_VERSION_V1, 1);
}

#[test]
fn evidence_struct_exposes_exact_field_list() {
    let DisbursementEvidenceV1 {
        evidence_version,
        intent,
        intent_id,
        allocation_basis_lovelace,
        now_unix_ms,
        committed_height,
        authorization,
        execution,
    } = sample_allow_evidence();
    assert_eq!(evidence_version, EVIDENCE_VERSION_V1);
    assert_eq!(intent.requested_amount_lovelace, 700_000_000);
    assert_eq!(intent_id, [0x77; 32]);
    assert_eq!(allocation_basis_lovelace, 1_000_000_000);
    assert_eq!(now_unix_ms, 1_713_000_100_000);
    assert_eq!(committed_height, 42);
    let _ = match authorization {
        AuthorizationSnapshotV1::Authorized { .. } => 0u8,
        AuthorizationSnapshotV1::Denied { .. } => 1u8,
    };
    let _ = match execution {
        ExecutionOutcomeV1::Settled { .. } => 0u8,
        ExecutionOutcomeV1::DeniedUpstream { .. } => 1u8,
        ExecutionOutcomeV1::RejectedAtFulfillment { .. } => 2u8,
    };
}

#[test]
fn authorization_snapshot_variant_list_is_frozen() {
    let cases = [
        AuthorizationSnapshotV1::Authorized { effect: sample_effect() },
        AuthorizationSnapshotV1::Denied {
            reason: DisbursementReasonCode::PolicyNotFound,
            gate: AuthorizationGate::Anchor,
        },
    ];
    for c in cases {
        let _: u8 = match c {
            AuthorizationSnapshotV1::Authorized { .. } => 0,
            AuthorizationSnapshotV1::Denied { .. } => 1,
        };
    }
}

#[test]
fn execution_outcome_variant_list_is_frozen() {
    let cases = [
        ExecutionOutcomeV1::Settled { tx_hash: [0x00; 32] },
        ExecutionOutcomeV1::DeniedUpstream {
            reason: DisbursementReasonCode::OracleStale,
            gate: AuthorizationGate::Grant,
        },
        ExecutionOutcomeV1::RejectedAtFulfillment { kind: FulfillmentRejectionKindV1::NonAdaAsset },
    ];
    for c in cases {
        let _: u8 = match c {
            ExecutionOutcomeV1::Settled { .. } => 0,
            ExecutionOutcomeV1::DeniedUpstream { .. } => 1,
            ExecutionOutcomeV1::RejectedAtFulfillment { .. } => 2,
        };
    }
}

#[test]
fn fulfillment_rejection_kind_variant_list_is_frozen() {
    for k in [
        FulfillmentRejectionKindV1::NonAdaAsset,
        FulfillmentRejectionKindV1::ReceiptNotCommitted,
    ] {
        let _: u8 = match k {
            FulfillmentRejectionKindV1::NonAdaAsset => 0,
            FulfillmentRejectionKindV1::ReceiptNotCommitted => 1,
        };
    }
}

#[test]
fn fulfillment_rejection_kind_discriminants_are_stable() {
    assert_eq!(FulfillmentRejectionKindV1::NonAdaAsset as u8, 0);
    assert_eq!(FulfillmentRejectionKindV1::ReceiptNotCommitted as u8, 1);
}

#[test]
fn allow_evidence_postcard_round_trips() {
    let original = sample_allow_evidence();
    let bytes = encode_evidence(&original).expect("encode");
    let decoded = decode_evidence(&bytes).expect("decode");
    assert_eq!(decoded, original);
}

#[test]
fn deny_evidence_postcard_round_trips() {
    let original = sample_deny_evidence();
    let bytes = encode_evidence(&original).expect("encode");
    let decoded = decode_evidence(&bytes).expect("decode");
    assert_eq!(decoded, original);
}

#[test]
fn refusal_evidence_postcard_round_trips() {
    let original = sample_refusal_evidence();
    let bytes = encode_evidence(&original).expect("encode");
    let decoded = decode_evidence(&bytes).expect("decode");
    assert_eq!(decoded, original);
}

#[test]
fn authorization_snapshot_postcard_round_trips_both_variants() {
    let authorized = AuthorizationSnapshotV1::Authorized { effect: sample_effect() };
    let denied = AuthorizationSnapshotV1::Denied {
        reason: DisbursementReasonCode::AssetMismatch,
        gate: AuthorizationGate::Registry,
    };
    for snap in [authorized, denied] {
        let evidence = with(snap, ExecutionOutcomeV1::Settled { tx_hash: [0x01; 32] });
        let bytes = encode_evidence(&evidence).expect("encode");
        let decoded = decode_evidence(&bytes).expect("decode");
        assert_eq!(decoded.authorization, snap);
        assert_eq!(decoded, evidence);
    }
}

#[test]
fn execution_outcome_postcard_round_trips_all_variants() {
    let cases = [
        ExecutionOutcomeV1::Settled { tx_hash: [0xCD; 32] },
        ExecutionOutcomeV1::DeniedUpstream {
            reason: DisbursementReasonCode::AllocationNotFound,
            gate: AuthorizationGate::Registry,
        },
        ExecutionOutcomeV1::RejectedAtFulfillment { kind: FulfillmentRejectionKindV1::NonAdaAsset },
        ExecutionOutcomeV1::RejectedAtFulfillment {
            kind: FulfillmentRejectionKindV1::ReceiptNotCommitted,
        },
    ];
    for outcome in cases {
        let evidence = with(AuthorizationSnapshotV1::Authorized { effect: sample_effect() }, outcome);
        let bytes = encode_evidence(&evidence).expect("encode");
        let decoded = decode_evidence(&bytes).expect("decode");
        assert_eq!(decoded.execution, outcome);
        assert_eq!(decoded, evidence);
    }
}

#[test]
fn encode_is_stable_across_calls() {
    let a = encode_evidence(&sample_allow_evidence()).expect("a");
    let b = encode_evidence(&sample_allow_evidence()).expect("b");
    assert_eq!(a, b);
}

#[test]
fn decode_rejects_trailing_bytes() {
    let mut bytes = encode_evidence(&sample_allow_evidence()).expect("encode");
    bytes.push(0x00);
    let err = decode_evidence(&bytes).expect_err("trailing-byte must reject");
    assert_eq!(err, EvidenceDecodeError::TrailingBytes);
}

#[test]
fn decode_rejects_truncated_input() {
    let bytes = encode_evidence(&sample_allow_evidence()).expect("encode");
    let err = decode_evidence(&bytes[..bytes.len() - 1]).expect_err("truncation must reject");
    assert_eq!(err, EvidenceDecodeError::Malformed);
}

#[test]
fn decode_rejects_empty_input() {
    let err = decode_evidence(&[]).expect_err("empty must reject");
    assert_eq!(err, EvidenceDecodeError::Malformed);
}

#[test]
fn mutating_intent_id_changes_canonical_bytes() {
    let base = encode_evidence(&sample_allow_evidence()).expect("base");
    let mut mutated = sample_allow_evidence();
    mutated.intent_id = [0xEE; 32];
    let mutated_bytes = encode_evidence(&mutated).expect("mutated");
    assert_ne!(base, mutated_bytes);
}

#[test]
fn mutating_tx_hash_changes_canonical_bytes() {
    let base = encode_evidence(&sample_allow_evidence()).expect("base");
    let mut mutated = sample_allow_evidence();
    mutated.execution = ExecutionOutcomeV1::Settled { tx_hash: [0xEE; 32] };
    let mutated_bytes = encode_evidence(&mutated).expect("mutated");
    assert_ne!(base, mutated_bytes);
}

#[test]
fn mutating_allocation_basis_changes_canonical_bytes() {
    let base = encode_evidence(&sample_allow_evidence()).expect("base");
    let mut mutated = sample_allow_evidence();
    mutated.allocation_basis_lovelace = 999;
    let mutated_bytes = encode_evidence(&mutated).expect("mutated");
    assert_ne!(base, mutated_bytes);
}

#[test]
fn mutating_committed_height_changes_canonical_bytes() {
    let base = encode_evidence(&sample_allow_evidence()).expect("base");
    let mut mutated = sample_allow_evidence();
    mutated.committed_height = 9999;
    let mutated_bytes = encode_evidence(&mutated).expect("mutated");
    assert_ne!(base, mutated_bytes);
}

#[test]
fn switching_authorization_variant_changes_canonical_bytes() {
    let base = encode_evidence(&sample_allow_evidence()).expect("base");
    let mut mutated = sample_allow_evidence();
    mutated.authorization = AuthorizationSnapshotV1::Denied {
        reason: DisbursementReasonCode::ReleaseCapExceeded,
        gate: AuthorizationGate::Grant,
    };
    let mutated_bytes = encode_evidence(&mutated).expect("mutated");
    assert_ne!(base, mutated_bytes);
}

#[test]
fn switching_execution_variant_changes_canonical_bytes() {
    let base = encode_evidence(&sample_allow_evidence()).expect("base");
    let mut mutated = sample_allow_evidence();
    mutated.execution =
        ExecutionOutcomeV1::RejectedAtFulfillment { kind: FulfillmentRejectionKindV1::NonAdaAsset };
    let mutated_bytes = encode_evidence(&mutated).expect("mutated");
    assert_ne!(base, mutated_bytes);
}

/// The canonical bytes are exactly what postcard writes for the same
/// fields: struct fields in order, integers as varints, enum variants as a
/// varint index followed by the variant's fields.
#[test]
fn canonical_bytes_match_postcard_layout() {
    let i = sample_intent();
    let e = sample_effect();
    let mut addr_lo = [0u8; 32];
    addr_lo.copy_from_slice(&i.destination.bytes[..32]);
    let mut addr_hi = [0u8; 25];
    addr_hi.copy_from_slice(&i.destination.bytes[32..]);
    let address = ((addr_lo, addr_hi), i.destination.length);
    let mut policy_id = [0u8; 28];
    policy_id.copy_from_slice(&i.asset.policy_id);
    let asset = (policy_id, i.asset.asset_name, i.asset.asset_name_len);
    let intent = (
        i.intent_version,
        i.policy_ref,
        i.allocation_id,
        i.requester_id,
        (i.oracle_fact.asset_pair, i.oracle_fact.price_microusd, i.oracle_fact.source),
        (
            i.oracle_provenance.timestamp_unix,
            i.oracle_provenance.expiry_unix,
            i.oracle_provenance.aggregator_utxo_ref,
        ),
        i.requested_amount_lovelace,
        address,
        asset,
    );
    let effect = (
        e.policy_ref,
        e.allocation_id,
        e.requester_id,
        address,
        asset,
        e.authorized_amount_lovelace,
        e.release_cap_basis_points,
    );
    let allow = (
        1u16,
        intent,
        [0x77u8; 32],
        1_000_000_000u64,
        1_713_000_100_000u64,
        42u64,
        (0u32, effect),
        (0u32, [0xABu8; 32]),
    );
    let expected = postcard::to_allocvec(&allow).expect("postcard");
    assert_eq!(encode_evidence(&sample_allow_evidence()).expect("encode"), expected);

    // ReleaseCapExceeded has index 7, Grant index 2.
    let deny = (
        1u16,
        intent,
        [0x88u8; 32],
        1_000_000_000u64,
        1_713_000_100_000u64,
        43u64,
        (1u32, 7u32, 2u32),
        (1u32, 7u32, 2u32),
    );
    let expected = postcard::to_allocvec(&deny).expect("postcard");
    assert_eq!(encode_evidence(&sample_deny_evidence()).expect("encode"), expected);

    let refusal = (
        1u16,
        intent,
        [0x99u8; 32],
        1_000_000_000u64,
        1_713_000_100_000u64,
        44u64,
        (0u32, effect),
        (2u32, 1u32),
    );
    let expected = postcard::to_allocvec(&refusal).expect("postcard");
    assert_eq!(encode_evidence(&sample_refusal_evidence()).expect("encode"), expected);
}

#[test]
fn decode_rejects_unknown_variant_index() {
    let mut bytes = encode_evidence(&sample_refusal_evidence()).expect("encode");
    // The last byte is the rejection-kind index; 2 is not a kind.
    let last = bytes.len() - 1;
    bytes[last] = 2;
    assert_eq!(decode_evidence(&bytes), Err(EvidenceDecodeError::Malformed));
}

#[test]
fn every_reason_and_gate_round_trips() {
    let reasons = [
        DisbursementReasonCode::PolicyNotFound,
        DisbursementReasonCode::AllocationNotFound,
        DisbursementReasonCode::SubjectNotAuthorized,
        DisbursementReasonCode::AssetMismatch,
        DisbursementReasonCode::OracleStale,
        DisbursementReasonCode::OraclePriceZero,
        DisbursementReasonCode::AmountZero,
        DisbursementReasonCode::ReleaseCapExceeded,
    ];
    for reason in reasons {
        for gate in [AuthorizationGate::Anchor, AuthorizationGate::Registry, AuthorizationGate::Grant] {
            let e = with(
                AuthorizationSnapshotV1::Denied { reason, gate },
                ExecutionOutcomeV1::DeniedUpstream { reason, gate },
            );
            let bytes = encode_evidence(&e).expect("encode");
            assert_eq!(decode_evidence(&bytes), Ok(e));
        }
    }
}

#[test]
fn large_integers_round_trip() {
    let mut e = sample_allow_evidence();
    e.allocation_basis_lovelace = u64::MAX;
    e.now_unix_ms = 127;
    e.committed_height = 128;
    e.evidence_version = u16::MAX;
    e.intent.requested_amount_lovelace = u64::MAX - 1;
    let bytes = encode_evidence(&e).expect("encode");
    assert_eq!(decode_evidence(&bytes), Ok(e));
}
