//! Structural integrity checks of an evidence bundle.
use vstd::prelude::*;

use crate::encoding::{intent_id, spec_intent_id};
use crate::evidence::{
    AuthorizationSnapshotV1, DisbursementEvidenceV1, ExecutionOutcomeV1, EVIDENCE_VERSION_V1,
};
use crate::intent::{address_eq, asset_eq, id_eq, INTENT_VERSION_V1};
use crate::reason::reason_gate;
use crate::wire::{array_from, lemma_array_from_view};
use crate::report::{
    AuthorizationExecutionInconsistency, AuthorizedEffectField, VerifierFinding, VerifierReport,
};

verus! {

/// A one-finding sequence when `bad`, empty otherwise.
pub open spec fn finding_if(bad: bool, f: VerifierFinding) -> Seq<VerifierFinding> {
    if bad {
        seq![f]
    } else {
        Seq::empty()
    }
}

/// Version pins: evidence version, then intent version.
pub open spec fn version_findings(e: DisbursementEvidenceV1) -> Seq<VerifierFinding> {
    finding_if(
        e.evidence_version != EVIDENCE_VERSION_V1,
        VerifierFinding::EvidenceVersionUnsupported {
            found: e.evidence_version,
            expected: EVIDENCE_VERSION_V1,
        },
    ) + finding_if(
        e.intent.intent_version != INTENT_VERSION_V1,
        VerifierFinding::IntentVersionUnsupported {
            found: e.intent.intent_version,
            expected: INTENT_VERSION_V1,
        },
    )
}

/// Intent-id check: the id recomputed from the intent must equal the recorded one.
pub open spec fn intent_id_findings(e: DisbursementEvidenceV1) -> Seq<VerifierFinding> {
    finding_if(
        spec_intent_id(e.intent) != e.intent_id@,
        VerifierFinding::IntentIdMismatch {
            from_intent: array_from::<32>(spec_intent_id(e.intent)),
            from_record: e.intent_id,
        },
    )
}

pub open spec fn effect_mismatch(bad: bool, field: AuthorizedEffectField) -> Seq<VerifierFinding> {
    finding_if(bad, VerifierFinding::AuthorizedEffectMismatch { field })
}

/// Authorized effects must copy the intent; denials must respect the
/// reason-to-gate partition.
pub open spec fn authorization_findings(e: DisbursementEvidenceV1) -> Seq<VerifierFinding> {
    let i = e.intent;
    match e.authorization {
        AuthorizationSnapshotV1::Authorized { effect } => effect_mismatch(
            effect.policy_ref != i.policy_ref,
            AuthorizedEffectField::PolicyRef,
        ) + effect_mismatch(effect.allocation_id != i.allocation_id, AuthorizedEffectField::AllocationId)
            + effect_mismatch(effect.requester_id != i.requester_id, AuthorizedEffectField::RequesterId)
            + effect_mismatch(effect.destination != i.destination, AuthorizedEffectField::Destination)
            + effect_mismatch(effect.asset != i.asset, AuthorizedEffectField::Asset) + effect_mismatch(
            effect.authorized_amount_lovelace != i.requested_amount_lovelace,
            AuthorizedEffectField::AuthorizedAmountLovelace,
        ),
        AuthorizationSnapshotV1::Denied { reason, gate } => finding_if(
            gate != reason_gate(reason),
            VerifierFinding::GateInvariantBroken {
                reason,
                recorded_gate: gate,
                expected_gate: reason_gate(reason),
            },
        ),
    }
}

pub open spec fn inconsistent(kind: AuthorizationExecutionInconsistency) -> Seq<VerifierFinding> {
    seq![VerifierFinding::AuthorizationExecutionInconsistent { kind }]
}

/// Allowed pairings: authorized with settled or fulfillment-refused;
/// denied with an upstream denial carrying the same reason and gate.
pub open spec fn cross_variant_findings(e: DisbursementEvidenceV1) -> Seq<VerifierFinding> {
    match (e.authorization, e.execution) {
        (AuthorizationSnapshotV1::Authorized { .. }, ExecutionOutcomeV1::Settled { .. }) => Seq::empty(),
        (
            AuthorizationSnapshotV1::Authorized { .. },
            ExecutionOutcomeV1::RejectedAtFulfillment { .. },
        ) => Seq::empty(),
        (AuthorizationSnapshotV1::Authorized { .. }, ExecutionOutcomeV1::DeniedUpstream { .. }) => inconsistent(
            AuthorizationExecutionInconsistency::AuthorizedButDeniedExecution,
        ),
        (AuthorizationSnapshotV1::Denied { .. }, ExecutionOutcomeV1::Settled { .. }) => inconsistent(
            AuthorizationExecutionInconsistency::DeniedButSettledExecution,
        ),
        (AuthorizationSnapshotV1::Denied { .. }, ExecutionOutcomeV1::RejectedAtFulfillment { .. }) => inconsistent(
            AuthorizationExecutionInconsistency::DeniedButFulfillmentRejection,
        ),
        (
            AuthorizationSnapshotV1::Denied { reason: r_auth, gate: g_auth },
            ExecutionOutcomeV1::DeniedUpstream { reason: r_exec, gate: g_exec },
        ) => finding_if(
            r_auth != r_exec,
            VerifierFinding::AuthorizationExecutionInconsistent {
                kind: AuthorizationExecutionInconsistency::DeniedReasonMismatch,
            },
        ) + finding_if(
            g_auth != g_exec,
            VerifierFinding::AuthorizationExecutionInconsistent {
                kind: AuthorizationExecutionInconsistency::DeniedGateMismatch,
            },
        ),
    }
}

/// Every integrity finding, in check order.
pub open spec fn integrity_findings(e: DisbursementEvidenceV1) -> Seq<VerifierFinding> {
    version_findings(e) + intent_id_findings(e) + authorization_findings(e) + cross_variant_findings(
        e,
    )
}

/// Run every integrity check on `evidence`, appending findings in check order.
pub fn check_integrity(evidence: &DisbursementEvidenceV1, report: &mut VerifierReport)
    ensures
        final(report).findings@ == old(report).findings@ + integrity_findings(*evidence),
{
    check_versions(evidence, report);
    check_intent_id(evidence, report);
    check_authorization_consistency(evidence, report);
    check_cross_variant_consistency(evidence, report);
    assert(report.findings@ =~= old(report).findings@ + integrity_findings(*evidence));
}

fn check_versions(evidence: &DisbursementEvidenceV1, report: &mut VerifierReport)
    ensures
        final(report).findings@ == old(report).findings@ + version_findings(*evidence),
{
    if evidence.evidence_version != EVIDENCE_VERSION_V1 {
        report.push(
            VerifierFinding::EvidenceVersionUnsupported {
                found: evidence.evidence_version,
                expected: EVIDENCE_VERSION_V1,
            },
        );
    }
    if evidence.intent.intent_version != INTENT_VERSION_V1 {
        report.push(
            VerifierFinding::IntentVersionUnsupported {
                found: evidence.intent.intent_version,
                expected: INTENT_VERSION_V1,
            },
        );
    }
    assert(report.findings@ =~= old(report).findings@ + version_findings(*evidence));
}

/// Recompute the intent id and compare it with the recorded one.
fn check_intent_id(evidence: &DisbursementEvidenceV1, report: &mut VerifierReport)
    ensures
        final(report).findings@ == old(report).findings@ + intent_id_findings(*evidence),
{
    match intent_id(&evidence.intent) {
        Ok(recomputed) => {
            proof {
                lemma_array_from_view(recomputed);
                if recomputed@ == evidence.intent_id@ {
                    assert(recomputed =~= evidence.intent_id);
                }
            }
            if !id_eq(&recomputed, &evidence.intent_id) {
                report.push(
                    VerifierFinding::IntentIdMismatch {
                        from_intent: recomputed,
                        from_record: evidence.intent_id,
                    },
                );
            }
        },
        Err(_) => {
            report.push(VerifierFinding::IntentIdRecomputeFailed);
        },
    }
    assert(report.findings@ =~= old(report).findings@ + intent_id_findings(*evidence));
}

fn check_authorization_consistency(evidence: &DisbursementEvidenceV1, report: &mut VerifierReport)
    ensures
        final(report).findings@ == old(report).findings@ + authorization_findings(*evidence),
{
    match &evidence.authorization {
        AuthorizationSnapshotV1::Authorized { effect } => {
            let intent = &evidence.intent;
            if !id_eq(&effect.policy_ref, &intent.policy_ref) {
                report.push(
                    VerifierFinding::AuthorizedEffectMismatch {
                        field: AuthorizedEffectField::PolicyRef,
                    },
                );
            }
            if !id_eq(&effect.allocation_id, &intent.allocation_id) {
                report.push(
                    VerifierFinding::AuthorizedEffectMismatch {
                        field: AuthorizedEffectField::AllocationId,
                    },
                );
            }
            if !id_eq(&effect.requester_id, &intent.requester_id) {
                report.push(
                    VerifierFinding::AuthorizedEffectMismatch {
                        field: AuthorizedEffectField::RequesterId,
                    },
                );
            }
            if !address_eq(&effect.destination, &intent.destination) {
                report.push(
                    VerifierFinding::AuthorizedEffectMismatch {
                        field: AuthorizedEffectField::Destination,
                    },
                );
            }
            if !asset_eq(&effect.asset, &intent.asset) {
                report.push(
                    VerifierFinding::AuthorizedEffectMismatch { field: AuthorizedEffectField::Asset },
                );
            }
            if effect.authorized_amount_lovelace != intent.requested_amount_lovelace {
                report.push(
                    VerifierFinding::AuthorizedEffectMismatch {
                        field: AuthorizedEffectField::AuthorizedAmountLovelace,
                    },
                );
            }
        },
        AuthorizationSnapshotV1::Denied { reason, gate } => {
            let expected_gate = reason.gate();
            if *gate != expected_gate {
                report.push(
                    VerifierFinding::GateInvariantBroken {
                        reason: *reason,
                        recorded_gate: *gate,
                        expected_gate,
                    },
                );
            }
        },
    }
    assert(report.findings@ =~= old(report).findings@ + authorization_findings(*evidence));
}

fn check_cross_variant_consistency(evidence: &DisbursementEvidenceV1, report: &mut VerifierReport)
    ensures
        final(report).findings@ == old(report).findings@ + cross_variant_findings(*evidence),
{
    match (&evidence.authorization, &evidence.execution) {
        (AuthorizationSnapshotV1::Authorized { .. }, ExecutionOutcomeV1::Settled { .. }) => {},
        (
            AuthorizationSnapshotV1::Authorized { .. },
            ExecutionOutcomeV1::RejectedAtFulfillment { .. },
        ) => {},
        (AuthorizationSnapshotV1::Authorized { .. }, ExecutionOutcomeV1::DeniedUpstream { .. }) => {
            report.push(
                VerifierFinding::AuthorizationExecutionInconsistent {
                    kind: AuthorizationExecutionInconsistency::AuthorizedButDeniedExecution,
                },
            );
        },
        (AuthorizationSnapshotV1::Denied { .. }, ExecutionOutcomeV1::Settled { .. }) => {
            report.push(
                VerifierFinding::AuthorizationExecutionInconsistent {
                    kind: AuthorizationExecutionInconsistency::DeniedButSettledExecution,
                },
            );
        },
        (
            AuthorizationSnapshotV1::Denied { .. },
            ExecutionOutcomeV1::RejectedAtFulfillment { .. },
        ) => {
            report.push(
                VerifierFinding::AuthorizationExecutionInconsistent {
                    kind: AuthorizationExecutionInconsistency::DeniedButFulfillmentRejection,
                },
            );
        },
        (
            AuthorizationSnapshotV1::Denied { reason: r_auth, gate: g_auth },
            ExecutionOutcomeV1::DeniedUpstream { reason: r_exec, gate: g_exec },
        ) => {
            if *r_auth != *r_exec {
                report.push(
                    VerifierFinding::AuthorizationExecutionInconsistent {
                        kind: AuthorizationExecutionInconsistency::DeniedReasonMismatch,
                    },
                );
            }
            if *g_auth != *g_exec {
                report.push(
                    VerifierFinding::AuthorizationExecutionInconsistent {
                        kind: AuthorizationExecutionInconsistency::DeniedGateMismatch,
                    },
                );
            }
        },
    }
    assert(report.findings@ =~= old(report).findings@ + cross_variant_findings(*evidence));
}

} // verus!
