//! Replay of the evaluator over the inputs recorded in a bundle.
use vstd::prelude::*;

use crate::evaluate::{evaluate_disbursement, spec_evaluate, EvaluationResult};
use crate::evidence::{AuthorizationSnapshotV1, DisbursementEvidenceV1};
use crate::intent::AuthorizedEffectV1;
use crate::integrity::finding_if;
use crate::reason::{AuthorizationGate, DisbursementReasonCode};
use crate::report::{VerifierFinding, VerifierReport};

verus! {

/// A denial reason the evaluator itself can produce.
pub open spec fn is_evaluator_reason(r: DisbursementReasonCode) -> bool {
    r == DisbursementReasonCode::AmountZero || r == DisbursementReasonCode::OraclePriceZero || r
        == DisbursementReasonCode::ReleaseCapExceeded
}

/// The evaluator result a recorded verdict implies: an authorization implies
/// `Allow` with the effect's amount and band; a denial for an evaluator
/// reason implies `Deny` with that reason. Denials by the anchor or
/// registry gate, or for a stale oracle, were decided before the evaluator
/// ran and imply nothing about it.
pub open spec fn evaluator_projection(a: AuthorizationSnapshotV1) -> Option<EvaluationResult> {
    match a {
        AuthorizationSnapshotV1::Authorized { effect } => Some(
            EvaluationResult::Allow {
                authorized_amount_lovelace: effect.authorized_amount_lovelace,
                release_cap_basis_points: effect.release_cap_basis_points,
            },
        ),
        AuthorizationSnapshotV1::Denied { reason, .. } => if is_evaluator_reason(reason) {
            Some(EvaluationResult::Deny { reason })
        } else {
            None
        },
    }
}

/// The replay finding: present exactly when the recorded verdict implies an
/// evaluator result that differs from re-running the evaluator.
pub open spec fn replay_findings(e: DisbursementEvidenceV1) -> Seq<VerifierFinding> {
    match evaluator_projection(e.authorization) {
        None => Seq::empty(),
        Some(expected) => {
            let actual = spec_evaluate(e.intent, e.allocation_basis_lovelace);
            finding_if(expected != actual, VerifierFinding::ReplayDiverged { expected, actual })
        },
    }
}

fn project_snapshot(a: &AuthorizationSnapshotV1) -> (r: Option<EvaluationResult>)
    ensures
        r == evaluator_projection(*a),
{
    match a {
        AuthorizationSnapshotV1::Authorized { effect } => Some(
            EvaluationResult::Allow {
                authorized_amount_lovelace: effect.authorized_amount_lovelace,
                release_cap_basis_points: effect.release_cap_basis_points,
            },
        ),
        AuthorizationSnapshotV1::Denied { reason, .. } => {
            match reason {
                DisbursementReasonCode::AmountZero
                | DisbursementReasonCode::OraclePriceZero
                | DisbursementReasonCode::ReleaseCapExceeded => Some(
                    EvaluationResult::Deny { reason: *reason },
                ),
                _ => None,
            }
        },
    }
}

/// Re-run the evaluator over the bundle's recorded inputs and compare with
/// the evaluator result implied by the recorded verdict.
pub fn check_replay_equivalence(evidence: &DisbursementEvidenceV1, report: &mut VerifierReport)
    ensures
        final(report).findings@ == old(report).findings@ + replay_findings(*evidence),
{
    match project_snapshot(&evidence.authorization) {
        None => {},
        Some(expected) => {
            let actual = evaluate_disbursement(&evidence.intent, evidence.allocation_basis_lovelace);
            if expected != actual {
                report.push(VerifierFinding::ReplayDiverged { expected, actual });
            }
        },
    }
    assert(report.findings@ =~= old(report).findings@ + replay_findings(*evidence));
}

/// Every denial for a reason the evaluator can return (`AmountZero`,
/// `OraclePriceZero`, `ReleaseCapExceeded`) is replayed: the replay reports
/// one `ReplayDiverged`, with that denial as expected and the evaluator's
/// result as actual, exactly when re-running the evaluator on the recorded
/// intent and basis does not deny for that same reason.
pub proof fn evaluator_denials_are_replayed(
    e: DisbursementEvidenceV1,
    reason: DisbursementReasonCode,
    gate: AuthorizationGate,
)
    requires
        e.authorization == (AuthorizationSnapshotV1::Denied { reason, gate }),
        reason == DisbursementReasonCode::AmountZero || reason
            == DisbursementReasonCode::OraclePriceZero || reason
            == DisbursementReasonCode::ReleaseCapExceeded,
    ensures
        spec_evaluate(e.intent, e.allocation_basis_lovelace) == (EvaluationResult::Deny { reason })
            ==> replay_findings(e) == Seq::<VerifierFinding>::empty(),
        spec_evaluate(e.intent, e.allocation_basis_lovelace) != (EvaluationResult::Deny { reason })
            ==> replay_findings(e) == seq![
            VerifierFinding::ReplayDiverged {
                expected: EvaluationResult::Deny { reason },
                actual: spec_evaluate(e.intent, e.allocation_basis_lovelace),
            },
        ],
{
}

/// Every recorded authorization is replayed: the replay reports one
/// `ReplayDiverged` exactly when the evaluator, re-run on the recorded intent
/// and basis, does not allow the effect's amount under the effect's band.
pub proof fn authorizations_are_replayed(e: DisbursementEvidenceV1, effect: AuthorizedEffectV1)
    requires
        e.authorization == (AuthorizationSnapshotV1::Authorized { effect }),
    ensures
        ({
            let expected = EvaluationResult::Allow {
                authorized_amount_lovelace: effect.authorized_amount_lovelace,
                release_cap_basis_points: effect.release_cap_basis_points,
            };
            let actual = spec_evaluate(e.intent, e.allocation_basis_lovelace);
            &&& expected == actual ==> replay_findings(e) == Seq::<VerifierFinding>::empty()
            &&& expected != actual ==> replay_findings(e) == seq![
                VerifierFinding::ReplayDiverged { expected, actual },
            ]
        }),
{
}

/// Denials issued before the evaluator runs (by the anchor or registry gate,
/// or for a stale oracle) are never replayed.
pub proof fn pre_evaluator_denials_are_not_replayed(
    e: DisbursementEvidenceV1,
    reason: DisbursementReasonCode,
    gate: AuthorizationGate,
)
    requires
        e.authorization == (AuthorizationSnapshotV1::Denied { reason, gate }),
        reason == DisbursementReasonCode::PolicyNotFound || reason
            == DisbursementReasonCode::AllocationNotFound || reason
            == DisbursementReasonCode::SubjectNotAuthorized || reason
            == DisbursementReasonCode::AssetMismatch || reason
            == DisbursementReasonCode::OracleStale,
    ensures
        replay_findings(e) == Seq::<VerifierFinding>::empty(),
{
}

} // verus!
