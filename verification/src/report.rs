//! Typed verifier findings and the report that carries them.
use vstd::prelude::*;

use crate::evaluate::EvaluationResult;
use crate::reason::{AuthorizationGate, DisbursementReasonCode};

verus! {

/// Which identity-bearing field of an authorized effect disagrees with the intent.
#[derive(Debug, Clone, Copy, PartialEq, Eq, Hash, Structural)]
pub enum AuthorizedEffectField {
    PolicyRef,
    AllocationId,
    RequesterId,
    Destination,
    Asset,
    AuthorizedAmountLovelace,
}

/// Inconsistent pairings of authorization verdict and execution outcome.
#[derive(Debug, Clone, Copy, PartialEq, Eq, Hash, Structural)]
pub enum AuthorizationExecutionInconsistency {
    /// Authorized, but execution records an upstream denial.
    AuthorizedButDeniedExecution,
    /// Denied, but execution records a settled transaction.
    DeniedButSettledExecution,
    /// Denied, but execution records a fulfillment-side refusal.
    DeniedButFulfillmentRejection,
    /// Both sides deny, with different reasons.
    DeniedReasonMismatch,
    /// Both sides deny, with different gates.
    DeniedGateMismatch,
}

/// The closed set of verifier findings.
#[derive(Debug, Clone, PartialEq, Eq, Hash)]
pub enum VerifierFinding {
    /// The evidence schema version is not supported.
    EvidenceVersionUnsupported {
        /// Version carried by the bundle.
        found: u16,
        /// Version this verifier accepts.
        expected: u16,
    },
    /// The intent schema version is not supported.
    IntentVersionUnsupported {
        /// Version carried by the intent.
        found: u16,
        /// Version this verifier accepts.
        expected: u16,
    },
    /// The recomputed intent id differs from the recorded one.
    IntentIdMismatch {
        /// Id recomputed from the intent.
        from_intent: [u8; 32],
        /// Id recorded in the bundle.
        from_record: [u8; 32],
    },
    /// The intent id could not be recomputed.
    IntentIdRecomputeFailed,
    /// An authorized effect disagrees with the intent on one field.
    AuthorizedEffectMismatch {
        /// The disagreeing field.
        field: AuthorizedEffectField,
    },
    /// A denial recorded with a different gate than its reason maps to.
    GateInvariantBroken {
        /// Recorded reason.
        reason: DisbursementReasonCode,
        /// Recorded gate.
        recorded_gate: AuthorizationGate,
        /// Gate that owns the reason.
        expected_gate: AuthorizationGate,
    },
    /// Authorization verdict and execution outcome are inconsistent.
    AuthorizationExecutionInconsistent {
        /// Which inconsistency.
        kind: AuthorizationExecutionInconsistency,
    },
    /// Replaying the evaluator disagrees with the recorded verdict.
    ReplayDiverged {
        /// Evaluator result projected from the recorded verdict.
        expected: EvaluationResult,
        /// Evaluator result recomputed from the recorded inputs.
        actual: EvaluationResult,
    },
}

/// All findings produced for one evidence bundle, in check order.
#[derive(Debug, Clone, PartialEq, Eq)]
pub struct VerifierReport {
    /// Findings in the fixed check order.
    pub findings: Vec<VerifierFinding>,
}

impl VerifierReport {
    /// An empty report.
    pub fn new() -> (r: Self)
        ensures
            r.findings@ == Seq::<VerifierFinding>::empty(),
    {
        VerifierReport { findings: Vec::new() }
    }

    /// `true` exactly when there are no findings.
    pub fn is_ok(&self) -> (ok: bool)
        ensures
            ok == (self.findings@.len() == 0),
    {
        self.findings.len() == 0
    }

    /// Append a finding.
    pub fn push(&mut self, finding: VerifierFinding)
        ensures
            final(self).findings@ == old(self).findings@.push(finding),
    {
        self.findings.push(finding);
    }
}

impl Default for VerifierReport {
    fn default() -> (r: Self)
        ensures
            r.findings@ == Seq::<VerifierFinding>::empty(),
    {
        VerifierReport::new()
    }
}

} // verus!
