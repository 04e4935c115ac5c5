//! Offline verification of evidence bundles: decode, integrity, replay.
use vstd::prelude::*;

use crate::encoding::spec_intent_id;
use crate::evaluate::spec_evaluate;
use crate::evidence::{
    decode_evidence, spec_decode_evidence, AuthorizationSnapshotV1, DisbursementEvidenceV1,
    EvidenceDecodeError, ExecutionOutcomeV1, EVIDENCE_VERSION_V1,
};
use crate::integrity::{check_integrity, integrity_findings};
use crate::intent::INTENT_VERSION_V1;
use crate::reason::reason_gate;
use crate::replay::{check_replay_equivalence, evaluator_projection, replay_findings};
use crate::report::{VerifierFinding, VerifierReport};

verus! {

#[verifier::external_type_specification]
#[verifier::external_body]
pub struct ExIoError(std::io::Error);

/// Why a bundle could not be loaded.
#[derive(Debug)]
pub enum BundleLoadError {
    /// The bytes could not be read.
    Io(std::io::Error),
    /// The bytes are not a canonical evidence record.
    Decode(EvidenceDecodeError),
}

impl From<std::io::Error> for BundleLoadError {
    fn from(e: std::io::Error) -> (r: Self) {
        BundleLoadError::Io(e)
    }
}

impl vstd::std_specs::convert::FromSpecImpl<std::io::Error> for BundleLoadError {
    open spec fn obeys_from_spec() -> bool {
        true
    }

    open spec fn from_spec(e: std::io::Error) -> Self {
        BundleLoadError::Io(e)
    }
}

impl From<EvidenceDecodeError> for BundleLoadError {
    fn from(e: EvidenceDecodeError) -> (r: Self) {
        BundleLoadError::Decode(e)
    }
}

impl vstd::std_specs::convert::FromSpecImpl<EvidenceDecodeError> for BundleLoadError {
    open spec fn obeys_from_spec() -> bool {
        true
    }

    open spec fn from_spec(e: EvidenceDecodeError) -> Self {
        BundleLoadError::Decode(e)
    }
}

/// All findings of the full pipeline: integrity first, then replay.
pub open spec fn pipeline_findings(e: DisbursementEvidenceV1) -> Seq<VerifierFinding> {
    integrity_findings(e) + replay_findings(e)
}

/// Run integrity then replay checks on a decoded bundle.
pub fn verify_evidence(evidence: &DisbursementEvidenceV1) -> (report: VerifierReport)
    ensures
        report.findings@ == pipeline_findings(*evidence),
{
    let mut report = VerifierReport::new();
    check_integrity(evidence, &mut report);
    check_replay_equivalence(evidence, &mut report);
    assert(report.findings@ =~= pipeline_findings(*evidence));
    report
}

/// Decode canonical evidence bytes; decode failures become `Decode`.
pub fn decode_bundle(bytes: &[u8]) -> (r: Result<DisbursementEvidenceV1, BundleLoadError>)
    ensures
        match spec_decode_evidence(bytes@) {
            Ok(e) => r matches Ok(x) && x == e,
            Err(d) => r matches Err(BundleLoadError::Decode(x)) && x == d,
        },
{
    match decode_evidence(bytes) {
        Ok(e) => Ok(e),
        Err(d) => Err(BundleLoadError::Decode(d)),
    }
}

/// Load a bundle from the outcome of reading its bytes: a read failure
/// becomes `Io` (carrying the read error), otherwise the bytes are decoded.
pub fn load_bundle(read: Result<Vec<u8>, std::io::Error>) -> (r: Result<
    DisbursementEvidenceV1,
    BundleLoadError,
>)
    ensures
        match read {
            Err(io) => r matches Err(BundleLoadError::Io(x)) && x == io,
            Ok(bytes) => match spec_decode_evidence(bytes@) {
                Ok(e) => r matches Ok(x) && x == e,
                Err(d) => r matches Err(BundleLoadError::Decode(x)) && x == d,
            },
        },
{
    match read {
        Err(io) => Err(BundleLoadError::Io(io)),
        Ok(bytes) => decode_bundle(bytes.as_slice()),
    }
}

/// Load a bundle from the outcome of reading its bytes and verify it.
/// Load failures are errors; integrity and replay failures are findings.
pub fn verify_bundle(read: Result<Vec<u8>, std::io::Error>) -> (r: Result<VerifierReport, BundleLoadError>)
    ensures
        match read {
            Err(io) => r matches Err(BundleLoadError::Io(x)) && x == io,
            Ok(bytes) => match spec_decode_evidence(bytes@) {
                Ok(e) => r matches Ok(report) && report.findings@ == pipeline_findings(e),
                Err(d) => r matches Err(BundleLoadError::Decode(x)) && x == d,
            },
        },
{
    let evidence = load_bundle(read)?;
    Ok(verify_evidence(&evidence))
}

/// An evidence bundle that is internally consistent and reproduces its
/// recorded evaluator result.
pub open spec fn bundle_is_consistent(e: DisbursementEvidenceV1) -> bool {
    let i = e.intent;
    &&& e.evidence_version == EVIDENCE_VERSION_V1
    &&& i.intent_version == INTENT_VERSION_V1
    &&& e.intent_id@ == spec_intent_id(i)
    &&& match e.authorization {
        AuthorizationSnapshotV1::Authorized { effect } => {
            &&& effect.policy_ref == i.policy_ref
            &&& effect.allocation_id == i.allocation_id
            &&& effect.requester_id == i.requester_id
            &&& effect.destination == i.destination
            &&& effect.asset == i.asset
            &&& effect.authorized_amount_lovelace == i.requested_amount_lovelace
            &&& (e.execution is Settled || e.execution is RejectedAtFulfillment)
        },
        AuthorizationSnapshotV1::Denied { reason, gate } => {
            &&& gate == reason_gate(reason)
            &&& e.execution == ExecutionOutcomeV1::DeniedUpstream { reason, gate }
        },
    }
    &&& (evaluator_projection(e.authorization) matches Some(expected) ==> expected == spec_evaluate(
        i,
        e.allocation_basis_lovelace,
    ))
}

/// The verifier's verdict is exact: the pipeline reports no finding if and
/// only if the bundle is consistent.
pub proof fn clean_report_iff_consistent(e: DisbursementEvidenceV1)
    ensures
        pipeline_findings(e).len() == 0 <==> bundle_is_consistent(e),
{
}

} // verus!
