//! Canonical denial reasons and the authorization gates that own them.
use vstd::prelude::*;

verus! {

/// The three authorization gates, in the fixed order in which they run.
#[derive(Debug, Clone, Copy, PartialEq, Eq, Hash, Structural)]
pub enum AuthorizationGate {
    /// Validates policy identity and intent schema version.
    Anchor,
    /// Validates allocation identity, subject, asset and destination.
    Registry,
    /// Validates oracle freshness and runs the release-cap evaluator.
    Grant,
}

/// The closed set of canonical denial reasons.
#[derive(Debug, Clone, Copy, PartialEq, Eq, Hash, Structural)]
pub enum DisbursementReasonCode {
    /// The intent cannot be anchored to a registered policy.
    PolicyNotFound,
    /// The allocation id is unknown to the registry.
    AllocationNotFound,
    /// The requester (or destination) is not authorized for the allocation.
    SubjectNotAuthorized,
    /// The requested asset differs from the allocation's asset.
    AssetMismatch,
    /// The oracle datum is no longer fresh.
    OracleStale,
    /// The oracle price is zero.
    OraclePriceZero,
    /// The requested amount is zero.
    AmountZero,
    /// The requested amount exceeds the active band's release cap.
    ReleaseCapExceeded,
}

/// Reason-to-gate partition: which authorization gate issues each denial.
pub open spec fn reason_gate(reason: DisbursementReasonCode) -> AuthorizationGate {
    match reason {
        DisbursementReasonCode::PolicyNotFound => AuthorizationGate::Anchor,
        DisbursementReasonCode::AllocationNotFound => AuthorizationGate::Registry,
        DisbursementReasonCode::SubjectNotAuthorized => AuthorizationGate::Registry,
        DisbursementReasonCode::AssetMismatch => AuthorizationGate::Registry,
        DisbursementReasonCode::OracleStale => AuthorizationGate::Grant,
        DisbursementReasonCode::OraclePriceZero => AuthorizationGate::Grant,
        DisbursementReasonCode::AmountZero => AuthorizationGate::Grant,
        DisbursementReasonCode::ReleaseCapExceeded => AuthorizationGate::Grant,
    }
}

impl DisbursementReasonCode {
    /// Which authorization gate issues this denial.
    pub fn gate(&self) -> (g: AuthorizationGate)
        ensures
            g == reason_gate(*self),
    {
        match self {
            DisbursementReasonCode::PolicyNotFound => AuthorizationGate::Anchor,
            DisbursementReasonCode::AllocationNotFound => AuthorizationGate::Registry,
            DisbursementReasonCode::SubjectNotAuthorized => AuthorizationGate::Registry,
            DisbursementReasonCode::AssetMismatch => AuthorizationGate::Registry,
            DisbursementReasonCode::OracleStale => AuthorizationGate::Grant,
            DisbursementReasonCode::OraclePriceZero => AuthorizationGate::Grant,
            DisbursementReasonCode::AmountZero => AuthorizationGate::Grant,
            DisbursementReasonCode::ReleaseCapExceeded => AuthorizationGate::Grant,
        }
    }
}

/// The reason-to-gate partition is the documented table: the anchor gate
/// owns `PolicyNotFound`; the registry gate owns `AllocationNotFound`,
/// `SubjectNotAuthorized` and `AssetMismatch`; the grant gate owns
/// `OracleStale`, `OraclePriceZero`, `AmountZero` and `ReleaseCapExceeded`.
pub proof fn gate_partition_follows_the_documented_table(r: DisbursementReasonCode)
    ensures
        r == DisbursementReasonCode::PolicyNotFound ==> reason_gate(r) == AuthorizationGate::Anchor,
        r == DisbursementReasonCode::AllocationNotFound ==> reason_gate(r)
            == AuthorizationGate::Registry,
        r == DisbursementReasonCode::SubjectNotAuthorized ==> reason_gate(r)
            == AuthorizationGate::Registry,
        r == DisbursementReasonCode::AssetMismatch ==> reason_gate(r) == AuthorizationGate::Registry,
        r == DisbursementReasonCode::OracleStale ==> reason_gate(r) == AuthorizationGate::Grant,
        r == DisbursementReasonCode::OraclePriceZero ==> reason_gate(r) == AuthorizationGate::Grant,
        r == DisbursementReasonCode::AmountZero ==> reason_gate(r) == AuthorizationGate::Grant,
        r == DisbursementReasonCode::ReleaseCapExceeded ==> reason_gate(r)
            == AuthorizationGate::Grant,
{
}

} // verus!
