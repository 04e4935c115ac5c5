//! Evidence bundle types and their canonical byte encoding.
//!
//! The canonical form is postcard's: struct fields in order with no
//! framing, integers as varints, enum variants as a varint variant index
//! followed by the variant's fields, fixed-width byte arrays as raw bytes.
use vstd::prelude::*;

use crate::codec::{
    enc_effect, enc_intent, get_effect, get_intent, lemma_effect_roundtrip, lemma_intent_roundtrip,
    put_effect, put_intent, take_effect, take_intent,
};
use crate::intent::{AuthorizedEffectV1, DisbursementIntentV1};
use crate::reason::{AuthorizationGate, DisbursementReasonCode};
use crate::wire::{
    append_bytes, enc_u16, enc_u32, enc_u64, get_array, get_u16, get_u32, get_u64,
    lemma_array_roundtrip, lemma_skip_concat, lemma_skip_skip, lemma_u16_roundtrip,
    lemma_u32_roundtrip, lemma_u64_roundtrip, put_u16, put_u32, put_u64, take_array, take_u16,
    take_u32, take_u64,
};

verus! {

/// The only supported evidence schema version.
pub const EVIDENCE_VERSION_V1: u16 = 1;

/// Fulfillment-side refusals recorded in evidence.
#[derive(Debug, Clone, Copy, PartialEq, Eq, Hash, Structural)]
pub enum FulfillmentRejectionKindV1 {
    /// The authorized asset was not ADA.
    NonAdaAsset,
    /// The consensus receipt was not committed.
    ReceiptNotCommitted,
}

/// The three-gate authorization verdict recorded in evidence.
#[derive(Debug, Clone, Copy, PartialEq, Eq, Hash)]
pub enum AuthorizationSnapshotV1 {
    /// Every gate passed.
    Authorized {
        /// The authorized effect.
        effect: AuthorizedEffectV1,
    },
    /// A gate denied the request.
    Denied {
        /// Canonical denial reason.
        reason: DisbursementReasonCode,
        /// Failing gate; invariant `gate == reason.gate()`.
        gate: AuthorizationGate,
    },
}

/// The execution outcome recorded in evidence.
#[derive(Debug, Clone, Copy, PartialEq, Eq, Hash)]
pub enum ExecutionOutcomeV1 {
    /// A Cardano transaction was submitted.
    Settled {
        /// 32-byte Cardano transaction id.
        tx_hash: [u8; 32],
    },
    /// Authorization was denied upstream; no transaction exists.
    DeniedUpstream {
        /// Denial reason, copied from the authorization snapshot.
        reason: DisbursementReasonCode,
        /// Failing gate, copied from the authorization snapshot.
        gate: AuthorizationGate,
    },
    /// Authorization allowed, but fulfillment refused before submission.
    RejectedAtFulfillment {
        /// Why fulfillment refused.
        kind: FulfillmentRejectionKindV1,
    },
}

/// A single disbursement-evidence record.
#[derive(Debug, Clone, PartialEq, Eq)]
pub struct DisbursementEvidenceV1 {
    /// Schema version; only `EVIDENCE_VERSION_V1` is accepted.
    pub evidence_version: u16,
    /// The canonical intent this record describes.
    pub intent: DisbursementIntentV1,
    /// The intent id recorded at consensus time.
    pub intent_id: [u8; 32],
    /// Allocation basis fed to the evaluator.
    pub allocation_basis_lovelace: u64,
    /// Wall-clock input of the freshness check (provenance only).
    pub now_unix_ms: u64,
    /// Consensus height at which the decision committed.
    pub committed_height: u64,
    /// Three-gate authorization verdict.
    pub authorization: AuthorizationSnapshotV1,
    /// Typed execution outcome.
    pub execution: ExecutionOutcomeV1,
}

/// Errors of `encode_evidence`.
#[derive(Debug, Clone, PartialEq, Eq, Structural)]
pub enum EvidenceEncodeError {
    /// The serializer reported a failure.
    SerializerFailure,
}

/// Errors of `decode_evidence`.
#[derive(Debug, Clone, PartialEq, Eq, Structural)]
pub enum EvidenceDecodeError {
    /// The bytes do not start with a valid evidence record.
    Malformed,
    /// A valid record is followed by unconsumed bytes.
    TrailingBytes,
}

// ---------------------------------------------------------------- variant indices

pub open spec fn reason_index(r: DisbursementReasonCode) -> u32 {
    match r {
        DisbursementReasonCode::PolicyNotFound => 0,
        DisbursementReasonCode::AllocationNotFound => 1,
        DisbursementReasonCode::SubjectNotAuthorized => 2,
        DisbursementReasonCode::AssetMismatch => 3,
        DisbursementReasonCode::OracleStale => 4,
        DisbursementReasonCode::OraclePriceZero => 5,
        DisbursementReasonCode::AmountZero => 6,
        DisbursementReasonCode::ReleaseCapExceeded => 7,
    }
}

pub open spec fn reason_of_index(k: u32) -> Option<DisbursementReasonCode> {
    if k == 0 {
        Some(DisbursementReasonCode::PolicyNotFound)
    } else if k == 1 {
        Some(DisbursementReasonCode::AllocationNotFound)
    } else if k == 2 {
        Some(DisbursementReasonCode::SubjectNotAuthorized)
    } else if k == 3 {
        Some(DisbursementReasonCode::AssetMismatch)
    } else if k == 4 {
        Some(DisbursementReasonCode::OracleStale)
    } else if k == 5 {
        Some(DisbursementReasonCode::OraclePriceZero)
    } else if k == 6 {
        Some(DisbursementReasonCode::AmountZero)
    } else if k == 7 {
        Some(DisbursementReasonCode::ReleaseCapExceeded)
    } else {
        None
    }
}

pub open spec fn gate_index(g: AuthorizationGate) -> u32 {
    match g {
        AuthorizationGate::Anchor => 0,
        AuthorizationGate::Registry => 1,
        AuthorizationGate::Grant => 2,
    }
}

pub open spec fn gate_of_index(k: u32) -> Option<AuthorizationGate> {
    if k == 0 {
        Some(AuthorizationGate::Anchor)
    } else if k == 1 {
        Some(AuthorizationGate::Registry)
    } else if k == 2 {
        Some(AuthorizationGate::Grant)
    } else {
        None
    }
}

pub open spec fn kind_index(k: FulfillmentRejectionKindV1) -> u32 {
    match k {
        FulfillmentRejectionKindV1::NonAdaAsset => 0,
        FulfillmentRejectionKindV1::ReceiptNotCommitted => 1,
    }
}

pub open spec fn kind_of_index(k: u32) -> Option<FulfillmentRejectionKindV1> {
    if k == 0 {
        Some(FulfillmentRejectionKindV1::NonAdaAsset)
    } else if k == 1 {
        Some(FulfillmentRejectionKindV1::ReceiptNotCommitted)
    } else {
        None
    }
}

fn reason_to_index(r: DisbursementReasonCode) -> (k: u32)
    ensures
        k == reason_index(r),
{
    match r {
        DisbursementReasonCode::PolicyNotFound => 0,
        DisbursementReasonCode::AllocationNotFound => 1,
        DisbursementReasonCode::SubjectNotAuthorized => 2,
        DisbursementReasonCode::AssetMismatch => 3,
        DisbursementReasonCode::OracleStale => 4,
        DisbursementReasonCode::OraclePriceZero => 5,
        DisbursementReasonCode::AmountZero => 6,
        DisbursementReasonCode::ReleaseCapExceeded => 7,
    }
}

fn reason_from_index(k: u32) -> (r: Option<DisbursementReasonCode>)
    ensures
        r == reason_of_index(k),
{
    if k == 0 {
        Some(DisbursementReasonCode::PolicyNotFound)
    } else if k == 1 {
        Some(DisbursementReasonCode::AllocationNotFound)
    } else if k == 2 {
        Some(DisbursementReasonCode::SubjectNotAuthorized)
    } else if k == 3 {
        Some(DisbursementReasonCode::AssetMismatch)
    } else if k == 4 {
        Some(DisbursementReasonCode::OracleStale)
    } else if k == 5 {
        Some(DisbursementReasonCode::OraclePriceZero)
    } else if k == 6 {
        Some(DisbursementReasonCode::AmountZero)
    } else if k == 7 {
        Some(DisbursementReasonCode::ReleaseCapExceeded)
    } else {
        None
    }
}

fn gate_to_index(g: AuthorizationGate) -> (k: u32)
    ensures
        k == gate_index(g),
{
    match g {
        AuthorizationGate::Anchor => 0,
        AuthorizationGate::Registry => 1,
        AuthorizationGate::Grant => 2,
    }
}

fn gate_from_index(k: u32) -> (r: Option<AuthorizationGate>)
    ensures
        r == gate_of_index(k),
{
    if k == 0 {
        Some(AuthorizationGate::Anchor)
    } else if k == 1 {
        Some(AuthorizationGate::Registry)
    } else if k == 2 {
        Some(AuthorizationGate::Grant)
    } else {
        None
    }
}

fn kind_to_index(k: FulfillmentRejectionKindV1) -> (i: u32)
    ensures
        i == kind_index(k),
{
    match k {
        FulfillmentRejectionKindV1::NonAdaAsset => 0,
        FulfillmentRejectionKindV1::ReceiptNotCommitted => 1,
    }
}

fn kind_from_index(i: u32) -> (r: Option<FulfillmentRejectionKindV1>)
    ensures
        r == kind_of_index(i),
{
    if i == 0 {
        Some(FulfillmentRejectionKindV1::NonAdaAsset)
    } else if i == 1 {
        Some(FulfillmentRejectionKindV1::ReceiptNotCommitted)
    } else {
        None
    }
}

// ---------------------------------------------------------------- canonical bytes

/// A denial: reason index then gate index.
pub open spec fn enc_denial(r: DisbursementReasonCode, g: AuthorizationGate) -> Seq<u8> {
    enc_u32(reason_index(r)) + enc_u32(gate_index(g))
}

pub open spec fn enc_snapshot(s: AuthorizationSnapshotV1) -> Seq<u8> {
    match s {
        AuthorizationSnapshotV1::Authorized { effect } => enc_u32(0) + enc_effect(effect),
        AuthorizationSnapshotV1::Denied { reason, gate } => enc_u32(1) + enc_denial(reason, gate),
    }
}

pub open spec fn enc_execution(x: ExecutionOutcomeV1) -> Seq<u8> {
    match x {
        ExecutionOutcomeV1::Settled { tx_hash } => enc_u32(0) + tx_hash@,
        ExecutionOutcomeV1::DeniedUpstream { reason, gate } => enc_u32(1) + enc_denial(reason, gate),
        ExecutionOutcomeV1::RejectedAtFulfillment { kind } => enc_u32(2) + enc_u32(kind_index(kind)),
    }
}

/// Version, intent and recorded intent id.
#[verifier::opaque]
pub open spec fn enc_head(version: u16, intent: DisbursementIntentV1, id: [u8; 32]) -> Seq<u8> {
    enc_u16(version) + enc_intent(intent) + id@
}

/// Allocation basis, wall-clock input and committed height.
#[verifier::opaque]
pub open spec fn enc_counters(basis: u64, now: u64, height: u64) -> Seq<u8> {
    enc_u64(basis) + enc_u64(now) + enc_u64(height)
}

/// Authorization verdict then execution outcome.
#[verifier::opaque]
pub open spec fn enc_outcome(a: AuthorizationSnapshotV1, x: ExecutionOutcomeV1) -> Seq<u8> {
    enc_snapshot(a) + enc_execution(x)
}

/// The canonical bytes of an evidence record.
pub open spec fn enc_evidence(e: DisbursementEvidenceV1) -> Seq<u8> {
    enc_head(e.evidence_version, e.intent, e.intent_id) + enc_counters(
        e.allocation_basis_lovelace,
        e.now_unix_ms,
        e.committed_height,
    ) + enc_outcome(e.authorization, e.execution)
}

pub open spec fn take_denial(b: Seq<u8>) -> Option<((DisbursementReasonCode, AuthorizationGate), nat)> {
    match take_u32(b) {
        None => None,
        Some((ri, n1)) => match reason_of_index(ri) {
            None => None,
            Some(reason) => match take_u32(b.skip(n1 as int)) {
                None => None,
                Some((gi, n2)) => match gate_of_index(gi) {
                    None => None,
                    Some(gate) => Some(((reason, gate), n1 + n2)),
                },
            },
        },
    }
}

pub open spec fn take_snapshot(b: Seq<u8>) -> Option<(AuthorizationSnapshotV1, nat)> {
    match take_u32(b) {
        None => None,
        Some((tag, n1)) => if tag == 0 {
            match take_effect(b.skip(n1 as int)) {
                None => None,
                Some((effect, n2)) => Some((AuthorizationSnapshotV1::Authorized { effect }, n1 + n2)),
            }
        } else if tag == 1 {
            match take_denial(b.skip(n1 as int)) {
                None => None,
                Some(((reason, gate), n2)) => Some(
                    (AuthorizationSnapshotV1::Denied { reason, gate }, n1 + n2),
                ),
            }
        } else {
            None
        },
    }
}

pub open spec fn take_execution(b: Seq<u8>) -> Option<(ExecutionOutcomeV1, nat)> {
    match take_u32(b) {
        None => None,
        Some((tag, n1)) => if tag == 0 {
            match take_array::<32>(b.skip(n1 as int)) {
                None => None,
                Some((tx_hash, n2)) => Some((ExecutionOutcomeV1::Settled { tx_hash }, n1 + n2)),
            }
        } else if tag == 1 {
            match take_denial(b.skip(n1 as int)) {
                None => None,
                Some(((reason, gate), n2)) => Some(
                    (ExecutionOutcomeV1::DeniedUpstream { reason, gate }, n1 + n2),
                ),
            }
        } else if tag == 2 {
            match take_u32(b.skip(n1 as int)) {
                None => None,
                Some((ki, n2)) => match kind_of_index(ki) {
                    None => None,
                    Some(kind) => Some((ExecutionOutcomeV1::RejectedAtFulfillment { kind }, n1 + n2)),
                },
            }
        } else {
            None
        },
    }
}

#[verifier::opaque]
pub open spec fn take_head(b: Seq<u8>) -> Option<((u16, DisbursementIntentV1, [u8; 32]), nat)> {
    match take_u16(b) {
        None => None,
        Some((version, n1)) => match take_intent(b.skip(n1 as int)) {
            None => None,
            Some((intent, n2)) => match take_array::<32>(b.skip((n1 + n2) as int)) {
                None => None,
                Some((id, n3)) => Some(((version, intent, id), n1 + n2 + n3)),
            },
        },
    }
}

#[verifier::opaque]
pub open spec fn take_counters(b: Seq<u8>) -> Option<((u64, u64, u64), nat)> {
    match take_u64(b) {
        None => None,
        Some((basis, n1)) => match take_u64(b.skip(n1 as int)) {
            None => None,
            Some((now, n2)) => match take_u64(b.skip((n1 + n2) as int)) {
                None => None,
                Some((height, n3)) => Some(((basis, now, height), n1 + n2 + n3)),
            },
        },
    }
}

#[verifier::opaque]
pub open spec fn take_outcome(b: Seq<u8>) -> Option<((AuthorizationSnapshotV1, ExecutionOutcomeV1), nat)> {
    match take_snapshot(b) {
        None => None,
        Some((a, n1)) => match take_execution(b.skip(n1 as int)) {
            None => None,
            Some((x, n2)) => Some(((a, x), n1 + n2)),
        },
    }
}

/// Read one evidence record from the front of `b`, with its length.
pub open spec fn take_evidence(b: Seq<u8>) -> Option<(DisbursementEvidenceV1, nat)> {
    match take_head(b) {
        None => None,
        Some(((version, intent, id), n1)) => match take_counters(b.skip(n1 as int)) {
            None => None,
            Some(((basis, now, height), n2)) => match take_outcome(b.skip((n1 + n2) as int)) {
                None => None,
                Some(((authorization, execution), n3)) => Some(
                    (
                        DisbursementEvidenceV1 {
                            evidence_version: version,
                            intent,
                            intent_id: id,
                            allocation_basis_lovelace: basis,
                            now_unix_ms: now,
                            committed_height: height,
                            authorization,
                            execution,
                        },
                        n1 + n2 + n3,
                    ),
                ),
            },
        },
    }
}

/// Strict decoding: a record that is not followed by anything else.
pub open spec fn spec_decode_evidence(b: Seq<u8>) -> Result<DisbursementEvidenceV1, EvidenceDecodeError> {
    match take_evidence(b) {
        None => Err(EvidenceDecodeError::Malformed),
        Some((e, n)) => if n == b.len() {
            Ok(e)
        } else {
            Err(EvidenceDecodeError::TrailingBytes)
        },
    }
}

// ---------------------------------------------------------------- round trips

pub proof fn lemma_denial_roundtrip(r: DisbursementReasonCode, g: AuthorizationGate, rest: Seq<u8>)
    ensures
        take_denial(enc_denial(r, g) + rest) == Some(((r, g), enc_denial(r, g).len())),
{
    let a = enc_u32(reason_index(r));
    let c = enc_u32(gate_index(g));
    let b = enc_denial(r, g) + rest;
    assert(b =~= a + (c + rest));
    lemma_u32_roundtrip(reason_index(r), c + rest);
    lemma_skip_concat(a, c + rest);
    lemma_u32_roundtrip(gate_index(g), rest);
}

/// A denial is written as two bytes. The first is the reason's index in the
/// order in which `DisbursementReasonCode` declares its variants, from
/// `PolicyNotFound` at zero up to `ReleaseCapExceeded` at seven. The second
/// is zero for the anchor gate, one for the registry gate and two for the
/// grant gate. Reading those two bytes gives the denial back.
pub proof fn denial_bytes_follow_declaration_order(
    r: DisbursementReasonCode,
    g: AuthorizationGate,
    rest: Seq<u8>,
)
    ensures
        enc_denial(r, g).len() == 2,
        r == DisbursementReasonCode::PolicyNotFound ==> enc_denial(r, g)[0] == 0u8,
        r == DisbursementReasonCode::AllocationNotFound ==> enc_denial(r, g)[0] == 1u8,
        r == DisbursementReasonCode::SubjectNotAuthorized ==> enc_denial(r, g)[0] == 2u8,
        r == DisbursementReasonCode::AssetMismatch ==> enc_denial(r, g)[0] == 3u8,
        r == DisbursementReasonCode::OracleStale ==> enc_denial(r, g)[0] == 4u8,
        r == DisbursementReasonCode::OraclePriceZero ==> enc_denial(r, g)[0] == 5u8,
        r == DisbursementReasonCode::AmountZero ==> enc_denial(r, g)[0] == 6u8,
        r == DisbursementReasonCode::ReleaseCapExceeded ==> enc_denial(r, g)[0] == 7u8,
        g == AuthorizationGate::Anchor ==> enc_denial(r, g)[1] == 0u8,
        g == AuthorizationGate::Registry ==> enc_denial(r, g)[1] == 1u8,
        g == AuthorizationGate::Grant ==> enc_denial(r, g)[1] == 2u8,
        take_denial(seq![enc_denial(r, g)[0], enc_denial(r, g)[1]] + rest) == Some(((r, g), 2nat)),
{
    let a = enc_u32(reason_index(r));
    let c = enc_u32(gate_index(g));
    assert(a =~= seq![reason_index(r) as u8]);
    assert(c =~= seq![gate_index(g) as u8]);
    assert(enc_denial(r, g) =~= seq![reason_index(r) as u8, gate_index(g) as u8]);
    lemma_denial_roundtrip(r, g, rest);
    assert(seq![enc_denial(r, g)[0], enc_denial(r, g)[1]] =~= enc_denial(r, g));
}

pub proof fn lemma_snapshot_roundtrip(x: AuthorizationSnapshotV1, rest: Seq<u8>)
    ensures
        take_snapshot(enc_snapshot(x) + rest) == Some((x, enc_snapshot(x).len())),
{
    match x {
        AuthorizationSnapshotV1::Authorized { effect } => {
            let t = enc_u32(0);
            let b = enc_snapshot(x) + rest;
            assert(b =~= t + (enc_effect(effect) + rest));
            lemma_u32_roundtrip(0, enc_effect(effect) + rest);
            lemma_skip_concat(t, enc_effect(effect) + rest);
            lemma_effect_roundtrip(effect, rest);
        },
        AuthorizationSnapshotV1::Denied { reason, gate } => {
            let t = enc_u32(1);
            let b = enc_snapshot(x) + rest;
            assert(b =~= t + (enc_denial(reason, gate) + rest));
            lemma_u32_roundtrip(1, enc_denial(reason, gate) + rest);
            lemma_skip_concat(t, enc_denial(reason, gate) + rest);
            lemma_denial_roundtrip(reason, gate, rest);
        },
    }
}

pub proof fn lemma_execution_roundtrip(x: ExecutionOutcomeV1, rest: Seq<u8>)
    ensures
        take_execution(enc_execution(x) + rest) == Some((x, enc_execution(x).len())),
{
    match x {
        ExecutionOutcomeV1::Settled { tx_hash } => {
            let t = enc_u32(0);
            let b = enc_execution(x) + rest;
            assert(b =~= t + (tx_hash@ + rest));
            lemma_u32_roundtrip(0, tx_hash@ + rest);
            lemma_skip_concat(t, tx_hash@ + rest);
            lemma_array_roundtrip(tx_hash, rest);
        },
        ExecutionOutcomeV1::DeniedUpstream { reason, gate } => {
            let t = enc_u32(1);
            let b = enc_execution(x) + rest;
            assert(b =~= t + (enc_denial(reason, gate) + rest));
            lemma_u32_roundtrip(1, enc_denial(reason, gate) + rest);
            lemma_skip_concat(t, enc_denial(reason, gate) + rest);
            lemma_denial_roundtrip(reason, gate, rest);
        },
        ExecutionOutcomeV1::RejectedAtFulfillment { kind } => {
            let t = enc_u32(2);
            let k = enc_u32(kind_index(kind));
            let b = enc_execution(x) + rest;
            assert(b =~= t + (k + rest));
            lemma_u32_roundtrip(2, k + rest);
            lemma_skip_concat(t, k + rest);
            lemma_u32_roundtrip(kind_index(kind), rest);
        },
    }
}

/// The authorization verdict and the execution outcome each start with
/// their variant's position in declaration order (`Authorized` 0, `Denied`
/// 1; `Settled` 0, `DeniedUpstream` 1, `RejectedAtFulfillment` 2), and a
/// fulfillment refusal is followed by its kind's position (`NonAdaAsset` 0,
/// `ReceiptNotCommitted` 1); each is read back as what was written.
pub proof fn outcome_bytes_follow_declaration_order(
    a: AuthorizationSnapshotV1,
    x: ExecutionOutcomeV1,
    rest: Seq<u8>,
)
    ensures
        a is Authorized ==> enc_snapshot(a)[0] == 0u8,
        a is Denied ==> enc_snapshot(a)[0] == 1u8,
        x is Settled ==> enc_execution(x)[0] == 0u8,
        x is DeniedUpstream ==> enc_execution(x)[0] == 1u8,
        x is RejectedAtFulfillment ==> enc_execution(x)[0] == 2u8,
        x == (ExecutionOutcomeV1::RejectedAtFulfillment {
            kind: FulfillmentRejectionKindV1::NonAdaAsset,
        }) ==> enc_execution(x) == seq![2u8, 0u8],
        x == (ExecutionOutcomeV1::RejectedAtFulfillment {
            kind: FulfillmentRejectionKindV1::ReceiptNotCommitted,
        }) ==> enc_execution(x) == seq![2u8, 1u8],
        take_snapshot(enc_snapshot(a) + rest) == Some((a, enc_snapshot(a).len())),
        take_execution(enc_execution(x) + rest) == Some((x, enc_execution(x).len())),
{
    assert(enc_u32(0) =~= seq![0u8]);
    assert(enc_u32(1) =~= seq![1u8]);
    assert(enc_u32(2) =~= seq![2u8]);
    match x {
        ExecutionOutcomeV1::RejectedAtFulfillment { kind } => {
            assert(enc_u32(kind_index(kind)) =~= seq![kind_index(kind) as u8]);
            assert(enc_execution(x) =~= seq![2u8, kind_index(kind) as u8]);
        },
        _ => {},
    }
    lemma_snapshot_roundtrip(a, rest);
    lemma_execution_roundtrip(x, rest);
}

pub proof fn lemma_head_roundtrip(v: u16, i: DisbursementIntentV1, id: [u8; 32], rest: Seq<u8>)
    ensures
        take_head(enc_head(v, i, id) + rest) == Some(((v, i, id), enc_head(v, i, id).len())),
{
    reveal(take_head);
    reveal(enc_head);
    let a = enc_u16(v);
    let c = enc_intent(i);
    let b = enc_head(v, i, id) + rest;
    assert(b =~= a + (c + (id@ + rest)));
    lemma_u16_roundtrip(v, c + (id@ + rest));
    lemma_skip_concat(a, c + (id@ + rest));
    lemma_intent_roundtrip(i, id@ + rest);
    assert(b.skip((a.len() + c.len()) as int) =~= id@ + rest);
    lemma_array_roundtrip(id, rest);
}

pub proof fn lemma_counters_roundtrip(x: u64, y: u64, z: u64, rest: Seq<u8>)
    ensures
        take_counters(enc_counters(x, y, z) + rest) == Some(((x, y, z), enc_counters(x, y, z).len())),
{
    reveal(take_counters);
    reveal(enc_counters);
    let a = enc_u64(x);
    let c = enc_u64(y);
    let d = enc_u64(z);
    let b = enc_counters(x, y, z) + rest;
    assert(b =~= a + (c + (d + rest)));
    lemma_u64_roundtrip(x, c + (d + rest));
    lemma_skip_concat(a, c + (d + rest));
    lemma_u64_roundtrip(y, d + rest);
    assert(b.skip((a.len() + c.len()) as int) =~= d + rest);
    lemma_u64_roundtrip(z, rest);
}

pub proof fn lemma_outcome_roundtrip(a: AuthorizationSnapshotV1, x: ExecutionOutcomeV1, rest: Seq<u8>)
    ensures
        take_outcome(enc_outcome(a, x) + rest) == Some(((a, x), enc_outcome(a, x).len())),
{
    reveal(take_outcome);
    reveal(enc_outcome);
    let b = enc_outcome(a, x) + rest;
    assert(b =~= enc_snapshot(a) + (enc_execution(x) + rest));
    lemma_snapshot_roundtrip(a, enc_execution(x) + rest);
    lemma_skip_concat(enc_snapshot(a), enc_execution(x) + rest);
    lemma_execution_roundtrip(x, rest);
}

/// Reading an encoded record back yields the record and consumes exactly its bytes.
pub proof fn lemma_evidence_roundtrip(e: DisbursementEvidenceV1, rest: Seq<u8>)
    ensures
        take_evidence(enc_evidence(e) + rest) == Some((e, enc_evidence(e).len())),
{
    let h = enc_head(e.evidence_version, e.intent, e.intent_id);
    let c = enc_counters(e.allocation_basis_lovelace, e.now_unix_ms, e.committed_height);
    let o = enc_outcome(e.authorization, e.execution);
    let b = enc_evidence(e) + rest;
    assert(b =~= h + (c + (o + rest)));
    lemma_head_roundtrip(e.evidence_version, e.intent, e.intent_id, c + (o + rest));
    lemma_skip_concat(h, c + (o + rest));
    lemma_counters_roundtrip(
        e.allocation_basis_lovelace,
        e.now_unix_ms,
        e.committed_height,
        o + rest,
    );
    assert(b.skip((h.len() + c.len()) as int) =~= o + rest);
    lemma_outcome_roundtrip(e.authorization, e.execution, rest);
}

/// Decoding the canonical bytes of a record gives back exactly that record.
pub proof fn decode_inverts_encode(e: DisbursementEvidenceV1)
    ensures
        spec_decode_evidence(enc_evidence(e)) == Ok::<DisbursementEvidenceV1, EvidenceDecodeError>(e),
{
    lemma_evidence_roundtrip(e, Seq::empty());
    assert(enc_evidence(e) + Seq::<u8>::empty() =~= enc_evidence(e));
}

/// Bytes after a complete record are refused: the canonical bytes of a
/// record followed by anything non-empty decode to `TrailingBytes`.
pub proof fn trailing_bytes_are_refused(e: DisbursementEvidenceV1, extra: Seq<u8>)
    requires
        extra.len() > 0,
    ensures
        spec_decode_evidence(enc_evidence(e) + extra) == Err::<DisbursementEvidenceV1, EvidenceDecodeError>(
            EvidenceDecodeError::TrailingBytes,
        ),
{
    lemma_evidence_roundtrip(e, extra);
}

/// The canonical encoding is injective: distinct records have distinct bytes.
pub proof fn encoding_is_injective(e1: DisbursementEvidenceV1, e2: DisbursementEvidenceV1)
    requires
        enc_evidence(e1) == enc_evidence(e2),
    ensures
        e1 == e2,
{
    decode_inverts_encode(e1);
    decode_inverts_encode(e2);
}


// ---------------------------------------------------------------- executable encoding

fn put_denial(out: &mut Vec<u8>, r: DisbursementReasonCode, g: AuthorizationGate)
    ensures
        final(out)@ == old(out)@ + enc_denial(r, g),
{
    put_u32(out, reason_to_index(r));
    put_u32(out, gate_to_index(g));
    proof {
        assert(out@ =~= old(out)@ + enc_denial(r, g));
    }
}

fn put_snapshot(out: &mut Vec<u8>, a: &AuthorizationSnapshotV1)
    ensures
        final(out)@ == old(out)@ + enc_snapshot(*a),
{
    match a {
        AuthorizationSnapshotV1::Authorized { effect } => {
            put_u32(out, 0);
            put_effect(out, effect);
        },
        AuthorizationSnapshotV1::Denied { reason, gate } => {
            put_u32(out, 1);
            put_denial(out, *reason, *gate);
        },
    }
    proof {
        assert(out@ =~= old(out)@ + enc_snapshot(*a));
    }
}

fn put_execution(out: &mut Vec<u8>, x: &ExecutionOutcomeV1)
    ensures
        final(out)@ == old(out)@ + enc_execution(*x),
{
    match x {
        ExecutionOutcomeV1::Settled { tx_hash } => {
            put_u32(out, 0);
            append_bytes(out, tx_hash.as_slice());
        },
        ExecutionOutcomeV1::DeniedUpstream { reason, gate } => {
            put_u32(out, 1);
            put_denial(out, *reason, *gate);
        },
        ExecutionOutcomeV1::RejectedAtFulfillment { kind } => {
            put_u32(out, 2);
            put_u32(out, kind_to_index(*kind));
        },
    }
    proof {
        assert(out@ =~= old(out)@ + enc_execution(*x));
    }
}

/// Encode an evidence record to its canonical bytes. Encoding always
/// succeeds, with exactly the canonical form `enc_evidence`.
pub fn encode_evidence(evidence: &DisbursementEvidenceV1) -> (r: Result<Vec<u8>, EvidenceEncodeError>)
    ensures
        r matches Ok(bytes) && bytes@ == enc_evidence(*evidence),
{
    let mut out: Vec<u8> = Vec::new();
    put_u16(&mut out, evidence.evidence_version);
    put_intent(&mut out, &evidence.intent);
    append_bytes(&mut out, evidence.intent_id.as_slice());
    put_u64(&mut out, evidence.allocation_basis_lovelace);
    put_u64(&mut out, evidence.now_unix_ms);
    put_u64(&mut out, evidence.committed_height);
    put_snapshot(&mut out, &evidence.authorization);
    put_execution(&mut out, &evidence.execution);
    proof {
        reveal(enc_head);
        reveal(enc_counters);
        reveal(enc_outcome);
        assert(out@ =~= enc_evidence(*evidence));
    }
    Ok(out)
}

// ---------------------------------------------------------------- executable decoding

fn get_reason(bytes: &[u8], pos: usize) -> (r: Option<(DisbursementReasonCode, usize)>)
    requires
        pos <= bytes@.len(),
    ensures
        r matches Some((_, p)) ==> pos <= p <= bytes@.len(),
        match take_u32(bytes@.skip(pos as int)) {
            None => r is None,
            Some((k, n)) => match reason_of_index(k) {
                None => r is None,
                Some(x) => pos + n <= bytes@.len() && r == Some((x, (pos + n) as usize)),
            },
        },
{
    let (k, p) = match get_u32(bytes, pos) {
        Some(x) => x,
        None => return None,
    };
    match reason_from_index(k) {
        Some(x) => Some((x, p)),
        None => None,
    }
}

fn get_gate(bytes: &[u8], pos: usize) -> (r: Option<(AuthorizationGate, usize)>)
    requires
        pos <= bytes@.len(),
    ensures
        r matches Some((_, p)) ==> pos <= p <= bytes@.len(),
        match take_u32(bytes@.skip(pos as int)) {
            None => r is None,
            Some((k, n)) => match gate_of_index(k) {
                None => r is None,
                Some(x) => pos + n <= bytes@.len() && r == Some((x, (pos + n) as usize)),
            },
        },
{
    let (k, p) = match get_u32(bytes, pos) {
        Some(x) => x,
        None => return None,
    };
    match gate_from_index(k) {
        Some(x) => Some((x, p)),
        None => None,
    }
}

fn get_kind(bytes: &[u8], pos: usize) -> (r: Option<(FulfillmentRejectionKindV1, usize)>)
    requires
        pos <= bytes@.len(),
    ensures
        r matches Some((_, p)) ==> pos <= p <= bytes@.len(),
        match take_u32(bytes@.skip(pos as int)) {
            None => r is None,
            Some((k, n)) => match kind_of_index(k) {
                None => r is None,
                Some(x) => pos + n <= bytes@.len() && r == Some((x, (pos + n) as usize)),
            },
        },
{
    let (k, p) = match get_u32(bytes, pos) {
        Some(x) => x,
        None => return None,
    };
    match kind_from_index(k) {
        Some(x) => Some((x, p)),
        None => None,
    }
}

fn get_denial(bytes: &[u8], pos: usize) -> (r: Option<((DisbursementReasonCode, AuthorizationGate), usize)>)
    requires
        pos <= bytes@.len(),
    ensures
        r matches Some((_, p)) ==> pos <= p <= bytes@.len(),
        match take_denial(bytes@.skip(pos as int)) {
            None => r is None,
            Some((x, n)) => pos + n <= bytes@.len() && r == Some((x, (pos + n) as usize)),
        },
{
    let len = bytes.len();
    assert(bytes@.len() == len);
    let (reason, p1) = match get_reason(bytes, pos) {
        Some(x) => x,
        None => return None,
    };
    proof {
        lemma_skip_skip(bytes@, pos as int, (p1 - pos) as int);
    }
    let (gate, p2) = match get_gate(bytes, p1) {
        Some(x) => x,
        None => return None,
    };
    Some(((reason, gate), p2))
}

fn get_snapshot(bytes: &[u8], pos: usize) -> (r: Option<(AuthorizationSnapshotV1, usize)>)
    requires
        pos <= bytes@.len(),
    ensures
        r matches Some((_, p)) ==> pos <= p <= bytes@.len(),
        match take_snapshot(bytes@.skip(pos as int)) {
            None => r is None,
            Some((x, n)) => pos + n <= bytes@.len() && r == Some((x, (pos + n) as usize)),
        },
{
    let len = bytes.len();
    assert(bytes@.len() == len);
    let (tag, p1) = match get_u32(bytes, pos) {
        Some(x) => x,
        None => return None,
    };
    proof {
        lemma_skip_skip(bytes@, pos as int, (p1 - pos) as int);
    }
    if tag == 0 {
        let (effect, p2) = match get_effect(bytes, p1) {
            Some(x) => x,
            None => return None,
        };
        Some((AuthorizationSnapshotV1::Authorized { effect }, p2))
    } else if tag == 1 {
        let ((reason, gate), p2) = match get_denial(bytes, p1) {
            Some(x) => x,
            None => return None,
        };
        Some((AuthorizationSnapshotV1::Denied { reason, gate }, p2))
    } else {
        None
    }
}

fn get_execution(bytes: &[u8], pos: usize) -> (r: Option<(ExecutionOutcomeV1, usize)>)
    requires
        pos <= bytes@.len(),
    ensures
        r matches Some((_, p)) ==> pos <= p <= bytes@.len(),
        match take_execution(bytes@.skip(pos as int)) {
            None => r is None,
            Some((x, n)) => pos + n <= bytes@.len() && r == Some((x, (pos + n) as usize)),
        },
{
    let len = bytes.len();
    assert(bytes@.len() == len);
    let (tag, p1) = match get_u32(bytes, pos) {
        Some(x) => x,
        None => return None,
    };
    proof {
        lemma_skip_skip(bytes@, pos as int, (p1 - pos) as int);
    }
    if tag == 0 {
        let (tx_hash, p2) = match get_array::<32>(bytes, p1) {
            Some(x) => x,
            None => return None,
        };
        Some((ExecutionOutcomeV1::Settled { tx_hash }, p2))
    } else if tag == 1 {
        let ((reason, gate), p2) = match get_denial(bytes, p1) {
            Some(x) => x,
            None => return None,
        };
        Some((ExecutionOutcomeV1::DeniedUpstream { reason, gate }, p2))
    } else if tag == 2 {
        let (kind, p2) = match get_kind(bytes, p1) {
            Some(x) => x,
            None => return None,
        };
        Some((ExecutionOutcomeV1::RejectedAtFulfillment { kind }, p2))
    } else {
        None
    }
}

fn get_head(bytes: &[u8], pos: usize) -> (r: Option<((u16, DisbursementIntentV1, [u8; 32]), usize)>)
    requires
        pos <= bytes@.len(),
    ensures
        r matches Some((_, p)) ==> pos <= p <= bytes@.len(),
        match take_head(bytes@.skip(pos as int)) {
            None => r is None,
            Some((x, n)) => pos + n <= bytes@.len() && r == Some((x, (pos + n) as usize)),
        },
{
    proof {
        reveal(take_head);
    }
    let len = bytes.len();
    assert(bytes@.len() == len);
    let (version, p1) = match get_u16(bytes, pos) {
        Some(x) => x,
        None => return None,
    };
    proof {
        lemma_skip_skip(bytes@, pos as int, (p1 - pos) as int);
    }
    let (intent, p2) = match get_intent(bytes, p1) {
        Some(x) => x,
        None => return None,
    };
    proof {
        lemma_skip_skip(bytes@, pos as int, (p2 - pos) as int);
    }
    let (id, p3) = match get_array::<32>(bytes, p2) {
        Some(x) => x,
        None => return None,
    };
    Some(((version, intent, id), p3))
}

fn get_counters(bytes: &[u8], pos: usize) -> (r: Option<((u64, u64, u64), usize)>)
    requires
        pos <= bytes@.len(),
    ensures
        r matches Some((_, p)) ==> pos <= p <= bytes@.len(),
        match take_counters(bytes@.skip(pos as int)) {
            None => r is None,
            Some((x, n)) => pos + n <= bytes@.len() && r == Some((x, (pos + n) as usize)),
        },
{
    proof {
        reveal(take_counters);
    }
    let len = bytes.len();
    assert(bytes@.len() == len);
    let (basis, p1) = match get_u64(bytes, pos) {
        Some(x) => x,
        None => return None,
    };
    proof {
        lemma_skip_skip(bytes@, pos as int, (p1 - pos) as int);
    }
    let (now, p2) = match get_u64(bytes, p1) {
        Some(x) => x,
        None => return None,
    };
    proof {
        lemma_skip_skip(bytes@, pos as int, (p2 - pos) as int);
    }
    let (height, p3) = match get_u64(bytes, p2) {
        Some(x) => x,
        None => return None,
    };
    Some(((basis, now, height), p3))
}

fn get_outcome(bytes: &[u8], pos: usize) -> (r: Option<((AuthorizationSnapshotV1, ExecutionOutcomeV1), usize)>)
    requires
        pos <= bytes@.len(),
    ensures
        r matches Some((_, p)) ==> pos <= p <= bytes@.len(),
        match take_outcome(bytes@.skip(pos as int)) {
            None => r is None,
            Some((x, n)) => pos + n <= bytes@.len() && r == Some((x, (pos + n) as usize)),
        },
{
    proof {
        reveal(take_outcome);
    }
    let len = bytes.len();
    assert(bytes@.len() == len);
    let (a, p1) = match get_snapshot(bytes, pos) {
        Some(x) => x,
        None => return None,
    };
    proof {
        lemma_skip_skip(bytes@, pos as int, (p1 - pos) as int);
    }
    let (x, p2) = match get_execution(bytes, p1) {
        Some(x) => x,
        None => return None,
    };
    Some(((a, x), p2))
}

fn get_evidence(bytes: &[u8], pos: usize) -> (r: Option<(DisbursementEvidenceV1, usize)>)
    requires
        pos <= bytes@.len(),
    ensures
        r matches Some((_, p)) ==> pos <= p <= bytes@.len(),
        match take_evidence(bytes@.skip(pos as int)) {
            None => r is None,
            Some((x, n)) => pos + n <= bytes@.len() && r == Some((x, (pos + n) as usize)),
        },
{
    let len = bytes.len();
    assert(bytes@.len() == len);
    let (head, p1) = match get_head(bytes, pos) {
        Some(x) => x,
        None => return None,
    };
    proof {
        lemma_skip_skip(bytes@, pos as int, (p1 - pos) as int);
    }
    let (counters, p2) = match get_counters(bytes, p1) {
        Some(x) => x,
        None => return None,
    };
    proof {
        lemma_skip_skip(bytes@, pos as int, (p2 - pos) as int);
    }
    let (outcome, p3) = match get_outcome(bytes, p2) {
        Some(x) => x,
        None => return None,
    };
    Some((DisbursementEvidenceV1 {
            evidence_version: head.0,
            intent: head.1,
            intent_id: head.2,
            allocation_basis_lovelace: counters.0,
            now_unix_ms: counters.1,
            committed_height: counters.2,
            authorization: outcome.0,
            execution: outcome.1,
        }, p3))
}

/// Decode canonical bytes into an evidence record.
///
/// Strict: bytes that do not start with a valid record are `Malformed`;
/// a valid record followed by anything is `TrailingBytes`.
pub fn decode_evidence(bytes: &[u8]) -> (r: Result<DisbursementEvidenceV1, EvidenceDecodeError>)
    ensures
        r == spec_decode_evidence(bytes@),
{
    assert(bytes@.skip(0) =~= bytes@);
    match get_evidence(bytes, 0) {
        None => Err(EvidenceDecodeError::Malformed),
        Some((evidence, end)) => {
            if end == bytes.len() {
                Ok(evidence)
            } else {
                Err(EvidenceDecodeError::TrailingBytes)
            }
        },
    }
}

} // verus!
