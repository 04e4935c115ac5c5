//! Intent identity: the canonical intent bytes without the oracle
//! provenance, and the BLAKE3 `intent_id` derived from them.
use vstd::prelude::*;

use crate::codec::{
    enc_fact, enc_ids, enc_intent, enc_intent_body, enc_payee, enc_provenance, put_fact, put_ids,
    put_payee,
};
use crate::intent::DisbursementIntentV1;
use crate::wire::{enc_u16, enc_u64, put_u16, put_u64};

verus! {

/// BLAKE3 digest of a byte string (32 bytes).
pub uninterp spec fn blake3_hash(data: Seq<u8>) -> Seq<u8>;

/// `blake3::hash`: the 32-byte BLAKE3 digest of `data`.
#[verifier::external_body]
fn blake3_digest(data: &[u8]) -> (r: [u8; 32])
    ensures
        r@ == blake3_hash(data@),
{
    *blake3::hash(data).as_bytes()
}

/// Errors of `intent_id`.
#[derive(Debug, Clone, PartialEq, Eq, Structural)]
pub enum IntentIdError {
    /// The serializer reported a failure.
    SerializerFailure,
}

/// The identity projection of an intent: every canonical field in order,
/// except `oracle_provenance`, which is left out entirely.
pub open spec fn enc_intent_identity(i: DisbursementIntentV1) -> Seq<u8> {
    enc_u16(i.intent_version) + enc_ids(i.policy_ref, i.allocation_id, i.requester_id) + enc_fact(
        i.oracle_fact,
    ) + enc_u64(i.requested_amount_lovelace) + enc_payee(i.destination, i.asset)
}

/// The intent id: BLAKE3 over the identity projection.
pub open spec fn spec_intent_id(i: DisbursementIntentV1) -> Seq<u8> {
    blake3_hash(enc_intent_identity(i))
}

/// Compute the canonical intent id: always the BLAKE3 digest of the
/// intent's identity bytes.
pub fn intent_id(intent: &DisbursementIntentV1) -> (r: Result<[u8; 32], IntentIdError>)
    ensures
        r matches Ok(id) && id@ == spec_intent_id(*intent),
{
    let mut out: Vec<u8> = Vec::new();
    put_u16(&mut out, intent.intent_version);
    put_ids(&mut out, &intent.policy_ref, &intent.allocation_id, &intent.requester_id);
    put_fact(&mut out, &intent.oracle_fact);
    put_u64(&mut out, intent.requested_amount_lovelace);
    put_payee(&mut out, &intent.destination, &intent.asset);
    proof {
        assert(out@ =~= enc_intent_identity(*intent));
    }
    Ok(blake3_digest(out.as_slice()))
}

/// Provenance non-interference of identity: intents that differ only in
/// their oracle provenance have the same identity bytes and the same id.
pub proof fn intent_id_ignores_provenance(a: DisbursementIntentV1, b: DisbursementIntentV1)
    requires
        a.intent_version == b.intent_version,
        a.policy_ref == b.policy_ref,
        a.allocation_id == b.allocation_id,
        a.requester_id == b.requester_id,
        a.oracle_fact == b.oracle_fact,
        a.requested_amount_lovelace == b.requested_amount_lovelace,
        a.destination == b.destination,
        a.asset == b.asset,
    ensures
        enc_intent_identity(a) == enc_intent_identity(b),
        spec_intent_id(a) == spec_intent_id(b),
{
}

/// The identity bytes are the intent's canonical bytes with exactly the
/// provenance bytes cut out: what precedes and what follows them is kept.
pub proof fn identity_bytes_omit_provenance(i: DisbursementIntentV1)
    ensures
        enc_intent(i) == enc_u16(i.intent_version) + enc_ids(
            i.policy_ref,
            i.allocation_id,
            i.requester_id,
        ) + enc_fact(i.oracle_fact) + enc_provenance(i.oracle_provenance) + enc_u64(
            i.requested_amount_lovelace,
        ) + enc_payee(i.destination, i.asset),
        enc_intent_identity(i) == enc_u16(i.intent_version) + enc_ids(
            i.policy_ref,
            i.allocation_id,
            i.requester_id,
        ) + enc_fact(i.oracle_fact) + enc_u64(i.requested_amount_lovelace) + enc_payee(
            i.destination,
            i.asset,
        ),
{
    reveal(enc_intent_body);
    assert(enc_intent(i) =~= enc_u16(i.intent_version) + enc_ids(
        i.policy_ref,
        i.allocation_id,
        i.requester_id,
    ) + enc_fact(i.oracle_fact) + enc_provenance(i.oracle_provenance) + enc_u64(
        i.requested_amount_lovelace,
    ) + enc_payee(i.destination, i.asset));
}

} // verus!
