//! Canonical byte form of the intent-domain types: fields in declaration
//! order, integers as postcard varints, fixed-width arrays and `u8` fields
//! as raw bytes, no framing.
use vstd::prelude::*;

use crate::intent::{
    AssetIdV1, AuthorizedEffectV1, CardanoAddressV1, DisbursementIntentV1, OracleFactEvalV1,
    OracleFactProvenanceV1,
};
use crate::wire::{
    append_bytes, get_array, get_byte, get_u16, get_u64, lemma_skip_skip, put_u16, put_u64,
    lemma_skip_concat, enc_u16, enc_u64, lemma_array_roundtrip, lemma_byte_roundtrip, lemma_u16_roundtrip,
    lemma_u64_roundtrip, take_array, take_byte, take_u16, take_u64,
};

verus! {

// ---------------------------------------------------------------- encoders

pub open spec fn enc_fact(f: OracleFactEvalV1) -> Seq<u8> {
    f.asset_pair@ + enc_u64(f.price_microusd) + f.source@
}

pub open spec fn enc_provenance(p: OracleFactProvenanceV1) -> Seq<u8> {
    enc_u64(p.timestamp_unix) + enc_u64(p.expiry_unix) + p.aggregator_utxo_ref@
}

pub open spec fn enc_address(a: CardanoAddressV1) -> Seq<u8> {
    a.bytes@ + seq![a.length]
}

pub open spec fn enc_asset(a: AssetIdV1) -> Seq<u8> {
    a.policy_id@ + a.asset_name@ + seq![a.asset_name_len]
}

/// Three 32-byte identifiers in a row.
#[verifier::opaque]
pub open spec fn enc_ids(x: [u8; 32], y: [u8; 32], z: [u8; 32]) -> Seq<u8> {
    x@ + y@ + z@
}

/// Destination followed by asset.
#[verifier::opaque]
pub open spec fn enc_payee(d: CardanoAddressV1, a: AssetIdV1) -> Seq<u8> {
    enc_address(d) + enc_asset(a)
}

/// Oracle fact, provenance and requested amount.
#[verifier::opaque]
pub open spec fn enc_intent_body(f: OracleFactEvalV1, p: OracleFactProvenanceV1, r: u64) -> Seq<
    u8,
> {
    enc_fact(f) + enc_provenance(p) + enc_u64(r)
}

/// Canonical bytes of an intent.
pub open spec fn enc_intent(i: DisbursementIntentV1) -> Seq<u8> {
    enc_u16(i.intent_version) + enc_ids(i.policy_ref, i.allocation_id, i.requester_id)
        + enc_intent_body(i.oracle_fact, i.oracle_provenance, i.requested_amount_lovelace)
        + enc_payee(i.destination, i.asset)
}

/// Canonical bytes of an authorized effect.
pub open spec fn enc_effect(e: AuthorizedEffectV1) -> Seq<u8> {
    enc_ids(e.policy_ref, e.allocation_id, e.requester_id) + enc_payee(e.destination, e.asset)
        + enc_u64(e.authorized_amount_lovelace) + enc_u64(e.release_cap_basis_points)
}

// ---------------------------------------------------------------- decoders

pub open spec fn take_fact(b: Seq<u8>) -> Option<(OracleFactEvalV1, nat)> {
    match take_array::<16>(b) {
        None => None,
        Some((pair, n1)) => match take_u64(b.skip(n1 as int)) {
            None => None,
            Some((price, n2)) => match take_array::<16>(b.skip((n1 + n2) as int)) {
                None => None,
                Some((source, n3)) => Some(
                    (
                        OracleFactEvalV1 { asset_pair: pair, price_microusd: price, source },
                        n1 + n2 + n3,
                    ),
                ),
            },
        },
    }
}

pub open spec fn take_provenance(b: Seq<u8>) -> Option<(OracleFactProvenanceV1, nat)> {
    match take_u64(b) {
        None => None,
        Some((ts, n1)) => match take_u64(b.skip(n1 as int)) {
            None => None,
            Some((exp, n2)) => match take_array::<32>(b.skip((n1 + n2) as int)) {
                None => None,
                Some((utxo, n3)) => Some(
                    (
                        OracleFactProvenanceV1 {
                            timestamp_unix: ts,
                            expiry_unix: exp,
                            aggregator_utxo_ref: utxo,
                        },
                        n1 + n2 + n3,
                    ),
                ),
            },
        },
    }
}

pub open spec fn take_address(b: Seq<u8>) -> Option<(CardanoAddressV1, nat)> {
    match take_array::<57>(b) {
        None => None,
        Some((bytes, n1)) => match take_byte(b.skip(n1 as int)) {
            None => None,
            Some((length, n2)) => Some((CardanoAddressV1 { bytes, length }, n1 + n2)),
        },
    }
}

pub open spec fn take_asset(b: Seq<u8>) -> Option<(AssetIdV1, nat)> {
    match take_array::<28>(b) {
        None => None,
        Some((policy_id, n1)) => match take_array::<32>(b.skip(n1 as int)) {
            None => None,
            Some((asset_name, n2)) => match take_byte(b.skip((n1 + n2) as int)) {
                None => None,
                Some((asset_name_len, n3)) => Some(
                    (AssetIdV1 { policy_id, asset_name, asset_name_len }, n1 + n2 + n3),
                ),
            },
        },
    }
}

/// Three 32-byte identifiers in a row.
#[verifier::opaque]
pub open spec fn take_ids(b: Seq<u8>) -> Option<(([u8; 32], [u8; 32], [u8; 32]), nat)> {
    match take_array::<32>(b) {
        None => None,
        Some((a, n1)) => match take_array::<32>(b.skip(n1 as int)) {
            None => None,
            Some((c, n2)) => match take_array::<32>(b.skip((n1 + n2) as int)) {
                None => None,
                Some((d, n3)) => Some(((a, c, d), n1 + n2 + n3)),
            },
        },
    }
}

/// Destination followed by asset.
#[verifier::opaque]
pub open spec fn take_payee(b: Seq<u8>) -> Option<((CardanoAddressV1, AssetIdV1), nat)> {
    match take_address(b) {
        None => None,
        Some((d, n1)) => match take_asset(b.skip(n1 as int)) {
            None => None,
            Some((a, n2)) => Some(((d, a), n1 + n2)),
        },
    }
}

/// Oracle fact, provenance and requested amount, in a row.
#[verifier::opaque]
pub open spec fn take_intent_body(b: Seq<u8>) -> Option<
    ((OracleFactEvalV1, OracleFactProvenanceV1, u64), nat),
> {
    match take_fact(b) {
        None => None,
        Some((fact, n1)) => match take_provenance(b.skip(n1 as int)) {
            None => None,
            Some((prov, n2)) => match take_u64(b.skip((n1 + n2) as int)) {
                None => None,
                Some((requested, n3)) => Some(((fact, prov, requested), n1 + n2 + n3)),
            },
        },
    }
}

pub open spec fn take_intent(b: Seq<u8>) -> Option<(DisbursementIntentV1, nat)> {
    match take_u16(b) {
        None => None,
        Some((version, n1)) => match take_ids(b.skip(n1 as int)) {
            None => None,
            Some(((policy_ref, allocation_id, requester_id), n2)) => match take_intent_body(
                b.skip((n1 + n2) as int),
            ) {
                None => None,
                Some(((fact, prov, requested), n3)) => match take_payee(
                    b.skip((n1 + n2 + n3) as int),
                ) {
                    None => None,
                    Some(((destination, asset), n4)) => Some(
                        (
                            DisbursementIntentV1 {
                                intent_version: version,
                                policy_ref,
                                allocation_id,
                                requester_id,
                                oracle_fact: fact,
                                oracle_provenance: prov,
                                requested_amount_lovelace: requested,
                                destination,
                                asset,
                            },
                            n1 + n2 + n3 + n4,
                        ),
                    ),
                },
            },
        },
    }
}

pub open spec fn take_effect(b: Seq<u8>) -> Option<(AuthorizedEffectV1, nat)> {
    match take_ids(b) {
        None => None,
        Some(((policy_ref, allocation_id, requester_id), n1)) => match take_payee(
            b.skip(n1 as int),
        ) {
            None => None,
            Some(((destination, asset), n2)) => match take_u64(b.skip((n1 + n2) as int)) {
                None => None,
                Some((amount, n3)) => match take_u64(b.skip((n1 + n2 + n3) as int)) {
                    None => None,
                    Some((bps, n4)) => Some(
                        (
                            AuthorizedEffectV1 {
                                policy_ref,
                                allocation_id,
                                requester_id,
                                destination,
                                asset,
                                authorized_amount_lovelace: amount,
                                release_cap_basis_points: bps,
                            },
                            n1 + n2 + n3 + n4,
                        ),
                    ),
                },
            },
        },
    }
}

// ---------------------------------------------------------------- round trips

pub proof fn lemma_fact_roundtrip(f: OracleFactEvalV1, rest: Seq<u8>)
    ensures
        take_fact(enc_fact(f) + rest) == Some((f, enc_fact(f).len())),
{
    let e = enc_u64(f.price_microusd);
    let b = enc_fact(f) + rest;
    lemma_u64_roundtrip(f.price_microusd, f.source@ + rest);
    assert(b =~= f.asset_pair@ + (e + (f.source@ + rest)));
    lemma_array_roundtrip(f.asset_pair, e + (f.source@ + rest));
    assert(b.skip(16) =~= e + (f.source@ + rest));
    assert(b.skip(16 + e.len() as int) =~= f.source@ + rest);
    lemma_array_roundtrip(f.source, rest);
}

pub proof fn lemma_provenance_roundtrip(p: OracleFactProvenanceV1, rest: Seq<u8>)
    ensures
        take_provenance(enc_provenance(p) + rest) == Some((p, enc_provenance(p).len())),
{
    let e1 = enc_u64(p.timestamp_unix);
    let e2 = enc_u64(p.expiry_unix);
    let u = p.aggregator_utxo_ref@;
    let b = enc_provenance(p) + rest;
    lemma_u64_roundtrip(p.timestamp_unix, e2 + (u + rest));
    lemma_u64_roundtrip(p.expiry_unix, u + rest);
    assert(b =~= e1 + (e2 + (u + rest)));
    assert(b.skip(e1.len() as int) =~= e2 + (u + rest));
    assert(b.skip(e1.len() + e2.len() as int) =~= u + rest);
    lemma_array_roundtrip(p.aggregator_utxo_ref, rest);
}

pub proof fn lemma_address_roundtrip(a: CardanoAddressV1, rest: Seq<u8>)
    ensures
        take_address(enc_address(a) + rest) == Some((a, enc_address(a).len())),
{
    let b = enc_address(a) + rest;
    assert(b =~= a.bytes@ + (seq![a.length] + rest));
    lemma_array_roundtrip(a.bytes, seq![a.length] + rest);
    assert(b.skip(57) =~= seq![a.length] + rest);
    lemma_byte_roundtrip(a.length, rest);
}

pub proof fn lemma_asset_roundtrip(a: AssetIdV1, rest: Seq<u8>)
    ensures
        take_asset(enc_asset(a) + rest) == Some((a, enc_asset(a).len())),
{
    let b = enc_asset(a) + rest;
    let tail = seq![a.asset_name_len] + rest;
    assert(b =~= a.policy_id@ + (a.asset_name@ + tail));
    lemma_array_roundtrip(a.policy_id, a.asset_name@ + tail);
    assert(b.skip(28) =~= a.asset_name@ + tail);
    lemma_array_roundtrip(a.asset_name, tail);
    assert(b.skip(60) =~= tail);
    lemma_byte_roundtrip(a.asset_name_len, rest);
}

pub proof fn lemma_ids_roundtrip(x: [u8; 32], y: [u8; 32], z: [u8; 32], rest: Seq<u8>)
    ensures
        enc_ids(x, y, z).len() == 96,
        take_ids(enc_ids(x, y, z) + rest) == Some(((x, y, z), 96nat)),
{
    reveal(take_ids);
    reveal(enc_ids);
    let b = x@ + y@ + z@ + rest;
    assert(b =~= x@ + (y@ + (z@ + rest)));
    lemma_array_roundtrip(x, y@ + (z@ + rest));
    assert(b.skip(32) =~= y@ + (z@ + rest));
    lemma_array_roundtrip(y, z@ + rest);
    assert(b.skip(64) =~= z@ + rest);
    lemma_array_roundtrip(z, rest);
}

pub proof fn lemma_payee_roundtrip(d: CardanoAddressV1, a: AssetIdV1, rest: Seq<u8>)
    ensures
        take_payee(enc_payee(d, a) + rest) == Some(((d, a), enc_payee(d, a).len())),
{
    reveal(take_payee);
    reveal(enc_payee);
    let b = enc_address(d) + enc_asset(a) + rest;
    assert(b =~= enc_address(d) + (enc_asset(a) + rest));
    lemma_address_roundtrip(d, enc_asset(a) + rest);
    assert(b.skip(enc_address(d).len() as int) =~= enc_asset(a) + rest);
    lemma_asset_roundtrip(a, rest);
}

pub proof fn lemma_intent_body_roundtrip(
    f: OracleFactEvalV1,
    p: OracleFactProvenanceV1,
    r: u64,
    rest: Seq<u8>,
)
    ensures
        take_intent_body(enc_intent_body(f, p, r) + rest) == Some(
            ((f, p, r), enc_intent_body(f, p, r).len()),
        ),
{
    reveal(take_intent_body);
    reveal(enc_intent_body);
    let ef = enc_fact(f);
    let ep = enc_provenance(p);
    let er = enc_u64(r);
    let b = ef + ep + er + rest;
    assert(b =~= ef + (ep + (er + rest)));
    lemma_fact_roundtrip(f, ep + (er + rest));
    lemma_skip_concat(ef, ep + (er + rest));
    lemma_provenance_roundtrip(p, er + rest);
    assert(b.skip((ef.len() + ep.len()) as int) =~= er + rest);
    lemma_u64_roundtrip(r, rest);
}

/// Decoding an encoded intent gives back the intent and consumes exactly its bytes.
pub proof fn lemma_intent_roundtrip(i: DisbursementIntentV1, rest: Seq<u8>)
    ensures
        take_intent(enc_intent(i) + rest) == Some((i, enc_intent(i).len())),
{
    let e1 = enc_u16(i.intent_version);
    let ids = enc_ids(i.policy_ref, i.allocation_id, i.requester_id);
    let body = enc_intent_body(i.oracle_fact, i.oracle_provenance, i.requested_amount_lovelace);
    let pay = enc_payee(i.destination, i.asset);
    let b = enc_intent(i) + rest;
    assert(b =~= e1 + (ids + (body + (pay + rest))));
    lemma_u16_roundtrip(i.intent_version, ids + (body + (pay + rest)));
    lemma_skip_concat(e1, ids + (body + (pay + rest)));
    lemma_ids_roundtrip(i.policy_ref, i.allocation_id, i.requester_id, body + (pay + rest));
    assert(b.skip((e1.len() + ids.len()) as int) =~= body + (pay + rest));
    lemma_intent_body_roundtrip(
        i.oracle_fact,
        i.oracle_provenance,
        i.requested_amount_lovelace,
        pay + rest,
    );
    assert(b.skip((e1.len() + ids.len() + body.len()) as int) =~= pay + rest);
    lemma_payee_roundtrip(i.destination, i.asset, rest);
}

/// Decoding an encoded effect gives back the effect and consumes exactly its bytes.
pub proof fn lemma_effect_roundtrip(e: AuthorizedEffectV1, rest: Seq<u8>)
    ensures
        take_effect(enc_effect(e) + rest) == Some((e, enc_effect(e).len())),
{
    let ids = enc_ids(e.policy_ref, e.allocation_id, e.requester_id);
    let pay = enc_payee(e.destination, e.asset);
    let a = enc_u64(e.authorized_amount_lovelace);
    let c = enc_u64(e.release_cap_basis_points);
    let b = enc_effect(e) + rest;
    assert(b =~= ids + (pay + (a + (c + rest))));
    lemma_ids_roundtrip(e.policy_ref, e.allocation_id, e.requester_id, pay + (a + (c + rest)));
    lemma_skip_concat(ids, pay + (a + (c + rest)));
    lemma_payee_roundtrip(e.destination, e.asset, a + (c + rest));
    assert(b.skip((ids.len() + pay.len()) as int) =~= a + (c + rest));
    lemma_u64_roundtrip(e.authorized_amount_lovelace, c + rest);
    assert(b.skip((ids.len() + pay.len() + a.len()) as int) =~= c + rest);
    lemma_u64_roundtrip(e.release_cap_basis_points, rest);
}

// ---------------------------------------------------------------- executable encoders

/// Append the canonical bytes of an oracle fact.
pub fn put_fact(out: &mut Vec<u8>, f: &OracleFactEvalV1)
    ensures
        final(out)@ == old(out)@ + enc_fact(*f),
{
    append_bytes(out, f.asset_pair.as_slice());
    put_u64(out, f.price_microusd);
    append_bytes(out, f.source.as_slice());
    proof {
        assert(out@ =~= old(out)@ + enc_fact(*f));
    }
}

/// Append the canonical bytes of oracle provenance.
pub fn put_provenance(out: &mut Vec<u8>, p: &OracleFactProvenanceV1)
    ensures
        final(out)@ == old(out)@ + enc_provenance(*p),
{
    put_u64(out, p.timestamp_unix);
    put_u64(out, p.expiry_unix);
    append_bytes(out, p.aggregator_utxo_ref.as_slice());
    proof {
        assert(out@ =~= old(out)@ + enc_provenance(*p));
    }
}

/// Append three 32-byte identifiers.
pub fn put_ids(out: &mut Vec<u8>, x: &[u8; 32], y: &[u8; 32], z: &[u8; 32])
    ensures
        final(out)@ == old(out)@ + enc_ids(*x, *y, *z),
{
    append_bytes(out, x.as_slice());
    append_bytes(out, y.as_slice());
    append_bytes(out, z.as_slice());
    proof {
        reveal(enc_ids);
        assert(out@ =~= old(out)@ + enc_ids(*x, *y, *z));
    }
}

/// Append destination and asset.
pub fn put_payee(out: &mut Vec<u8>, d: &CardanoAddressV1, a: &AssetIdV1)
    ensures
        final(out)@ == old(out)@ + enc_payee(*d, *a),
{
    append_bytes(out, d.bytes.as_slice());
    out.push(d.length);
    append_bytes(out, a.policy_id.as_slice());
    append_bytes(out, a.asset_name.as_slice());
    out.push(a.asset_name_len);
    proof {
        reveal(enc_payee);
        assert(out@ =~= old(out)@ + enc_payee(*d, *a));
    }
}

/// Append the canonical bytes of an intent.
pub fn put_intent(out: &mut Vec<u8>, i: &DisbursementIntentV1)
    ensures
        final(out)@ == old(out)@ + enc_intent(*i),
{
    put_u16(out, i.intent_version);
    put_ids(out, &i.policy_ref, &i.allocation_id, &i.requester_id);
    put_fact(out, &i.oracle_fact);
    put_provenance(out, &i.oracle_provenance);
    put_u64(out, i.requested_amount_lovelace);
    put_payee(out, &i.destination, &i.asset);
    proof {
        reveal(enc_intent_body);
        assert(out@ =~= old(out)@ + enc_intent(*i));
    }
}

/// Append the canonical bytes of an authorized effect.
pub fn put_effect(out: &mut Vec<u8>, e: &AuthorizedEffectV1)
    ensures
        final(out)@ == old(out)@ + enc_effect(*e),
{
    put_ids(out, &e.policy_ref, &e.allocation_id, &e.requester_id);
    put_payee(out, &e.destination, &e.asset);
    put_u64(out, e.authorized_amount_lovelace);
    put_u64(out, e.release_cap_basis_points);
    proof {
        assert(out@ =~= old(out)@ + enc_effect(*e));
    }
}

// ---------------------------------------------------------------- executable decoders

pub fn get_fact(bytes: &[u8], pos: usize) -> (r: Option<(OracleFactEvalV1, usize)>)
    requires
        pos <= bytes@.len(),
    ensures
        r matches Some((_, p)) ==> pos <= p <= bytes@.len(),
        match take_fact(bytes@.skip(pos as int)) {
            None => r is None,
            Some((x, n)) => pos + n <= bytes@.len() && r == Some((x, (pos + n) as usize)),
        },
{
    let ghost b = bytes@.skip(pos as int);
    let len = bytes.len();
    assert(bytes@.len() == len);
    let (pair, p1) = match get_array::<16>(bytes, pos) {
        Some(x) => x,
        None => return None,
    };
    proof {
        lemma_skip_skip(bytes@, pos as int, (p1 - pos) as int);
    }
    let (price, p2) = match get_u64(bytes, p1) {
        Some(x) => x,
        None => return None,
    };
    proof {
        lemma_skip_skip(bytes@, pos as int, (p2 - pos) as int);
    }
    let (source, p3) = match get_array::<16>(bytes, p2) {
        Some(x) => x,
        None => return None,
    };
    Some((OracleFactEvalV1 { asset_pair: pair, price_microusd: price, source }, p3))
}

pub fn get_provenance(bytes: &[u8], pos: usize) -> (r: Option<(OracleFactProvenanceV1, usize)>)
    requires
        pos <= bytes@.len(),
    ensures
        r matches Some((_, p)) ==> pos <= p <= bytes@.len(),
        match take_provenance(bytes@.skip(pos as int)) {
            None => r is None,
            Some((x, n)) => pos + n <= bytes@.len() && r == Some((x, (pos + n) as usize)),
        },
{
    let len = bytes.len();
    assert(bytes@.len() == len);
    let (ts, p1) = match get_u64(bytes, pos) {
        Some(x) => x,
        None => return None,
    };
    proof {
        lemma_skip_skip(bytes@, pos as int, (p1 - pos) as int);
    }
    let (exp, p2) = match get_u64(bytes, p1) {
        Some(x) => x,
        None => return None,
    };
    proof {
        lemma_skip_skip(bytes@, pos as int, (p2 - pos) as int);
    }
    let (utxo, p3) = match get_array::<32>(bytes, p2) {
        Some(x) => x,
        None => return None,
    };
    Some((OracleFactProvenanceV1 { timestamp_unix: ts, expiry_unix: exp, aggregator_utxo_ref: utxo }, p3))
}

pub fn get_address(bytes: &[u8], pos: usize) -> (r: Option<(CardanoAddressV1, usize)>)
    requires
        pos <= bytes@.len(),
    ensures
        r matches Some((_, p)) ==> pos <= p <= bytes@.len(),
        match take_address(bytes@.skip(pos as int)) {
            None => r is None,
            Some((x, n)) => pos + n <= bytes@.len() && r == Some((x, (pos + n) as usize)),
        },
{
    let len = bytes.len();
    assert(bytes@.len() == len);
    let (raw, p1) = match get_array::<57>(bytes, pos) {
        Some(x) => x,
        None => return None,
    };
    proof {
        lemma_skip_skip(bytes@, pos as int, (p1 - pos) as int);
    }
    let (length, p2) = match get_byte(bytes, p1) {
        Some(x) => x,
        None => return None,
    };
    Some((CardanoAddressV1 { bytes: raw, length }, p2))
}

pub fn get_asset(bytes: &[u8], pos: usize) -> (r: Option<(AssetIdV1, usize)>)
    requires
        pos <= bytes@.len(),
    ensures
        r matches Some((_, p)) ==> pos <= p <= bytes@.len(),
        match take_asset(bytes@.skip(pos as int)) {
            None => r is None,
            Some((x, n)) => pos + n <= bytes@.len() && r == Some((x, (pos + n) as usize)),
        },
{
    let len = bytes.len();
    assert(bytes@.len() == len);
    let (policy_id, p1) = match get_array::<28>(bytes, pos) {
        Some(x) => x,
        None => return None,
    };
    proof {
        lemma_skip_skip(bytes@, pos as int, (p1 - pos) as int);
    }
    let (asset_name, p2) = match get_array::<32>(bytes, p1) {
        Some(x) => x,
        None => return None,
    };
    proof {
        lemma_skip_skip(bytes@, pos as int, (p2 - pos) as int);
    }
    let (asset_name_len, p3) = match get_byte(bytes, p2) {
        Some(x) => x,
        None => return None,
    };
    Some((AssetIdV1 { policy_id, asset_name, asset_name_len }, p3))
}

pub fn get_ids(bytes: &[u8], pos: usize) -> (r: Option<(([u8; 32], [u8; 32], [u8; 32]), usize)>)
    requires
        pos <= bytes@.len(),
    ensures
        r matches Some((_, p)) ==> pos <= p <= bytes@.len(),
        match take_ids(bytes@.skip(pos as int)) {
            None => r is None,
            Some((x, n)) => pos + n <= bytes@.len() && r == Some((x, (pos + n) as usize)),
        },
{
    proof {
        reveal(take_ids);
    }
    let len = bytes.len();
    assert(bytes@.len() == len);
    let (x, p1) = match get_array::<32>(bytes, pos) {
        Some(x) => x,
        None => return None,
    };
    proof {
        lemma_skip_skip(bytes@, pos as int, (p1 - pos) as int);
    }
    let (y, p2) = match get_array::<32>(bytes, p1) {
        Some(x) => x,
        None => return None,
    };
    proof {
        lemma_skip_skip(bytes@, pos as int, (p2 - pos) as int);
    }
    let (z, p3) = match get_array::<32>(bytes, p2) {
        Some(x) => x,
        None => return None,
    };
    Some(((x, y, z), p3))
}

pub fn get_payee(bytes: &[u8], pos: usize) -> (r: Option<((CardanoAddressV1, AssetIdV1), usize)>)
    requires
        pos <= bytes@.len(),
    ensures
        r matches Some((_, p)) ==> pos <= p <= bytes@.len(),
        match take_payee(bytes@.skip(pos as int)) {
            None => r is None,
            Some((x, n)) => pos + n <= bytes@.len() && r == Some((x, (pos + n) as usize)),
        },
{
    proof {
        reveal(take_payee);
    }
    let len = bytes.len();
    assert(bytes@.len() == len);
    let (d, p1) = match get_address(bytes, pos) {
        Some(x) => x,
        None => return None,
    };
    proof {
        lemma_skip_skip(bytes@, pos as int, (p1 - pos) as int);
    }
    let (a, p2) = match get_asset(bytes, p1) {
        Some(x) => x,
        None => return None,
    };
    Some(((d, a), p2))
}

pub fn get_intent_body(bytes: &[u8], pos: usize) -> (r: Option<((OracleFactEvalV1, OracleFactProvenanceV1, u64), usize)>)
    requires
        pos <= bytes@.len(),
    ensures
        r matches Some((_, p)) ==> pos <= p <= bytes@.len(),
        match take_intent_body(bytes@.skip(pos as int)) {
            None => r is None,
            Some((x, n)) => pos + n <= bytes@.len() && r == Some((x, (pos + n) as usize)),
        },
{
    proof {
        reveal(take_intent_body);
    }
    let len = bytes.len();
    assert(bytes@.len() == len);
    let (f, p1) = match get_fact(bytes, pos) {
        Some(x) => x,
        None => return None,
    };
    proof {
        lemma_skip_skip(bytes@, pos as int, (p1 - pos) as int);
    }
    let (prov, p2) = match get_provenance(bytes, p1) {
        Some(x) => x,
        None => return None,
    };
    proof {
        lemma_skip_skip(bytes@, pos as int, (p2 - pos) as int);
    }
    let (requested, p3) = match get_u64(bytes, p2) {
        Some(x) => x,
        None => return None,
    };
    Some(((f, prov, requested), p3))
}

pub fn get_intent(bytes: &[u8], pos: usize) -> (r: Option<(DisbursementIntentV1, usize)>)
    requires
        pos <= bytes@.len(),
    ensures
        r matches Some((_, p)) ==> pos <= p <= bytes@.len(),
        match take_intent(bytes@.skip(pos as int)) {
            None => r is None,
            Some((x, n)) => pos + n <= bytes@.len() && r == Some((x, (pos + n) as usize)),
        },
{
    let len = bytes.len();
    assert(bytes@.len() == len);
    let (version, p1) = match get_u16(bytes, pos) {
        Some(x) => x,
        None => return None,
    };
    proof {
        lemma_skip_skip(bytes@, pos as int, (p1 - pos) as int);
    }
    let (ids, p2) = match get_ids(bytes, p1) {
        Some(x) => x,
        None => return None,
    };
    proof {
        lemma_skip_skip(bytes@, pos as int, (p2 - pos) as int);
    }
    let (body, p3) = match get_intent_body(bytes, p2) {
        Some(x) => x,
        None => return None,
    };
    proof {
        lemma_skip_skip(bytes@, pos as int, (p3 - pos) as int);
    }
    let (payee, p4) = match get_payee(bytes, p3) {
        Some(x) => x,
        None => return None,
    };
    Some((DisbursementIntentV1 {
            intent_version: version,
            policy_ref: ids.0,
            allocation_id: ids.1,
            requester_id: ids.2,
            oracle_fact: body.0,
            oracle_provenance: body.1,
            requested_amount_lovelace: body.2,
            destination: payee.0,
            asset: payee.1,
        }, p4))
}

pub fn get_effect(bytes: &[u8], pos: usize) -> (r: Option<(AuthorizedEffectV1, usize)>)
    requires
        pos <= bytes@.len(),
    ensures
        r matches Some((_, p)) ==> pos <= p <= bytes@.len(),
        match take_effect(bytes@.skip(pos as int)) {
            None => r is None,
            Some((x, n)) => pos + n <= bytes@.len() && r == Some((x, (pos + n) as usize)),
        },
{
    let len = bytes.len();
    assert(bytes@.len() == len);
    let (ids, p1) = match get_ids(bytes, pos) {
        Some(x) => x,
        None => return None,
    };
    proof {
        lemma_skip_skip(bytes@, pos as int, (p1 - pos) as int);
    }
    let (payee, p2) = match get_payee(bytes, p1) {
        Some(x) => x,
        None => return None,
    };
    proof {
        lemma_skip_skip(bytes@, pos as int, (p2 - pos) as int);
    }
    let (amount, p3) = match get_u64(bytes, p2) {
        Some(x) => x,
        None => return None,
    };
    proof {
        lemma_skip_skip(bytes@, pos as int, (p3 - pos) as int);
    }
    let (bps, p4) = match get_u64(bytes, p3) {
        Some(x) => x,
        None => return None,
    };
    Some((AuthorizedEffectV1 {
            policy_ref: ids.0,
            allocation_id: ids.1,
            requester_id: ids.2,
            destination: payee.0,
            asset: payee.1,
            authorized_amount_lovelace: amount,
            release_cap_basis_points: bps,
        }, p4))
}

} // verus!
