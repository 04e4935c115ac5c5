//! Records are self-delimiting: reading a record looks only at the bytes it
//! consumes, so a truncated record never reads as a whole one.
use vstd::prelude::*;

use crate::codec::{
    take_address, take_asset, take_effect, take_fact, take_ids, take_intent, take_intent_body,
    take_payee, take_provenance,
};
use crate::evidence::{
    enc_evidence, lemma_evidence_roundtrip, spec_decode_evidence, take_counters, take_denial,
    take_evidence, take_execution, take_head, take_outcome, take_snapshot, DisbursementEvidenceV1,
    EvidenceDecodeError,
};
use crate::wire::{
    lemma_varint_take_bounded, take_array, take_byte, take_u16, take_u32, take_u64, varint_take,
};

verus! {

/// `s1` and `s2` both hold at least `n` bytes and agree on the first `n`.
pub open spec fn agree(s1: Seq<u8>, s2: Seq<u8>, n: int) -> bool {
    0 <= n <= s1.len() && n <= s2.len() && s1.take(n) == s2.take(n)
}

proof fn lemma_agree_part(s1: Seq<u8>, s2: Seq<u8>, n: int, a: int, c: int)
    requires
        agree(s1, s2, n),
        0 <= a,
        0 <= c,
        a + c <= n,
    ensures
        agree(s1.skip(a), s2.skip(a), c),
        a == 0 ==> agree(s1, s2, c),
{
    assert(s1.skip(a).take(c) =~= s1.take(n).subrange(a, a + c));
    assert(s2.skip(a).take(c) =~= s2.take(n).subrange(a, a + c));
    assert(s1.take(c) =~= s1.take(n).subrange(0, c));
    assert(s2.take(c) =~= s2.take(n).subrange(0, c));
}

proof fn lemma_varint_prefix(s1: Seq<u8>, s2: Seq<u8>, max: nat, last_max: u8)
    ensures
        varint_take(s1, max, last_max) matches Some((v, n)) ==> n <= s1.len() && (agree(
            s1,
            s2,
            n as int,
        ) ==> varint_take(s2, max, last_max) == varint_take(s1, max, last_max)),
    decreases max,
{
    lemma_varint_take_bounded(s1, max, last_max);
    if let Some((v, n)) = varint_take(s1, max, last_max) {
        if agree(s1, s2, n as int) {
            assert(s1[0] == s1.take(n as int)[0]);
            assert(s2[0] == s2.take(n as int)[0]);
            if s1[0] >= 128 {
                lemma_varint_prefix(s1.drop_first(), s2.drop_first(), (max - 1) as nat, last_max);
                lemma_agree_part(s1, s2, n as int, 1, n - 1);
                assert(s1.skip(1) =~= s1.drop_first());
                assert(s2.skip(1) =~= s2.drop_first());
            }
        }
    }
}

proof fn lemma_u64_prefix(s1: Seq<u8>, s2: Seq<u8>)
    ensures
        take_u64(s1) matches Some((v, n)) ==> n <= s1.len() && (agree(s1, s2, n as int) ==> take_u64(
            s2,
        ) == take_u64(s1)),
{
    lemma_varint_prefix(s1, s2, 10, 1);
}

proof fn lemma_u32_prefix(s1: Seq<u8>, s2: Seq<u8>)
    ensures
        take_u32(s1) matches Some((v, n)) ==> n <= s1.len() && (agree(s1, s2, n as int) ==> take_u32(
            s2,
        ) == take_u32(s1)),
{
    lemma_varint_prefix(s1, s2, 5, 15);
}

proof fn lemma_u16_prefix(s1: Seq<u8>, s2: Seq<u8>)
    ensures
        take_u16(s1) matches Some((v, n)) ==> n <= s1.len() && (agree(s1, s2, n as int) ==> take_u16(
            s2,
        ) == take_u16(s1)),
{
    lemma_varint_prefix(s1, s2, 3, 3);
}

proof fn lemma_array_prefix<const N: usize>(s1: Seq<u8>, s2: Seq<u8>)
    ensures
        take_array::<N>(s1) matches Some((v, n)) ==> n <= s1.len() && (agree(s1, s2, n as int)
            ==> take_array::<N>(s2) == take_array::<N>(s1)),
{
}

proof fn lemma_byte_prefix(s1: Seq<u8>, s2: Seq<u8>)
    ensures
        take_byte(s1) matches Some((v, n)) ==> n <= s1.len() && (agree(s1, s2, n as int) ==> take_byte(
            s2,
        ) == take_byte(s1)),
{
    if s1.len() >= 1 && agree(s1, s2, 1) {
        assert(s1[0] == s1.take(1)[0]);
        assert(s2[0] == s2.take(1)[0]);
    }
}

proof fn lemma_snapshot_prefix(s1: Seq<u8>, s2: Seq<u8>)
    ensures
        take_snapshot(s1) matches Some((v, n)) ==> n <= s1.len() && (agree(s1, s2, n as int)
            ==> take_snapshot(s2) == take_snapshot(s1)),
{
    if let Some((v, n)) = take_snapshot(s1) {
        let n1 = take_u32(s1)->Some_0.1;
        lemma_u32_prefix(s1, s2);
        lemma_effect_prefix(s1.skip(n1 as int), s2.skip(n1 as int));
        lemma_denial_prefix(s1.skip(n1 as int), s2.skip(n1 as int));
        let n2 = (n - n1) as nat;
        if agree(s1, s2, n as int) {
            lemma_agree_part(s1, s2, n as int, 0, n1 as int);
            lemma_agree_part(s1, s2, n as int, n1 as int, n2 as int);
        }
    }
}

proof fn lemma_execution_prefix(s1: Seq<u8>, s2: Seq<u8>)
    ensures
        take_execution(s1) matches Some((v, n)) ==> n <= s1.len() && (agree(s1, s2, n as int)
            ==> take_execution(s2) == take_execution(s1)),
{
    if let Some((v, n)) = take_execution(s1) {
        let n1 = take_u32(s1)->Some_0.1;
        lemma_u32_prefix(s1, s2);
        lemma_array_prefix::<32>(s1.skip(n1 as int), s2.skip(n1 as int));
        lemma_denial_prefix(s1.skip(n1 as int), s2.skip(n1 as int));
        lemma_u32_prefix(s1.skip(n1 as int), s2.skip(n1 as int));
        let n2 = (n - n1) as nat;
        if agree(s1, s2, n as int) {
            lemma_agree_part(s1, s2, n as int, 0, n1 as int);
            lemma_agree_part(s1, s2, n as int, n1 as int, n2 as int);
        }
    }
}

proof fn lemma_fact_prefix(s1: Seq<u8>, s2: Seq<u8>)
    ensures
        take_fact(s1) matches Some((v, n)) ==> n <= s1.len() && (agree(s1, s2, n as int) ==> take_fact(
            s2,
        ) == take_fact(s1)),
{
    if let Some((v, n)) = take_fact(s1) {
        let n1 = take_array::<16>(s1)->Some_0.1;
        lemma_array_prefix::<16>(s1, s2);
        let n2 = take_u64(s1.skip((n1) as int))->Some_0.1;
        lemma_u64_prefix(s1.skip((n1) as int), s2.skip((n1) as int));
        let n3 = take_array::<16>(s1.skip((n1 + n2) as int))->Some_0.1;
        lemma_array_prefix::<16>(s1.skip((n1 + n2) as int), s2.skip((n1 + n2) as int));
        if agree(s1, s2, n as int) {
            lemma_agree_part(s1, s2, n as int, 0 as int, n1 as int);
            lemma_agree_part(s1, s2, n as int, (n1) as int, n2 as int);
            lemma_agree_part(s1, s2, n as int, (n1 + n2) as int, n3 as int);
        }
    }
}

proof fn lemma_provenance_prefix(s1: Seq<u8>, s2: Seq<u8>)
    ensures
        take_provenance(s1) matches Some((v, n)) ==> n <= s1.len() && (agree(s1, s2, n as int) ==> take_provenance(
            s2,
        ) == take_provenance(s1)),
{
    if let Some((v, n)) = take_provenance(s1) {
        let n1 = take_u64(s1)->Some_0.1;
        lemma_u64_prefix(s1, s2);
        let n2 = take_u64(s1.skip((n1) as int))->Some_0.1;
        lemma_u64_prefix(s1.skip((n1) as int), s2.skip((n1) as int));
        let n3 = take_array::<32>(s1.skip((n1 + n2) as int))->Some_0.1;
        lemma_array_prefix::<32>(s1.skip((n1 + n2) as int), s2.skip((n1 + n2) as int));
        if agree(s1, s2, n as int) {
            lemma_agree_part(s1, s2, n as int, 0 as int, n1 as int);
            lemma_agree_part(s1, s2, n as int, (n1) as int, n2 as int);
            lemma_agree_part(s1, s2, n as int, (n1 + n2) as int, n3 as int);
        }
    }
}

proof fn lemma_address_prefix(s1: Seq<u8>, s2: Seq<u8>)
    ensures
        take_address(s1) matches Some((v, n)) ==> n <= s1.len() && (agree(s1, s2, n as int) ==> take_address(
            s2,
        ) == take_address(s1)),
{
    if let Some((v, n)) = take_address(s1) {
        let n1 = take_array::<57>(s1)->Some_0.1;
        lemma_array_prefix::<57>(s1, s2);
        let n2 = take_byte(s1.skip((n1) as int))->Some_0.1;
        lemma_byte_prefix(s1.skip((n1) as int), s2.skip((n1) as int));
        if agree(s1, s2, n as int) {
            lemma_agree_part(s1, s2, n as int, 0 as int, n1 as int);
            lemma_agree_part(s1, s2, n as int, (n1) as int, n2 as int);
        }
    }
}

proof fn lemma_asset_prefix(s1: Seq<u8>, s2: Seq<u8>)
    ensures
        take_asset(s1) matches Some((v, n)) ==> n <= s1.len() && (agree(s1, s2, n as int) ==> take_asset(
            s2,
        ) == take_asset(s1)),
{
    if let Some((v, n)) = take_asset(s1) {
        let n1 = take_array::<28>(s1)->Some_0.1;
        lemma_array_prefix::<28>(s1, s2);
        let n2 = take_array::<32>(s1.skip((n1) as int))->Some_0.1;
        lemma_array_prefix::<32>(s1.skip((n1) as int), s2.skip((n1) as int));
        let n3 = take_byte(s1.skip((n1 + n2) as int))->Some_0.1;
        lemma_byte_prefix(s1.skip((n1 + n2) as int), s2.skip((n1 + n2) as int));
        if agree(s1, s2, n as int) {
            lemma_agree_part(s1, s2, n as int, 0 as int, n1 as int);
            lemma_agree_part(s1, s2, n as int, (n1) as int, n2 as int);
            lemma_agree_part(s1, s2, n as int, (n1 + n2) as int, n3 as int);
        }
    }
}

proof fn lemma_ids_prefix(s1: Seq<u8>, s2: Seq<u8>)
    ensures
        take_ids(s1) matches Some((v, n)) ==> n <= s1.len() && (agree(s1, s2, n as int) ==> take_ids(
            s2,
        ) == take_ids(s1)),
{
    reveal(take_ids);
    if let Some((v, n)) = take_ids(s1) {
        let n1 = take_array::<32>(s1)->Some_0.1;
        lemma_array_prefix::<32>(s1, s2);
        let n2 = take_array::<32>(s1.skip((n1) as int))->Some_0.1;
        lemma_array_prefix::<32>(s1.skip((n1) as int), s2.skip((n1) as int));
        let n3 = take_array::<32>(s1.skip((n1 + n2) as int))->Some_0.1;
        lemma_array_prefix::<32>(s1.skip((n1 + n2) as int), s2.skip((n1 + n2) as int));
        if agree(s1, s2, n as int) {
            lemma_agree_part(s1, s2, n as int, 0 as int, n1 as int);
            lemma_agree_part(s1, s2, n as int, (n1) as int, n2 as int);
            lemma_agree_part(s1, s2, n as int, (n1 + n2) as int, n3 as int);
        }
    }
}

proof fn lemma_payee_prefix(s1: Seq<u8>, s2: Seq<u8>)
    ensures
        take_payee(s1) matches Some((v, n)) ==> n <= s1.len() && (agree(s1, s2, n as int) ==> take_payee(
            s2,
        ) == take_payee(s1)),
{
    reveal(take_payee);
    if let Some((v, n)) = take_payee(s1) {
        let n1 = take_address(s1)->Some_0.1;
        lemma_address_prefix(s1, s2);
        let n2 = take_asset(s1.skip((n1) as int))->Some_0.1;
        lemma_asset_prefix(s1.skip((n1) as int), s2.skip((n1) as int));
        if agree(s1, s2, n as int) {
            lemma_agree_part(s1, s2, n as int, 0 as int, n1 as int);
            lemma_agree_part(s1, s2, n as int, (n1) as int, n2 as int);
        }
    }
}

proof fn lemma_intent_body_prefix(s1: Seq<u8>, s2: Seq<u8>)
    ensures
        take_intent_body(s1) matches Some((v, n)) ==> n <= s1.len() && (agree(s1, s2, n as int) ==> take_intent_body(
            s2,
        ) == take_intent_body(s1)),
{
    reveal(take_intent_body);
    if let Some((v, n)) = take_intent_body(s1) {
        let n1 = take_fact(s1)->Some_0.1;
        lemma_fact_prefix(s1, s2);
        let n2 = take_provenance(s1.skip((n1) as int))->Some_0.1;
        lemma_provenance_prefix(s1.skip((n1) as int), s2.skip((n1) as int));
        let n3 = take_u64(s1.skip((n1 + n2) as int))->Some_0.1;
        lemma_u64_prefix(s1.skip((n1 + n2) as int), s2.skip((n1 + n2) as int));
        if agree(s1, s2, n as int) {
            lemma_agree_part(s1, s2, n as int, 0 as int, n1 as int);
            lemma_agree_part(s1, s2, n as int, (n1) as int, n2 as int);
            lemma_agree_part(s1, s2, n as int, (n1 + n2) as int, n3 as int);
        }
    }
}

proof fn lemma_intent_prefix(s1: Seq<u8>, s2: Seq<u8>)
    ensures
        take_intent(s1) matches Some((v, n)) ==> n <= s1.len() && (agree(s1, s2, n as int) ==> take_intent(
            s2,
        ) == take_intent(s1)),
{
    if let Some((v, n)) = take_intent(s1) {
        let n1 = take_u16(s1)->Some_0.1;
        lemma_u16_prefix(s1, s2);
        let n2 = take_ids(s1.skip((n1) as int))->Some_0.1;
        lemma_ids_prefix(s1.skip((n1) as int), s2.skip((n1) as int));
        let n3 = take_intent_body(s1.skip((n1 + n2) as int))->Some_0.1;
        lemma_intent_body_prefix(s1.skip((n1 + n2) as int), s2.skip((n1 + n2) as int));
        let n4 = take_payee(s1.skip((n1 + n2 + n3) as int))->Some_0.1;
        lemma_payee_prefix(s1.skip((n1 + n2 + n3) as int), s2.skip((n1 + n2 + n3) as int));
        if agree(s1, s2, n as int) {
            lemma_agree_part(s1, s2, n as int, 0 as int, n1 as int);
            lemma_agree_part(s1, s2, n as int, (n1) as int, n2 as int);
            lemma_agree_part(s1, s2, n as int, (n1 + n2) as int, n3 as int);
            lemma_agree_part(s1, s2, n as int, (n1 + n2 + n3) as int, n4 as int);
        }
    }
}

proof fn lemma_effect_prefix(s1: Seq<u8>, s2: Seq<u8>)
    ensures
        take_effect(s1) matches Some((v, n)) ==> n <= s1.len() && (agree(s1, s2, n as int) ==> take_effect(
            s2,
        ) == take_effect(s1)),
{
    if let Some((v, n)) = take_effect(s1) {
        let n1 = take_ids(s1)->Some_0.1;
        lemma_ids_prefix(s1, s2);
        let n2 = take_payee(s1.skip((n1) as int))->Some_0.1;
        lemma_payee_prefix(s1.skip((n1) as int), s2.skip((n1) as int));
        let n3 = take_u64(s1.skip((n1 + n2) as int))->Some_0.1;
        lemma_u64_prefix(s1.skip((n1 + n2) as int), s2.skip((n1 + n2) as int));
        let n4 = take_u64(s1.skip((n1 + n2 + n3) as int))->Some_0.1;
        lemma_u64_prefix(s1.skip((n1 + n2 + n3) as int), s2.skip((n1 + n2 + n3) as int));
        if agree(s1, s2, n as int) {
            lemma_agree_part(s1, s2, n as int, 0 as int, n1 as int);
            lemma_agree_part(s1, s2, n as int, (n1) as int, n2 as int);
            lemma_agree_part(s1, s2, n as int, (n1 + n2) as int, n3 as int);
            lemma_agree_part(s1, s2, n as int, (n1 + n2 + n3) as int, n4 as int);
        }
    }
}

proof fn lemma_denial_prefix(s1: Seq<u8>, s2: Seq<u8>)
    ensures
        take_denial(s1) matches Some((v, n)) ==> n <= s1.len() && (agree(s1, s2, n as int) ==> take_denial(
            s2,
        ) == take_denial(s1)),
{
    if let Some((v, n)) = take_denial(s1) {
        let n1 = take_u32(s1)->Some_0.1;
        lemma_u32_prefix(s1, s2);
        let n2 = take_u32(s1.skip((n1) as int))->Some_0.1;
        lemma_u32_prefix(s1.skip((n1) as int), s2.skip((n1) as int));
        if agree(s1, s2, n as int) {
            lemma_agree_part(s1, s2, n as int, 0 as int, n1 as int);
            lemma_agree_part(s1, s2, n as int, (n1) as int, n2 as int);
        }
    }
}

proof fn lemma_head_prefix(s1: Seq<u8>, s2: Seq<u8>)
    ensures
        take_head(s1) matches Some((v, n)) ==> n <= s1.len() && (agree(s1, s2, n as int) ==> take_head(
            s2,
        ) == take_head(s1)),
{
    reveal(take_head);
    if let Some((v, n)) = take_head(s1) {
        let n1 = take_u16(s1)->Some_0.1;
        lemma_u16_prefix(s1, s2);
        let n2 = take_intent(s1.skip((n1) as int))->Some_0.1;
        lemma_intent_prefix(s1.skip((n1) as int), s2.skip((n1) as int));
        let n3 = take_array::<32>(s1.skip((n1 + n2) as int))->Some_0.1;
        lemma_array_prefix::<32>(s1.skip((n1 + n2) as int), s2.skip((n1 + n2) as int));
        if agree(s1, s2, n as int) {
            lemma_agree_part(s1, s2, n as int, 0 as int, n1 as int);
            lemma_agree_part(s1, s2, n as int, (n1) as int, n2 as int);
            lemma_agree_part(s1, s2, n as int, (n1 + n2) as int, n3 as int);
        }
    }
}

proof fn lemma_counters_prefix(s1: Seq<u8>, s2: Seq<u8>)
    ensures
        take_counters(s1) matches Some((v, n)) ==> n <= s1.len() && (agree(s1, s2, n as int) ==> take_counters(
            s2,
        ) == take_counters(s1)),
{
    reveal(take_counters);
    if let Some((v, n)) = take_counters(s1) {
        let n1 = take_u64(s1)->Some_0.1;
        lemma_u64_prefix(s1, s2);
        let n2 = take_u64(s1.skip((n1) as int))->Some_0.1;
        lemma_u64_prefix(s1.skip((n1) as int), s2.skip((n1) as int));
        let n3 = take_u64(s1.skip((n1 + n2) as int))->Some_0.1;
        lemma_u64_prefix(s1.skip((n1 + n2) as int), s2.skip((n1 + n2) as int));
        if agree(s1, s2, n as int) {
            lemma_agree_part(s1, s2, n as int, 0 as int, n1 as int);
            lemma_agree_part(s1, s2, n as int, (n1) as int, n2 as int);
            lemma_agree_part(s1, s2, n as int, (n1 + n2) as int, n3 as int);
        }
    }
}

proof fn lemma_outcome_prefix(s1: Seq<u8>, s2: Seq<u8>)
    ensures
        take_outcome(s1) matches Some((v, n)) ==> n <= s1.len() && (agree(s1, s2, n as int) ==> take_outcome(
            s2,
        ) == take_outcome(s1)),
{
    reveal(take_outcome);
    if let Some((v, n)) = take_outcome(s1) {
        let n1 = take_snapshot(s1)->Some_0.1;
        lemma_snapshot_prefix(s1, s2);
        let n2 = take_execution(s1.skip((n1) as int))->Some_0.1;
        lemma_execution_prefix(s1.skip((n1) as int), s2.skip((n1) as int));
        if agree(s1, s2, n as int) {
            lemma_agree_part(s1, s2, n as int, 0 as int, n1 as int);
            lemma_agree_part(s1, s2, n as int, (n1) as int, n2 as int);
        }
    }
}

proof fn lemma_evidence_prefix(s1: Seq<u8>, s2: Seq<u8>)
    ensures
        take_evidence(s1) matches Some((v, n)) ==> n <= s1.len() && (agree(s1, s2, n as int) ==> take_evidence(
            s2,
        ) == take_evidence(s1)),
{
    if let Some((v, n)) = take_evidence(s1) {
        let n1 = take_head(s1)->Some_0.1;
        lemma_head_prefix(s1, s2);
        let n2 = take_counters(s1.skip((n1) as int))->Some_0.1;
        lemma_counters_prefix(s1.skip((n1) as int), s2.skip((n1) as int));
        let n3 = take_outcome(s1.skip((n1 + n2) as int))->Some_0.1;
        lemma_outcome_prefix(s1.skip((n1 + n2) as int), s2.skip((n1 + n2) as int));
        if agree(s1, s2, n as int) {
            lemma_agree_part(s1, s2, n as int, 0 as int, n1 as int);
            lemma_agree_part(s1, s2, n as int, (n1) as int, n2 as int);
            lemma_agree_part(s1, s2, n as int, (n1 + n2) as int, n3 as int);
        }
    }
}

/// A truncated record is refused: every strict prefix of a record's
/// canonical bytes decodes to `Malformed`.
pub proof fn truncated_records_are_malformed(e: DisbursementEvidenceV1, k: int)
    requires
        0 <= k < enc_evidence(e).len(),
    ensures
        spec_decode_evidence(enc_evidence(e).take(k)) == Err::<DisbursementEvidenceV1, EvidenceDecodeError>(
            EvidenceDecodeError::Malformed,
        ),
{
    let b = enc_evidence(e);
    let t = b.take(k);
    lemma_evidence_roundtrip(e, Seq::empty());
    assert(b + Seq::<u8>::empty() =~= b);
    lemma_evidence_prefix(t, b);
    if let Some((v, n)) = take_evidence(t) {
        assert(t.take(n as int) =~= b.take(n as int));
        assert(take_evidence(b) == take_evidence(t));
    }
}

} // verus!
