//! Primitive wire encodings of the canonical byte form (postcard varints and
//! raw fixed-width byte arrays), with their decoders and round-trip lemmas.
use vstd::prelude::*;

verus! {

#[verifier::external_type_specification]
#[verifier::external_body]
pub struct ExPostcardError(postcard::Error);

/// Unsigned LEB128 as postcard writes it: seven value bits per byte, least
/// significant group first, high bit set on every byte but the last.
pub open spec fn varint_bytes(v: nat) -> Seq<u8>
    decreases v,
{
    if v < 128 {
        seq![v as u8]
    } else {
        seq![((v % 128) + 128) as u8] + varint_bytes(v / 128)
    }
}

/// Postcard's varint reader: at most `max` bytes; a byte below 128 ends the
/// number; the byte in the last allowed position may not exceed `last_max`.
/// Yields the value and the number of bytes consumed.
pub open spec fn varint_take(b: Seq<u8>, max: nat, last_max: u8) -> Option<(nat, nat)>
    decreases max,
{
    if max == 0 || b.len() == 0 {
        None
    } else if b[0] < 128 {
        if max == 1 && b[0] > last_max {
            None
        } else {
            Some((b[0] as nat, 1nat))
        }
    } else {
        match varint_take(b.drop_first(), (max - 1) as nat, last_max) {
            Some((v, n)) => Some((((b[0] - 128) + 128 * v) as nat, n + 1)),
            None => None,
        }
    }
}

/// Largest value (exclusive) that `max` varint bytes with a last-byte limit
/// of `last_max` can carry.
pub open spec fn varint_bound(max: nat, last_max: nat) -> nat
    decreases max,
{
    if max <= 1 {
        last_max + 1
    } else {
        128 * varint_bound((max - 1) as nat, last_max)
    }
}

/// Reading back what was written yields the value and its length, whatever follows.
pub proof fn lemma_varint_roundtrip(v: nat, rest: Seq<u8>, max: nat, last_max: u8)
    requires
        max >= 1,
        last_max < 128,
        v < varint_bound(max, last_max as nat),
    ensures
        varint_bytes(v).len() >= 1,
        varint_take(varint_bytes(v) + rest, max, last_max) == Some((v, varint_bytes(v).len())),
    decreases v,
{
    let b = varint_bytes(v) + rest;
    if v < 128 {
        assert(b[0] == v as u8);
        if max == 1 {
            assert(varint_bound(max, last_max as nat) == last_max + 1);
        }
    } else {
        if max == 1 {
            assert(varint_bound(max, last_max as nat) == last_max + 1);
            assert(false);
        }
        let m1 = (max - 1) as nat;
        assert(varint_bound(max, last_max as nat) == 128 * varint_bound(m1, last_max as nat));
        assert(v / 128 < varint_bound(m1, last_max as nat)) by (nonlinear_arith)
            requires
                v < 128 * varint_bound(m1, last_max as nat),
        ;
        lemma_varint_roundtrip(v / 128, rest, m1, last_max);
        assert(b.drop_first() =~= varint_bytes(v / 128) + rest);
        assert(b[0] == ((v % 128) + 128) as u8);
        assert(v == v % 128 + 128 * (v / 128));
    }
}

/// Postcard `u64`: at most ten bytes, the tenth at most 1.
pub open spec fn take_u64(b: Seq<u8>) -> Option<(u64, nat)> {
    match varint_take(b, 10, 1) {
        Some((v, n)) => Some((v as u64, n)),
        None => None,
    }
}

/// Postcard `u32`: at most five bytes, the fifth at most 15.
pub open spec fn take_u32(b: Seq<u8>) -> Option<(u32, nat)> {
    match varint_take(b, 5, 15) {
        Some((v, n)) => Some((v as u32, n)),
        None => None,
    }
}

/// Postcard `u16`: at most three bytes, the third at most 3.
pub open spec fn take_u16(b: Seq<u8>) -> Option<(u16, nat)> {
    match varint_take(b, 3, 3) {
        Some((v, n)) => Some((v as u16, n)),
        None => None,
    }
}

/// Bytes postcard writes for a `u64`.
pub open spec fn enc_u64(v: u64) -> Seq<u8> {
    varint_bytes(v as nat)
}

/// Bytes postcard writes for a `u32`.
pub open spec fn enc_u32(v: u32) -> Seq<u8> {
    varint_bytes(v as nat)
}

/// Bytes postcard writes for a `u16`.
pub open spec fn enc_u16(v: u16) -> Seq<u8> {
    varint_bytes(v as nat)
}

pub proof fn lemma_u64_roundtrip(v: u64, rest: Seq<u8>)
    ensures
        enc_u64(v).len() >= 1,
        take_u64(enc_u64(v) + rest) == Some((v, enc_u64(v).len())),
{
    reveal_with_fuel(varint_bound, 11);
    assert(varint_bound(10, 1) == 0x1_0000_0000_0000_0000);
    lemma_varint_roundtrip(v as nat, rest, 10, 1);
}

pub proof fn lemma_u32_roundtrip(v: u32, rest: Seq<u8>)
    ensures
        enc_u32(v).len() >= 1,
        take_u32(enc_u32(v) + rest) == Some((v, enc_u32(v).len())),
{
    reveal_with_fuel(varint_bound, 6);
    assert(varint_bound(5, 15) == 0x1_0000_0000);
    lemma_varint_roundtrip(v as nat, rest, 5, 15);
}

pub proof fn lemma_u16_roundtrip(v: u16, rest: Seq<u8>)
    ensures
        enc_u16(v).len() >= 1,
        take_u16(enc_u16(v) + rest) == Some((v, enc_u16(v).len())),
{
    reveal_with_fuel(varint_bound, 4);
    assert(varint_bound(3, 3) == 0x1_0000);
    lemma_varint_roundtrip(v as nat, rest, 3, 3);
}

/// A varint result always fits the bound for its width.
pub proof fn lemma_varint_take_bounded(b: Seq<u8>, max: nat, last_max: u8)
    ensures
        varint_take(b, max, last_max) matches Some((v, n)) ==> v < varint_bound(max, last_max as nat)
            && 1 <= n <= max && n <= b.len(),
    decreases max,
{
    if max > 0 && b.len() > 0 && b[0] >= 128 {
        lemma_varint_take_bounded(b.drop_first(), (max - 1) as nat, last_max);
        if let Some((v, n)) = varint_take(b.drop_first(), (max - 1) as nat, last_max) {
            if max == 1 {
                assert(false);
            }
            assert(varint_bound(max, last_max as nat) == 128 * varint_bound(
                (max - 1) as nat,
                last_max as nat,
            ));
            assert((b[0] - 128) + 128 * v < 128 * varint_bound((max - 1) as nat, last_max as nat))
                by (nonlinear_arith)
                requires
                    0 <= b[0] - 128 < 128,
                    v < varint_bound((max - 1) as nat, last_max as nat),
            ;
        }
    } else if max > 0 && b.len() > 0 {
        if max == 1 {
        } else {
            reveal_with_fuel(varint_bound, 2);
            lemma_varint_bound_at_least_128((max - 1) as nat, last_max as nat);
        }
    }
}

proof fn lemma_varint_bound_at_least_128(max: nat, last_max: nat)
    requires
        max >= 1,
    ensures
        varint_bound(max, last_max) >= 1,
        varint_bound(max + 1, last_max) >= 128,
    decreases max,
{
    if max > 1 {
        lemma_varint_bound_at_least_128((max - 1) as nat, last_max);
    }
}

/// The decoded `u64` varint value is exactly the postcard value (no truncation).
pub proof fn lemma_take_u64_exact(b: Seq<u8>)
    ensures
        varint_take(b, 10, 1) matches Some((v, n)) ==> v < 0x1_0000_0000_0000_0000,
{
    reveal_with_fuel(varint_bound, 11);
    lemma_varint_take_bounded(b, 10, 1);
}

pub proof fn lemma_take_u32_exact(b: Seq<u8>)
    ensures
        varint_take(b, 5, 15) matches Some((v, n)) ==> v < 0x1_0000_0000,
{
    reveal_with_fuel(varint_bound, 6);
    lemma_varint_take_bounded(b, 5, 15);
}

pub proof fn lemma_take_u16_exact(b: Seq<u8>)
    ensures
        varint_take(b, 3, 3) matches Some((v, n)) ==> v < 0x1_0000,
{
    reveal_with_fuel(varint_bound, 4);
    lemma_varint_take_bounded(b, 3, 3);
}

/// `postcard::to_allocvec` on a `u64`: the value's varint bytes. Its
/// growable-vector output never reports an error, so the result is `Ok`.
#[verifier::external_body]
fn postcard_to_vec_u64(v: u64) -> (r: Result<Vec<u8>, postcard::Error>)
    ensures
        r is Ok,
        r matches Ok(bytes) ==> bytes@ == varint_bytes(v as nat),
{
    postcard::to_allocvec(&v)
}

/// `postcard::to_allocvec` on a `u32`: the value's varint bytes. Its
/// growable-vector output never reports an error, so the result is `Ok`.
#[verifier::external_body]
fn postcard_to_vec_u32(v: u32) -> (r: Result<Vec<u8>, postcard::Error>)
    ensures
        r is Ok,
        r matches Ok(bytes) ==> bytes@ == varint_bytes(v as nat),
{
    postcard::to_allocvec(&v)
}

/// `postcard::to_allocvec` on a `u16`: the value's varint bytes. Its
/// growable-vector output never reports an error, so the result is `Ok`.
#[verifier::external_body]
fn postcard_to_vec_u16(v: u16) -> (r: Result<Vec<u8>, postcard::Error>)
    ensures
        r is Ok,
        r matches Ok(bytes) ==> bytes@ == varint_bytes(v as nat),
{
    postcard::to_allocvec(&v)
}

/// `postcard::take_from_bytes::<u64>`: the varint read of `varint_take(.., 10, 1)`,
/// returned with the length of the unread remainder.
#[verifier::external_body]
fn postcard_take_u64(bytes: &[u8]) -> (r: Result<(u64, usize), postcard::Error>)
    ensures
        r is Ok <==> varint_take(bytes@, 10, 1) is Some,
        r matches Ok((v, rest)) ==> rest <= bytes@.len() && varint_take(bytes@, 10, 1) == Some(
            (v as nat, (bytes@.len() - rest) as nat),
        ),
{
    postcard::take_from_bytes::<u64>(bytes).map(|(v, rest)| (v, rest.len()))
}

/// `postcard::take_from_bytes::<u32>`: the varint read of `varint_take(.., 5, 15)`.
#[verifier::external_body]
fn postcard_take_u32(bytes: &[u8]) -> (r: Result<(u32, usize), postcard::Error>)
    ensures
        r is Ok <==> varint_take(bytes@, 5, 15) is Some,
        r matches Ok((v, rest)) ==> rest <= bytes@.len() && varint_take(bytes@, 5, 15) == Some(
            (v as nat, (bytes@.len() - rest) as nat),
        ),
{
    postcard::take_from_bytes::<u32>(bytes).map(|(v, rest)| (v, rest.len()))
}

/// `postcard::take_from_bytes::<u16>`: the varint read of `varint_take(.., 3, 3)`.
#[verifier::external_body]
fn postcard_take_u16(bytes: &[u8]) -> (r: Result<(u16, usize), postcard::Error>)
    ensures
        r is Ok <==> varint_take(bytes@, 3, 3) is Some,
        r matches Ok((v, rest)) ==> rest <= bytes@.len() && varint_take(bytes@, 3, 3) == Some(
            (v as nat, (bytes@.len() - rest) as nat),
        ),
{
    postcard::take_from_bytes::<u16>(bytes).map(|(v, rest)| (v, rest.len()))
}

/// Append the postcard bytes of a `u64`.
pub fn put_u64(out: &mut Vec<u8>, v: u64)
    ensures
        final(out)@ == old(out)@ + enc_u64(v),
{
    if let Ok(bytes) = postcard_to_vec_u64(v) {
        append_bytes(out, bytes.as_slice());
    }
}

/// Append the postcard bytes of a `u32`.
pub fn put_u32(out: &mut Vec<u8>, v: u32)
    ensures
        final(out)@ == old(out)@ + enc_u32(v),
{
    if let Ok(bytes) = postcard_to_vec_u32(v) {
        append_bytes(out, bytes.as_slice());
    }
}

/// Append the postcard bytes of a `u16`.
pub fn put_u16(out: &mut Vec<u8>, v: u16)
    ensures
        final(out)@ == old(out)@ + enc_u16(v),
{
    if let Ok(bytes) = postcard_to_vec_u16(v) {
        append_bytes(out, bytes.as_slice());
    }
}

/// Append raw bytes.
pub fn append_bytes(out: &mut Vec<u8>, bytes: &[u8])
    ensures
        final(out)@ == old(out)@ + bytes@,
{
    let ghost start = out@;
    let mut i: usize = 0;
    while i < bytes.len()
        invariant
            i <= bytes@.len(),
            out@ == start + bytes@.subrange(0, i as int),
        decreases bytes@.len() - i,
    {
        out.push(bytes[i]);
        i = i + 1;
        assert(out@ =~= start + bytes@.subrange(0, i as int));
    }
    assert(bytes@.subrange(0, bytes@.len() as int) =~= bytes@);
}

/// Read a postcard `u64` at `pos`; yields the value and the position after it.
pub fn get_u64(bytes: &[u8], pos: usize) -> (r: Option<(u64, usize)>)
    requires
        pos <= bytes@.len(),
    ensures
        r matches Some((_, p)) ==> pos < p <= bytes@.len(),
        match take_u64(bytes@.skip(pos as int)) {
            None => r is None,
            Some((v, n)) => pos + n <= bytes@.len() && r == Some((v, (pos + n) as usize)),
        },
{
    let tail = vstd::slice::slice_subrange(bytes, pos, bytes.len());
    assert(tail@ =~= bytes@.skip(pos as int));
    proof {
        lemma_take_u64_exact(tail@);
        lemma_varint_take_bounded(tail@, 10, 1);
    }
    match postcard_take_u64(tail) {
        Ok((v, rest)) => Some((v, pos + (tail.len() - rest))),
        Err(_) => None,
    }
}

/// Read a postcard `u32` at `pos`.
pub fn get_u32(bytes: &[u8], pos: usize) -> (r: Option<(u32, usize)>)
    requires
        pos <= bytes@.len(),
    ensures
        r matches Some((_, p)) ==> pos < p <= bytes@.len(),
        match take_u32(bytes@.skip(pos as int)) {
            None => r is None,
            Some((v, n)) => pos + n <= bytes@.len() && r == Some((v, (pos + n) as usize)),
        },
{
    let tail = vstd::slice::slice_subrange(bytes, pos, bytes.len());
    assert(tail@ =~= bytes@.skip(pos as int));
    proof {
        lemma_take_u32_exact(tail@);
        lemma_varint_take_bounded(tail@, 5, 15);
    }
    match postcard_take_u32(tail) {
        Ok((v, rest)) => Some((v, pos + (tail.len() - rest))),
        Err(_) => None,
    }
}

/// Read a postcard `u16` at `pos`.
pub fn get_u16(bytes: &[u8], pos: usize) -> (r: Option<(u16, usize)>)
    requires
        pos <= bytes@.len(),
    ensures
        r matches Some((_, p)) ==> pos < p <= bytes@.len(),
        match take_u16(bytes@.skip(pos as int)) {
            None => r is None,
            Some((v, n)) => pos + n <= bytes@.len() && r == Some((v, (pos + n) as usize)),
        },
{
    let tail = vstd::slice::slice_subrange(bytes, pos, bytes.len());
    assert(tail@ =~= bytes@.skip(pos as int));
    proof {
        lemma_take_u16_exact(tail@);
        lemma_varint_take_bounded(tail@, 3, 3);
    }
    match postcard_take_u16(tail) {
        Ok((v, rest)) => Some((v, pos + (tail.len() - rest))),
        Err(_) => None,
    }
}

/// The fixed-width array whose bytes are `s`.
pub open spec fn array_from<const N: usize>(s: Seq<u8>) -> [u8; N] {
    choose|a: [u8; N]| a@ == s
}

/// Raw fixed-width array: the next `N` bytes.
pub open spec fn take_array<const N: usize>(b: Seq<u8>) -> Option<([u8; N], nat)> {
    if b.len() >= N {
        Some((array_from::<N>(b.take(N as int)), N as nat))
    } else {
        None
    }
}

/// A single raw byte (postcard's `u8`).
pub open spec fn take_byte(b: Seq<u8>) -> Option<(u8, nat)> {
    if b.len() >= 1 {
        Some((b[0], 1nat))
    } else {
        None
    }
}

/// `array_from` inverts the array view.
pub proof fn lemma_array_from_view<const N: usize>(a: [u8; N])
    ensures
        array_from::<N>(a@) == a,
{
    let c = array_from::<N>(a@);
    assert(exists|x: [u8; N]| x@ == a@);
    assert(c@ == a@);
    assert(c =~= a);
}

pub proof fn lemma_array_roundtrip<const N: usize>(a: [u8; N], rest: Seq<u8>)
    ensures
        take_array::<N>(a@ + rest) == Some((a, N as nat)),
{
    assert((a@ + rest).take(N as int) =~= a@);
    lemma_array_from_view(a);
}

pub proof fn lemma_byte_roundtrip(v: u8, rest: Seq<u8>)
    ensures
        take_byte(seq![v] + rest) == Some((v, 1nat)),
{
}

/// Read `N` raw bytes at `pos` into an array.
pub fn get_array<const N: usize>(bytes: &[u8], pos: usize) -> (r: Option<([u8; N], usize)>)
    requires
        pos <= bytes@.len(),
    ensures
        r matches Some((_, p)) ==> p == pos + N && p <= bytes@.len(),
        match take_array::<N>(bytes@.skip(pos as int)) {
            None => r is None,
            Some((a, n)) => pos + n <= bytes@.len() && r == Some((a, (pos + n) as usize)),
        },
{
    if bytes.len() - pos < N {
        return None;
    }
    let mut a = [0u8; N];
    let mut i: usize = 0;
    while i < N
        invariant
            i <= N,
            pos + N <= bytes.len(),
            a@.len() == N,
            forall|j: int| 0 <= j < i ==> a@[j] == bytes@[pos + j],
        decreases N - i,
    {
        a[i] = bytes[pos + i];
        i = i + 1;
    }
    proof {
        assert(a@ =~= bytes@.skip(pos as int).take(N as int));
        lemma_array_from_view(a);
    }
    Some((a, pos + N))
}

/// Read one raw byte at `pos`.
pub fn get_byte(bytes: &[u8], pos: usize) -> (r: Option<(u8, usize)>)
    requires
        pos <= bytes@.len(),
    ensures
        r matches Some((_, p)) ==> pos < p <= bytes@.len(),
        match take_byte(bytes@.skip(pos as int)) {
            None => r is None,
            Some((v, n)) => pos + n <= bytes@.len() && r == Some((v, (pos + n) as usize)),
        },
{
    if pos < bytes.len() {
        Some((bytes[pos], pos + 1))
    } else {
        None
    }
}

/// What follows a prefix is what remains after skipping it.
pub proof fn lemma_skip_concat(a: Seq<u8>, b: Seq<u8>)
    ensures
        (a + b).skip(a.len() as int) == b,
{
    assert((a + b).skip(a.len() as int) =~= b);
}

/// Skipping twice is skipping the sum.
pub proof fn lemma_skip_skip(s: Seq<u8>, i: int, j: int)
    requires
        0 <= i,
        0 <= j,
        i + j <= s.len(),
    ensures
        s.skip(i).skip(j) == s.skip(i + j),
{
    assert(s.skip(i).skip(j) =~= s.skip(i + j));
}

} // verus!
