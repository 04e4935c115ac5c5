//! Canonical bytes read back: the strict reader reads a document's
//! canonical bytes as its sorted form, so canonicalization is idempotent.
use vstd::prelude::*;

use crate::json::{
    digits_end, digits_value, escape_end, exp_end, frac_end, has_literal, hex4, is_digit, is_ws,
    json_parse, lemma_string_close, lemma_take_string, lit_false, lit_null, lit_true, parse_array,
    parse_items, parse_members, parse_object, parse_value, string_close, take_number, take_string,
    ws_end, JsonDoc, MAX_DEPTH,
};
use crate::keysort::{lemma_sort_contains, lemma_sort_map, sort_by_key};
use crate::policy::{
    canon, canon_entries, canon_list, canonical_result, has_float, join_commas, lemma_any_float,
    lemma_any_float_entry, lemma_canon_entries_index, lemma_canon_entries_map, lemma_canon_sorted,
    lemma_sorted_members_index, lemma_sorted_list_index, member_text, quoted, sorted_doc,
    sorted_list, sorted_members, sorting_keeps_floats,
};

verus! {

// ---------------------------------------------------------------- reading is local

/// `b2` holds at `i2` the `n` bytes that `b1` holds at `i1`.
pub open spec fn same_bytes(b1: Seq<u8>, i1: int, b2: Seq<u8>, i2: int, n: int) -> bool {
    &&& 0 <= i1
    &&& 0 <= i2
    &&& 0 <= n
    &&& i1 + n <= b1.len()
    &&& i2 + n <= b2.len()
    &&& b1.subrange(i1, i1 + n) == b2.subrange(i2, i2 + n)
}

proof fn lemma_same_at(b1: Seq<u8>, i1: int, b2: Seq<u8>, i2: int, n: int, k: int)
    requires
        same_bytes(b1, i1, b2, i2, n),
        0 <= k < n,
    ensures
        b1[i1 + k] == b2[i2 + k],
{
    assert(b1.subrange(i1, i1 + n)[k] == b1[i1 + k]);
    assert(b2.subrange(i2, i2 + n)[k] == b2[i2 + k]);
}

proof fn lemma_same_part(b1: Seq<u8>, i1: int, b2: Seq<u8>, i2: int, n: int, a: int, m: int)
    requires
        same_bytes(b1, i1, b2, i2, n),
        0 <= a,
        0 <= m,
        a + m <= n,
    ensures
        same_bytes(b1, i1 + a, b2, i2 + a, m),
{
    assert(b1.subrange(i1 + a, i1 + a + m) =~= b1.subrange(i1, i1 + n).subrange(a, a + m));
    assert(b2.subrange(i2 + a, i2 + a + m) =~= b2.subrange(i2, i2 + n).subrange(a, a + m));
}

proof fn lemma_hex4_shift(b1: Seq<u8>, j1: int, b2: Seq<u8>, j2: int)
    requires
        same_bytes(b1, j1, b2, j2, 4),
    ensures
        hex4(b1, j1) == hex4(b2, j2),
{
    lemma_same_at(b1, j1, b2, j2, 4, 0);
    lemma_same_at(b1, j1, b2, j2, 4, 1);
    lemma_same_at(b1, j1, b2, j2, 4, 2);
    lemma_same_at(b1, j1, b2, j2, 4, 3);
}

proof fn lemma_escape_shift(b1: Seq<u8>, j1: int, b2: Seq<u8>, j2: int)
    requires
        escape_end(b1, j1) is Some,
        same_bytes(b1, j1, b2, j2, escape_end(b1, j1)->Some_0 - j1),
    ensures
        escape_end(b2, j2) == Some(j2 + (escape_end(b1, j1)->Some_0 - j1)),
{
    let k = escape_end(b1, j1)->Some_0;
    let n = k - j1;
    lemma_same_at(b1, j1, b2, j2, n, 1);
    let c = b1[j1 + 1];
    if c == 0x75 {
        lemma_same_part(b1, j1, b2, j2, n, 2, 4);
        lemma_hex4_shift(b1, j1 + 2, b2, j2 + 2);
        if n == 12 {
            lemma_same_at(b1, j1, b2, j2, n, 6);
            lemma_same_at(b1, j1, b2, j2, n, 7);
            lemma_same_part(b1, j1, b2, j2, n, 8, 4);
            lemma_hex4_shift(b1, j1 + 8, b2, j2 + 8);
        }
    }
}

proof fn lemma_close_shift(b1: Seq<u8>, j1: int, b2: Seq<u8>, j2: int)
    requires
        string_close(b1, j1) is Some,
        same_bytes(b1, j1, b2, j2, string_close(b1, j1)->Some_0 - j1 + 1),
    ensures
        string_close(b2, j2) == Some(j2 + (string_close(b1, j1)->Some_0 - j1)),
    decreases b1.len() - j1,
{
    let c = string_close(b1, j1)->Some_0;
    let n = c - j1 + 1;
    lemma_string_close(b1, j1);
    lemma_same_at(b1, j1, b2, j2, n, 0);
    if b1[j1] == 0x22 {
    } else if b1[j1] == 0x5C {
        let k = escape_end(b1, j1)->Some_0;
        lemma_string_close(b1, k);
        lemma_same_part(b1, j1, b2, j2, n, 0, k - j1);
        lemma_escape_shift(b1, j1, b2, j2);
        lemma_same_part(b1, j1, b2, j2, n, k - j1, c - k + 1);
        lemma_close_shift(b1, k, b2, j2 + (k - j1));
    } else {
        lemma_same_part(b1, j1, b2, j2, n, 1, n - 1);
        lemma_close_shift(b1, j1 + 1, b2, j2 + 1);
    }
}

proof fn lemma_digits_end_step(b: Seq<u8>, x: int)
    ensures
        digits_end(b, x) > x ==> 0 <= x < b.len() && is_digit(b[x]) && digits_end(b, x + 1)
            == digits_end(b, x),
{
}

proof fn lemma_digits_shift(b1: Seq<u8>, x1: int, b2: Seq<u8>, x2: int, m: int)
    requires
        digits_end(b1, x1) == x1 + m,
        same_bytes(b1, x1, b2, x2, m),
        x2 + m == b2.len() || !is_digit(b2[x2 + m]),
    ensures
        digits_end(b2, x2) == x2 + m,
    decreases m,
{
    if m > 0 {
        lemma_digits_end_step(b1, x1);
        lemma_same_at(b1, x1, b2, x2, m, 0);
        lemma_same_part(b1, x1, b2, x2, m, 1, m - 1);
        lemma_digits_shift(b1, x1 + 1, b2, x2 + 1, m - 1);
    }
}

proof fn lemma_digits_value_shift(b1: Seq<u8>, s1: int, b2: Seq<u8>, s2: int, m: int)
    requires
        same_bytes(b1, s1, b2, s2, m),
    ensures
        digits_value(b1, s1, s1 + m) == digits_value(b2, s2, s2 + m),
    decreases m,
{
    if m > 0 {
        lemma_same_part(b1, s1, b2, s2, m, 0, m - 1);
        lemma_digits_value_shift(b1, s1, b2, s2, m - 1);
        lemma_same_at(b1, s1, b2, s2, m, m - 1);
    }
}

/// A byte after which no number can continue.
pub open spec fn ends_number(b: Seq<u8>, k: int) -> bool {
    k == b.len() || (0 <= k < b.len() && !(is_digit(b[k]) || b[k] == 0x2E || b[k] == 0x65
        || b[k] == 0x45))
}

proof fn lemma_integer_shift(b1: Seq<u8>, i1: int, b2: Seq<u8>, i2: int, n: int)
    requires
        take_number(b1, i1) == Some((JsonDoc::Integer(b1.subrange(i1, i1 + n)), i1 + n)),
        same_bytes(b1, i1, b2, i2, n),
        ends_number(b2, i2 + n),
    ensures
        take_number(b2, i2) == Some((JsonDoc::Integer(b2.subrange(i2, i2 + n)), i2 + n)),
{
    let negative = 0 <= i1 < b1.len() && b1[i1] == 0x2D;
    let ds1 = if negative {
        i1 + 1
    } else {
        i1
    };
    assert(0 <= ds1 < b1.len() && is_digit(b1[ds1]));
    let de1 = if b1[ds1] == 0x30 {
        ds1 + 1
    } else {
        digits_end(b1, ds1)
    };
    lemma_digits_end_step(b1, ds1);
    lemma_digits_end_ge(b1, ds1 + 1);
    lemma_digits_end_ge(b1, de1 + 1);
    let fe1 = frac_end(b1, de1)->Some_0;
    lemma_digits_end_ge(b1, fe1 + 1);
    lemma_digits_end_ge(b1, fe1 + 2);
    assert(frac_end(b1, de1) == Some(de1));
    assert(exp_end(b1, de1) == Some(de1));
    assert(de1 == i1 + n);
    let off = ds1 - i1;
    lemma_same_at(b1, i1, b2, i2, n, 0);
    lemma_same_at(b1, i1, b2, i2, n, off);
    let ds2 = i2 + off;
    let de2 = i2 + n;
    lemma_same_part(b1, i1, b2, i2, n, off, n - off);
    if b1[ds1] != 0x30 {
        lemma_digits_shift(b1, ds1, b2, ds2, n - off);
    }
    lemma_digits_value_shift(b1, ds1, b2, ds2, n - off);
    assert(frac_end(b2, de2) == Some(de2));
    assert(exp_end(b2, de2) == Some(de2));
}

proof fn lemma_digits_end_ge(b: Seq<u8>, x: int)
    ensures
        digits_end(b, x) >= x,
    decreases b.len() - x,
{
    if 0 <= x < b.len() && is_digit(b[x]) {
        lemma_digits_end_ge(b, x + 1);
    }
}

proof fn lemma_literal_shift(b1: Seq<u8>, i1: int, b2: Seq<u8>, i2: int, lit: Seq<u8>)
    requires
        has_literal(b1, i1, lit),
        same_bytes(b1, i1, b2, i2, lit.len() as int),
    ensures
        has_literal(b2, i2, lit),
{
}

// ---------------------------------------------------------------- UTF-8 of pieces

proof fn lemma_ascii_utf8(x: Seq<u8>)
    requires
        forall|k: int| 0 <= k < x.len() ==> #[trigger] x[k] < 0x80,
    ensures
        vstd::utf8::valid_utf8(x),
    decreases x.len(),
{
    if x.len() > 0 {
        let b = x[0];
        assert(b & 0x7F <= 0x7F) by (bit_vector);
        assert(vstd::utf8::valid_first_scalar(x));
        let rest = x.subrange(1, x.len() as int);
        assert(vstd::utf8::pop_first_scalar(x) == rest);
        lemma_ascii_utf8(rest);
    }
}

proof fn lemma_quoted_body_utf8(b: Seq<u8>, s: int, e: int)
    requires
        vstd::utf8::valid_utf8(b),
        0 <= s,
        s + 2 <= e <= b.len(),
        b[s] == 0x22,
        b[e - 1] == 0x22,
    ensures
        vstd::utf8::valid_utf8(b.subrange(s + 1, e - 1)),
{
    vstd::utf8::is_char_boundary_iff_not_is_continuation_byte(b, s);
    vstd::utf8::valid_utf8_split(b, s);
    let tail = b.subrange(s, b.len() as int);
    assert(tail[e - 1 - s] == b[e - 1]);
    vstd::utf8::is_char_boundary_iff_not_is_continuation_byte(tail, e - 1 - s);
    vstd::utf8::valid_utf8_split(tail, e - 1 - s);
    let piece = tail.subrange(0, e - 1 - s);
    assert(piece =~= b.subrange(s, e - 1));
    let q = piece[0];
    assert(q & 0x7F <= 0x7F) by (bit_vector);
    assert(vstd::utf8::valid_first_scalar(piece));
    assert(vstd::utf8::pop_first_scalar(piece) =~= b.subrange(s + 1, e - 1));
}

// ---------------------------------------------------------------- printable documents

/// `t` is a string body: followed by a quote, it closes right there.
pub open spec fn str_body(t: Seq<u8>) -> bool {
    string_close(t.push(0x22), 0) == Some(t.len() as int) && vstd::utf8::valid_utf8(t)
}

/// `t` is an integer token: followed by a comma, it reads as that integer.
pub open spec fn int_token(t: Seq<u8>) -> bool {
    take_number(t.push(0x2C), 0) == Some(
        (JsonDoc::Integer(t.push(0x2C).subrange(0, t.len() as int)), t.len() as int),
    ) && vstd::utf8::valid_utf8(t)
}

/// Every text of the document reads back as written, it holds no float,
/// and it nests within the budget `depth`.
pub open spec fn printable(d: JsonDoc, depth: nat) -> bool
    decreases d,
{
    match d {
        JsonDoc::Null => true,
        JsonDoc::Bool(_) => true,
        JsonDoc::Integer(t) => int_token(t),
        JsonDoc::Float => false,
        JsonDoc::Str(t) => str_body(t),
        JsonDoc::Array(items) => depth > 1 && forall|i: int|
            0 <= i < items.len() ==> printable(#[trigger] items[i], (depth - 1) as nat),
        JsonDoc::Object(entries) => depth > 1 && forall|j: int|
            0 <= j < entries.len() ==> str_body(#[trigger] entries[j].0) && printable(
                entries[j].1,
                (depth - 1) as nat,
            ),
    }
}

proof fn lemma_digits_all(b: Seq<u8>, x: int)
    ensures
        forall|k: int| x <= k < digits_end(b, x) ==> is_digit(#[trigger] b[k]),
    decreases b.len() - x,
{
    if 0 <= x < b.len() && is_digit(b[x]) {
        lemma_digits_all(b, x + 1);
    }
}

/// An integer read at `s` is the text of its bytes, all ASCII.
proof fn lemma_integer_text(b: Seq<u8>, s: int)
    requires
        take_number(b, s) matches Some((d, e)) && d is Integer,
    ensures
        take_number(b, s) == Some((JsonDoc::Integer(b.subrange(s, take_number(b, s)->Some_0.1)), take_number(b, s)->Some_0.1)),
        s < take_number(b, s)->Some_0.1 <= b.len(),
        forall|k: int| s <= k < take_number(b, s)->Some_0.1 ==> #[trigger] b[k] < 0x80,
{
    let negative = 0 <= s < b.len() && b[s] == 0x2D;
    let ds = if negative {
        s + 1
    } else {
        s
    };
    let de = if b[ds] == 0x30 {
        ds + 1
    } else {
        digits_end(b, ds)
    };
    lemma_digits_end_step(b, ds);
    lemma_digits_end_ge(b, ds + 1);
    lemma_digits_end_ge(b, de + 1);
    let fe = frac_end(b, de)->Some_0;
    lemma_digits_end_ge(b, fe + 1);
    lemma_digits_end_ge(b, fe + 2);
    lemma_digits_all(b, ds);
    lemma_digits_bound(b, ds);
    assert forall|k: int| s <= k < de implies #[trigger] b[k] < 0x80 by {
        if k >= ds {
            assert(is_digit(b[k]));
        }
    }
}

proof fn lemma_digits_bound(b: Seq<u8>, x: int)
    ensures
        0 <= x <= b.len() ==> digits_end(b, x) <= b.len(),
    decreases b.len() - x,
{
    if 0 <= x < b.len() && is_digit(b[x]) {
        lemma_digits_bound(b, x + 1);
    }
}

#[verifier::rlimit(40)]
proof fn lemma_value_printable(b: Seq<u8>, i: int, depth: nat)
    requires
        vstd::utf8::valid_utf8(b),
    ensures
        parse_value(b, i, depth) matches Some((d, e)) ==> (!has_float(d) ==> printable(d, depth)),
    decreases b.len() - i, 0nat,
{
    let s = ws_end(b, i);
    crate::json::lemma_ws_end(b, i);
    if 0 <= s < b.len() {
        let c = b[s];
        if c == 0x7B {
            if depth > 1 {
                lemma_members_printable(b, s + 1, (depth - 1) as nat);
                if let Some((d, e)) = parse_value(b, i, depth) {
                    if let JsonDoc::Object(es) = d {
                        lemma_any_float_entry(es);
                        assert(!has_float(d) ==> printable(d, depth));
                    }
                }
            }
        } else if c == 0x5B {
            if depth > 1 {
                lemma_items_printable(b, s + 1, (depth - 1) as nat);
                if let Some((d, e)) = parse_value(b, i, depth) {
                    if let JsonDoc::Array(items) = d {
                        lemma_any_float(items);
                        assert(!has_float(d) ==> printable(d, depth));
                    }
                }
            }
        } else if c == 0x22 {
            lemma_string_printable(b, s);
        } else if !has_literal(b, s, lit_null()) && !has_literal(b, s, lit_true())
            && !has_literal(b, s, lit_false()) {
            if let Some((d, e)) = take_number(b, s) {
                if let JsonDoc::Integer(t) = d {
                    lemma_integer_text(b, s);
                    let n = e - s;
                    let b1 = t.push(0x2C);
                    assert(b1.subrange(0, n) =~= b.subrange(s, s + n));
                    lemma_integer_shift(b, s, b1, 0, n);
                    assert(b1.subrange(0, n) =~= t);
                    assert forall|k: int| 0 <= k < t.len() implies #[trigger] t[k] < 0x80 by {
                        assert(t[k] == b[s + k]);
                    }
                    lemma_ascii_utf8(t);
                    assert(int_token(t));
                }
            }
        }
    }
}

proof fn lemma_string_printable(b: Seq<u8>, s: int)
    requires
        vstd::utf8::valid_utf8(b),
    ensures
        take_string(b, s) matches Some((t, e)) ==> str_body(t),
{
    lemma_take_string(b, s);
    if let Some((t, e)) = take_string(b, s) {
        lemma_string_close(b, s + 1);
        let b1 = t.push(0x22);
        assert(b.subrange(s + 1, e) =~= b1.subrange(0, t.len() + 1 as int));
        lemma_close_shift(b, s + 1, b1, 0);
        lemma_quoted_body_utf8(b, s, e);
    }
}

proof fn lemma_items_printable(b: Seq<u8>, j: int, depth: nat)
    requires
        vstd::utf8::valid_utf8(b),
    ensures
        parse_array(b, j, depth) matches Some((d, e)) ==> (d matches JsonDoc::Array(vs) && (
        !crate::policy::any_float(vs) ==> forall|i: int|
            0 <= i < vs.len() ==> printable(#[trigger] vs[i], depth))),
    decreases b.len() - j, 2nat,
{
    lemma_item_list_printable(b, j, depth);
}

proof fn lemma_item_list_printable(b: Seq<u8>, j: int, depth: nat)
    requires
        vstd::utf8::valid_utf8(b),
    ensures
        parse_items(b, j, depth) matches Some((vs, e)) ==> (!crate::policy::any_float(vs)
            ==> forall|i: int| 0 <= i < vs.len() ==> printable(#[trigger] vs[i], depth)),
    decreases b.len() - j, 1nat,
{
    lemma_value_printable(b, j, depth);
    if let Some((v, k)) = parse_value(b, j, depth) {
        if k > j {
            let t = ws_end(b, k);
            crate::json::lemma_ws_end(b, k);
            if 0 <= t < b.len() && b[t] == 0x2C {
                lemma_item_list_printable(b, t + 1, depth);
                if let Some((vs, e)) = parse_items(b, t + 1, depth) {
                    let all = seq![v] + vs;
                    lemma_any_float(all);
                    lemma_any_float(vs);
                    if !crate::policy::any_float(all) {
                        assert(all[0] == v);
                        assert forall|i: int| 0 <= i < vs.len() implies !has_float(#[trigger] vs[i]) by {
                            assert(all[i + 1] == vs[i]);
                        }
                        assert forall|i: int| 0 <= i < all.len() implies printable(#[trigger] all[i], depth) by {
                            if i > 0 {
                                assert(all[i] == vs[i - 1]);
                            }
                        }
                    }
                }
            } else if 0 <= t < b.len() && b[t] == 0x5D {
                let one = seq![v];
                lemma_any_float(one);
                assert(one[0] == v);
            }
        }
    }
}

proof fn lemma_members_printable(b: Seq<u8>, j: int, depth: nat)
    requires
        vstd::utf8::valid_utf8(b),
    ensures
        parse_object(b, j, depth) matches Some((d, e)) ==> (d matches JsonDoc::Object(es) && (
        !crate::policy::any_float_entry(es) ==> forall|m: int|
            0 <= m < es.len() ==> str_body(#[trigger] es[m].0) && printable(es[m].1, depth))),
    decreases b.len() - j, 2nat,
{
    lemma_member_list_printable(b, j, depth);
}

#[verifier::rlimit(40)]
proof fn lemma_member_list_printable(b: Seq<u8>, j: int, depth: nat)
    requires
        vstd::utf8::valid_utf8(b),
    ensures
        parse_members(b, j, depth) matches Some((es, e)) ==> (!crate::policy::any_float_entry(es)
            ==> forall|m: int|
            0 <= m < es.len() ==> str_body(#[trigger] es[m].0) && printable(es[m].1, depth)),
    decreases b.len() - j, 1nat,
{
    let s = ws_end(b, j);
    crate::json::lemma_ws_end(b, j);
    lemma_take_string(b, s);
    lemma_string_printable(b, s);
    if let Some((key, k)) = take_string(b, s) {
        let t = ws_end(b, k);
        crate::json::lemma_ws_end(b, k);
        if 0 <= t < b.len() && b[t] == 0x3A {
            lemma_value_printable(b, t + 1, depth);
            if let Some((v, e)) = parse_value(b, t + 1, depth) {
                if e > j {
                    let u = ws_end(b, e);
                    crate::json::lemma_ws_end(b, e);
                    let one = seq![(key, v)];
                    assert(one[0] == (key, v));
                    lemma_any_float_entry(one);
                    if 0 <= u < b.len() && b[u] == 0x7D && !crate::policy::any_float_entry(one) {
                        assert(!has_float(one[0].1));
                        assert forall|m: int| 0 <= m < one.len() implies str_body(
                            #[trigger] one[m].0,
                        ) && printable(one[m].1, depth) by {
                            assert(m == 0);
                        }
                    }
                    if 0 <= u < b.len() && b[u] == 0x2C {
                        lemma_member_list_printable(b, u + 1, depth);
                        if let Some((es, f)) = parse_members(b, u + 1, depth) {
                            let all = seq![(key, v)] + es;
                            lemma_any_float_entry(all);
                            lemma_any_float_entry(es);
                            if !crate::policy::any_float_entry(all) {
                                assert(all[0] == (key, v));
                                assert forall|m: int| 0 <= m < es.len() implies !has_float(
                                    #[trigger] es[m].1,
                                ) by {
                                    assert(all[m + 1] == es[m]);
                                }
                                assert forall|m: int| 0 <= m < all.len() implies str_body(
                                    #[trigger] all[m].0,
                                ) && printable(all[m].1, depth) by {
                                    if m > 0 {
                                        assert(all[m] == es[m - 1]);
                                    }
                                }
                            }
                        }
                    }
                }
            }
        }
    }
}

// ---------------------------------------------------------------- reading canonical bytes

/// A byte that may follow a value inside canonical bytes, or the end.
pub open spec fn term(b: Seq<u8>, k: int) -> bool {
    k == b.len() || (0 <= k < b.len() && (b[k] == 0x2C || b[k] == 0x5D || b[k] == 0x7D))
}

/// `b` holds the canonical bytes of `v` at `p`, followed by a terminator.
pub open spec fn placed(v: JsonDoc, b: Seq<u8>, p: int) -> bool {
    same_bytes(canon(v), 0, b, p, canon(v).len() as int) && term(b, p + canon(v).len())
}

/// Wherever its canonical bytes stand, `v` reads back as its sorted form.
pub open spec fn rereads(v: JsonDoc, depth: nat) -> bool {
    forall|b: Seq<u8>, p: int|
        #![trigger parse_value(b, p, depth)]
        placed(v, b, p) ==> parse_value(b, p, depth) == Some(
            (sorted_doc(v), p + canon(v).len()),
        )
}

/// A byte that can start a value.
pub open spec fn starts_value(c: u8) -> bool {
    c == 0x7B || c == 0x5B || c == 0x22 || c == 0x6E || c == 0x74 || c == 0x66 || c == 0x2D
        || is_digit(c)
}

proof fn lemma_int_token_start(t: Seq<u8>)
    requires
        int_token(t),
    ensures
        t.len() >= 1,
        t[0] == 0x2D || is_digit(t[0]),
{
    let b = t.push(0x2C);
    lemma_integer_text(b, 0);
    assert(t[0] == b[0]);
    let negative = b[0] == 0x2D;
    if !negative {
        assert(is_digit(b[0]));
    }
}

proof fn lemma_canon_list_index(items: Seq<JsonDoc>)
    ensures
        canon_list(items).len() == items.len(),
        forall|i: int| 0 <= i < items.len() ==> #[trigger] canon_list(items)[i] == canon(items[i]),
    decreases items.len(),
{
    if items.len() > 0 {
        let init = items.subrange(0, items.len() - 1);
        lemma_canon_list_index(init);
        assert forall|i: int| 0 <= i < items.len() implies #[trigger] canon_list(items)[i] == canon(
            items[i],
        ) by {
            if i < items.len() - 1 {
                assert(init[i] == items[i]);
            }
        }
    }
}

proof fn lemma_join_front(ps: Seq<Seq<u8>>)
    requires
        ps.len() >= 1,
    ensures
        ps.len() == 1 ==> join_commas(ps) == ps[0],
        ps.len() >= 2 ==> join_commas(ps) == ps[0] + seq![0x2Cu8] + join_commas(
            ps.subrange(1, ps.len() as int),
        ),
    decreases ps.len(),
{
    if ps.len() >= 2 {
        let init = ps.drop_last();
        lemma_join_front(init);
        let rest = ps.subrange(1, ps.len() as int);
        assert(rest.drop_last() =~= init.subrange(1, init.len() as int));
        assert(rest.last() == ps.last());
        if ps.len() == 2 {
            assert(join_commas(rest) == rest[0]);
        }
    }
}

proof fn lemma_canon_start(d: JsonDoc, depth: nat)
    requires
        printable(d, depth),
    ensures
        canon(d).len() >= 1,
        starts_value(canon(d)[0]),
        !is_ws(canon(d)[0]),
{
    match d {
        JsonDoc::Integer(t) => {
            lemma_int_token_start(t);
        },
        _ => {},
    }
}

proof fn lemma_reparse_items(items: Seq<JsonDoc>, depth: nat, b: Seq<u8>, p: int)
    requires
        items.len() >= 1,
        forall|k: int|
            0 <= k < items.len() ==> rereads(#[trigger] items[k], depth) && printable(
                items[k],
                depth,
            ),
        same_bytes(join_commas(canon_list(items)), 0, b, p, join_commas(canon_list(items)).len() as int),
        p + join_commas(canon_list(items)).len() < b.len(),
        b[p + join_commas(canon_list(items)).len()] == 0x5D,
    ensures
        parse_items(b, p, depth) == Some(
            (sorted_list(items), p + join_commas(canon_list(items)).len() + 1),
        ),
    decreases items.len(),
{
    let ps = canon_list(items);
    let jn = join_commas(ps);
    lemma_canon_list_index(items);
    lemma_sorted_list_index(items);
    lemma_join_front(ps);
    let x = items[0];
    let cx = canon(x);
    let l0 = cx.len() as int;
    assert(ps[0] == cx);
    assert(rereads(x, depth) && printable(x, depth));
    lemma_canon_start(x, depth);
    assert(jn.subrange(0, l0) =~= cx);
    lemma_same_part(jn, 0, b, p, jn.len() as int, 0, l0);
    assert(cx.subrange(0, l0) =~= cx);
    assert(same_bytes(cx, 0, b, p, l0));
    if items.len() == 1 {
        assert(placed(x, b, p));
        assert(parse_value(b, p, depth) == Some((sorted_doc(x), p + l0)));
        assert(ws_end(b, p + l0) == p + l0);
        assert(sorted_list(items) =~= seq![sorted_doc(x)]);
    } else {
        let rest = items.subrange(1, items.len() as int);
        let jr = join_commas(canon_list(rest));
        lemma_canon_list_index(rest);
        lemma_sorted_list_index(rest);
        assert(canon_list(rest) =~= ps.subrange(1, ps.len() as int));
        assert(jn == cx + seq![0x2Cu8] + jr);
        lemma_same_at(jn, 0, b, p, jn.len() as int, l0);
        assert(b[p + l0] == 0x2C);
        assert(placed(x, b, p));
        assert(parse_value(b, p, depth) == Some((sorted_doc(x), p + l0)));
        assert(ws_end(b, p + l0) == p + l0);
        lemma_same_part(jn, 0, b, p, jn.len() as int, l0 + 1, jr.len() as int);
        assert(jn.subrange(l0 + 1, l0 + 1 + jr.len()) =~= jr);
        assert(jr.subrange(0, jr.len() as int) =~= jr);
        assert forall|k: int| 0 <= k < rest.len() implies rereads(#[trigger] rest[k], depth)
            && printable(rest[k], depth) by {
            assert(rest[k] == items[k + 1]);
        }
        lemma_reparse_items(rest, depth, b, p + l0 + 1);
        assert(sorted_list(items) =~= seq![sorted_doc(x)] + sorted_list(rest));
    }
}

/// A member's text.
pub open spec fn member_texts(x: Seq<(Seq<u8>, JsonDoc)>) -> Seq<Seq<u8>> {
    x.map_values(|e: (Seq<u8>, JsonDoc)| member_text(e.0, e.1))
}

/// Members with their values in sorted form.
pub open spec fn sorted_values(x: Seq<(Seq<u8>, JsonDoc)>) -> Seq<(Seq<u8>, JsonDoc)> {
    x.map_values(|e: (Seq<u8>, JsonDoc)| (e.0, sorted_doc(e.1)))
}

/// The first member of canonical object bytes reads back: its key as
/// written, the colon, and its value in sorted form.
proof fn lemma_member_head(key: Seq<u8>, v: JsonDoc, depth: nat, b: Seq<u8>, p: int)
    requires
        str_body(key),
        rereads(v, depth),
        printable(v, depth),
        same_bytes(member_text(key, v), 0, b, p, member_text(key, v).len() as int),
        p + member_text(key, v).len() < b.len(),
        b[p + member_text(key, v).len()] == 0x2C || b[p + member_text(key, v).len()] == 0x7D,
    ensures
        ws_end(b, p) == p,
        take_string(b, p) == Some((key, p + key.len() + 2)),
        ws_end(b, p + key.len() + 2) == p + key.len() + 2,
        b[p + key.len() + 2] == 0x3A,
        parse_value(b, p + key.len() + 3, depth) == Some(
            (sorted_doc(v), p + member_text(key, v).len()),
        ),
        ws_end(b, p + member_text(key, v).len()) == p + member_text(key, v).len(),
{
    let mt = member_text(key, v);
    let l0 = mt.len() as int;
    let kl = key.len() as int;
    let cv = canon(v);
    assert(l0 == kl + 3 + cv.len());
    lemma_same_at(mt, 0, b, p, l0, 0);
    assert(b[p] == 0x22);
    assert(mt.subrange(1, kl + 2) =~= key.push(0x22));
    lemma_same_part(mt, 0, b, p, l0, 1, kl + 1);
    assert(key.push(0x22).subrange(0, kl + 1) =~= key.push(0x22));
    lemma_close_shift(key.push(0x22), 0, b, p + 1);
    assert(b.subrange(p + 1, p + 1 + kl) =~= key.push(0x22).subrange(0, kl));
    assert(key.push(0x22).subrange(0, kl) =~= key);
    lemma_same_at(mt, 0, b, p, l0, kl + 2);
    lemma_canon_start(v, depth);
    lemma_same_part(mt, 0, b, p, l0, kl + 3, cv.len() as int);
    assert(mt.subrange(kl + 3, l0) =~= cv);
    assert(cv.subrange(0, cv.len() as int) =~= cv);
    assert(placed(v, b, p + kl + 3));
}

proof fn lemma_reparse_members(x: Seq<(Seq<u8>, JsonDoc)>, depth: nat, b: Seq<u8>, p: int)
    requires
        x.len() >= 1,
        forall|k: int|
            0 <= k < x.len() ==> str_body(#[trigger] x[k].0) && rereads(x[k].1, depth)
                && printable(x[k].1, depth),
        same_bytes(join_commas(member_texts(x)), 0, b, p, join_commas(member_texts(x)).len() as int),
        p + join_commas(member_texts(x)).len() < b.len(),
        b[p + join_commas(member_texts(x)).len()] == 0x7D,
    ensures
        parse_members(b, p, depth) == Some(
            (sorted_values(x), p + join_commas(member_texts(x)).len() + 1),
        ),
    decreases x.len(),
{
    let ps = member_texts(x);
    let jn = join_commas(ps);
    lemma_join_front(ps);
    let key = x[0].0;
    let v = x[0].1;
    assert(str_body(key) && rereads(v, depth) && printable(v, depth));
    let mt = member_text(key, v);
    let l0 = mt.len() as int;
    assert(ps[0] == mt);
    assert(jn.subrange(0, l0) =~= mt);
    assert(mt.subrange(0, l0) =~= mt);
    lemma_same_part(jn, 0, b, p, jn.len() as int, 0, l0);
    if x.len() == 1 {
        lemma_member_head(key, v, depth, b, p);
        assert(sorted_values(x) =~= seq![(key, sorted_doc(v))]);
    } else {
        let rest = x.subrange(1, x.len() as int);
        let jr = join_commas(member_texts(rest));
        assert(member_texts(rest) =~= ps.subrange(1, ps.len() as int));
        assert(jn == mt + seq![0x2Cu8] + jr);
        lemma_same_at(jn, 0, b, p, jn.len() as int, l0);
        lemma_member_head(key, v, depth, b, p);
        lemma_same_part(jn, 0, b, p, jn.len() as int, l0 + 1, jr.len() as int);
        assert(jn.subrange(l0 + 1, l0 + 1 + jr.len()) =~= jr);
        assert(jr.subrange(0, jr.len() as int) =~= jr);
        assert forall|k: int| 0 <= k < rest.len() implies str_body(#[trigger] rest[k].0) && rereads(
            rest[k].1,
            depth,
        ) && printable(rest[k].1, depth) by {
            assert(rest[k] == x[k + 1]);
        }
        lemma_reparse_members(rest, depth, b, p + l0 + 1);
        assert(sorted_values(x) =~= seq![(key, sorted_doc(v))] + sorted_values(rest));
    }
}

proof fn lemma_reparse_scalar(d: JsonDoc, depth: nat, b: Seq<u8>, p: int)
    requires
        printable(d, depth),
        !(d is Array),
        !(d is Object),
        placed(d, b, p),
    ensures
        parse_value(b, p, depth) == Some((sorted_doc(d), p + canon(d).len())),
{
    let cd = canon(d);
    let l = cd.len() as int;
    lemma_canon_start(d, depth);
    lemma_same_at(cd, 0, b, p, l, 0);
    assert(ws_end(b, p) == p);
    assert(cd.subrange(0, l) =~= cd);
    assert(b.subrange(p, p + l) == cd);
    if has_literal(b, p, lit_null()) {
        assert(b.subrange(p, p + 4)[0] == b[p]);
    }
    if has_literal(b, p, lit_true()) {
        assert(b.subrange(p, p + 4)[0] == b[p]);
    }
    if has_literal(b, p, lit_false()) {
        assert(b.subrange(p, p + 5)[0] == b[p]);
    }
    match d {
        JsonDoc::Integer(t) => {
            let b1 = t.push(0x2C);
            assert(b1.subrange(0, t.len() as int) =~= t);
            lemma_integer_shift(b1, 0, b, p, t.len() as int);
        },
        JsonDoc::Str(t) => {
            let tl = t.len() as int;
            lemma_same_part(cd, 0, b, p, l, 1, tl + 1);
            assert(cd.subrange(1, tl + 2) =~= t.push(0x22));
            assert(t.push(0x22).subrange(0, tl + 1) =~= t.push(0x22));
            lemma_close_shift(t.push(0x22), 0, b, p + 1);
            assert(b.subrange(p + 1, p + 1 + tl) =~= cd.subrange(1, tl + 1));
            assert(cd.subrange(1, tl + 1) =~= t);
        },
        _ => {},
    }
}

proof fn lemma_reparse_array_at(items: Seq<JsonDoc>, depth: nat, b: Seq<u8>, p: int)
    requires
        printable(JsonDoc::Array(items), depth),
        forall|k: int| 0 <= k < items.len() ==> rereads(#[trigger] items[k], (depth - 1) as nat),
        placed(JsonDoc::Array(items), b, p),
    ensures
        parse_value(b, p, depth) == Some(
            (sorted_doc(JsonDoc::Array(items)), p + canon(JsonDoc::Array(items)).len()),
        ),
{
    let d = JsonDoc::Array(items);
    let cd = canon(d);
    let l = cd.len() as int;
    let jn = join_commas(canon_list(items));
    let dp = (depth - 1) as nat;
    lemma_same_at(cd, 0, b, p, l, 0);
    lemma_same_at(cd, 0, b, p, l, 1);
    lemma_same_at(cd, 0, b, p, l, l - 1);
    assert(ws_end(b, p) == p);
    lemma_canon_list_index(items);
    if items.len() == 0 {
        assert(canon_list(items) =~= Seq::<Seq<u8>>::empty());
        assert(ws_end(b, p + 1) == p + 1);
        assert(sorted_list(items) =~= Seq::<JsonDoc>::empty());
    } else {
        lemma_join_front(canon_list(items));
        assert(printable(items[0], dp));
        lemma_canon_start(items[0], dp);
        assert(jn[0] == canon(items[0])[0]);
        assert(cd[1] == jn[0]);
        assert(ws_end(b, p + 1) == p + 1);
        lemma_same_part(cd, 0, b, p, l, 1, jn.len() as int);
        assert(cd.subrange(1, 1 + jn.len() as int) =~= jn);
        assert(jn.subrange(0, jn.len() as int) =~= jn);
        assert forall|k: int| 0 <= k < items.len() implies rereads(#[trigger] items[k], dp)
            && printable(items[k], dp) by {
        }
        lemma_reparse_items(items, dp, b, p + 1);
    }
}

/// The canonical member texts of an object are those of its members sorted
/// by key, and its sorted form holds those members with sorted values.
proof fn lemma_object_order(entries: Seq<(Seq<u8>, JsonDoc)>)
    ensures
        sort_by_key(canon_entries(entries)).map_values(|q: (Seq<u8>, Seq<u8>)| q.1) == member_texts(
            sort_by_key(entries),
        ),
        sort_by_key(sorted_members(entries)) == sorted_values(sort_by_key(entries)),
{
    let x = sort_by_key(entries);
    let f1 = |k: Seq<u8>, v: JsonDoc| member_text(k, v);
    let f2 = |k: Seq<u8>, v: JsonDoc| sorted_doc(v);
    lemma_canon_entries_map(entries);
    lemma_sort_map(entries, f1);
    lemma_sort_map(entries, f2);
    lemma_sorted_members_index(entries);
    assert(entries.map_values(|q: (Seq<u8>, JsonDoc)| (q.0, f1(q.0, q.1))) =~= canon_entries(entries));
    assert(entries.map_values(|q: (Seq<u8>, JsonDoc)| (q.0, f2(q.0, q.1))) =~= sorted_members(entries));
    assert(sort_by_key(canon_entries(entries)).map_values(|q: (Seq<u8>, Seq<u8>)| q.1) =~= member_texts(x));
    assert(sort_by_key(sorted_members(entries)) =~= sorted_values(x));
}

/// The members of an object, sorted by key, keep what each member had.
proof fn lemma_sorted_members_keep(entries: Seq<(Seq<u8>, JsonDoc)>, dp: nat)
    requires
        forall|m: int|
            0 <= m < entries.len() ==> str_body(#[trigger] entries[m].0) && rereads(entries[m].1, dp)
                && printable(entries[m].1, dp),
    ensures
        sort_by_key(entries).len() == entries.len(),
        forall|k: int|
            0 <= k < sort_by_key(entries).len() ==> str_body(#[trigger] sort_by_key(entries)[k].0)
                && rereads(sort_by_key(entries)[k].1, dp) && printable(sort_by_key(entries)[k].1, dp),
{
    let x = sort_by_key(entries);
    lemma_sort_contains(entries);
    assert forall|k: int| 0 <= k < x.len() implies str_body(#[trigger] x[k].0) && rereads(
        x[k].1,
        dp,
    ) && printable(x[k].1, dp) by {
        assert(x.contains(x[k]));
        assert(entries.contains(x[k]));
        let m = choose|m: int| 0 <= m < entries.len() && entries[m] == x[k];
        assert(str_body(entries[m].0));
    }
}

#[verifier::rlimit(30)]
proof fn lemma_reparse_object_at(entries: Seq<(Seq<u8>, JsonDoc)>, depth: nat, b: Seq<u8>, p: int)
    requires
        printable(JsonDoc::Object(entries), depth),
        forall|m: int|
            0 <= m < entries.len() ==> rereads(#[trigger] entries[m].1, (depth - 1) as nat),
        placed(JsonDoc::Object(entries), b, p),
    ensures
        parse_value(b, p, depth) == Some(
            (sorted_doc(JsonDoc::Object(entries)), p + canon(JsonDoc::Object(entries)).len()),
        ),
{
    let d = JsonDoc::Object(entries);
    let cd = canon(d);
    let l = cd.len() as int;
    let dp = (depth - 1) as nat;
    let x = sort_by_key(entries);
    lemma_object_order(entries);
    assert forall|m: int| 0 <= m < entries.len() implies str_body(#[trigger] entries[m].0)
        && rereads(entries[m].1, dp) && printable(entries[m].1, dp) by {
        assert(str_body(entries[m].0));
        assert(rereads(entries[m].1, dp));
    }
    lemma_sorted_members_keep(entries, dp);
    let jn = join_commas(member_texts(x));
    lemma_same_at(cd, 0, b, p, l, 0);
    lemma_same_at(cd, 0, b, p, l, 1);
    lemma_same_at(cd, 0, b, p, l, l - 1);
    assert(ws_end(b, p) == p);
    if entries.len() == 0 {
        assert(member_texts(x) =~= Seq::<Seq<u8>>::empty());
        assert(ws_end(b, p + 1) == p + 1);
        assert(sorted_values(x) =~= Seq::<(Seq<u8>, JsonDoc)>::empty());
    } else {
        lemma_join_front(member_texts(x));
        assert(member_texts(x)[0] == member_text(x[0].0, x[0].1));
        assert(jn[0] == 0x22);
        assert(cd[1] == jn[0]);
        assert(ws_end(b, p + 1) == p + 1);
        lemma_same_part(cd, 0, b, p, l, 1, jn.len() as int);
        assert(cd.subrange(1, 1 + jn.len() as int) =~= jn);
        assert(jn.subrange(0, jn.len() as int) =~= jn);
        lemma_reparse_members(x, dp, b, p + 1);
    }
}

/// Every printable document reads back from its canonical bytes, wherever
/// they stand, as its sorted form.
proof fn lemma_reparse(d: JsonDoc, depth: nat)
    requires
        printable(d, depth),
    ensures
        rereads(d, depth),
    decreases d,
{
    match d {
        JsonDoc::Array(items) => {
            let dp = (depth - 1) as nat;
            assert forall|k: int| 0 <= k < items.len() implies rereads(#[trigger] items[k], dp) by {
                lemma_reparse(items[k], dp);
            }
            assert forall|b: Seq<u8>, p: int| placed(d, b, p) implies #[trigger] parse_value(
                b,
                p,
                depth,
            ) == Some((sorted_doc(d), p + canon(d).len())) by {
                lemma_reparse_array_at(items, depth, b, p);
            }
        },
        JsonDoc::Object(entries) => {
            let dp = (depth - 1) as nat;
            assert forall|m: int| 0 <= m < entries.len() implies rereads(#[trigger] entries[m].1, dp) by {
                reveal_with_fuel(printable, 2);
                assert(str_body(entries[m].0));
                assert(printable(entries[m].1, dp));
                lemma_reparse(entries[m].1, dp);
            }
            assert forall|b: Seq<u8>, p: int| placed(d, b, p) implies #[trigger] parse_value(
                b,
                p,
                depth,
            ) == Some((sorted_doc(d), p + canon(d).len())) by {
                lemma_reparse_object_at(entries, depth, b, p);
            }
        },
        _ => {
            assert forall|b: Seq<u8>, p: int| placed(d, b, p) implies #[trigger] parse_value(
                b,
                p,
                depth,
            ) == Some((sorted_doc(d), p + canon(d).len())) by {
                lemma_reparse_scalar(d, depth, b, p);
            }
        },
    }
}

// ---------------------------------------------------------------- UTF-8 of canonical bytes

proof fn lemma_join_utf8(parts: Seq<Seq<u8>>)
    requires
        forall|i: int| 0 <= i < parts.len() ==> vstd::utf8::valid_utf8(#[trigger] parts[i]),
    ensures
        vstd::utf8::valid_utf8(join_commas(parts)),
    decreases parts.len(),
{
    if parts.len() == 0 {
        lemma_ascii_utf8(Seq::<u8>::empty());
    } else if parts.len() == 1 {
        assert(vstd::utf8::valid_utf8(parts[0]));
    } else {
        let init = parts.drop_last();
        assert forall|i: int| 0 <= i < init.len() implies vstd::utf8::valid_utf8(#[trigger] init[i]) by {
            assert(init[i] == parts[i]);
        }
        lemma_join_utf8(init);
        assert(vstd::utf8::valid_utf8(parts.last()));
        lemma_ascii_utf8(seq![0x2Cu8]);
        vstd::utf8::valid_utf8_concat(join_commas(init), seq![0x2Cu8]);
        vstd::utf8::valid_utf8_concat(join_commas(init) + seq![0x2Cu8], parts.last());
    }
}

proof fn lemma_wrap_utf8(open: u8, mid: Seq<u8>, close: u8)
    requires
        open < 0x80,
        close < 0x80,
        vstd::utf8::valid_utf8(mid),
    ensures
        vstd::utf8::valid_utf8(seq![open] + mid + seq![close]),
{
    lemma_ascii_utf8(seq![open]);
    lemma_ascii_utf8(seq![close]);
    vstd::utf8::valid_utf8_concat(seq![open], mid);
    vstd::utf8::valid_utf8_concat(seq![open] + mid, seq![close]);
}

proof fn lemma_member_utf8(key: Seq<u8>, v: JsonDoc, depth: nat)
    requires
        str_body(key),
        printable(v, depth),
    ensures
        vstd::utf8::valid_utf8(member_text(key, v)),
    decreases v, 1nat,
{
    lemma_wrap_utf8(0x22, key, 0x22);
    lemma_ascii_utf8(seq![0x3Au8]);
    lemma_canon_utf8(v, depth);
    vstd::utf8::valid_utf8_concat(quoted(key), seq![0x3Au8]);
    vstd::utf8::valid_utf8_concat(quoted(key) + seq![0x3Au8], canon(v));
}

proof fn lemma_canon_utf8(d: JsonDoc, depth: nat)
    requires
        printable(d, depth),
    ensures
        vstd::utf8::valid_utf8(canon(d)),
    decreases d, 0nat,
{
    match d {
        JsonDoc::Null => {
            lemma_ascii_utf8(lit_null());
        },
        JsonDoc::Bool(v) => {
            lemma_ascii_utf8(lit_true());
            lemma_ascii_utf8(lit_false());
        },
        JsonDoc::Str(t) => {
            lemma_wrap_utf8(0x22, t, 0x22);
        },
        JsonDoc::Array(items) => {
            let dp = (depth - 1) as nat;
            lemma_canon_list_index(items);
            assert forall|i: int| 0 <= i < canon_list(items).len() implies vstd::utf8::valid_utf8(
                #[trigger] canon_list(items)[i],
            ) by {
                lemma_canon_utf8(items[i], dp);
            }
            lemma_join_utf8(canon_list(items));
            lemma_wrap_utf8(0x5B, join_commas(canon_list(items)), 0x5D);
        },
        JsonDoc::Object(entries) => {
            let dp = (depth - 1) as nat;
            let ce = canon_entries(entries);
            let ss = sort_by_key(ce);
            let texts = ss.map_values(|q: (Seq<u8>, Seq<u8>)| q.1);
            lemma_canon_entries_index(entries);
            lemma_sort_contains(ce);
            assert forall|i: int| 0 <= i < texts.len() implies vstd::utf8::valid_utf8(
                #[trigger] texts[i],
            ) by {
                assert(ss.contains(ss[i]));
                assert(ce.contains(ss[i]));
                let m = choose|m: int| 0 <= m < ce.len() && ce[m] == ss[i];
                assert(str_body(entries[m].0));
                lemma_member_utf8(entries[m].0, entries[m].1, dp);
            }
            lemma_join_utf8(texts);
            lemma_wrap_utf8(0x7B, join_commas(texts), 0x7D);
        },
        _ => {},
    }
}

/// Canonicalization is idempotent: canonical bytes canonicalize to
/// themselves.
pub proof fn canonical_bytes_canonicalize_to_themselves(raw: Seq<u8>)
    requires
        canonical_result(raw) is Ok,
    ensures
        canonical_result(canonical_result(raw)->Ok_0) == canonical_result(raw),
{
    let d = json_parse(raw)->Some_0;
    lemma_value_printable(raw, 0, MAX_DEPTH as nat);
    assert(printable(d, MAX_DEPTH as nat));
    let c = canon(d);
    lemma_reparse(d, MAX_DEPTH as nat);
    assert(c.subrange(0, c.len() as int) =~= c);
    assert(placed(d, c, 0));
    assert(parse_value(c, 0, MAX_DEPTH as nat) == Some((sorted_doc(d), c.len() as int)));
    lemma_canon_utf8(d, MAX_DEPTH as nat);
    assert(ws_end(c, c.len() as int) == c.len());
    assert(json_parse(c) == Some(sorted_doc(d)));
    sorting_keeps_floats(d);
    lemma_canon_sorted(d);
}

} // verus!
