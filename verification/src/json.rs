//! Strict JSON text (RFC 8259) over bytes, read into a document that keeps
//! the text of every string, object key and integer exactly as written.
//!
//! The grammar follows the strict reader the policy format is defined
//! against: whitespace is space, tab, line feed and carriage return;
//! strings hold no raw control byte and only the escapes `\" \\ \/ \b \f
//! \n \r \t \uXXXX`, where a `\u` surrogate must be a leading one followed
//! by a `\u` trailing one; numbers have no leading zeros and need digits
//! after `.` and in an exponent; at most 127 arrays and objects nest; the
//! input is UTF-8; after the document only whitespace may follow.
use vstd::prelude::*;

verus! {

/// A JSON document as read from text. `Str` and object keys hold the bytes
/// between the quotes exactly as written, escapes included; `Integer` holds
/// the number's text as written. A number with a fraction or an exponent,
/// a positive integer above `u64::MAX`, a negative integer below
/// `i64::MIN`, and negative zero are read as floating-point (`Float`); one
/// whose value overflows `f64` is not JSON the reader accepts.
pub enum JsonDoc {
    Null,
    Bool(bool),
    Integer(Seq<u8>),
    Float,
    Str(Seq<u8>),
    Array(Seq<JsonDoc>),
    Object(Seq<(Seq<u8>, JsonDoc)>),
}

/// The nesting budget of the top-level value: 127 containers may nest.
pub const MAX_DEPTH: usize = 128;

pub open spec fn is_ws(c: u8) -> bool {
    c == 0x20 || c == 0x09 || c == 0x0A || c == 0x0D
}

pub open spec fn is_digit(c: u8) -> bool {
    0x30 <= c <= 0x39
}

/// The first position at or after `i` that is not whitespace.
pub open spec fn ws_end(b: Seq<u8>, i: int) -> int
    decreases b.len() - i,
{
    if 0 <= i < b.len() && is_ws(b[i]) {
        ws_end(b, i + 1)
    } else {
        i
    }
}

/// The first position at or after `i` that is not a decimal digit.
pub open spec fn digits_end(b: Seq<u8>, i: int) -> int
    decreases b.len() - i,
{
    if 0 <= i < b.len() && is_digit(b[i]) {
        digits_end(b, i + 1)
    } else {
        i
    }
}

/// The decimal value of the digits `b[s..e]`.
pub open spec fn digits_value(b: Seq<u8>, s: int, e: int) -> nat
    decreases e - s,
{
    if e <= s {
        0
    } else {
        (digits_value(b, s, e - 1) * 10 + (b[e - 1] - 0x30)) as nat
    }
}

/// End of an optional fraction `.digits` starting at `j`.
pub open spec fn frac_end(b: Seq<u8>, j: int) -> Option<int> {
    if 0 <= j < b.len() && b[j] == 0x2E {
        let e = digits_end(b, j + 1);
        if e == j + 1 {
            None
        } else {
            Some(e)
        }
    } else {
        Some(j)
    }
}

/// End of an optional exponent `e[+-]digits` starting at `j`.
pub open spec fn exp_end(b: Seq<u8>, j: int) -> Option<int> {
    if 0 <= j < b.len() && (b[j] == 0x65 || b[j] == 0x45) {
        let k = if j + 1 < b.len() && (b[j + 1] == 0x2B || b[j + 1] == 0x2D) {
            j + 2
        } else {
            j + 1
        };
        let e = digits_end(b, k);
        if e == k {
            None
        } else {
            Some(e)
        }
    } else {
        Some(j)
    }
}

/// Whether a magnitude fits the integer range of its sign.
pub open spec fn integer_fits(negative: bool, magnitude: nat) -> bool {
    if negative {
        1 <= magnitude <= 0x8000_0000_0000_0000
    } else {
        magnitude <= 0xFFFF_FFFF_FFFF_FFFF
    }
}

/// Whether the strict reader the policy format is defined against,
/// `serde_json`, reads the text of a floating-point number as a finite
/// value: it refuses a number whose value overflows `f64` (such as `1e400`,
/// or an integer of hundreds of digits), by its own approximate conversion.
pub uninterp spec fn number_in_range(text: Seq<u8>) -> bool;

/// `serde_json::from_slice` on the text of a number: whether it reads as a
/// value (the text alone, so only the number's own range can refuse it).
#[verifier::external_body]
fn read_number_in_range(text: &[u8]) -> (r: bool)
    ensures
        r == number_in_range(text@),
{
    serde_json::from_slice::<serde_json::Value>(text).is_ok()
}

/// A number starting at `i`, with the position after it. A floating-point
/// number that overflows `f64` is not read (see `number_in_range`).
pub open spec fn take_number(b: Seq<u8>, i: int) -> Option<(JsonDoc, int)> {
    let negative = 0 <= i < b.len() && b[i] == 0x2D;
    let ds = if negative {
        i + 1
    } else {
        i
    };
    if !(0 <= ds < b.len() && is_digit(b[ds])) {
        None
    } else {
        let de = if b[ds] == 0x30 {
            ds + 1
        } else {
            digits_end(b, ds)
        };
        match frac_end(b, de) {
            None => None,
            Some(fe) => match exp_end(b, fe) {
                None => None,
                Some(ee) => if fe > de || ee > fe {
                    if number_in_range(b.subrange(i, ee)) {
                        Some((JsonDoc::Float, ee))
                    } else {
                        None
                    }
                } else if integer_fits(negative, digits_value(b, ds, de)) {
                    Some((JsonDoc::Integer(b.subrange(i, de)), de))
                } else if number_in_range(b.subrange(i, de)) {
                    Some((JsonDoc::Float, de))
                } else {
                    None
                },
            },
        }
    }
}

/// Value of a hexadecimal digit.
pub open spec fn hex_value(c: u8) -> Option<nat> {
    if 0x30 <= c <= 0x39 {
        Some((c - 0x30) as nat)
    } else if 0x61 <= c <= 0x66 {
        Some((c - 0x61 + 10) as nat)
    } else if 0x41 <= c <= 0x46 {
        Some((c - 0x41 + 10) as nat)
    } else {
        None
    }
}

/// Four hexadecimal digits at `j`.
pub open spec fn hex4(b: Seq<u8>, j: int) -> Option<nat> {
    if 0 <= j && j + 4 <= b.len() {
        match (hex_value(b[j]), hex_value(b[j + 1]), hex_value(b[j + 2]), hex_value(b[j + 3])) {
            (Some(a), Some(c), Some(d), Some(e)) => Some(((a * 16 + c) * 16 + d) * 16 + e),
            _ => None,
        }
    } else {
        None
    }
}

pub open spec fn is_leading_surrogate(n: nat) -> bool {
    0xD800 <= n <= 0xDBFF
}

pub open spec fn is_trailing_surrogate(n: nat) -> bool {
    0xDC00 <= n <= 0xDFFF
}

/// The end of the escape whose backslash is at `j`.
pub open spec fn escape_end(b: Seq<u8>, j: int) -> Option<int> {
    if !(0 <= j && j + 1 < b.len()) {
        None
    } else {
        let c = b[j + 1];
        if c == 0x22 || c == 0x5C || c == 0x2F || c == 0x62 || c == 0x66 || c == 0x6E || c == 0x72
            || c == 0x74 {
            Some(j + 2)
        } else if c == 0x75 {
            match hex4(b, j + 2) {
                None => None,
                Some(n) => if is_trailing_surrogate(n) {
                    None
                } else if is_leading_surrogate(n) {
                    if j + 7 < b.len() && b[j + 6] == 0x5C && b[j + 7] == 0x75 {
                        match hex4(b, j + 8) {
                            Some(m) => if is_trailing_surrogate(m) {
                                Some(j + 12)
                            } else {
                                None
                            },
                            None => None,
                        }
                    } else {
                        None
                    }
                } else {
                    Some(j + 6)
                },
            }
        } else {
            None
        }
    }
}

/// The position of the closing quote of a string whose body starts at `j`.
pub open spec fn string_close(b: Seq<u8>, j: int) -> Option<int>
    decreases b.len() - j,
{
    if !(0 <= j < b.len()) {
        None
    } else if b[j] == 0x22 {
        Some(j)
    } else if b[j] < 0x20 {
        None
    } else if b[j] == 0x5C {
        match escape_end(b, j) {
            Some(k) => if j < k {
                string_close(b, k)
            } else {
                None
            },
            None => None,
        }
    } else {
        string_close(b, j + 1)
    }
}

/// A string literal starting at `i`: the text between its quotes, and the
/// position after the closing quote.
pub open spec fn take_string(b: Seq<u8>, i: int) -> Option<(Seq<u8>, int)> {
    if 0 <= i < b.len() && b[i] == 0x22 {
        match string_close(b, i + 1) {
            Some(c) => Some((b.subrange(i + 1, c), c + 1)),
            None => None,
        }
    } else {
        None
    }
}

/// The literal `lit` occurs at `i`.
pub open spec fn has_literal(b: Seq<u8>, i: int, lit: Seq<u8>) -> bool {
    0 <= i && i + lit.len() <= b.len() && b.subrange(i, i + lit.len()) == lit
}

pub open spec fn lit_null() -> Seq<u8> {
    seq![0x6Eu8, 0x75u8, 0x6Cu8, 0x6Cu8]
}

pub open spec fn lit_true() -> Seq<u8> {
    seq![0x74u8, 0x72u8, 0x75u8, 0x65u8]
}

pub open spec fn lit_false() -> Seq<u8> {
    seq![0x66u8, 0x61u8, 0x6Cu8, 0x73u8, 0x65u8]
}

pub proof fn lemma_ws_end(b: Seq<u8>, i: int)
    ensures
        i <= ws_end(b, i),
        0 <= i <= b.len() ==> ws_end(b, i) <= b.len(),
    decreases b.len() - i,
{
    if 0 <= i < b.len() && is_ws(b[i]) {
        lemma_ws_end(b, i + 1);
    }
}

pub proof fn lemma_take_string(b: Seq<u8>, i: int)
    ensures
        take_string(b, i) matches Some((t, e)) ==> i + 2 <= e <= b.len() && t == b.subrange(i + 1, e - 1)
            && b[i] == 0x22 && b[e - 1] == 0x22,
{
    if 0 <= i < b.len() && b[i] == 0x22 {
        lemma_string_close(b, i + 1);
    }
}

pub proof fn lemma_string_close(b: Seq<u8>, j: int)
    ensures
        string_close(b, j) matches Some(c) ==> j <= c < b.len() && b[c] == 0x22,
    decreases b.len() - j,
{
    if 0 <= j < b.len() && b[j] != 0x22 && b[j] >= 0x20 {
        if b[j] == 0x5C {
            if let Some(k) = escape_end(b, j) {
                if j < k {
                    lemma_string_close(b, k);
                }
            }
        } else {
            lemma_string_close(b, j + 1);
        }
    }
}

/// A value (after optional whitespace) starting at `i`, within a nesting
/// budget of `depth`.
pub open spec fn parse_value(b: Seq<u8>, i: int, depth: nat) -> Option<(JsonDoc, int)>
    decreases b.len() - i, 0nat,
{
    let s = ws_end(b, i);
    proof {
        lemma_ws_end(b, i);
    }
    if !(0 <= s < b.len()) {
        None
    } else {
        let c = b[s];
        if c == 0x7B {
            if depth <= 1 {
                None
            } else {
                parse_object(b, s + 1, (depth - 1) as nat)
            }
        } else if c == 0x5B {
            if depth <= 1 {
                None
            } else {
                parse_array(b, s + 1, (depth - 1) as nat)
            }
        } else if c == 0x22 {
            match take_string(b, s) {
                Some((t, e)) => Some((JsonDoc::Str(t), e)),
                None => None,
            }
        } else if has_literal(b, s, lit_null()) {
            Some((JsonDoc::Null, s + 4))
        } else if has_literal(b, s, lit_true()) {
            Some((JsonDoc::Bool(true), s + 4))
        } else if has_literal(b, s, lit_false()) {
            Some((JsonDoc::Bool(false), s + 5))
        } else if c == 0x2D || is_digit(c) {
            take_number(b, s)
        } else {
            None
        }
    }
}

/// The rest of an array whose `[` precedes `j`.
pub open spec fn parse_array(b: Seq<u8>, j: int, depth: nat) -> Option<(JsonDoc, int)>
    decreases b.len() - j, 2nat,
{
    let s = ws_end(b, j);
    if 0 <= s < b.len() && b[s] == 0x5D {
        Some((JsonDoc::Array(Seq::empty()), s + 1))
    } else {
        match parse_items(b, j, depth) {
            Some((items, e)) => Some((JsonDoc::Array(items), e)),
            None => None,
        }
    }
}

/// One or more comma-separated items starting at `j`, and the closing `]`.
pub open spec fn parse_items(b: Seq<u8>, j: int, depth: nat) -> Option<(Seq<JsonDoc>, int)>
    decreases b.len() - j, 1nat,
{
    match parse_value(b, j, depth) {
        None => None,
        Some((v, k)) => if k <= j {
            None
        } else {
            let t = ws_end(b, k);
            proof {
                lemma_ws_end(b, k);
            }
            if 0 <= t < b.len() && b[t] == 0x2C {
                match parse_items(b, t + 1, depth) {
                    Some((vs, e)) => Some((seq![v] + vs, e)),
                    None => None,
                }
            } else if 0 <= t < b.len() && b[t] == 0x5D {
                Some((seq![v], t + 1))
            } else {
                None
            }
        },
    }
}

/// The rest of an object whose `{` precedes `j`.
pub open spec fn parse_object(b: Seq<u8>, j: int, depth: nat) -> Option<(JsonDoc, int)>
    decreases b.len() - j, 2nat,
{
    let s = ws_end(b, j);
    if 0 <= s < b.len() && b[s] == 0x7D {
        Some((JsonDoc::Object(Seq::empty()), s + 1))
    } else {
        match parse_members(b, j, depth) {
            Some((es, e)) => Some((JsonDoc::Object(es), e)),
            None => None,
        }
    }
}

/// One or more comma-separated `"key": value` members starting at `j`, and
/// the closing `}`.
pub open spec fn parse_members(b: Seq<u8>, j: int, depth: nat) -> Option<
    (Seq<(Seq<u8>, JsonDoc)>, int),
>
    decreases b.len() - j, 1nat,
{
    let s = ws_end(b, j);
    proof {
        lemma_ws_end(b, j);
        lemma_take_string(b, s);
    }
    match take_string(b, s) {
        None => None,
        Some((key, k)) => {
            let t = ws_end(b, k);
            proof {
                lemma_ws_end(b, k);
            }
            if !(0 <= t < b.len() && b[t] == 0x3A) {
                None
            } else {
                match parse_value(b, t + 1, depth) {
                    None => None,
                    Some((v, e)) => if e <= j {
                        None
                    } else {
                        let u = ws_end(b, e);
                        proof {
                            lemma_ws_end(b, e);
                        }
                        if 0 <= u < b.len() && b[u] == 0x2C {
                            match parse_members(b, u + 1, depth) {
                                Some((es, f)) => Some((seq![(key, v)] + es, f)),
                                None => None,
                            }
                        } else if 0 <= u < b.len() && b[u] == 0x7D {
                            Some((seq![(key, v)], u + 1))
                        } else {
                            None
                        }
                    },
                }
            }
        },
    }
}

/// A whole JSON text: one value, then only whitespace, and valid UTF-8.
pub open spec fn json_parse(b: Seq<u8>) -> Option<JsonDoc> {
    if !vstd::utf8::valid_utf8(b) {
        None
    } else {
        match parse_value(b, 0, MAX_DEPTH as nat) {
            Some((d, e)) => if ws_end(b, e) == b.len() {
                Some(d)
            } else {
                None
            },
            None => None,
        }
    }
}


// ---------------------------------------------------------------- control bytes

/// No control byte (below 0x20) occurs in `t`.
pub open spec fn no_control(t: Seq<u8>) -> bool {
    forall|k: int| 0 <= k < t.len() ==> #[trigger] t[k] >= 0x20
}

/// Every string, key and integer text of the document is free of control bytes.
pub open spec fn doc_clean(d: JsonDoc) -> bool
    decreases d,
{
    match d {
        JsonDoc::Integer(t) => no_control(t),
        JsonDoc::Str(t) => no_control(t),
        JsonDoc::Array(items) => forall|i: int| 0 <= i < items.len() ==> doc_clean(#[trigger] items[i]),
        JsonDoc::Object(entries) => forall|j: int|
            0 <= j < entries.len() ==> no_control(#[trigger] entries[j].0) && doc_clean(entries[j].1),
        _ => true,
    }
}

proof fn lemma_digits_clean(b: Seq<u8>, i: int)
    ensures
        forall|k: int| i <= k < digits_end(b, i) ==> is_digit(#[trigger] b[k]),
        i <= digits_end(b, i),
        0 <= i <= b.len() ==> digits_end(b, i) <= b.len(),
    decreases b.len() - i,
{
    if 0 <= i < b.len() && is_digit(b[i]) {
        lemma_digits_clean(b, i + 1);
    }
}

proof fn lemma_number_clean(b: Seq<u8>, i: int)
    ensures
        take_number(b, i) matches Some((d, e)) ==> doc_clean(d),
{
    let negative = 0 <= i < b.len() && b[i] == 0x2D;
    let ds = if negative {
        i + 1
    } else {
        i
    };
    if 0 <= ds < b.len() && is_digit(b[ds]) {
        lemma_digits_clean(b, ds);
        if let Some((d, e)) = take_number(b, i) {
            if let JsonDoc::Integer(t) = d {
                let de = if b[ds] == 0x30 {
                    ds + 1
                } else {
                    digits_end(b, ds)
                };
                assert(e == de && t == b.subrange(i, de));
                assert forall|k: int| 0 <= k < t.len() implies #[trigger] t[k] >= 0x20 by {
                    assert(t[k] == b[i + k]);
                    if i + k >= ds {
                        assert(is_digit(b[i + k]));
                    }
                }
            }
        }
    }
}

proof fn lemma_string_body_clean(b: Seq<u8>, j: int)
    ensures
        string_close(b, j) matches Some(c) ==> forall|k: int| j <= k < c ==> #[trigger] b[k] >= 0x20,
    decreases b.len() - j,
{
    if 0 <= j < b.len() && b[j] != 0x22 && b[j] >= 0x20 {
        if b[j] == 0x5C {
            if let Some(k) = escape_end(b, j) {
                if j < k {
                    lemma_string_body_clean(b, k);
                    if let Some(c) = string_close(b, k) {
                        assert forall|m: int| j <= m < c implies #[trigger] b[m] >= 0x20 by {
                            if m < k {
                                assert(b[j + 1] >= 0x20);
                                if m >= j + 2 {
                                    lemma_escape_clean(b, j, m);
                                }
                            }
                        }
                    }
                }
            }
        } else {
            lemma_string_body_clean(b, j + 1);
        }
    }
}

proof fn lemma_escape_clean(b: Seq<u8>, j: int, m: int)
    requires
        escape_end(b, j) matches Some(k) && j + 2 <= m < k,
    ensures
        b[m] >= 0x20,
{
    let n = hex4(b, j + 2);
    if m < j + 6 {
        assert(hex_value(b[m]) is Some);
    } else if m < j + 8 {
    } else {
        assert(hex_value(b[m]) is Some);
    }
}

proof fn lemma_string_clean(b: Seq<u8>, i: int)
    ensures
        take_string(b, i) matches Some((t, e)) ==> no_control(t),
{
    if 0 <= i < b.len() && b[i] == 0x22 {
        lemma_string_body_clean(b, i + 1);
        lemma_string_close(b, i + 1);
        if let Some((t, e)) = take_string(b, i) {
            assert forall|k: int| 0 <= k < t.len() implies #[trigger] t[k] >= 0x20 by {
                assert(t[k] == b[i + 1 + k]);
            }
        }
    }
}

/// Every document the reader yields is free of control bytes in its texts.
pub proof fn lemma_value_clean(b: Seq<u8>, i: int, depth: nat)
    ensures
        parse_value(b, i, depth) matches Some((d, e)) ==> doc_clean(d),
    decreases b.len() - i, 0nat,
{
    let s = ws_end(b, i);
    lemma_ws_end(b, i);
    if 0 <= s < b.len() {
        let c = b[s];
        if c == 0x7B && depth > 1 {
            lemma_object_clean(b, s + 1, (depth - 1) as nat);
        } else if c == 0x5B && depth > 1 {
            lemma_array_clean(b, s + 1, (depth - 1) as nat);
        } else if c == 0x22 {
            lemma_string_clean(b, s);
        } else {
            lemma_number_clean(b, s);
        }
    }
}

proof fn lemma_array_clean(b: Seq<u8>, j: int, depth: nat)
    ensures
        parse_array(b, j, depth) matches Some((d, e)) ==> doc_clean(d),
    decreases b.len() - j, 2nat,
{
    lemma_items_clean(b, j, depth);
}

proof fn lemma_items_clean(b: Seq<u8>, j: int, depth: nat)
    ensures
        parse_items(b, j, depth) matches Some((vs, e)) ==> forall|i: int|
            0 <= i < vs.len() ==> doc_clean(#[trigger] vs[i]),
    decreases b.len() - j, 1nat,
{
    lemma_value_clean(b, j, depth);
    if let Some((v, k)) = parse_value(b, j, depth) {
        if k > j {
            let t = ws_end(b, k);
            lemma_ws_end(b, k);
            if 0 <= t < b.len() && b[t] == 0x2C {
                lemma_items_clean(b, t + 1, depth);
                if let Some((vs, e)) = parse_items(b, t + 1, depth) {
                    let all = seq![v] + vs;
                    assert forall|i: int| 0 <= i < all.len() implies doc_clean(#[trigger] all[i]) by {
                        if i > 0 {
                            assert(all[i] == vs[i - 1]);
                        }
                    }
                }
            }
        }
    }
}

proof fn lemma_object_clean(b: Seq<u8>, j: int, depth: nat)
    ensures
        parse_object(b, j, depth) matches Some((d, e)) ==> doc_clean(d),
    decreases b.len() - j, 2nat,
{
    lemma_members_clean(b, j, depth);
}

proof fn lemma_members_clean(b: Seq<u8>, j: int, depth: nat)
    ensures
        parse_members(b, j, depth) matches Some((es, e)) ==> forall|m: int|
            0 <= m < es.len() ==> no_control(#[trigger] es[m].0) && doc_clean(es[m].1),
    decreases b.len() - j, 1nat,
{
    let s = ws_end(b, j);
    lemma_ws_end(b, j);
    lemma_take_string(b, s);
    lemma_string_clean(b, s);
    if let Some((key, k)) = take_string(b, s) {
        let t = ws_end(b, k);
        lemma_ws_end(b, k);
        if 0 <= t < b.len() && b[t] == 0x3A {
            lemma_value_clean(b, t + 1, depth);
            if let Some((v, e)) = parse_value(b, t + 1, depth) {
                if e > j {
                    let u = ws_end(b, e);
                    lemma_ws_end(b, e);
                    let one = seq![(key, v)];
                    assert(one[0] == (key, v));
                    if 0 <= u < b.len() && b[u] == 0x2C {
                        lemma_members_clean(b, u + 1, depth);
                        if let Some((es, f)) = parse_members(b, u + 1, depth) {
                            let all = seq![(key, v)] + es;
                            assert forall|m: int| 0 <= m < all.len() implies no_control(
                                #[trigger] all[m].0,
                            ) && doc_clean(all[m].1) by {
                                if m > 0 {
                                    assert(all[m] == es[m - 1]);
                                }
                            }
                        }
                    }
                }
            }
        }
    }
}

// ---------------------------------------------------------------- scanners

/// Skip whitespace from `i`.
pub fn skip_ws(b: &[u8], i: usize) -> (r: usize)
    requires
        i <= b@.len(),
    ensures
        r as int == ws_end(b@, i as int),
        i <= r <= b@.len(),
{
    let mut j = i;
    while j < b.len() && (b[j] == 0x20 || b[j] == 0x09 || b[j] == 0x0A || b[j] == 0x0D)
        invariant
            i <= j <= b@.len(),
            ws_end(b@, i as int) == ws_end(b@, j as int),
        decreases b@.len() - j,
    {
        j = j + 1;
    }
    j
}

/// Skip decimal digits from `i`.
fn skip_digits(b: &[u8], i: usize) -> (r: usize)
    requires
        i <= b@.len(),
    ensures
        r as int == digits_end(b@, i as int),
        i <= r <= b@.len(),
        forall|k: int| i <= k < r ==> is_digit(#[trigger] b@[k]),
{
    let mut j = i;
    while j < b.len() && 0x30 <= b[j] && b[j] <= 0x39
        invariant
            i <= j <= b@.len(),
            digits_end(b@, i as int) == digits_end(b@, j as int),
            forall|k: int| i <= k < j ==> is_digit(#[trigger] b@[k]),
        decreases b@.len() - j,
    {
        j = j + 1;
    }
    j
}

/// Whether the digits `b[s..e]` fit the integer range of the sign.
fn digits_fit(b: &[u8], s: usize, e: usize, negative: bool) -> (r: bool)
    requires
        s <= e <= b@.len(),
        forall|k: int| s <= k < e ==> is_digit(#[trigger] b@[k]),
    ensures
        r == integer_fits(negative, digits_value(b@, s as int, e as int)),
{
    let mut acc: u128 = 0;
    let mut big = false;
    let mut j = s;
    while j < e
        invariant
            s <= j <= e <= b@.len(),
            forall|k: int| s <= k < e ==> is_digit(#[trigger] b@[k]),
            !big ==> acc == digits_value(b@, s as int, j as int) && acc <= 0xFFFF_FFFF_FFFF_FFFFu128,
            big ==> digits_value(b@, s as int, j as int) > 0xFFFF_FFFF_FFFF_FFFFu128,
        decreases e - j,
    {
        let d = (b[j] - 0x30) as u128;
        assert(is_digit(b@[j as int]));
        if !big {
            let next = acc * 10 + d;
            if next > 0xFFFF_FFFF_FFFF_FFFFu128 {
                big = true;
            } else {
                acc = next;
            }
        }
        j = j + 1;
    }
    if big {
        false
    } else if negative {
        1 <= acc && acc <= 0x8000_0000_0000_0000u128
    } else {
        true
    }
}

/// Scan a number at `i`: whether it reads as floating-point, and its end.
pub fn scan_number(b: &[u8], i: usize) -> (r: Option<(bool, usize)>)
    requires
        i <= b@.len(),
    ensures
        match take_number(b@, i as int) {
            None => r is None,
            Some((d, e)) => r matches Some((f, e2)) && e2 as int == e && f == (d is Float),
        },
        r matches Some((f, e)) ==> i < e <= b@.len(),
{
    let negative = i < b.len() && b[i] == 0x2D;
    let ds = if negative { i + 1 } else { i };
    if !(ds < b.len() && 0x30 <= b[ds] && b[ds] <= 0x39) {
        return None;
    }
    let de = if b[ds] == 0x30 { ds + 1 } else { skip_digits(b, ds + 1) };
    assert(b@[ds as int] != 0x30 ==> de == digits_end(b@, ds as int));
    assert(forall|k: int| ds <= k < de ==> is_digit(#[trigger] b@[k]));
    let fe = if de < b.len() && b[de] == 0x2E {
        let e = skip_digits(b, de + 1);
        if e == de + 1 {
            return None;
        }
        e
    } else {
        de
    };
    let ee = if fe < b.len() && (b[fe] == 0x65 || b[fe] == 0x45) {
        let k = if fe + 1 < b.len() && (b[fe + 1] == 0x2B || b[fe + 1] == 0x2D) {
            fe + 2
        } else {
            fe + 1
        };
        let e = skip_digits(b, k);
        if e == k {
            return None;
        }
        e
    } else {
        fe
    };
    assert(i < de <= fe <= ee <= b@.len());
    if fe > de || ee > fe {
        if read_number_in_range(vstd::slice::slice_subrange(b, i, ee)) {
            Some((true, ee))
        } else {
            None
        }
    } else if digits_fit(b, ds, de, negative) {
        Some((false, de))
    } else if read_number_in_range(vstd::slice::slice_subrange(b, i, de)) {
        Some((true, de))
    } else {
        None
    }
}

fn hex_digit_value(c: u8) -> (r: Option<u32>)
    ensures
        match hex_value(c) {
            None => r is None,
            Some(v) => r == Some(v as u32),
        },
{
    if 0x30 <= c && c <= 0x39 {
        Some((c - 0x30) as u32)
    } else if 0x61 <= c && c <= 0x66 {
        Some((c - 0x61 + 10) as u32)
    } else if 0x41 <= c && c <= 0x46 {
        Some((c - 0x41 + 10) as u32)
    } else {
        None
    }
}

fn scan_hex4(b: &[u8], j: usize) -> (r: Option<u32>)
    ensures
        match hex4(b@, j as int) {
            None => r is None,
            Some(v) => r == Some(v as u32),
        },
{
    if j > b.len() || b.len() - j < 4 {
        return None;
    }
    let a = match hex_digit_value(b[j]) { Some(x) => x, None => return None };
    let c = match hex_digit_value(b[j + 1]) { Some(x) => x, None => return None };
    let d = match hex_digit_value(b[j + 2]) { Some(x) => x, None => return None };
    let e = match hex_digit_value(b[j + 3]) { Some(x) => x, None => return None };
    Some(((a * 16 + c) * 16 + d) * 16 + e)
}

fn scan_escape(b: &[u8], j: usize) -> (r: Option<usize>)
    requires
        j < b@.len(),
    ensures
        match escape_end(b@, j as int) {
            None => r is None,
            Some(e) => r == Some(e as usize),
        },
{
    if b.len() - j < 2 {
        return None;
    }
    let c = b[j + 1];
    if c == 0x22 || c == 0x5C || c == 0x2F || c == 0x62 || c == 0x66 || c == 0x6E || c == 0x72
        || c == 0x74 {
        Some(j + 2)
    } else if c == 0x75 {
        match scan_hex4(b, j + 2) {
            None => None,
            Some(n) => {
                if 0xDC00 <= n && n <= 0xDFFF {
                    None
                } else if 0xD800 <= n && n <= 0xDBFF {
                    if b.len() - j > 7 && b[j + 6] == 0x5C && b[j + 7] == 0x75 {
                        match scan_hex4(b, j + 8) {
                            Some(m) => {
                                if 0xDC00 <= m && m <= 0xDFFF {
                                    Some(j + 12)
                                } else {
                                    None
                                }
                            },
                            None => None,
                        }
                    } else {
                        None
                    }
                } else {
                    Some(j + 6)
                }
            },
        }
    } else {
        None
    }
}

/// Scan a string literal at `i`: the position after its closing quote.
pub fn scan_string(b: &[u8], i: usize) -> (r: Option<usize>)
    requires
        i <= b@.len(),
    ensures
        match take_string(b@, i as int) {
            None => r is None,
            Some((t, e)) => r == Some(e as usize),
        },
        r matches Some(e) ==> i + 2 <= e <= b@.len(),
{
    if !(i < b.len() && b[i] == 0x22) {
        return None;
    }
    let mut j = i + 1;
    while j < b.len()
        invariant
            i < j <= b@.len(),
            i < b@.len(),
            b@[i as int] == 0x22,
            string_close(b@, (i + 1) as int) == string_close(b@, j as int),
        decreases b@.len() - j,
    {
        let c = b[j];
        if c == 0x22 {
            assert(string_close(b@, j as int) == Some(j as int));
            return Some(j + 1);
        } else if c < 0x20 {
            return None;
        } else if c == 0x5C {
            match scan_escape(b, j) {
                Some(k) => {
                    if j < k && k <= b.len() {
                        j = k;
                    } else {
                        proof {
                            if j < k {
                                lemma_string_close(b@, k as int);
                            }
                        }
                        return None;
                    }
                },
                None => return None,
            }
        } else {
            j = j + 1;
        }
    }
    None
}

/// Whether the literal `lit` occurs at `i`.
pub fn scan_literal(b: &[u8], i: usize, lit: &[u8]) -> (r: bool)
    requires
        i <= b@.len(),
    ensures
        r == has_literal(b@, i as int, lit@),
{
    let n = b.len();
    if n - i < lit.len() {
        return false;
    }
    let mut k: usize = 0;
    while k < lit.len()
        invariant
            k <= lit@.len(),
            n == b@.len(),
            i + lit@.len() <= b@.len(),
            forall|m: int| 0 <= m < k ==> b@[i + m] == lit@[m],
        decreases lit@.len() - k,
    {
        if b[i + k] != lit[k] {
            proof {
                assert(b@.subrange(i as int, i + lit@.len())[k as int] != lit@[k as int]);
            }
            return false;
        }
        k = k + 1;
    }
    assert(b@.subrange(i as int, i + lit@.len()) =~= lit@);
    true
}

} // verus!
