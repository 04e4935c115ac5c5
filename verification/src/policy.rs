//! Canonical policy bytes and the `policy_ref` policy identity.
//!
//! A policy document is read as strict JSON (see `json`) and written in
//! canonical form: every object's members sorted by key bytes, no
//! insignificant whitespace, and strings, keys and integers exactly as
//! written; any floating-point number is refused. `policy_ref` is the
//! SHA-256 digest of those canonical bytes.
use vstd::prelude::*;

use crate::json::{
    doc_clean, json_parse, lemma_string_close, lemma_take_string, lemma_value_clean, lit_false,
    lit_null, lit_true, no_control, parse_array, parse_items, parse_members, parse_object,
    parse_value, scan_literal, scan_number, scan_string, skip_ws, ws_end, JsonDoc, MAX_DEPTH,
};
use crate::keysort::{
    bytes_lt, key_ordered, keys_distinct, lemma_ins_at, lemma_sort_contains, lemma_sort_idempotent,
    lemma_sort_map, lemma_sort_ordered, lemma_sort_relabel, slice_lt, sort_by_key,
    sort_ignores_entry_order,
};
use crate::wire::append_bytes;
use sha2::Digest;

verus! {

/// Errors of policy canonicalization.
#[derive(Debug, Clone, PartialEq, Eq, Structural)]
pub enum PolicyCanonError {
    /// The input was not well-formed JSON.
    InvalidJson,
    /// A floating-point number (fraction or exponent) was encountered.
    FloatForbidden,
    /// Encoding a string or key failed. Strings and keys are copied as
    /// written, so this is never produced.
    EncodeFailure,
}

// ---------------------------------------------------------------- canonical form

/// A string's text between quotes.
pub open spec fn quoted(t: Seq<u8>) -> Seq<u8> {
    seq![0x22u8] + t + seq![0x22u8]
}

/// Parts joined by commas.
pub open spec fn join_commas(parts: Seq<Seq<u8>>) -> Seq<u8>
    decreases parts.len(),
{
    if parts.len() == 0 {
        Seq::empty()
    } else if parts.len() == 1 {
        parts[0]
    } else {
        join_commas(parts.drop_last()) + seq![0x2Cu8] + parts.last()
    }
}

/// Canonical bytes of a document (float-free documents; see `has_float`):
/// literals, integers and strings as written, arrays in order, object
/// members sorted by key bytes, commas and colons without whitespace.
pub open spec fn canon(d: JsonDoc) -> Seq<u8>
    decreases d,
{
    match d {
        JsonDoc::Null => lit_null(),
        JsonDoc::Bool(v) => if v {
            lit_true()
        } else {
            lit_false()
        },
        JsonDoc::Integer(t) => t,
        JsonDoc::Float => Seq::empty(),
        JsonDoc::Str(t) => quoted(t),
        JsonDoc::Array(items) => seq![0x5Bu8] + join_commas(canon_list(items)) + seq![0x5Du8],
        JsonDoc::Object(entries) => seq![0x7Bu8] + join_commas(
            sort_by_key(canon_entries(entries)).map_values(|p: (Seq<u8>, Seq<u8>)| p.1),
        ) + seq![0x7Du8],
    }
}

/// Canonical bytes of each item.
pub open spec fn canon_list(items: Seq<JsonDoc>) -> Seq<Seq<u8>>
    decreases items,
{
    if items.len() == 0 {
        Seq::empty()
    } else {
        canon_list(items.subrange(0, items.len() - 1)).push(canon(items[items.len() - 1]))
    }
}

/// The `"key":value` text of a member.
pub open spec fn member_text(key: Seq<u8>, value: JsonDoc) -> Seq<u8> {
    quoted(key) + seq![0x3Au8] + canon(value)
}

/// Each member's key with its `"key":value` text.
pub open spec fn canon_entries(entries: Seq<(Seq<u8>, JsonDoc)>) -> Seq<(Seq<u8>, Seq<u8>)>
    decreases entries,
{
    if entries.len() == 0 {
        Seq::empty()
    } else {
        let last = entries[entries.len() - 1];
        canon_entries(entries.subrange(0, entries.len() - 1)).push(
            (last.0, quoted(last.0) + seq![0x3Au8] + canon(last.1)),
        )
    }
}

/// Whether a floating-point number occurs anywhere in the document.
pub open spec fn has_float(d: JsonDoc) -> bool
    decreases d,
{
    match d {
        JsonDoc::Float => true,
        JsonDoc::Array(items) => any_float(items),
        JsonDoc::Object(entries) => any_float_entry(entries),
        _ => false,
    }
}

pub open spec fn any_float(items: Seq<JsonDoc>) -> bool
    decreases items,
{
    if items.len() == 0 {
        false
    } else {
        any_float(items.subrange(0, items.len() - 1)) || has_float(items[items.len() - 1])
    }
}

pub open spec fn any_float_entry(entries: Seq<(Seq<u8>, JsonDoc)>) -> bool
    decreases entries,
{
    if entries.len() == 0 {
        false
    } else {
        any_float_entry(entries.subrange(0, entries.len() - 1)) || has_float(
            entries[entries.len() - 1].1,
        )
    }
}

// ---------------------------------------------------------------- structure lemmas

proof fn lemma_list_push(items: Seq<JsonDoc>, v: JsonDoc)
    ensures
        canon_list(items.push(v)) == canon_list(items).push(canon(v)),
        any_float(items.push(v)) == (any_float(items) || has_float(v)),
{
    assert(items.push(v).subrange(0, items.len() as int) =~= items);
}

proof fn lemma_entries_push(entries: Seq<(Seq<u8>, JsonDoc)>, e: (Seq<u8>, JsonDoc))
    ensures
        canon_entries(entries.push(e)) == canon_entries(entries).push((e.0, member_text(e.0, e.1))),
        any_float_entry(entries.push(e)) == (any_float_entry(entries) || has_float(e.1)),
{
    assert(entries.push(e).subrange(0, entries.len() as int) =~= entries);
}

proof fn lemma_join_push(parts: Seq<Seq<u8>>, p: Seq<u8>)
    ensures
        join_commas(parts.push(p)) == join_commas(parts) + (if parts.len() > 0 {
            seq![0x2Cu8]
        } else {
            Seq::<u8>::empty()
        }) + p,
{
    assert(parts.push(p).drop_last() =~= parts);
    if parts.len() == 0 {
        assert(Seq::<u8>::empty() + Seq::<u8>::empty() + p =~= p);
    }
}

pub proof fn lemma_canon_entries_index(entries: Seq<(Seq<u8>, JsonDoc)>)
    ensures
        canon_entries(entries).len() == entries.len(),
        forall|j: int|
            0 <= j < entries.len() ==> #[trigger] canon_entries(entries)[j] == (
                entries[j].0,
                member_text(entries[j].0, entries[j].1),
            ),
    decreases entries.len(),
{
    if entries.len() > 0 {
        let init = entries.subrange(0, entries.len() - 1);
        lemma_canon_entries_index(init);
        assert forall|j: int| 0 <= j < entries.len() implies #[trigger] canon_entries(entries)[j] == (
            entries[j].0,
            member_text(entries[j].0, entries[j].1),
        ) by {
            if j < entries.len() - 1 {
                assert(init[j] == entries[j]);
            }
        }
    }
}

// ---------------------------------------------------------------- sorted members

/// Keys and texts of collected members.
pub open spec fn pair_view(pairs: Seq<(Vec<u8>, Vec<u8>)>) -> Seq<(Seq<u8>, Seq<u8>)> {
    pairs.map_values(|p: (Vec<u8>, Vec<u8>)| (p.0@, p.1@))
}

/// Keyed view of an index order over members.
pub open spec fn keyed(pairs: Seq<(Vec<u8>, Vec<u8>)>, order: Seq<usize>) -> Seq<(Seq<u8>, int)> {
    Seq::new(order.len(), |t: int| (pairs[order[t] as int].0@, order[t] as int))
}

/// `order` lists index `j` somewhere.
pub open spec fn lists_index(order: Seq<usize>, j: int) -> bool {
    exists|t: int| 0 <= t < order.len() && order[t] == j
}

/// Every member's key with its index.
pub open spec fn keyed_all(pairs: Seq<(Vec<u8>, Vec<u8>)>) -> Seq<(Seq<u8>, int)> {
    Seq::new(pairs.len(), |j: int| (pairs[j].0@, j))
}

/// The member indices in canonical (stable, key-byte) order.
fn sorted_member_order(pairs: &Vec<(Vec<u8>, Vec<u8>)>) -> (order: Vec<usize>)
    ensures
        keyed(pairs@, order@) == sort_by_key(keyed_all(pairs@)),
        forall|t: int| 0 <= t < order@.len() ==> #[trigger] order@[t] < pairs@.len(),
        forall|j: int| 0 <= j < pairs@.len() ==> #[trigger] lists_index(order@, j),
{
    let n = pairs.len();
    let ghost all = keyed_all(pairs@);
    let mut order: Vec<usize> = Vec::new();
    let mut j: usize = 0;
    assert(all.take(0) =~= Seq::<(Seq<u8>, int)>::empty());
    assert(keyed(pairs@, order@) =~= Seq::<(Seq<u8>, int)>::empty());
    while j < n
        invariant
            n == pairs@.len(),
            j <= n,
            all == keyed_all(pairs@),
            keyed(pairs@, order@) == sort_by_key(all.take(j as int)),
            forall|t: int| 0 <= t < order@.len() ==> #[trigger] order@[t] < j,
            forall|k: int| 0 <= k < j ==> #[trigger] lists_index(order@, k),
        decreases n - j,
    {
        let key_j = pairs[j].0.as_slice();
        let ghost old_keyed = keyed(pairs@, order@);
        let mut p: usize = 0;
        while p < order.len() && !slice_lt(key_j, pairs[order[p]].0.as_slice())
            invariant
                n == pairs@.len(),
                j < n,
                p <= order@.len(),
                key_j@ == pairs@[j as int].0@,
                old_keyed == keyed(pairs@, order@),
                forall|t: int| 0 <= t < order@.len() ==> #[trigger] order@[t] < j,
                forall|t: int| 0 <= t < p ==> !bytes_lt(key_j@, #[trigger] old_keyed[t].0),
            decreases order@.len() - p,
        {
            p = p + 1;
        }
        proof {
            assert(all[j as int] == (key_j@, j as int));
            lemma_ins_at(old_keyed, all[j as int], p as int);
            assert(all.take(j + 1).drop_last() =~= all.take(j as int));
        }
        let ghost old_order = order@;
        order.insert(p, j);
        proof {
            assert forall|k: int| 0 <= k < j + 1 implies #[trigger] lists_index(order@, k) by {
                if k == j {
                    assert(order@[p as int] == k);
                } else {
                    assert(lists_index(old_order, k));
                    let t0 = choose|t: int| 0 <= t < old_order.len() && old_order[t] == k;
                    if t0 < p {
                        assert(order@[t0] == k);
                    } else {
                        assert(order@[t0 + 1] == k);
                    }
                }
            }
            assert(keyed(pairs@, order@) =~= old_keyed.take(p as int) + seq![all[j as int]]
                + old_keyed.skip(p as int));
        }
        j = j + 1;
    }
    assert(all.take(n as int) =~= all);
    order
}

/// Append the members' texts in key order, joined by commas.
fn write_members(pairs: &Vec<(Vec<u8>, Vec<u8>)>, out: &mut Vec<u8>)
    ensures
        final(out)@ == old(out)@ + join_commas(
            sort_by_key(pair_view(pairs@)).map_values(|p: (Seq<u8>, Seq<u8>)| p.1),
        ),
{
    let order = sorted_member_order(pairs);
    let ghost pv = pair_view(pairs@);
    let ghost texts = sort_by_key(pv).map_values(|p: (Seq<u8>, Seq<u8>)| p.1);
    proof {
        let f = |j: int| pv[j].1;
        lemma_sort_relabel(keyed_all(pairs@), f);
        assert(keyed_all(pairs@).map_values(|p: (Seq<u8>, int)| (p.0, f(p.1))) =~= pv);
        assert forall|t: int| 0 <= t < order@.len() implies #[trigger] texts[t] == pairs@[order@[t] as int].1@ by {
            assert(keyed(pairs@, order@)[t] == (pairs@[order@[t] as int].0@, order@[t] as int));
        }
        assert(texts.take(0) =~= Seq::<Seq<u8>>::empty());
    }
    let ghost start = out@;
    let mut t: usize = 0;
    while t < order.len()
        invariant
            t <= order@.len(),
            texts.len() == order@.len(),
            forall|k: int| 0 <= k < order@.len() ==> #[trigger] order@[k] < pairs@.len(),
            forall|k: int| 0 <= k < order@.len() ==> #[trigger] texts[k] == pairs@[order@[k] as int].1@,
            out@ == start + join_commas(texts.take(t as int)),
        decreases order@.len() - t,
    {
        if t > 0 {
            out.push(0x2C);
        }
        append_bytes(out, pairs[order[t]].1.as_slice());
        proof {
            assert(texts.take(t + 1) =~= texts.take(t as int).push(texts[t as int]));
            lemma_join_push(texts.take(t as int), texts[t as int]);
            assert(out@ =~= start + join_commas(texts.take(t + 1)));
        }
        t = t + 1;
    }
    assert(texts.take(order@.len() as int) =~= texts);
}

// ---------------------------------------------------------------- canonical writer

/// Items collected so far, in front of what the rest of the list reads.
pub open spec fn prepend_items(acc: Seq<JsonDoc>, r: Option<(Seq<JsonDoc>, int)>) -> Option<
    (Seq<JsonDoc>, int),
> {
    match r {
        Some((vs, e)) => Some((acc + vs, e)),
        None => None,
    }
}

/// Members collected so far, in front of what the rest of the object reads.
pub open spec fn prepend_members(
    acc: Seq<(Seq<u8>, JsonDoc)>,
    r: Option<(Seq<(Seq<u8>, JsonDoc)>, int)>,
) -> Option<(Seq<(Seq<u8>, JsonDoc)>, int)> {
    match r {
        Some((es, e)) => Some((acc + es, e)),
        None => None,
    }
}

/// Read the value at `i` and produce its canonical bytes, whether it holds
/// a float, and the position after it.
fn canon_value(b: &[u8], i: usize, depth: usize) -> (r: Option<(Vec<u8>, bool, usize)>)
    requires
        i <= b@.len(),
    ensures
        match parse_value(b@, i as int, depth as nat) {
            None => r is None,
            Some((d, e)) => r matches Some((out, fl, e2)) && e2 as int == e && out@ == canon(d)
                && fl == has_float(d),
        },
        r matches Some((o, f, e)) ==> e <= b@.len(),
    decreases b@.len() - i, 0nat,
{
    let s = skip_ws(b, i);
    if s >= b.len() {
        return None;
    }
    let c = b[s];
    if c == 0x7B {
        if depth <= 1 {
            return None;
        }
        canon_object(b, s + 1, depth - 1)
    } else if c == 0x5B {
        if depth <= 1 {
            return None;
        }
        canon_array(b, s + 1, depth - 1)
    } else if c == 0x22 {
        match scan_string(b, s) {
            None => None,
            Some(e) => {
                proof {
                    lemma_take_string(b@, s as int);
                    lemma_string_close(b@, s + 1);
                }
                let mut out: Vec<u8> = Vec::new();
                append_bytes(&mut out, vstd::slice::slice_subrange(b, s, e));
                proof {
                    assert(out@ =~= quoted(b@.subrange(s + 1, e - 1)));
                }
                Some((out, false, e))
            },
        }
    } else {
        let lit_n: [u8; 4] = [0x6E, 0x75, 0x6C, 0x6C];
        let lit_t: [u8; 4] = [0x74, 0x72, 0x75, 0x65];
        let lit_f: [u8; 5] = [0x66, 0x61, 0x6C, 0x73, 0x65];
        assert(lit_n@ =~= lit_null());
        assert(lit_t@ =~= lit_true());
        assert(lit_f@ =~= lit_false());
        if scan_literal(b, s, lit_n.as_slice()) {
            let mut out: Vec<u8> = Vec::new();
            append_bytes(&mut out, lit_n.as_slice());
            Some((out, false, s + 4))
        } else if scan_literal(b, s, lit_t.as_slice()) {
            let mut out: Vec<u8> = Vec::new();
            append_bytes(&mut out, lit_t.as_slice());
            Some((out, false, s + 4))
        } else if scan_literal(b, s, lit_f.as_slice()) {
            let mut out: Vec<u8> = Vec::new();
            append_bytes(&mut out, lit_f.as_slice());
            Some((out, false, s + 5))
        } else if c == 0x2D || (0x30 <= c && c <= 0x39) {
            match scan_number(b, s) {
                None => None,
                Some((f, e)) => {
                    if f {
                        Some((Vec::new(), true, e))
                    } else {
                        let mut out: Vec<u8> = Vec::new();
                        append_bytes(&mut out, vstd::slice::slice_subrange(b, s, e));
                        Some((out, false, e))
                    }
                },
            }
        } else {
            None
        }
    }
}

/// Read the rest of an array whose `[` precedes `j`.
fn canon_array(b: &[u8], j: usize, depth: usize) -> (r: Option<(Vec<u8>, bool, usize)>)
    requires
        j <= b@.len(),
    ensures
        match parse_array(b@, j as int, depth as nat) {
            None => r is None,
            Some((d, e)) => r matches Some((out, fl, e2)) && e2 as int == e && out@ == canon(d)
                && fl == has_float(d),
        },
        r matches Some((o, f, e)) ==> e <= b@.len(),
    decreases b@.len() - j, 2nat,
{
    let s = skip_ws(b, j);
    if s < b.len() && b[s] == 0x5D {
        let mut out: Vec<u8> = Vec::new();
        out.push(0x5B);
        out.push(0x5D);
        proof {
            assert(out@ =~= canon(JsonDoc::Array(Seq::empty())));
        }
        return Some((out, false, s + 1));
    }
    let mut out: Vec<u8> = Vec::new();
    out.push(0x5B);
    let mut fl = false;
    let ghost mut acc: Seq<JsonDoc> = Seq::empty();
    let mut p = j;
    let mut first = true;
    proof {
        assert(canon_list(acc) =~= Seq::<Seq<u8>>::empty());
        match parse_items(b@, j as int, depth as nat) {
            Some((vs, e)) => {
                assert(acc + vs =~= vs);
            },
            None => {},
        }
    }
    loop
        invariant
            j <= p <= b@.len(),
            s == ws_end(b@, j as int),
            !(s < b@.len() && b@[s as int] == 0x5D),
            parse_items(b@, j as int, depth as nat) == prepend_items(
                acc,
                parse_items(b@, p as int, depth as nat),
            ),
            out@ == seq![0x5Bu8] + join_commas(canon_list(acc)),
            fl == any_float(acc),
            first == (acc.len() == 0),
        decreases b@.len() - p,
    {
        let ghost pv = parse_value(b@, p as int, depth as nat);
        let (item, f, k) = match canon_value(b, p, depth) {
            Some(x) => x,
            None => return None,
        };
        let ghost v = pv->Some_0.0;
        if k <= p {
            return None;
        }
        let t = skip_ws(b, k);
        if !first {
            out.push(0x2C);
        }
        first = false;
        append_bytes(&mut out, item.as_slice());
        fl = fl || f;
        proof {
            lemma_list_push(acc, v);
            lemma_join_push(canon_list(acc), canon(v));
            assert(out@ =~= seq![0x5Bu8] + join_commas(canon_list(acc.push(v))));
        }
        if t < b.len() && b[t] == 0x2C {
            proof {
                match parse_items(b@, t + 1, depth as nat) {
                    Some((vs, e)) => {
                        assert(acc + (seq![v] + vs) =~= acc.push(v) + vs);
                    },
                    None => {},
                }
                acc = acc.push(v);
            }
            p = t + 1;
        } else if t < b.len() && b[t] == 0x5D {
            out.push(0x5D);
            proof {
                assert(acc + seq![v] =~= acc.push(v));
                acc = acc.push(v);
            }
            return Some((out, fl, t + 1));
        } else {
            return None;
        }
    }
}

/// Read the rest of an object whose `{` precedes `j`.
#[verifier::rlimit(40)]
fn canon_object(b: &[u8], j: usize, depth: usize) -> (r: Option<(Vec<u8>, bool, usize)>)
    requires
        j <= b@.len(),
    ensures
        match parse_object(b@, j as int, depth as nat) {
            None => r is None,
            Some((d, e)) => r matches Some((out, fl, e2)) && e2 as int == e && out@ == canon(d)
                && fl == has_float(d),
        },
        r matches Some((o, f, e)) ==> e <= b@.len(),
    decreases b@.len() - j, 2nat,
{
    let s = skip_ws(b, j);
    if s < b.len() && b[s] == 0x7D {
        let mut out: Vec<u8> = Vec::new();
        out.push(0x7B);
        out.push(0x7D);
        proof {
            assert(canon_entries(Seq::<(Seq<u8>, JsonDoc)>::empty()) =~= Seq::<
                (Seq<u8>, Seq<u8>),
            >::empty());
            assert(out@ =~= canon(JsonDoc::Object(Seq::empty())));
        }
        return Some((out, false, s + 1));
    }
    let mut pairs: Vec<(Vec<u8>, Vec<u8>)> = Vec::new();
    let mut fl = false;
    let ghost mut acc: Seq<(Seq<u8>, JsonDoc)> = Seq::empty();
    let mut p = j;
    proof {
        assert(pair_view(pairs@) =~= canon_entries(acc));
        match parse_members(b@, j as int, depth as nat) {
            Some((es, e)) => {
                assert(acc + es =~= es);
            },
            None => {},
        }
    }
    loop
        invariant
            j <= p <= b@.len(),
            s == ws_end(b@, j as int),
            !(s < b@.len() && b@[s as int] == 0x7D),
            parse_members(b@, j as int, depth as nat) == prepend_members(
                acc,
                parse_members(b@, p as int, depth as nat),
            ),
            pair_view(pairs@) == canon_entries(acc),
            fl == any_float_entry(acc),
        decreases b@.len() - p,
    {
        let ks = skip_ws(b, p);
        let ke = match scan_string(b, ks) {
            Some(e) => e,
            None => return None,
        };
        proof {
            lemma_take_string(b@, ks as int);
            lemma_string_close(b@, ks + 1);
        }
        let t = skip_ws(b, ke);
        if !(t < b.len() && b[t] == 0x3A) {
            return None;
        }
        let ghost pv = parse_value(b@, t + 1, depth as nat);
        let (vout, f, e2) = match canon_value(b, t + 1, depth) {
            Some(x) => x,
            None => return None,
        };
        let ghost v = pv->Some_0.0;
        if e2 <= p {
            return None;
        }
        let u = skip_ws(b, e2);
        let mut key: Vec<u8> = Vec::new();
        append_bytes(&mut key, vstd::slice::slice_subrange(b, ks + 1, ke - 1));
        let mut text: Vec<u8> = Vec::new();
        append_bytes(&mut text, vstd::slice::slice_subrange(b, ks, ke));
        text.push(0x3A);
        append_bytes(&mut text, vout.as_slice());
        let ghost kv = (key@, v);
        proof {
            assert(b@.subrange(ks as int, ke as int) =~= quoted(key@));
            assert(text@ =~= member_text(key@, v));
            lemma_entries_push(acc, kv);
        }
        pairs.push((key, text));
        fl = fl || f;
        proof {
            assert(pair_view(pairs@) =~= canon_entries(acc.push(kv)));
        }
        if u < b.len() && b[u] == 0x2C {
            proof {
                match parse_members(b@, u + 1, depth as nat) {
                    Some((es, e)) => {
                        assert(acc + (seq![kv] + es) =~= acc.push(kv) + es);
                    },
                    None => {},
                }
                acc = acc.push(kv);
            }
            p = u + 1;
        } else if u < b.len() && b[u] == 0x7D {
            let mut out: Vec<u8> = Vec::new();
            out.push(0x7B);
            write_members(&pairs, &mut out);
            out.push(0x7D);
            proof {
                assert(acc + seq![kv] =~= acc.push(kv));
                acc = acc.push(kv);
                assert(out@ =~= canon(JsonDoc::Object(acc)));
            }
            return Some((out, fl, u + 1));
        } else {
            return None;
        }
    }
}

/// `std::str::from_utf8` succeeds on `raw`: whether the bytes are UTF-8.
#[verifier::external_body]
fn is_utf8(raw: &[u8]) -> (r: bool)
    ensures
        r == vstd::utf8::valid_utf8(raw@),
{
    std::str::from_utf8(raw).is_ok()
}

/// The outcome of canonicalizing a raw document: `InvalidJson` when it is
/// not strict JSON, `FloatForbidden` when it holds a floating-point number,
/// otherwise its canonical bytes.
pub open spec fn canonical_result(raw: Seq<u8>) -> Result<Seq<u8>, PolicyCanonError> {
    match json_parse(raw) {
        None => Err(PolicyCanonError::InvalidJson),
        Some(doc) => if has_float(doc) {
            Err(PolicyCanonError::FloatForbidden)
        } else {
            Ok(canon(doc))
        },
    }
}

/// Produce canonical policy bytes from a raw JSON policy document: exactly
/// `canonical_result(raw)`.
pub fn canonicalize_policy_json(raw: &[u8]) -> (r: Result<Vec<u8>, PolicyCanonError>)
    ensures
        match r {
            Ok(bytes) => canonical_result(raw@) == Ok::<Seq<u8>, PolicyCanonError>(bytes@),
            Err(e) => canonical_result(raw@) == Err::<Seq<u8>, PolicyCanonError>(e),
        },
{
    if !is_utf8(raw) {
        return Err(PolicyCanonError::InvalidJson);
    }
    match canon_value(raw, 0, MAX_DEPTH) {
        None => Err(PolicyCanonError::InvalidJson),
        Some((out, fl, e)) => {
            if skip_ws(raw, e) != raw.len() {
                Err(PolicyCanonError::InvalidJson)
            } else if fl {
                Err(PolicyCanonError::FloatForbidden)
            } else {
                Ok(out)
            }
        },
    }
}

/// Canonical 32-byte policy identity: SHA-256 of the canonical policy bytes.
#[derive(Debug, Clone, Copy, PartialEq, Eq, Hash)]
pub struct PolicyRef(pub [u8; 32]);

impl PolicyRef {
    /// The raw 32-byte digest.
    pub fn as_bytes(&self) -> (b: &[u8; 32])
        ensures
            *b == self.0,
    {
        &self.0
    }
}

/// SHA-256 digest of a byte string (32 bytes).
pub uninterp spec fn sha256_hash(data: Seq<u8>) -> Seq<u8>;

/// `sha2::Sha256` over `data`: its 32-byte SHA-256 digest.
#[verifier::external_body]
fn sha256_digest(data: &[u8]) -> (r: [u8; 32])
    ensures
        r@ == sha256_hash(data@),
{
    let mut hasher = sha2::Sha256::new();
    hasher.update(data);
    hasher.finalize().into()
}

/// Derive the policy identity from canonical policy bytes.
pub fn derive_policy_ref(canonical_bytes: &[u8]) -> (r: PolicyRef)
    ensures
        r.0@ == sha256_hash(canonical_bytes@),
{
    PolicyRef(sha256_digest(canonical_bytes))
}

/// Object keys are pairwise distinct.
pub open spec fn distinct_keys(entries: Seq<(Seq<u8>, JsonDoc)>) -> bool {
    forall|i: int, j: int| 0 <= i < j < entries.len() ==> (#[trigger] entries[i]).0 != (
    #[trigger] entries[j]).0
}

proof fn lemma_entries_keys_distinct(entries: Seq<(Seq<u8>, JsonDoc)>)
    requires
        distinct_keys(entries),
    ensures
        keys_distinct(canon_entries(entries)),
{
    lemma_canon_entries_index(entries);
}

proof fn lemma_entries_contains(a: Seq<(Seq<u8>, JsonDoc)>, b: Seq<(Seq<u8>, JsonDoc)>)
    requires
        forall|z: (Seq<u8>, JsonDoc)| #[trigger] a.contains(z) ==> b.contains(z),
    ensures
        forall|z: (Seq<u8>, Seq<u8>)| #[trigger] canon_entries(a).contains(z) ==> canon_entries(
            b,
        ).contains(z),
{
    lemma_canon_entries_index(a);
    lemma_canon_entries_index(b);
    assert forall|z: (Seq<u8>, Seq<u8>)| #[trigger] canon_entries(a).contains(z) implies canon_entries(
        b,
    ).contains(z) by {
        let i = choose|i: int| 0 <= i < canon_entries(a).len() && canon_entries(a)[i] == z;
        assert(a.contains(a[i]));
        let j = choose|j: int| 0 <= j < b.len() && b[j] == a[i];
        assert(canon_entries(b)[j] == z);
    }
}

/// Member order does not affect canonical bytes: two objects holding the
/// same members, in any order, each with pairwise distinct keys, are
/// written identically.
pub proof fn canonical_bytes_ignore_key_order(
    a: Seq<(Seq<u8>, JsonDoc)>,
    b: Seq<(Seq<u8>, JsonDoc)>,
)
    requires
        distinct_keys(a),
        distinct_keys(b),
        forall|z: (Seq<u8>, JsonDoc)| #[trigger] a.contains(z) <==> b.contains(z),
    ensures
        canon(JsonDoc::Object(a)) == canon(JsonDoc::Object(b)),
{
    lemma_entries_keys_distinct(a);
    lemma_entries_keys_distinct(b);
    lemma_entries_contains(a, b);
    lemma_entries_contains(b, a);
    sort_ignores_entry_order(canon_entries(a), canon_entries(b));
}

/// Canonical object members appear in strictly increasing key-byte order.
pub proof fn canonical_keys_are_sorted(entries: Seq<(Seq<u8>, JsonDoc)>)
    requires
        distinct_keys(entries),
    ensures
        crate::keysort::strictly_sorted(sort_by_key(canon_entries(entries))),
{
    lemma_entries_keys_distinct(entries);
    crate::keysort::lemma_sort_strict(canon_entries(entries));
}

// ---------------------------------------------------------------- key order at every depth

/// The document with every object's members stably sorted by key bytes, at
/// every depth.
pub open spec fn sorted_doc(d: JsonDoc) -> JsonDoc
    decreases d,
{
    match d {
        JsonDoc::Array(items) => JsonDoc::Array(sorted_list(items)),
        JsonDoc::Object(entries) => JsonDoc::Object(sort_by_key(sorted_members(entries))),
        _ => d,
    }
}

pub open spec fn sorted_list(items: Seq<JsonDoc>) -> Seq<JsonDoc>
    decreases items,
{
    if items.len() == 0 {
        Seq::empty()
    } else {
        sorted_list(items.subrange(0, items.len() - 1)).push(sorted_doc(items[items.len() - 1]))
    }
}

pub open spec fn sorted_members(entries: Seq<(Seq<u8>, JsonDoc)>) -> Seq<(Seq<u8>, JsonDoc)>
    decreases entries,
{
    if entries.len() == 0 {
        Seq::empty()
    } else {
        let last = entries[entries.len() - 1];
        sorted_members(entries.subrange(0, entries.len() - 1)).push((last.0, sorted_doc(last.1)))
    }
}

/// Every object's members are in key order, at every depth.
pub open spec fn keys_ordered_everywhere(d: JsonDoc) -> bool
    decreases d,
{
    match d {
        JsonDoc::Array(items) => forall|i: int|
            0 <= i < items.len() ==> keys_ordered_everywhere(#[trigger] items[i]),
        JsonDoc::Object(entries) => key_ordered(entries) && forall|j: int|
            0 <= j < entries.len() ==> keys_ordered_everywhere(#[trigger] entries[j].1),
        _ => true,
    }
}

/// The member texts of a sequence of members, by mapping.
pub(crate) proof fn lemma_canon_entries_map(entries: Seq<(Seq<u8>, JsonDoc)>)
    ensures
        canon_entries(entries) == entries.map_values(
            |p: (Seq<u8>, JsonDoc)| (p.0, member_text(p.0, p.1)),
        ),
{
    lemma_canon_entries_index(entries);
    assert(canon_entries(entries) =~= entries.map_values(
        |p: (Seq<u8>, JsonDoc)| (p.0, member_text(p.0, p.1)),
    ));
}

pub(crate) proof fn lemma_canon_sorted(d: JsonDoc)
    ensures
        canon(sorted_doc(d)) == canon(d),
    decreases d,
{
    match d {
        JsonDoc::Array(items) => {
            lemma_list_sorted(items);
        },
        JsonDoc::Object(entries) => {
            let sm = sorted_members(entries);
            lemma_members_sorted(entries);
            let f = |k: Seq<u8>, v: JsonDoc| member_text(k, v);
            lemma_sort_map(sm, f);
            lemma_canon_entries_map(sort_by_key(sm));
            lemma_canon_entries_map(sm);
            assert(sort_by_key(sm).map_values(|p: (Seq<u8>, JsonDoc)| (p.0, f(p.0, p.1))) =~= sort_by_key(
                sm,
            ).map_values(|p: (Seq<u8>, JsonDoc)| (p.0, member_text(p.0, p.1))));
            assert(sm.map_values(|p: (Seq<u8>, JsonDoc)| (p.0, f(p.0, p.1))) =~= sm.map_values(
                |p: (Seq<u8>, JsonDoc)| (p.0, member_text(p.0, p.1)),
            ));
            lemma_sort_idempotent(canon_entries(entries));
        },
        _ => {},
    }
}

proof fn lemma_list_sorted(items: Seq<JsonDoc>)
    ensures
        canon_list(sorted_list(items)) == canon_list(items),
        sorted_list(items).len() == items.len(),
    decreases items,
{
    if items.len() > 0 {
        let init = items.subrange(0, items.len() - 1);
        lemma_list_sorted(init);
        lemma_canon_sorted(items[items.len() - 1]);
        lemma_list_push(sorted_list(init), sorted_doc(items[items.len() - 1]));
    }
}

proof fn lemma_members_sorted(entries: Seq<(Seq<u8>, JsonDoc)>)
    ensures
        canon_entries(sorted_members(entries)) == canon_entries(entries),
        sorted_members(entries).len() == entries.len(),
    decreases entries,
{
    if entries.len() > 0 {
        let init = entries.subrange(0, entries.len() - 1);
        let last = entries[entries.len() - 1];
        lemma_members_sorted(init);
        lemma_canon_sorted(last.1);
        lemma_entries_push(sorted_members(init), (last.0, sorted_doc(last.1)));
    }
}

/// Member order does not matter at any depth: the canonical bytes of a
/// document are those of its form with every object's members sorted by
/// key, so two documents with the same sorted form have the same bytes.
pub proof fn canonical_bytes_depend_only_on_sorted_form(a: JsonDoc, b: JsonDoc)
    requires
        sorted_doc(a) == sorted_doc(b),
    ensures
        canon(a) == canon(b),
        canon(a) == canon(sorted_doc(a)),
{
    lemma_canon_sorted(a);
    lemma_canon_sorted(b);
}

pub(crate) proof fn lemma_sorted_list_index(items: Seq<JsonDoc>)
    ensures
        sorted_list(items).len() == items.len(),
        forall|i: int| 0 <= i < items.len() ==> #[trigger] sorted_list(items)[i] == sorted_doc(items[i]),
    decreases items.len(),
{
    if items.len() > 0 {
        let init = items.subrange(0, items.len() - 1);
        lemma_sorted_list_index(init);
        assert forall|i: int| 0 <= i < items.len() implies #[trigger] sorted_list(items)[i] == sorted_doc(items[i]) by {
            if i < items.len() - 1 {
                assert(init[i] == items[i]);
            }
        }
    }
}

pub(crate) proof fn lemma_sorted_members_index(entries: Seq<(Seq<u8>, JsonDoc)>)
    ensures
        sorted_members(entries).len() == entries.len(),
        forall|j: int|
            0 <= j < entries.len() ==> #[trigger] sorted_members(entries)[j] == (
                entries[j].0,
                sorted_doc(entries[j].1),
            ),
    decreases entries.len(),
{
    if entries.len() > 0 {
        let init = entries.subrange(0, entries.len() - 1);
        lemma_sorted_members_index(init);
        assert forall|j: int| 0 <= j < entries.len() implies #[trigger] sorted_members(entries)[j] == (
            entries[j].0,
            sorted_doc(entries[j].1),
        ) by {
            if j < entries.len() - 1 {
                assert(init[j] == entries[j]);
            }
        }
    }
}

/// The sorted form has every object's members in key order, at every depth.
pub proof fn sorted_form_is_key_ordered_everywhere(d: JsonDoc)
    ensures
        keys_ordered_everywhere(sorted_doc(d)),
    decreases d,
{
    match d {
        JsonDoc::Array(items) => {
            lemma_sorted_list_index(items);
            assert forall|i: int| 0 <= i < sorted_list(items).len() implies keys_ordered_everywhere(
                #[trigger] sorted_list(items)[i],
            ) by {
                sorted_form_is_key_ordered_everywhere(items[i]);
            }
        },
        JsonDoc::Object(entries) => {
            let sm = sorted_members(entries);
            lemma_sorted_members_index(entries);
            lemma_sort_ordered(sm);
            lemma_sort_contains(sm);
            let ss = sort_by_key(sm);
            assert forall|j: int| 0 <= j < ss.len() implies keys_ordered_everywhere(
                #[trigger] ss[j].1,
            ) by {
                assert(ss.contains(ss[j]));
                assert(sm.contains(ss[j]));
                let m = choose|m: int| 0 <= m < sm.len() && sm[m] == ss[j];
                sorted_form_is_key_ordered_everywhere(entries[m].1);
            }
        },
        _ => {},
    }
}

/// A key-ordered object is written with its members in their given order.
pub proof fn ordered_members_are_written_in_order(entries: Seq<(Seq<u8>, JsonDoc)>)
    requires
        key_ordered(entries),
    ensures
        canon(JsonDoc::Object(entries)) == seq![0x7Bu8] + join_commas(
            canon_entries(entries).map_values(|p: (Seq<u8>, Seq<u8>)| p.1),
        ) + seq![0x7Du8],
{
    lemma_canon_entries_index(entries);
    let ce = canon_entries(entries);
    assert(key_ordered(ce)) by {
        assert forall|i: int, j: int| 0 <= i < j < ce.len() implies !bytes_lt(
            #[trigger] ce[j].0,
            #[trigger] ce[i].0,
        ) by {
            assert(ce[i].0 == entries[i].0 && ce[j].0 == entries[j].0);
        }
    }
    crate::keysort::lemma_sort_of_ordered(ce);
}

// ---------------------------------------------------------------- no control bytes

proof fn lemma_concat_clean(a: Seq<u8>, b: Seq<u8>)
    requires
        no_control(a),
        no_control(b),
    ensures
        no_control(a + b),
{
    assert forall|k: int| 0 <= k < (a + b).len() implies #[trigger] (a + b)[k] >= 0x20 by {
        if k < a.len() {
            assert((a + b)[k] == a[k]);
        } else {
            assert((a + b)[k] == b[k - a.len()]);
        }
    }
}

proof fn lemma_join_clean(parts: Seq<Seq<u8>>)
    requires
        forall|i: int| 0 <= i < parts.len() ==> no_control(#[trigger] parts[i]),
    ensures
        no_control(join_commas(parts)),
    decreases parts.len(),
{
    if parts.len() == 1 {
        assert(no_control(parts[0]));
    } else if parts.len() > 1 {
        let init = parts.drop_last();
        assert forall|i: int| 0 <= i < init.len() implies no_control(#[trigger] init[i]) by {
            assert(init[i] == parts[i]);
        }
        lemma_join_clean(init);
        assert(no_control(parts.last()));
        lemma_concat_clean(join_commas(init), seq![0x2Cu8]);
        lemma_concat_clean(join_commas(init) + seq![0x2Cu8], parts.last());
    }
}

proof fn lemma_canon_clean(d: JsonDoc)
    requires
        doc_clean(d),
    ensures
        no_control(canon(d)),
    decreases d,
{
    match d {
        JsonDoc::Str(t) => {
            lemma_concat_clean(seq![0x22u8], t);
            lemma_concat_clean(seq![0x22u8] + t, seq![0x22u8]);
        },
        JsonDoc::Array(items) => {
            lemma_list_clean(items);
            lemma_join_clean(canon_list(items));
            lemma_concat_clean(seq![0x5Bu8], join_commas(canon_list(items)));
            lemma_concat_clean(seq![0x5Bu8] + join_commas(canon_list(items)), seq![0x5Du8]);
        },
        JsonDoc::Object(entries) => {
            assert forall|j: int| 0 <= j < entries.len() implies no_control(
                #[trigger] entries[j].0,
            ) && doc_clean(entries[j].1) by {
                reveal_with_fuel(doc_clean, 2);
                assert(doc_clean(d));
                assert(no_control(entries[j].0));
                assert(doc_clean(entries[j].1));
            }
            lemma_entries_clean(entries);
            let ce = canon_entries(entries);
            let ss = sort_by_key(ce);
            lemma_sort_contains(ce);
            let texts = ss.map_values(|p: (Seq<u8>, Seq<u8>)| p.1);
            assert forall|i: int| 0 <= i < texts.len() implies no_control(#[trigger] texts[i]) by {
                assert(ss.contains(ss[i]));
                assert(ce.contains(ss[i]));
                let m = choose|m: int| 0 <= m < ce.len() && ce[m] == ss[i];
                assert(texts[i] == ce[m].1);
            }
            lemma_join_clean(texts);
            lemma_concat_clean(seq![0x7Bu8], join_commas(texts));
            lemma_concat_clean(seq![0x7Bu8] + join_commas(texts), seq![0x7Du8]);
        },
        _ => {},
    }
}

proof fn lemma_list_clean(items: Seq<JsonDoc>)
    requires
        forall|i: int| 0 <= i < items.len() ==> doc_clean(#[trigger] items[i]),
    ensures
        canon_list(items).len() == items.len(),
        forall|i: int| 0 <= i < items.len() ==> no_control(#[trigger] canon_list(items)[i]),
    decreases items,
{
    if items.len() > 0 {
        let init = items.subrange(0, items.len() - 1);
        assert forall|i: int| 0 <= i < init.len() implies doc_clean(#[trigger] init[i]) by {
            assert(init[i] == items[i]);
        }
        lemma_list_clean(init);
        assert(doc_clean(items[items.len() - 1]));
        lemma_canon_clean(items[items.len() - 1]);
    }
}

proof fn lemma_entries_clean(entries: Seq<(Seq<u8>, JsonDoc)>)
    requires
        forall|j: int|
            0 <= j < entries.len() ==> no_control(#[trigger] entries[j].0) && doc_clean(entries[j].1),
    ensures
        canon_entries(entries).len() == entries.len(),
        forall|j: int| 0 <= j < entries.len() ==> no_control(#[trigger] canon_entries(entries)[j].1),
    decreases entries,
{
    if entries.len() > 0 {
        let init = entries.subrange(0, entries.len() - 1);
        let last = entries[entries.len() - 1];
        assert forall|j: int| 0 <= j < init.len() implies no_control(#[trigger] init[j].0) && doc_clean(
            init[j].1,
        ) by {
            assert(init[j] == entries[j]);
        }
        lemma_entries_clean(init);
        assert(no_control(last.0) && doc_clean(last.1));
        lemma_canon_clean(last.1);
        lemma_concat_clean(seq![0x22u8], last.0);
        lemma_concat_clean(seq![0x22u8] + last.0, seq![0x22u8]);
        lemma_concat_clean(quoted(last.0), seq![0x3Au8]);
        lemma_concat_clean(quoted(last.0) + seq![0x3Au8], canon(last.1));
    }
}

/// Canonical bytes hold no control byte: no tab, line feed or carriage
/// return (or any other byte below 0x20) appears in the canonical form of a
/// document read from text.
pub proof fn canonical_bytes_hold_no_control_bytes(raw: Seq<u8>)
    ensures
        json_parse(raw) matches Some(d) ==> no_control(canon(d)),
{
    lemma_value_clean(raw, 0, MAX_DEPTH as nat);
    if let Some(d) = json_parse(raw) {
        lemma_canon_clean(d);
    }
}

// ---------------------------------------------------------------- floats under sorting

pub(crate) proof fn lemma_any_float(items: Seq<JsonDoc>)
    ensures
        any_float(items) <==> exists|i: int| 0 <= i < items.len() && #[trigger] has_float(items[i]),
    decreases items.len(),
{
    if items.len() > 0 {
        let last = items.len() - 1;
        let init = items.subrange(0, last);
        lemma_any_float(init);
        assert(any_float(items) == (any_float(init) || has_float(items[last])));
        if has_float(items[last]) {
            assert(has_float(items[last]));
        }
        if any_float(init) {
            let i = choose|i: int| 0 <= i < init.len() && #[trigger] has_float(init[i]);
            assert(init[i] == items[i]);
        }
        if exists|i: int| 0 <= i < items.len() && #[trigger] has_float(items[i]) {
            let i = choose|i: int| 0 <= i < items.len() && #[trigger] has_float(items[i]);
            if i < last {
                assert(init[i] == items[i]);
            }
        }
    }
}

pub(crate) proof fn lemma_any_float_entry(entries: Seq<(Seq<u8>, JsonDoc)>)
    ensures
        any_float_entry(entries) <==> exists|j: int|
            0 <= j < entries.len() && #[trigger] has_float(entries[j].1),
    decreases entries.len(),
{
    if entries.len() > 0 {
        let last = entries.len() - 1;
        let init = entries.subrange(0, last);
        lemma_any_float_entry(init);
        assert(any_float_entry(entries) == (any_float_entry(init) || has_float(entries[last].1)));
        if has_float(entries[last].1) {
            assert(has_float(entries[last].1));
        }
        if any_float_entry(init) {
            let j = choose|j: int| 0 <= j < init.len() && #[trigger] has_float(init[j].1);
            assert(init[j] == entries[j]);
        }
        if exists|j: int| 0 <= j < entries.len() && #[trigger] has_float(entries[j].1) {
            let j = choose|j: int| 0 <= j < entries.len() && #[trigger] has_float(entries[j].1);
            if j < last {
                assert(init[j] == entries[j]);
            }
        }
    }
}

/// Sorting members keeps the float flag: the sorted form holds a float
/// exactly when the document does.
pub proof fn sorting_keeps_floats(d: JsonDoc)
    ensures
        has_float(sorted_doc(d)) == has_float(d),
    decreases d,
{
    match d {
        JsonDoc::Array(items) => {
            lemma_sorted_list_index(items);
            lemma_any_float(items);
            lemma_any_float(sorted_list(items));
            assert forall|i: int| 0 <= i < items.len() implies has_float(
                #[trigger] sorted_list(items)[i],
            ) == has_float(items[i]) by {
                sorting_keeps_floats(items[i]);
            }
            if any_float(items) {
                let i = choose|i: int| 0 <= i < items.len() && #[trigger] has_float(items[i]);
                assert(has_float(sorted_list(items)[i]));
            }
            if any_float(sorted_list(items)) {
                let i = choose|i: int|
                    0 <= i < sorted_list(items).len() && #[trigger] has_float(sorted_list(items)[i]);
                assert(has_float(items[i]));
            }
        },
        JsonDoc::Object(entries) => {
            let sm = sorted_members(entries);
            let ss = sort_by_key(sm);
            lemma_sorted_members_index(entries);
            lemma_sort_contains(sm);
            lemma_any_float_entry(entries);
            lemma_any_float_entry(ss);
            assert forall|j: int| 0 <= j < entries.len() implies has_float(
                #[trigger] sm[j].1,
            ) == has_float(entries[j].1) by {
                sorting_keeps_floats(entries[j].1);
            }
            if any_float_entry(entries) {
                let j = choose|j: int| 0 <= j < entries.len() && #[trigger] has_float(entries[j].1);
                assert(has_float(sm[j].1));
                assert(sm.contains(sm[j]));
                assert(ss.contains(sm[j]));
                let t = choose|t: int| 0 <= t < ss.len() && ss[t] == sm[j];
                assert(has_float(ss[t].1));
            }
            if any_float_entry(ss) {
                let t = choose|t: int| 0 <= t < ss.len() && #[trigger] has_float(ss[t].1);
                assert(ss.contains(ss[t]));
                let j = choose|j: int| 0 <= j < sm.len() && sm[j] == ss[t];
                assert(has_float(entries[j].1));
            }
        },
        _ => {},
    }
}

/// Member order does not change the outcome: two raw documents that read as
/// the same document up to member order at any depth (the document holds
/// no whitespace) canonicalize alike, to the same bytes or the same error.
pub proof fn canonicalization_ignores_member_order(a: Seq<u8>, b: Seq<u8>)
    requires
        json_parse(a) is Some,
        json_parse(b) is Some,
        sorted_doc(json_parse(a)->Some_0) == sorted_doc(json_parse(b)->Some_0),
    ensures
        canonical_result(a) == canonical_result(b),
{
    let da = json_parse(a)->Some_0;
    let db = json_parse(b)->Some_0;
    sorting_keeps_floats(da);
    sorting_keeps_floats(db);
    lemma_canon_sorted(da);
    lemma_canon_sorted(db);
}

} // verus!
