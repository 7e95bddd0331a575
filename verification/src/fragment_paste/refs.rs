//! Rewriting the `*IDRef` attributes of a fragment through an ID mapping.

use std::collections::HashMap;
use vstd::prelude::*;
use vstd::utf8::valid_utf8;
use crate::scan::{
    find_spec, find_from, find_byte, push_range, push_all, lemma_find_spec_bounds, matches_at,
    lemma_find_spec_first, lemma_find_spec_none,
};
use crate::text::{
    utf8_of, cut_ok, lemma_subrange_valid, lemma_ascii_valid, lemma_after_ascii, lemma_concat_valid,
    string_of_valid, bytes_of,
};
use crate::decimal::{
    spec_parse_u32, decimal, parse_u32, decimal_u64, lemma_decimal_props, all_digits, is_digit,
    lemma_parse_decimal_roundtrip,
};
use super::lits::{
    attr_char_pr_ref, attr_para_pr_ref, attr_style_ref, attr_border_fill_ref,
    attr_char_pr_ref_bytes, attr_para_pr_ref_bytes, attr_style_ref_bytes,
    attr_border_fill_ref_bytes,
};
use super::types::{empty_remap, IdRemap, RemapView};

verus! {

broadcast use vstd::std_specs::hash::group_hash_axioms;

/// A byte that may precede an attribute name: space, tab, newline, carriage
/// return, `<` or `/`.
pub open spec fn is_attr_boundary(b: u8) -> bool {
    b == 32 || b == 9 || b == 10 || b == 13 || b == 60 || b == 47
}

/// `{attr}="`
pub open spec fn dq_needle(attr: Seq<u8>) -> Seq<u8> {
    attr + seq![61u8, 34u8]
}

/// `{attr}='`
pub open spec fn sq_needle(attr: Seq<u8>) -> Seq<u8> {
    attr + seq![61u8, 39u8]
}

/// The next `{attr}="` or `{attr}='` at or after `pos` (the earlier one; the
/// double-quoted one on a tie), with its quote byte.
pub open spec fn attr_next(s: Seq<u8>, attr: Seq<u8>, pos: int) -> Option<(int, u8)> {
    match (find_spec(s, pos, dq_needle(attr)), find_spec(s, pos, sq_needle(attr))) {
        (None, None) => None,
        (Some(a), None) => Some((a, 34u8)),
        (None, Some(b)) => Some((b, 39u8)),
        (Some(a), Some(b)) => if a <= b {
            Some((a, 34u8))
        } else {
            Some((b, 39u8))
        },
    }
}

/// An attribute value after the mapping: a value that reads as a `u32` found in
/// `remap` becomes the mapped ID; any other value stays as it is.
pub open spec fn mapped_value(raw: Seq<u8>, remap: Map<u32, u32>) -> Seq<u8> {
    match spec_parse_u32(raw) {
        Some(sid) => if remap.contains_key(sid) {
            decimal(remap[sid] as nat)
        } else {
            raw
        },
        None => raw,
    }
}

/// One step of rewriting `attr` from `pos`: no further occurrence (or one whose
/// value is never closed), so the rest is copied; an occurrence at `at` that is
/// not preceded by an attribute boundary (as `extraCharPrIDRef`), copied up to
/// and including its first byte; or a value spanning `vs..ve` in quotes `q`.
pub enum RwStep {
    Rest,
    Skip(int),
    Value(int, int, u8),
}

pub open spec fn rw_step(s: Seq<u8>, attr: Seq<u8>, pos: int) -> RwStep {
    match attr_next(s, attr, pos) {
        None => RwStep::Rest,
        Some((at, q)) => {
            if !(at > 0 && is_attr_boundary(s[at - 1])) {
                RwStep::Skip(at)
            } else {
                let vs = at + attr.len() + 2;
                match find_spec(s, vs, seq![q]) {
                    None => RwStep::Rest,
                    Some(ve) => RwStep::Value(vs, ve, q),
                }
            }
        },
    }
}

/// `s[pos..]` with the values of `attr` rewritten.
pub open spec fn spec_rw_from(s: Seq<u8>, attr: Seq<u8>, remap: Map<u32, u32>, pos: int) -> Seq<u8>
    decreases s.len() - pos,
    via rw_decreases
{
    if pos < 0 || pos >= s.len() {
        seq![]
    } else {
        match rw_step(s, attr, pos) {
            RwStep::Rest => s.subrange(pos, s.len() as int),
            RwStep::Skip(at) => s.subrange(pos, at + 1) + spec_rw_from(s, attr, remap, at + 1),
            RwStep::Value(vs, ve, q) => s.subrange(pos, vs) + mapped_value(s.subrange(vs, ve), remap)
                + seq![q] + spec_rw_from(s, attr, remap, ve + 1),
        }
    }
}

pub proof fn lemma_attr_next(s: Seq<u8>, attr: Seq<u8>, pos: int)
    ensures
        attr_next(s, attr, pos) matches Some((at, q)) ==> pos <= at && at + attr.len() + 2 <= s.len()
            && (q == 34 || q == 39) && s[at + attr.len() + 1] == q
            && (attr.len() > 0 ==> s[at] == attr[0]),
{
    lemma_find_spec_bounds(s, pos, dq_needle(attr));
    lemma_find_spec_bounds(s, pos, sq_needle(attr));
    if let Some((at, q)) = attr_next(s, attr, pos) {
        let n = if q == 34 { dq_needle(attr) } else { sq_needle(attr) };
        assert(s.subrange(at, at + n.len())[attr.len() + 1 as int] == s[at + attr.len() + 1]);
        if attr.len() > 0 {
            assert(s.subrange(at, at + n.len())[0] == s[at]);
            assert(n[0] == attr[0]);
        }
    }
}

pub proof fn lemma_rw_step(s: Seq<u8>, attr: Seq<u8>, pos: int)
    requires
        0 <= pos,
    ensures
        rw_step(s, attr, pos) matches RwStep::Skip(at) ==> pos <= at < s.len()
            && (attr.len() > 0 ==> s[at] == attr[0]),
        rw_step(s, attr, pos) matches RwStep::Value(vs, ve, q) ==> pos < vs <= ve < s.len()
            && s[vs - 1] == q && s[ve] == q && (q == 34 || q == 39),
{
    lemma_attr_next(s, attr, pos);
    if let Some((at, q)) = attr_next(s, attr, pos) {
        let vs = at + attr.len() + 2;
        lemma_find_spec_bounds(s, vs, seq![q]);
        if let Some(ve) = find_spec(s, vs, seq![q]) {
            assert(s.subrange(ve, ve + 1)[0] == s[ve]);
        }
    }
}

#[via_fn]
proof fn rw_decreases(s: Seq<u8>, attr: Seq<u8>, remap: Map<u32, u32>, pos: int) {
    if 0 <= pos {
        lemma_rw_step(s, attr, pos);
    }
}

/// All of `s` with the values of `attr` rewritten (unchanged for an empty mapping).
pub open spec fn spec_rewrite_one_attr(s: Seq<u8>, attr: Seq<u8>, remap: Map<u32, u32>) -> Seq<u8> {
    if remap.is_empty() {
        s
    } else {
        spec_rw_from(s, attr, remap, 0)
    }
}

/// `charPrIDRef`, `paraPrIDRef`, `styleIDRef` and `borderFillIDRef` rewritten in turn.
pub open spec fn spec_rewrite_id_refs(s: Seq<u8>, remap: RemapView) -> Seq<u8> {
    let s1 = spec_rewrite_one_attr(s, attr_char_pr_ref(), remap.char_pr);
    let s2 = spec_rewrite_one_attr(s1, attr_para_pr_ref(), remap.para_pr);
    let s3 = spec_rewrite_one_attr(s2, attr_style_ref(), remap.style);
    spec_rewrite_one_attr(s3, attr_border_fill_ref(), remap.border_fill)
}

fn attr_next_exec(s: &[u8], dq: &[u8], sq: &[u8], pos: usize, Ghost(attr): Ghost<Seq<u8>>) -> (r: Option<(usize, u8)>)
    requires
        dq@ == dq_needle(attr),
        sq@ == sq_needle(attr),
    ensures
        match attr_next(s@, attr, pos as int) {
            None => r is None,
            Some((a, q)) => r == Some((a as usize, q)),
        },
{
    let d = find_from(s, pos, dq);
    let q = find_from(s, pos, sq);
    proof {
        lemma_find_spec_bounds(s@, pos as int, dq@);
        lemma_find_spec_bounds(s@, pos as int, sq@);
    }
    match (d, q) {
        (None, None) => None,
        (Some(a), None) => Some((a, 34u8)),
        (None, Some(b)) => Some((b, 39u8)),
        (Some(a), Some(b)) => if a <= b {
            Some((a, 34u8))
        } else {
            Some((b, 39u8))
        },
    }
}

fn needles(attr: &[u8]) -> (r: (Vec<u8>, Vec<u8>))
    ensures
        r.0@ == dq_needle(attr@),
        r.1@ == sq_needle(attr@),
{
    let mut d = Vec::new();
    push_all(&mut d, attr);
    let mut q = Vec::new();
    push_all(&mut q, attr);
    d.push(61u8);
    d.push(34u8);
    q.push(61u8);
    q.push(39u8);
    assert(d@ =~= dq_needle(attr@));
    assert(q@ =~= sq_needle(attr@));
    (d, q)
}

/// The value of an attribute after the mapping.
fn map_value(raw: &[u8], remap: &HashMap<u32, u32>) -> (r: Vec<u8>)
    ensures
        r@ == mapped_value(raw@, remap@),
        valid_utf8(raw@) ==> valid_utf8(r@),
{
    match parse_u32(raw) {
        Some(sid) => match remap.get(&sid) {
            Some(t) => {
                proof {
                    lemma_decimal_props(*t as nat);
                    lemma_ascii_valid(decimal(*t as nat));
                }
                decimal_u64(*t as u64)
            },
            None => {
                let mut v = Vec::new();
                push_all(&mut v, raw);
                assert(v@ =~= raw@);
                v
            },
        },
        None => {
            let mut v = Vec::new();
            push_all(&mut v, raw);
            assert(v@ =~= raw@);
            v
        },
    }
}

/// Exec counterpart of `rw_step`: (0, _, _, _) rest, (1, at, _, _) skip,
/// (2, vs, ve, q) value.
fn rw_step_exec(s: &[u8], dq: &[u8], sq: &[u8], pos: usize, Ghost(attr): Ghost<Seq<u8>>) -> (r: (u8, usize, usize, u8))
    requires
        dq@ == dq_needle(attr),
        sq@ == sq_needle(attr),
    ensures
        match rw_step(s@, attr, pos as int) {
            RwStep::Rest => r.0 == 0,
            RwStep::Skip(at) => r.0 == 1 && r.1 == at,
            RwStep::Value(vs, ve, q) => r.0 == 2 && r.1 == vs && r.2 == ve && r.3 == q,
        },
{
    let n = s.len();
    proof {
        lemma_attr_next(s@, attr, pos as int);
    }
    match attr_next_exec(s, dq, sq, pos, Ghost(attr)) {
        None => (0, 0, 0, 0),
        Some((at, q)) => {
            let boundary = at > 0 && {
                let p = s[at - 1];
                p == 32 || p == 9 || p == 10 || p == 13 || p == 60 || p == 47
            };
            if !boundary {
                (1, at, 0, 0)
            } else {
                let vs = at + (dq.len() - 2) + 2;
                assert(dq@.len() == attr.len() + 2);
                match find_byte(s, vs, q) {
                    None => (0, 0, 0, 0),
                    Some(ve) => (2, vs, ve, q),
                }
            }
        },
    }
}

/// `input` with the values of the attribute `attr` rewritten through `remap`.
fn rewrite_one_attr(input: Vec<u8>, attr: &[u8], remap: &HashMap<u32, u32>) -> (r: Vec<u8>)
    requires
        valid_utf8(input@),
        attr@.len() > 0,
        attr@[0] < 0x80,
    ensures
        r@ == spec_rewrite_one_attr(input@, attr@, remap@),
        valid_utf8(r@),
{
    if remap.is_empty() {
        return input;
    }
    let s = input.as_slice();
    let n = s.len();
    let (dq, sq) = needles(attr);
    let mut out: Vec<u8> = Vec::new();
    let mut pos: usize = 0;
    proof {
        lemma_ascii_valid(out@);
    }
    while pos < n
        invariant
            n == s@.len(),
            pos <= n,
            valid_utf8(s@),
            cut_ok(s@, pos as int),
            valid_utf8(out@),
            dq@ == dq_needle(attr@),
            sq@ == sq_needle(attr@),
            attr@.len() > 0,
            attr@[0] < 0x80,
            spec_rw_from(s@, attr@, remap@, 0) == out@ + spec_rw_from(s@, attr@, remap@, pos as int),
        decreases n - pos,
    {
        proof {
            lemma_rw_step(s@, attr@, pos as int);
        }
        let ghost before = out@;
        let (kind, a, b, q) = rw_step_exec(s, dq.as_slice(), sq.as_slice(), pos, Ghost(attr@));
        if kind == 0 {
            push_range(&mut out, s, pos, n);
            proof {
                lemma_subrange_valid(s@, pos as int, n as int);
                lemma_concat_valid(before, s@.subrange(pos as int, n as int));
                assert(spec_rw_from(s@, attr@, remap@, n as int) =~= seq![]);
            }
            pos = n;
        } else if kind == 1 {
            push_range(&mut out, s, pos, a + 1);
            proof {
                lemma_after_ascii(s@, a as int);
                lemma_subrange_valid(s@, pos as int, a + 1);
                lemma_concat_valid(before, s@.subrange(pos as int, a + 1));
                assert(out@ + spec_rw_from(s@, attr@, remap@, a + 1)
                    =~= before + (s@.subrange(pos as int, a + 1) + spec_rw_from(s@, attr@, remap@, a + 1)));
            }
            pos = a + 1;
        } else {
            proof {
                lemma_after_ascii(s@, a - 1);
                lemma_after_ascii(s@, b as int);
                lemma_subrange_valid(s@, pos as int, a as int);
                lemma_subrange_valid(s@, a as int, b as int);
            }
            push_range(&mut out, s, pos, a);
            let value = map_value(vstd::slice::slice_subrange(s, a, b), remap);
            push_all(&mut out, value.as_slice());
            out.push(q);
            proof {
                let qs: Seq<u8> = seq![q];
                lemma_ascii_valid(qs);
                lemma_concat_valid(before, s@.subrange(pos as int, a as int));
                lemma_concat_valid(before + s@.subrange(pos as int, a as int), value@);
                lemma_concat_valid(before + s@.subrange(pos as int, a as int) + value@, qs);
                assert(out@ =~= before + s@.subrange(pos as int, a as int) + value@ + qs);
                assert(out@ + spec_rw_from(s@, attr@, remap@, b + 1)
                    =~= before + (s@.subrange(pos as int, a as int) + value@ + qs
                    + spec_rw_from(s@, attr@, remap@, b + 1)));
            }
            pos = b + 1;
        }
    }
    assert(spec_rw_from(s@, attr@, remap@, pos as int) =~= seq![]);
    assert(out@ + seq![] =~= out@);
    out
}

/// `fragment_xml` with its `charPrIDRef`, `paraPrIDRef`, `styleIDRef` and
/// `borderFillIDRef` values (double- or single-quoted) replaced by the mapped
/// IDs. Values that are not numbers, or not in the mapping, are left as they
/// are, and so is every other byte.
pub fn rewrite_id_refs(fragment_xml: &str, remap: &IdRemap) -> (r: String)
    ensures
        utf8_of(r@) == spec_rewrite_id_refs(utf8_of(fragment_xml@), remap@),
{
    let mut out: Vec<u8> = Vec::new();
    push_all(&mut out, bytes_of(fragment_xml));
    let a1 = attr_char_pr_ref_bytes();
    let a2 = attr_para_pr_ref_bytes();
    let a3 = attr_style_ref_bytes();
    let a4 = attr_border_fill_ref_bytes();
    out = rewrite_one_attr(out, a1.as_slice(), &remap.char_pr);
    out = rewrite_one_attr(out, a2.as_slice(), &remap.para_pr);
    out = rewrite_one_attr(out, a3.as_slice(), &remap.style);
    out = rewrite_one_attr(out, a4.as_slice(), &remap.border_fill);
    string_of_valid(out)
}

/// With no mappings, rewriting the references changes nothing.
pub proof fn lemma_rewrite_empty_is_identity(s: Seq<u8>)
    ensures
        spec_rewrite_id_refs(s, empty_remap()) == s,
{
}

// ───────────────────────────── What the rewrite does to one reference ─────────────────────────────

/// The attributes rewritten, in order: `charPrIDRef`, `paraPrIDRef`,
/// `styleIDRef`, `borderFillIDRef`.
pub open spec fn ref_attr(k: int) -> Seq<u8> {
    if k == 0 {
        attr_char_pr_ref()
    } else if k == 1 {
        attr_para_pr_ref()
    } else if k == 2 {
        attr_style_ref()
    } else {
        attr_border_fill_ref()
    }
}

/// The mapping that the attribute `ref_attr(k)` is rewritten through.
pub open spec fn ref_map(rv: RemapView, k: int) -> Map<u32, u32> {
    if k == 0 {
        rv.char_pr
    } else if k == 1 {
        rv.para_pr
    } else if k == 2 {
        rv.style
    } else {
        rv.border_fill
    }
}

/// ` {attr}="{value}"` (quoted with `q`, `"` or `'`) for the attribute `ref_attr(k)`.
pub open spec fn ref_text(k: int, value: Seq<u8>, q: u8) -> Seq<u8> {
    seq![32u8] + ref_attr(k) + seq![61u8, q] + value + seq![q]
}

/// No byte of `x` is `=`.
pub open spec fn has_no_eq(x: Seq<u8>) -> bool {
    forall|i: int| 0 <= i < x.len() ==> x[i] != 61
}

/// The only `=` of `s` is at `e`.
spec fn single_eq_at(s: Seq<u8>, e: int) -> bool {
    &&& 0 <= e < s.len()
    &&& s[e] == 61
    &&& forall|i: int| 0 <= i < s.len() && s[i] == 61 ==> i == e
}

/// `s` is some text, then ` {ref_attr(k)}=` and the quote `q`, with its `=`
/// at `e`, then `d` digits, the closing quote and more text, and `s` has no
/// other `=`.
spec fn ref_form(s: Seq<u8>, k: int, e: int, d: int, q: u8) -> bool {
    let a = ref_attr(k);
    &&& single_eq_at(s, e)
    &&& e - a.len() - 1 >= 0
    &&& s.subrange(e - a.len() - 1, e) == seq![32u8] + a
    &&& q == 34 || q == 39
    &&& s[e + 1] == q
    &&& e + 2 + d < s.len()
    &&& forall|t: int| e + 2 <= t < e + 2 + d ==> is_digit(#[trigger] s[t])
    &&& s[e + 2 + d] == q
}

proof fn lemma_needle_at_eq(s: Seq<u8>, e: int, c: Seq<u8>, j: int)
    requires
        single_eq_at(s, e),
        matches_at(s, j, dq_needle(c)) || matches_at(s, j, sq_needle(c)),
    ensures
        j + c.len() == e,
        forall|t: int| 0 <= t < c.len() ==> s[j + t] == c[t],
        s[e + 1] == (if matches_at(s, j, dq_needle(c)) { 34u8 } else { 39u8 }),
        matches_at(s, j, sq_needle(c)) ==> s[e + 1] == 39,
{
    if matches_at(s, j, sq_needle(c)) {
        assert(s.subrange(j, j + c.len() + 2)[(c.len() + 1) as int] == s[j + c.len() + 1]);
    }
    let n = if matches_at(s, j, dq_needle(c)) { dq_needle(c) } else { sq_needle(c) };
    assert(s.subrange(j, j + n.len())[c.len() as int] == s[j + c.len()]);
    assert(s.subrange(j, j + n.len())[(c.len() + 1) as int] == s[j + c.len() + 1]);
    assert forall|t: int| 0 <= t < c.len() implies s[j + t] == c[t] by {
        assert(s.subrange(j, j + n.len())[t] == s[j + t]);
    }
}

proof fn lemma_form_bytes(s: Seq<u8>, k: int, e: int, d: int, q: u8)
    requires
        ref_form(s, k, e, d, q),
    ensures
        forall|t: int| 0 <= t < ref_attr(k).len() ==> s[e - ref_attr(k).len() + t] == ref_attr(k)[t],
        s[e - ref_attr(k).len() - 1] == 32,
{
    let a = ref_attr(k);
    assert(s.subrange(e - a.len() - 1, e)[0] == s[e - a.len() - 1]);
    assert forall|t: int| 0 <= t < a.len() implies s[e - a.len() + t] == a[t] by {
        assert(s.subrange(e - a.len() - 1, e)[t + 1] == s[e - a.len() + t]);
        assert((seq![32u8] + a)[t + 1] == a[t]);
    }
}

/// In the form of `ref_attr(k)`, no other of the four attributes occurs.
proof fn lemma_other_attr_absent(s: Seq<u8>, k: int, e: int, d: int, i: int, q: u8)
    requires
        0 <= k < 4,
        0 <= i < 4,
        i != k,
        ref_form(s, k, e, d, q),
    ensures
        forall|j: int| !matches_at(s, j, dq_needle(ref_attr(i))) && !matches_at(s, j, sq_needle(ref_attr(i))),
{
    let a = ref_attr(k);
    let c = ref_attr(i);
    lemma_form_bytes(s, k, e, d, q);
    assert forall|j: int| !matches_at(s, j, dq_needle(c)) && !matches_at(s, j, sq_needle(c)) by {
        if matches_at(s, j, dq_needle(c)) || matches_at(s, j, sq_needle(c)) {
            lemma_needle_at_eq(s, e, c, j);
            assert(s[j + c.len() - 6] == c[c.len() - 6]);
            assert(s[e - a.len() + a.len() - 6] == a[a.len() - 6]);
            if (k == 0 && i == 1) || (k == 1 && i == 0) {
                assert(s[j] == c[0]);
                assert(s[e - a.len()] == a[0]);
            }
        }
    }
}

/// A pass over an attribute that does not occur changes nothing.
proof fn lemma_pass_keeps(s: Seq<u8>, e: int, c: Seq<u8>, m: Map<u32, u32>)
    requires
        single_eq_at(s, e),
        forall|j: int| !matches_at(s, j, dq_needle(c)) && !matches_at(s, j, sq_needle(c)),
    ensures
        spec_rewrite_one_attr(s, c, m) == s,
{
    if !m.is_empty() {
        lemma_find_spec_none(s, 0, dq_needle(c));
        lemma_find_spec_none(s, 0, sq_needle(c));
        assert(rw_step(s, c, 0) is Rest);
        assert(s.subrange(0, s.len() as int) =~= s);
    }
}

/// A pass over the attribute of the form rewrites its value and nothing else.
proof fn lemma_pass_rewrites(s: Seq<u8>, k: int, e: int, d: int, m: Map<u32, u32>, q: u8)
    requires
        0 <= k < 4,
        0 <= d,
        ref_form(s, k, e, d, q),
    ensures
        spec_rewrite_one_attr(s, ref_attr(k), m) == s.subrange(0, e + 2) + mapped_value(
            s.subrange(e + 2, e + 2 + d),
            m,
        ) + s.subrange(e + 2 + d, s.len() as int),
{
    let a = ref_attr(k);
    let raw = s.subrange(e + 2, e + 2 + d);
    if m.is_empty() {
        assert(mapped_value(raw, m) == raw);
        assert(s =~= s.subrange(0, e + 2) + raw + s.subrange(e + 2 + d, s.len() as int));
    } else {
        lemma_form_bytes(s, k, e, d, q);
        let at = e - a.len();
        let hit = if q == 34 { dq_needle(a) } else { sq_needle(a) };
        let miss = if q == 34 { sq_needle(a) } else { dq_needle(a) };
        assert(s.subrange(at, at + a.len() + 2) =~= hit);
        assert forall|j: int| 0 <= j < at implies !matches_at(s, j, hit) by {
            if matches_at(s, j, hit) {
                lemma_needle_at_eq(s, e, a, j);
            }
        }
        lemma_find_spec_first(s, 0, hit, at);
        assert forall|j: int| !matches_at(s, j, miss) by {
            if matches_at(s, j, miss) {
                lemma_needle_at_eq(s, e, a, j);
            }
        }
        lemma_find_spec_none(s, 0, miss);
        assert(attr_next(s, a, 0) == Some((at, q)));
        let ve = e + 2 + d;
        assert(s.subrange(ve, ve + 1) =~= seq![q]);
        assert forall|j: int| e + 2 <= j < ve implies !matches_at(s, j, seq![q]) by {
            assert(is_digit(s[j]));
            if matches_at(s, j, seq![q]) {
                assert(s.subrange(j, j + 1)[0] == s[j]);
            }
        }
        lemma_find_spec_first(s, e + 2, seq![q], ve);
        assert(rw_step(s, a, 0) == RwStep::Value(e + 2, ve, q));
        let rest = spec_rw_from(s, a, m, ve + 1);
        assert(rest == s.subrange(ve + 1, s.len() as int)) by {
            if ve + 1 < s.len() {
                assert forall|j: int| ve + 1 <= j implies !matches_at(s, j, dq_needle(a)) && !matches_at(
                    s,
                    j,
                    sq_needle(a),
                ) by {
                    if matches_at(s, j, dq_needle(a)) || matches_at(s, j, sq_needle(a)) {
                        lemma_needle_at_eq(s, e, a, j);
                    }
                }
                lemma_find_spec_none(s, ve + 1, dq_needle(a));
                lemma_find_spec_none(s, ve + 1, sq_needle(a));
                assert(rw_step(s, a, ve + 1) is Rest);
            } else {
                assert(s.subrange(ve + 1, s.len() as int) =~= seq![]);
            }
        }
        assert(spec_rw_from(s, a, m, 0) == s.subrange(0, e + 2) + mapped_value(raw, m) + seq![q] + rest);
        assert(seq![q] + s.subrange(ve + 1, s.len() as int) =~= s.subrange(ve, s.len() as int));
        assert(s.subrange(0, e + 2) + mapped_value(raw, m) + seq![q] + rest =~= s.subrange(0, e + 2)
            + mapped_value(raw, m) + s.subrange(ve, s.len() as int));
    }
}

/// The text with one reference of the kind `k` whose value is `v`.
spec fn ref_doc(pre: Seq<u8>, post: Seq<u8>, k: int, v: Seq<u8>, q: u8) -> Seq<u8> {
    pre + ref_text(k, v, q) + post
}

proof fn lemma_ref_doc_form(pre: Seq<u8>, post: Seq<u8>, k: int, v: Seq<u8>, q: u8)
    requires
        0 <= k < 4,
        q == 34 || q == 39,
        has_no_eq(pre),
        has_no_eq(post),
        all_digits(v),
    ensures
        ref_form(ref_doc(pre, post, k, v, q), k, (pre.len() + 1 + ref_attr(k).len()) as int, v.len() as int, q),
        ref_doc(pre, post, k, v, q).subrange(0, (pre.len() + ref_attr(k).len() + 3) as int) == pre + seq![32u8] + ref_attr(k)
            + seq![61u8, q],
        ref_doc(pre, post, k, v, q).subrange(
            (pre.len() + ref_attr(k).len() + 3) as int,
            (pre.len() + ref_attr(k).len() + 3 + v.len()) as int,
        ) == v,
        ref_doc(pre, post, k, v, q).subrange(
            (pre.len() + ref_attr(k).len() + 3 + v.len()) as int,
            ref_doc(pre, post, k, v, q).len() as int,
        ) == seq![q] + post,
{
    let a = ref_attr(k);
    let s = ref_doc(pre, post, k, v, q);
    let e: int = (pre.len() + 1 + a.len()) as int;
    let p: int = pre.len() as int;
    assert(s =~= pre + (seq![32u8] + a + seq![61u8, q]) + v + (seq![q] + post));
    assert forall|t: int| 0 <= t < a.len() implies a[t] != 61 by {
        if k == 0 {
        } else if k == 1 {
        } else if k == 2 {
        } else {
        }
    }
    assert forall|i: int| 0 <= i < s.len() && s[i] == 61 implies i == e by {
        if i < p {
            assert(s[i] == pre[i]);
        } else if i == p {
        } else if i < e {
            assert(s[i] == a[i - p - 1]);
        } else if i == e || i == e + 1 {
        } else if i < e + 2 + v.len() {
            assert(s[i] == v[i - e - 2]);
            assert(is_digit(v[i - e - 2]));
        } else if i == e + 2 + v.len() {
        } else {
            assert(s[i] == post[i - e - 3 - v.len()]);
        }
    }
    assert(s.subrange(e - a.len() - 1, e) =~= seq![32u8] + a);
    assert forall|t: int| e + 2 <= t < e + 2 + v.len() implies is_digit(#[trigger] s[t]) by {
        assert(s[t] == v[t - e - 2]);
    }
    assert(s.subrange(0, p + a.len() + 3) =~= pre + seq![32u8] + a + seq![61u8, q]);
    assert(s.subrange(p + a.len() + 3, p + a.len() + 3 + v.len()) =~= v);
    assert(s.subrange(p + a.len() + 3 + v.len(), s.len() as int) =~= seq![q] + post);
}

/// Pass `i` of the rewrite over a text with one reference of kind `k`.
#[verifier::spinoff_prover]
proof fn lemma_ref_doc_pass(pre: Seq<u8>, post: Seq<u8>, k: int, v: Seq<u8>, i: int, m: Map<u32, u32>, q: u8)
    requires
        0 <= k < 4,
        q == 34 || q == 39,
        0 <= i < 4,
        has_no_eq(pre),
        has_no_eq(post),
        all_digits(v),
    ensures
        spec_rewrite_one_attr(ref_doc(pre, post, k, v, q), ref_attr(i), m) == (if i == k {
            ref_doc(pre, post, k, mapped_value(v, m), q)
        } else {
            ref_doc(pre, post, k, v, q)
        }),
{
    let s = ref_doc(pre, post, k, v, q);
    let e: int = (pre.len() + 1 + ref_attr(k).len()) as int;
    lemma_ref_doc_form(pre, post, k, v, q);
    if i == k {
        lemma_pass_rewrites(s, k, e, v.len() as int, m, q);
        let a = ref_attr(k);
        assert(e + 2 == pre.len() + a.len() + 3);
        assert(s.subrange(0, e + 2) == pre + seq![32u8] + a + seq![61u8, q]);
        assert(s.subrange(e + 2, e + 2 + v.len()) == v);
        assert(s.subrange(e + 2 + v.len(), s.len() as int) == seq![q] + post);
        let mv = mapped_value(v, m);
        assert(ref_doc(pre, post, k, mv, q) =~= (pre + seq![32u8] + a + seq![61u8, q]) + mv + (seq![q] + post));
    } else {
        lemma_other_attr_absent(s, k, e, v.len() as int, i, q);
        lemma_pass_keeps(s, e, ref_attr(i), m);
    }
}

/// Rewriting the references of a text with one reference of the four kinds,
/// ` {attr}="N"` or ` {attr}='N'`, to an ID `N` that its own mapping holds,
/// gives the same text with `N` replaced by the ID it is mapped to; the text
/// around it (here free of `=`) is kept as it is.
pub proof fn lemma_rewrite_maps_each_reference(pre: Seq<u8>, post: Seq<u8>, k: int, n: u32, rv: RemapView, q: u8)
    requires
        0 <= k < 4,
        q == 34 || q == 39,
        has_no_eq(pre),
        has_no_eq(post),
        ref_map(rv, k).contains_key(n),
    ensures
        spec_rewrite_id_refs(pre + ref_text(k, decimal(n as nat), q) + post, rv) == pre + ref_text(
            k,
            decimal(ref_map(rv, k)[n] as nat),
            q,
        ) + post,
{
    let v = decimal(n as nat);
    let w = decimal(ref_map(rv, k)[n] as nat);
    lemma_decimal_props(n as nat);
    lemma_decimal_props(ref_map(rv, k)[n] as nat);
    lemma_parse_decimal_roundtrip(n);
    assert(mapped_value(v, ref_map(rv, k)) == w);
    let s0 = ref_doc(pre, post, k, v, q);
    lemma_ref_doc_pass(pre, post, k, v, 0, rv.char_pr, q);
    let s1 = spec_rewrite_one_attr(s0, attr_char_pr_ref(), rv.char_pr);
    assert(s1 == (if k == 0 { ref_doc(pre, post, k, w, q) } else { s0 }));
    lemma_ref_doc_pass(pre, post, k, if k == 0 { w } else { v }, 1, rv.para_pr, q);
    let s2 = spec_rewrite_one_attr(s1, attr_para_pr_ref(), rv.para_pr);
    assert(s2 == (if k <= 1 { ref_doc(pre, post, k, w, q) } else { s0 }));
    lemma_ref_doc_pass(pre, post, k, if k <= 1 { w } else { v }, 2, rv.style, q);
    let s3 = spec_rewrite_one_attr(s2, attr_style_ref(), rv.style);
    assert(s3 == (if k <= 2 { ref_doc(pre, post, k, w, q) } else { s0 }));
    lemma_ref_doc_pass(pre, post, k, if k <= 2 { w } else { v }, 3, rv.border_fill, q);
}

} // verus!
