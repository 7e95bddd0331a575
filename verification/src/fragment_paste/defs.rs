//! Merging external header definitions into a raw `header.xml`.
//!
//! A source definition whose text, with its `id` attribute removed, equals an
//! existing definition of the same kind reuses that definition's ID. Any other
//! source definition gets the next free ID (one past the largest ID already in
//! use) and is inserted, re-numbered, right before the closing tag of the
//! kind's reference list. Existing header bytes are never changed.

use std::collections::HashMap;
use vstd::prelude::*;
use vstd::utf8::valid_utf8;
use crate::scan::{
    matches_at, find_spec, rfind_all, find_from, find_byte, rfind, push_range, push_all,
    lemma_find_spec_bounds, lemma_rfind_spec_bounds, lemma_find_spec_skip,
};
use crate::text::{is_unicode_whitespace, is_whitespace_char};
use crate::text::{
    utf8_of, cut_ok, all_ascii, lemma_subrange_valid, lemma_ascii_valid, lemma_after_ascii,
    lemma_concat_valid, lemma_concat_ascii, string_of_valid, string_of_ascii, bytes_of,
};
use crate::decimal::{spec_parse_u32, decimal, parse_u32, decimal_u64, lemma_decimal_props};
use super::lits::{
    id_dq, id_sq, id_dq_bytes, id_sq_bytes, hh_open, hh_close_open, hh_open_bytes,
    hh_close_open_bytes, tag_char_pr, tag_para_pr, tag_style, tag_border_fill, tag_char_pr_bytes,
    tag_para_pr_bytes, tag_style_bytes, tag_border_fill_bytes, char_pr_list_close,
    char_pr_props_close, para_pr_list_close, para_pr_props_close, style_list_close,
    style_props_close, border_fill_list_close, border_fill_props_close, char_pr_list_close_bytes,
    char_pr_props_close_bytes, para_pr_list_close_bytes, para_pr_props_close_bytes,
    style_list_close_bytes, style_props_close_bytes, border_fill_list_close_bytes,
    border_fill_props_close_bytes, msg_unterminated_a, msg_unterminated_b, msg_missing_id_a,
    msg_missing_id_b, msg_unterminated_def_b, msg_unterminated_a_bytes,
    msg_unterminated_b_bytes, msg_missing_id_a_bytes, msg_missing_id_b_bytes,
    msg_unterminated_def_b_bytes,
};
use super::types::{
    SourceDefinitions, IdRemap, RemapView, FragmentPasteError, DefKind, PasteErr, error_is,
    ref_list_close_tag_spec,
};

verus! {

broadcast use vstd::std_specs::hash::group_hash_axioms;

// ───────────────────────────── Markup of each kind ─────────────────────────────

/// Element name of a definition kind.
pub open spec fn tag_of(kind: DefKind) -> Seq<u8> {
    match kind {
        DefKind::CharPr => tag_char_pr(),
        DefKind::ParaPr => tag_para_pr(),
        DefKind::Style => tag_style(),
        DefKind::BorderFill => tag_border_fill(),
    }
}

/// `<hh:{tag}`
pub open spec fn open_prefix(kind: DefKind) -> Seq<u8> {
    hh_open() + tag_of(kind)
}

/// `</hh:{tag}>`
pub open spec fn close_tag(kind: DefKind) -> Seq<u8> {
    hh_close_open() + tag_of(kind) + seq![62u8]
}

/// The two closing tags of a kind's reference list, in the order searched
/// (`*List` of the standard samples, then the `*Properties` container of some forms).
pub open spec fn ref_list_candidates(kind: DefKind) -> (Seq<u8>, Seq<u8>) {
    match kind {
        DefKind::CharPr => (char_pr_list_close(), char_pr_props_close()),
        DefKind::ParaPr => (para_pr_list_close(), para_pr_props_close()),
        DefKind::Style => (style_list_close(), style_props_close()),
        DefKind::BorderFill => (border_fill_list_close(), border_fill_props_close()),
    }
}

/// A byte that may follow an element name inside a tag: ` `, `/`, `>`, tab, newline.
pub open spec fn is_tag_sep(b: u8) -> bool {
    b == 32 || b == 47 || b == 62 || b == 9 || b == 10
}

pub open spec fn sep_at(s: Seq<u8>, i: int) -> bool {
    0 <= i < s.len() && is_tag_sep(s[i])
}

fn tag_bytes(kind: DefKind) -> (r: Vec<u8>)
    ensures
        r@ == tag_of(kind),
        all_ascii(r@),
{
    match kind {
        DefKind::CharPr => tag_char_pr_bytes(),
        DefKind::ParaPr => tag_para_pr_bytes(),
        DefKind::Style => tag_style_bytes(),
        DefKind::BorderFill => tag_border_fill_bytes(),
    }
}

fn open_prefix_bytes(kind: DefKind) -> (r: Vec<u8>)
    ensures
        r@ == open_prefix(kind),
{
    let mut v = hh_open_bytes();
    let t = tag_bytes(kind);
    push_all(&mut v, t.as_slice());
    v
}

fn close_tag_bytes(kind: DefKind) -> (r: Vec<u8>)
    ensures
        r@ == close_tag(kind),
{
    let mut v = hh_close_open_bytes();
    let t = tag_bytes(kind);
    push_all(&mut v, t.as_slice());
    v.push(62u8);
    v
}

fn is_tag_sep_at(s: &[u8], i: usize) -> (r: bool)
    ensures
        r == sep_at(s@, i as int),
{
    if i < s.len() {
        let b = s[i];
        b == 32 || b == 47 || b == 62 || b == 9 || b == 10
    } else {
        false
    }
}

/// The closing tags of a kind's reference list, in the order they are tried.
fn ref_list_close_tag_candidates(kind: DefKind) -> (r: (Vec<u8>, Vec<u8>))
    ensures
        r.0@ == ref_list_candidates(kind).0,
        r.1@ == ref_list_candidates(kind).1,
{
    match kind {
        DefKind::CharPr => (char_pr_list_close_bytes(), char_pr_props_close_bytes()),
        DefKind::ParaPr => (para_pr_list_close_bytes(), para_pr_props_close_bytes()),
        DefKind::Style => (style_list_close_bytes(), style_props_close_bytes()),
        DefKind::BorderFill => (border_fill_list_close_bytes(), border_fill_props_close_bytes()),
    }
}

/// The representative closing tag of a kind's reference list (used in errors).
fn ref_list_close_tag(kind: DefKind) -> (r: &'static str)
    ensures
        r == ref_list_close_tag_spec(kind),
{
    match kind {
        DefKind::CharPr => "</hh:charPropertyList>",
        DefKind::ParaPr => "</hh:paraPropertyList>",
        DefKind::Style => "</hh:styleList>",
        DefKind::BorderFill => "</hh:borderFillList>",
    }
}

// ───────────────────────────── The `id` attribute ─────────────────────────────

/// With `needle` (` id="` or ` id='`) found first at `idx` in `t`: the value
/// runs from `idx + 5` to the next `quote`. `None` when the needle is absent.
pub open spec fn id_value_span(t: Seq<u8>, needle: Seq<u8>, quote: u8) -> Option<(int, Option<int>)> {
    match find_spec(t, 0, needle) {
        None => None,
        Some(idx) => Some((idx, find_spec(t, idx + 5, seq![quote]))),
    }
}

/// The `id` value of an opening tag: the text after the first ` id="` (or, when
/// there is none, ` id='`) up to the matching quote, read as a `u32`.
pub open spec fn spec_parse_id_attr(t: Seq<u8>) -> Option<u32> {
    match id_value_span(t, id_dq(), 34) {
        Some((idx, Some(e))) => spec_parse_u32(t.subrange(idx + 5, e)),
        Some((idx, None)) => None,
        None => match id_value_span(t, id_sq(), 39) {
            Some((idx, Some(e))) => spec_parse_u32(t.subrange(idx + 5, e)),
            _ => None,
        },
    }
}

/// A definition with its `id="N"` (or `id='N'`) attribute removed: the first
/// quoting style that has both the attribute and its closing quote is used.
pub open spec fn spec_body(d: Seq<u8>) -> Seq<u8> {
    match id_value_span(d, id_dq(), 34) {
        Some((idx, Some(e))) => d.subrange(0, idx) + d.subrange(e + 1, d.len() as int),
        _ => match id_value_span(d, id_sq(), 39) {
            Some((idx, Some(e))) => d.subrange(0, idx) + d.subrange(e + 1, d.len() as int),
            _ => d,
        },
    }
}

/// A definition with the value of its `id` attribute replaced by `new_id`.
pub open spec fn spec_rewrite_id(d: Seq<u8>, new_id: u32) -> Seq<u8> {
    match id_value_span(d, id_dq(), 34) {
        Some((idx, Some(e))) => d.subrange(0, idx + 5) + decimal(new_id as nat) + d.subrange(e, d.len() as int),
        _ => match id_value_span(d, id_sq(), 39) {
            Some((idx, Some(e))) => d.subrange(0, idx + 5) + decimal(new_id as nat) + d.subrange(e, d.len() as int),
            _ => d,
        },
    }
}

fn id_value_span_exec(t: &[u8], needle: &[u8], quote: u8) -> (r: Option<(usize, Option<usize>)>)
    requires
        needle@.len() == 5,
        needle@[4] == quote,
    ensures
        match id_value_span(t@, needle@, quote) {
            None => r is None,
            Some((idx, None)) => r matches Some((i, None)) && i == idx,
            Some((idx, Some(e))) => r matches Some((i, Some(j))) && i == idx && j == e,
        },
        r matches Some((i, _)) ==> i + 5 <= t@.len() && matches_at(t@, i as int, needle@),
        r matches Some((i, Some(j))) ==> i + 5 <= j < t@.len() && t@[j as int] == quote,
{
    let t_len = t.len();
    match find_from(t, 0, needle) {
        None => None,
        Some(idx) => {
            proof {
                lemma_find_spec_bounds(t@, 0, needle@);
            }
            match find_byte(t, idx + 5, quote) {
                None => Some((idx, None)),
                Some(e) => {
                    proof {
                        lemma_find_spec_bounds(t@, idx + 5, seq![quote]);
                        assert(t@.subrange(e as int, e + 1)[0] == t@[e as int]);
                    }
                    Some((idx, Some(e)))
                },
            }
        },
    }
}

/// The `id` value of an opening tag.
fn parse_id_attr(open_tag: &[u8]) -> (r: Option<u32>)
    ensures
        r == spec_parse_id_attr(open_tag@),
{
    let dq = id_dq_bytes();
    let sq = id_sq_bytes();
    match id_value_span_exec(open_tag, dq.as_slice(), 34) {
        Some((idx, Some(e))) => parse_u32(vstd::slice::slice_subrange(open_tag, idx + 5, e)),
        Some((_, None)) => None,
        None => match id_value_span_exec(open_tag, sq.as_slice(), 39) {
            Some((idx, Some(e))) => parse_u32(vstd::slice::slice_subrange(open_tag, idx + 5, e)),
            _ => None,
        },
    }
}

/// A definition without its `id` attribute, for comparing definitions.
fn def_body_normalized(def_xml: &[u8]) -> (r: Vec<u8>)
    ensures
        r@ == spec_body(def_xml@),
{
    let d_len = def_xml.len();
    let dq = id_dq_bytes();
    let sq = id_sq_bytes();
    let first = id_value_span_exec(def_xml, dq.as_slice(), 34);
    if let Some((idx, Some(e))) = first {
        let mut out = Vec::new();
        push_range(&mut out, def_xml, 0, idx);
        push_range(&mut out, def_xml, e + 1, def_xml.len());
        return out;
    }
    let second = id_value_span_exec(def_xml, sq.as_slice(), 39);
    if let Some((idx, Some(e))) = second {
        let mut out = Vec::new();
        push_range(&mut out, def_xml, 0, idx);
        push_range(&mut out, def_xml, e + 1, def_xml.len());
        return out;
    }
    let mut out = Vec::new();
    push_all(&mut out, def_xml);
    assert(out@ =~= def_xml@);
    out
}

/// A definition re-numbered to `new_id`; valid UTF-8 stays valid UTF-8.
fn rewrite_id_in_def(def_xml: &[u8], new_id: u32) -> (r: Vec<u8>)
    ensures
        r@ == spec_rewrite_id(def_xml@, new_id),
        valid_utf8(def_xml@) ==> valid_utf8(r@),
{
    let dq = id_dq_bytes();
    let sq = id_sq_bytes();
    let first = id_value_span_exec(def_xml, dq.as_slice(), 34);
    let span = match first {
        Some((idx, Some(e))) => Some((idx, e)),
        _ => match id_value_span_exec(def_xml, sq.as_slice(), 39) {
            Some((idx, Some(e))) => Some((idx, e)),
            _ => None,
        },
    };
    match span {
        Some((idx, e)) => {
            let digits = decimal_u64(new_id as u64);
            let mut out = Vec::new();
            push_range(&mut out, def_xml, 0, idx + 5);
            push_all(&mut out, digits.as_slice());
            push_range(&mut out, def_xml, e, def_xml.len());
            proof {
                lemma_decimal_props(new_id as nat);
                let d = def_xml@;
                if valid_utf8(d) {
                    assert(d[idx + 4] < 0x80);
                    lemma_after_ascii(d, idx + 4);
                    assert(cut_ok(d, e as int));
                    lemma_subrange_valid(d, 0, idx + 5);
                    lemma_subrange_valid(d, e as int, d.len() as int);
                    lemma_ascii_valid(digits@);
                    lemma_concat_valid(d.subrange(0, idx + 5), digits@);
                    lemma_concat_valid(d.subrange(0, idx + 5) + digits@, d.subrange(e as int, d.len() as int));
                }
            }
            out
        },
        None => {
            let mut out = Vec::new();
            push_all(&mut out, def_xml);
            assert(out@ =~= def_xml@);
            out
        },
    }
}

// ───────────────────────────── Splitting definitions ─────────────────────────────

/// `unterminated <hh:{tag} ...> at offset {start}`
pub open spec fn msg_unterminated(kind: DefKind, start: int) -> Seq<u8> {
    msg_unterminated_a() + tag_of(kind) + msg_unterminated_b() + decimal(start as nat)
}

/// `missing id attr in <hh:{tag}> near offset {start}`
pub open spec fn msg_missing_id(kind: DefKind, start: int) -> Seq<u8> {
    msg_missing_id_a() + tag_of(kind) + msg_missing_id_b() + decimal(start as nat)
}

/// `unterminated <hh:{tag} id="{id}"> definition`
pub open spec fn msg_unterminated_def(kind: DefKind, id: u32) -> Seq<u8> {
    msg_unterminated_a() + tag_of(kind) + id_dq() + decimal(id as nat) + msg_unterminated_def_b()
}

/// One step of scanning for definitions of `kind` from offset `pos`: no further
/// definition, an occurrence of the open prefix that is not followed by a tag
/// separator (as in `<hh:charProperties`; scanning resumes after it), the
/// message of a malformed definition, or a definition (id, start, end). A
/// definition ends right after its `/>` or its `</hh:{tag}>`.
pub enum SplitStep {
    Done,
    Skip(int),
    Fail(Seq<u8>),
    Found(u32, int, int),
}

pub open spec fn split_step(s: Seq<u8>, kind: DefKind, pos: int) -> SplitStep {
    match find_spec(s, pos, open_prefix(kind)) {
        None => SplitStep::Done,
        Some(start) => {
            let after = start + open_prefix(kind).len();
            if !sep_at(s, after) {
                SplitStep::Skip(after)
            } else {
                match find_spec(s, start, seq![62u8]) {
                    None => SplitStep::Fail(msg_unterminated(kind, start)),
                    Some(oc) => match spec_parse_id_attr(s.subrange(start, oc + 1)) {
                        None => SplitStep::Fail(msg_missing_id(kind, start)),
                        Some(id) => {
                            if s[oc - 1] == 47 {
                                SplitStep::Found(id, start, oc + 1)
                            } else {
                                match find_spec(s, oc, close_tag(kind)) {
                                    None => SplitStep::Fail(msg_unterminated_def(kind, id)),
                                    Some(c) => SplitStep::Found(id, start, c + close_tag(kind).len()),
                                }
                            }
                        },
                    },
                }
            }
        },
    }
}

pub proof fn lemma_split_step(s: Seq<u8>, kind: DefKind, pos: int)
    requires
        0 <= pos,
    ensures
        split_step(s, kind, pos) matches SplitStep::Skip(n) ==> pos < n <= s.len(),
        split_step(s, kind, pos) matches SplitStep::Found(id, a, b) ==> pos <= a < b <= s.len(),
{
    lemma_find_spec_bounds(s, pos, open_prefix(kind));
    if let Some(start) = find_spec(s, pos, open_prefix(kind)) {
        lemma_find_spec_bounds(s, start, seq![62u8]);
        if let Some(oc) = find_spec(s, start, seq![62u8]) {
            lemma_find_spec_bounds(s, oc, close_tag(kind));
        }
    }
}

/// The definitions of `kind` in `s` from offset `pos` on, as (id, start, end)
/// byte spans, or the message of the first malformed one.
pub open spec fn spec_split(s: Seq<u8>, kind: DefKind, pos: int) -> Result<Seq<(u32, int, int)>, Seq<u8>>
    decreases s.len() - pos,
    via split_decreases
{
    if pos < 0 || pos >= s.len() {
        Ok(seq![])
    } else {
        match split_step(s, kind, pos) {
            SplitStep::Done => Ok(seq![]),
            SplitStep::Skip(n) => spec_split(s, kind, n),
            SplitStep::Fail(m) => Err(m),
            SplitStep::Found(id, a, b) => match spec_split(s, kind, b) {
                Ok(rest) => Ok(seq![(id, a, b)] + rest),
                Err(m) => Err(m),
            },
        }
    }
}

#[via_fn]
proof fn split_decreases(s: Seq<u8>, kind: DefKind, pos: int) {
    if 0 <= pos {
        lemma_split_step(s, kind, pos);
    }
}

pub open spec fn prepend_defs(
    pre: Seq<(u32, int, int)>,
    r: Result<Seq<(u32, int, int)>, Seq<u8>>,
) -> Result<Seq<(u32, int, int)>, Seq<u8>> {
    match r {
        Ok(rest) => Ok(pre + rest),
        Err(m) => Err(m),
    }
}

pub open spec fn defs_view(v: Seq<(u32, usize, usize)>) -> Seq<(u32, int, int)> {
    v.map_values(|d: (u32, usize, usize)| (d.0, d.1 as int, d.2 as int))
}

/// Every span starts at a `<` and ends right after a `>`.
pub open spec fn spans_well_placed(s: Seq<u8>, v: Seq<(u32, usize, usize)>) -> bool {
    forall|k: int|
        0 <= k < v.len() ==> {
            let d = #[trigger] v[k];
            &&& d.1 < d.2 <= s.len()
            &&& s[d.1 as int] == 60
            &&& s[d.2 - 1] == 62
        }
}

fn msg_bytes3(a: Vec<u8>, t: &[u8], b: Vec<u8>, n: u64) -> (r: Vec<u8>)
    requires
        all_ascii(a@),
        all_ascii(t@),
        all_ascii(b@),
    ensures
        r@ == a@ + t@ + b@ + decimal(n as nat),
        all_ascii(r@),
{
    let mut out = a;
    push_all(&mut out, t);
    push_all(&mut out, b.as_slice());
    let digits = decimal_u64(n);
    push_all(&mut out, digits.as_slice());
    proof {
        lemma_decimal_props(n as nat);
        lemma_concat_ascii(a@, t@);
        lemma_concat_ascii(a@ + t@, b@);
        lemma_concat_ascii(a@ + t@ + b@, digits@);
    }
    out
}

fn msg_unterminated_def_bytes(tag: &[u8], id: u32) -> (r: Vec<u8>)
    requires
        all_ascii(tag@),
    ensures
        r@ == msg_unterminated_a() + tag@ + id_dq() + decimal(id as nat) + msg_unterminated_def_b(),
        all_ascii(r@),
{
    let mut m = msg_unterminated_a_bytes();
    push_all(&mut m, tag);
    let dq = id_dq_bytes();
    push_all(&mut m, dq.as_slice());
    let digits = decimal_u64(id as u64);
    push_all(&mut m, digits.as_slice());
    let tail = msg_unterminated_def_b_bytes();
    push_all(&mut m, tail.as_slice());
    proof {
        lemma_decimal_props(id as nat);
        lemma_concat_ascii(msg_unterminated_a(), tag@);
        lemma_concat_ascii(msg_unterminated_a() + tag@, id_dq());
        lemma_concat_ascii(msg_unterminated_a() + tag@ + id_dq(), digits@);
        lemma_concat_ascii(msg_unterminated_a() + tag@ + id_dq() + digits@, tail@);
    }
    m
}

/// Exec counterpart of `split_step`, with `src[start] == '<'` and
/// `src[end - 1] == '>'` for a found definition.
fn split_step_exec(src: &[u8], kind: DefKind, pos: usize, op: &[u8], cl: &[u8], tag: &[u8]) -> (r: (u8, u32, usize, usize, Vec<u8>))
    requires
        op@ == open_prefix(kind),
        cl@ == close_tag(kind),
        tag@ == tag_of(kind),
        all_ascii(tag@),
    ensures
        match split_step(src@, kind, pos as int) {
            SplitStep::Done => r.0 == 0,
            SplitStep::Skip(n) => r.0 == 1 && r.2 == n,
            SplitStep::Fail(m) => r.0 == 2 && r.4@ == m && all_ascii(r.4@),
            SplitStep::Found(id, a, b) => r.0 == 3 && r.1 == id && r.2 == a && r.3 == b
                && src@[a] == 60 && src@[b - 1] == 62,
        },
{
    let s_len = src.len();
    let found = find_from(src, pos, op);
    proof {
        lemma_find_spec_bounds(src@, pos as int, op@);
    }
    let start = match found {
        None => return (0, 0, 0, 0, Vec::new()),
        Some(start) => start,
    };
    let after = start + op.len();
    if !is_tag_sep_at(src, after) {
        return (1, 0, after, 0, Vec::new());
    }
    let oc = match find_byte(src, start, 62u8) {
        None => {
            return (2, 0, 0, 0, msg_bytes3(msg_unterminated_a_bytes(), tag, msg_unterminated_b_bytes(), start as u64));
        },
        Some(oc) => oc,
    };
    proof {
        lemma_find_spec_bounds(src@, start as int, seq![62u8]);
        assert(src@.subrange(oc as int, oc + 1)[0] == src@[oc as int]);
        assert(src@.subrange(start as int, start + op@.len())[0] == src@[start as int]);
        assert(open_prefix(kind)[0] == 60);
    }
    let id = match parse_id_attr(vstd::slice::slice_subrange(src, start, oc + 1)) {
        None => {
            return (2, 0, 0, 0, msg_bytes3(msg_missing_id_a_bytes(), tag, msg_missing_id_b_bytes(), start as u64));
        },
        Some(id) => id,
    };
    if src[oc - 1] == 47 {
        return (3, id, start, oc + 1, Vec::new());
    }
    match find_from(src, oc, cl) {
        None => (2, 0, 0, 0, msg_unterminated_def_bytes(tag, id)),
        Some(c) => {
            proof {
                lemma_find_spec_bounds(src@, oc as int, cl@);
                assert(src@.subrange(c as int, c + cl@.len())[cl@.len() - 1] == src@[c + cl@.len() - 1]);
                assert(close_tag(kind)[close_tag(kind).len() - 1] == 62);
            }
            (3, id, start, c + cl.len(), Vec::new())
        },
    }
}

/// The definitions of `kind` in `src`, as (id, start, end) byte spans.
fn split_definitions(src: &[u8], kind: DefKind) -> (r: Result<Vec<(u32, usize, usize)>, Vec<u8>>)
    ensures
        match spec_split(src@, kind, 0) {
            Ok(defs) => r matches Ok(v) && defs_view(v@) == defs && spans_well_placed(src@, v@),
            Err(m) => r matches Err(e) && e@ == m && all_ascii(e@),
        },
{
    let op = open_prefix_bytes(kind);
    let cl = close_tag_bytes(kind);
    let tag = tag_bytes(kind);
    let mut out: Vec<(u32, usize, usize)> = Vec::new();
    let mut pos: usize = 0;
    assert(defs_view(out@) =~= Seq::<(u32, int, int)>::empty());
    while pos < src.len()
        invariant
            pos <= src@.len(),
            op@ == open_prefix(kind),
            cl@ == close_tag(kind),
            tag@ == tag_of(kind),
            all_ascii(tag@),
            spec_split(src@, kind, 0) == prepend_defs(defs_view(out@), spec_split(src@, kind, pos as int)),
            spans_well_placed(src@, out@),
        decreases src@.len() - pos,
    {
        proof {
            lemma_split_step(src@, kind, pos as int);
        }
        let (tagc, id, a, b, msg) = split_step_exec(src, kind, pos, op.as_slice(), cl.as_slice(), tag.as_slice());
        if tagc == 0 {
            assert(defs_view(out@) + seq![] =~= defs_view(out@));
            return Ok(out);
        } else if tagc == 1 {
            pos = a;
        } else if tagc == 2 {
            return Err(msg);
        } else {
            let ghost old_out = out@;
            out.push((id, a, b));
            proof {
                assert(defs_view(out@) =~= defs_view(old_out) + seq![(id, a as int, b as int)]);
                assert forall|k: int| 0 <= k < out@.len() implies {
                    let d = #[trigger] out@[k];
                    &&& d.1 < d.2 <= src@.len()
                    &&& src@[d.1 as int] == 60
                    &&& src@[d.2 - 1] == 62
                } by {
                    if k < old_out.len() {
                        assert(out@[k] == old_out[k]);
                    }
                }
                match spec_split(src@, kind, b as int) {
                    Ok(rest) => {
                        assert(defs_view(old_out) + (seq![(id, a as int, b as int)] + rest)
                            =~= defs_view(out@) + rest);
                    },
                    Err(_) => {},
                }
            }
            pos = b;
        }
    }
    assert(defs_view(out@) + seq![] =~= defs_view(out@));
    Ok(out)
}

// ───────────────────────────── Largest ID in use ─────────────────────────────

/// The largest `id` among the opening tags of `kind` in `s` from `pos` on,
/// starting from `max`. The scan stops at an opening tag that is never closed by `>`.
pub open spec fn spec_max_id(s: Seq<u8>, kind: DefKind, pos: int, max: u32) -> u32
    decreases s.len() - pos,
    via max_id_decreases
{
    if pos < 0 || pos > s.len() {
        max
    } else {
        match find_spec(s, pos, open_prefix(kind)) {
            None => max,
            Some(start) => {
                let after = start + open_prefix(kind).len();
                if !sep_at(s, after) {
                    spec_max_id(s, kind, after, max)
                } else {
                    match find_spec(s, start, seq![62u8]) {
                        None => max,
                        Some(close) => {
                            let m2 = match spec_parse_id_attr(s.subrange(start, close + 1)) {
                                Some(id) => if id > max { id } else { max },
                                None => max,
                            };
                            spec_max_id(s, kind, close + 1, m2)
                        },
                    }
                }
            },
        }
    }
}

#[via_fn]
proof fn max_id_decreases(s: Seq<u8>, kind: DefKind, pos: int, max: u32) {
    lemma_find_spec_bounds(s, pos, open_prefix(kind));
    if let Some(start) = find_spec(s, pos, open_prefix(kind)) {
        lemma_find_spec_bounds(s, start, seq![62u8]);
    }
}

/// The largest `id` of the `kind` definitions in the header (0 when there is none).
fn max_existing_id(header_xml: &[u8], kind: DefKind) -> (r: u32)
    ensures
        r == spec_max_id(header_xml@, kind, 0, 0),
{
    let h_len = header_xml.len();
    let op = open_prefix_bytes(kind);
    let mut max: u32 = 0;
    let mut pos: usize = 0;
    loop
        invariant
            h_len == header_xml@.len(),
            pos <= header_xml@.len(),
            op@ == open_prefix(kind),
            spec_max_id(header_xml@, kind, 0, 0) == spec_max_id(header_xml@, kind, pos as int, max),
        decreases header_xml@.len() - pos,
    {
        let start = match find_from(header_xml, pos, op.as_slice()) {
            None => return max,
            Some(start) => start,
        };
        proof {
            lemma_find_spec_bounds(header_xml@, pos as int, op@);
        }
        let after = start + op.len();
        if !is_tag_sep_at(header_xml, after) {
            pos = after;
            continue;
        }
        let close = match find_byte(header_xml, start, 62u8) {
            None => return max,
            Some(close) => close,
        };
        proof {
            lemma_find_spec_bounds(header_xml@, start as int, seq![62u8]);
        }
        if let Some(id) = parse_id_attr(vstd::slice::slice_subrange(header_xml, start, close + 1)) {
            if id > max {
                max = id;
            }
        }
        pos = close + 1;
    }
}

// ───────────────────────────── Inserting new definitions ─────────────────────────────

pub open spec fn splice(h: Seq<u8>, p: int, ins: Seq<u8>) -> Seq<u8> {
    h.subrange(0, p) + ins + h.subrange(p, h.len() as int)
}

/// `h` with `ins` inserted right before the last occurrence of the first
/// reference-list closing tag of `kind` that occurs at all; `None` when neither
/// occurs (and `ins` is not empty).
pub open spec fn spec_insert(h: Seq<u8>, kind: DefKind, ins: Seq<u8>) -> Option<Seq<u8>> {
    if ins.len() == 0 {
        Some(h)
    } else {
        match rfind_all(h, ref_list_candidates(kind).0) {
            Some(p) => Some(splice(h, p, ins)),
            None => match rfind_all(h, ref_list_candidates(kind).1) {
                Some(p) => Some(splice(h, p, ins)),
                None => None,
            },
        }
    }
}

fn insert_into_ref_list(header_xml: &mut Vec<u8>, kind: DefKind, to_insert: &[u8]) -> (r: bool)
    requires
        valid_utf8(old(header_xml)@),
        valid_utf8(to_insert@),
    ensures
        match spec_insert(old(header_xml)@, kind, to_insert@) {
            Some(h) => r && final(header_xml)@ == h,
            None => !r && final(header_xml)@ == old(header_xml)@,
        },
        valid_utf8(final(header_xml)@),
{
    if to_insert.len() == 0 {
        return true;
    }
    let (c0, c1) = ref_list_close_tag_candidates(kind);
    let found = match rfind(header_xml.as_slice(), c0.as_slice()) {
        Some(p) => {
            proof {
                lemma_rfind_spec_bounds(header_xml@, header_xml@.len() - c0@.len(), c0@);
                assert(header_xml@.subrange(p as int, p + c0@.len())[0] == header_xml@[p as int]);
            }
            Some(p)
        },
        None => match rfind(header_xml.as_slice(), c1.as_slice()) {
            Some(p) => {
                proof {
                    lemma_rfind_spec_bounds(header_xml@, header_xml@.len() - c1@.len(), c1@);
                    assert(header_xml@.subrange(p as int, p + c1@.len())[0] == header_xml@[p as int]);
                }
                Some(p)
            },
            None => None,
        },
    };
    match found {
        None => false,
        Some(p) => {
            let ghost h = header_xml@;
            let mut out = Vec::new();
            push_range(&mut out, header_xml.as_slice(), 0, p);
            push_all(&mut out, to_insert);
            push_range(&mut out, header_xml.as_slice(), p, header_xml.len());
            proof {
                assert(h[p as int] == 60);
                assert(cut_ok(h, p as int));
                lemma_subrange_valid(h, 0, p as int);
                lemma_subrange_valid(h, p as int, h.len() as int);
                lemma_concat_valid(h.subrange(0, p as int), to_insert@);
                lemma_concat_valid(h.subrange(0, p as int) + to_insert@, h.subrange(p as int, h.len() as int));
            }
            *header_xml = out;
            true
        },
    }
}

} // verus!

verus! {

/// `s.trim().is_empty()`: every character is white space.
pub open spec fn is_blank_spec(s: Seq<char>) -> bool {
    forall|i: int| 0 <= i < s.len() ==> #[trigger] is_unicode_whitespace(s[i])
}

/// `s.trim().is_empty()`.
fn is_blank(s: &str) -> (r: bool)
    ensures
        r == is_blank_spec(s@),
{
    broadcast use vstd::string::group_string_axioms;
    for c in it: s.chars()
        invariant
            it.seq() == s@,
            forall|j: int| 0 <= j < it.index() ==> #[trigger] is_unicode_whitespace(s@[j]),
    {
        if !is_whitespace_char(c) {
            return false;
        }
    }
    true
}

} // verus!

verus! {

// ───────────────────────────── Add-or-reuse of one kind ─────────────────────────────

/// (body without `id`, id) of each existing definition, in document order.
pub open spec fn body_table(s: Seq<u8>, defs: Seq<(u32, int, int)>) -> Seq<(Seq<u8>, u32)> {
    Seq::new(defs.len(), |k: int| (spec_body(s.subrange(defs[k].1, defs[k].2)), defs[k].0))
}

/// The id of the first entry of `t` from index `i` on whose body is `body`.
pub open spec fn lookup_from(t: Seq<(Seq<u8>, u32)>, body: Seq<u8>, i: int) -> Option<u32>
    decreases t.len() - i,
{
    if i < 0 || i >= t.len() {
        None
    } else if t[i].0 == body {
        Some(t[i].1)
    } else {
        lookup_from(t, body, i + 1)
    }
}

/// Assigns target ids to the source definitions `sdefs[i..]` of `src`: a body
/// already in `table` reuses its id; any other body takes `next` (and the
/// following ids), is recorded in `table`, and its re-numbered definition is
/// appended to `app` after a newline. `None` when an id would pass `u32::MAX`.
pub open spec fn spec_assign(
    src: Seq<u8>,
    sdefs: Seq<(u32, int, int)>,
    i: int,
    table: Seq<(Seq<u8>, u32)>,
    next: int,
    remap: Map<u32, u32>,
    app: Seq<u8>,
) -> Option<(Map<u32, u32>, Seq<u8>)>
    decreases sdefs.len() - i,
{
    if i < 0 || i >= sdefs.len() {
        Some((remap, app))
    } else {
        let d = sdefs[i];
        let raw = src.subrange(d.1, d.2);
        let body = spec_body(raw);
        match lookup_from(table, body, 0) {
            Some(t) => spec_assign(src, sdefs, i + 1, table, next, remap.insert(d.0, t), app),
            None => if next >= u32::MAX {
                None
            } else {
                spec_assign(
                    src,
                    sdefs,
                    i + 1,
                    table.push((body, next as u32)),
                    next + 1,
                    remap.insert(d.0, next as u32),
                    app + seq![10u8] + spec_rewrite_id(raw, next as u32),
                )
            },
        }
    }
}

/// Result of merging one kind: the new header bytes and mapping, an error, or
/// an ID overflow (where the arithmetic on IDs would overflow).
pub enum KindOutcome {
    Done(Seq<u8>, Map<u32, u32>),
    Failed(PasteErr),
    Overflow,
}

/// Merging the definitions `source` of `kind` into the header `h`, adding to `remap`.
pub open spec fn spec_process_kind(h: Seq<u8>, kind: DefKind, source: Seq<char>, remap: Map<u32, u32>) -> KindOutcome {
    if is_blank_spec(source) {
        KindOutcome::Done(h, remap)
    } else {
        let src = utf8_of(source);
        match spec_split(src, kind, 0) {
            Err(m) => KindOutcome::Failed(PasteErr::MalformedSourceDefinitions(m)),
            Ok(sdefs) => match spec_split(h, kind, 0) {
                Err(m) => KindOutcome::Failed(PasteErr::MalformedSourceDefinitions(m)),
                Ok(edefs) => {
                    let max = spec_max_id(h, kind, 0, 0);
                    if max == u32::MAX {
                        KindOutcome::Overflow
                    } else {
                        match spec_assign(src, sdefs, 0, body_table(h, edefs), max + 1, remap, seq![]) {
                            None => KindOutcome::Overflow,
                            Some((r2, app)) => match spec_insert(h, kind, app) {
                                None => KindOutcome::Failed(PasteErr::HeaderInsertionPointMissing(kind)),
                                Some(h2) => KindOutcome::Done(h2, r2),
                            },
                        }
                    }
                },
            },
        }
    }
}

pub open spec fn table_view(t: Seq<(Vec<u8>, u32)>) -> Seq<(Seq<u8>, u32)> {
    t.map_values(|e: (Vec<u8>, u32)| (e.0@, e.1))
}

fn bytes_eq(a: &[u8], b: &[u8]) -> (r: bool)
    ensures
        r == (a@ == b@),
{
    if a.len() != b.len() {
        return false;
    }
    let mut k: usize = 0;
    while k < a.len()
        invariant
            a@.len() == b@.len(),
            k <= a@.len(),
            a@.subrange(0, k as int) =~= b@.subrange(0, k as int),
        decreases a@.len() - k,
    {
        if a[k] != b[k] {
            return false;
        }
        k = k + 1;
        assert(a@.subrange(0, k as int) =~= b@.subrange(0, k as int));
    }
    assert(a@ =~= a@.subrange(0, k as int));
    assert(b@ =~= b@.subrange(0, k as int));
    true
}

fn lookup_table(table: &Vec<(Vec<u8>, u32)>, body: &[u8]) -> (r: Option<u32>)
    ensures
        r == lookup_from(table_view(table@), body@, 0),
{
    let mut i: usize = 0;
    while i < table.len()
        invariant
            i <= table@.len(),
            lookup_from(table_view(table@), body@, 0) == lookup_from(table_view(table@), body@, i as int),
        decreases table@.len() - i,
    {
        if bytes_eq(table[i].0.as_slice(), body) {
            return Some(table[i].1);
        }
        i = i + 1;
    }
    None
}

fn malformed_defs(m: Vec<u8>) -> (e: FragmentPasteError)
    requires
        all_ascii(m@),
    ensures
        error_is(e, PasteErr::MalformedSourceDefinitions(m@)),
{
    FragmentPasteError::MalformedSourceDefinitions(string_of_ascii(m))
}

proof fn lemma_def_valid(src: Seq<u8>, v: Seq<(u32, usize, usize)>, i: int)
    requires
        valid_utf8(src),
        spans_well_placed(src, v),
        0 <= i < v.len(),
    ensures
        valid_utf8(src.subrange(v[i].1 as int, v[i].2 as int)),
        v[i].1 <= v[i].2 <= src.len(),
{
    let d = v[i];
    assert(cut_ok(src, d.1 as int));
    lemma_after_ascii(src, d.2 - 1);
    lemma_subrange_valid(src, d.1 as int, d.2 as int);
}

/// Merges the definitions `source` of `kind` into `header_xml`, recording the
/// source-to-target ids in `remap`.
fn process_one_kind(
    header_xml: &mut Vec<u8>,
    kind: DefKind,
    source: &str,
    remap: &mut HashMap<u32, u32>,
) -> (r: Result<(), FragmentPasteError>)
    requires
        valid_utf8(old(header_xml)@),
        !(spec_process_kind(old(header_xml)@, kind, source@, old(remap)@) is Overflow),
    ensures
        valid_utf8(final(header_xml)@),
        match spec_process_kind(old(header_xml)@, kind, source@, old(remap)@) {
            KindOutcome::Done(h, m) => r is Ok && final(header_xml)@ == h && final(remap)@ == m,
            KindOutcome::Failed(e) => r matches Err(x) && error_is(x, e) && final(header_xml)@ == old(header_xml)@,
            KindOutcome::Overflow => false,
        },
{
    if is_blank(source) {
        return Ok(());
    }
    let src = bytes_of(source);
    let sdefs = match split_definitions(src, kind) {
        Err(m) => return Err(malformed_defs(m)),
        Ok(v) => v,
    };
    let edefs = match split_definitions(header_xml.as_slice(), kind) {
        Err(m) => return Err(malformed_defs(m)),
        Ok(v) => v,
    };
    let ghost h0 = header_xml@;
    let ghost sd = defs_view(sdefs@);
    let ghost ed = defs_view(edefs@);
    let mut table: Vec<(Vec<u8>, u32)> = Vec::new();
    let mut j: usize = 0;
    while j < edefs.len()
        invariant
            h0 == header_xml@,
            valid_utf8(h0),
            j <= edefs@.len(),
            ed == defs_view(edefs@),
            spans_well_placed(h0, edefs@),
            table_view(table@) =~= body_table(h0, ed).take(j as int),
        decreases edefs@.len() - j,
    {
        let (_, a, b) = edefs[j];
        proof {
            lemma_def_valid(h0, edefs@, j as int);
        }
        let body = def_body_normalized(vstd::slice::slice_subrange(header_xml.as_slice(), a, b));
        let ghost old_t = table@;
        table.push((body, edefs[j].0));
        proof {
            assert(table_view(table@) =~= table_view(old_t).push((body@, edefs@[j as int].0)));
            assert(ed[j as int] == (edefs@[j as int].0, a as int, b as int));
            assert(body_table(h0, ed).take(j + 1) =~= body_table(h0, ed).take(j as int).push(body_table(h0, ed)[j as int]));
        }
        j = j + 1;
    }
    assert(body_table(h0, ed).take(ed.len() as int) =~= body_table(h0, ed));
    let max = max_existing_id(header_xml.as_slice(), kind);
    let ghost table0 = table_view(table@);
    let ghost remap0 = remap@;
    if max == 0xffff_ffff {
        assert(false);
        return Ok(());
    }
    let mut next: u64 = max as u64 + 1;
    let mut app: Vec<u8> = Vec::new();
    let mut i: usize = 0;
    assert(valid_utf8(app@)) by {
        lemma_ascii_valid(app@);
    }
    while i < sdefs.len()
        invariant
            h0 == header_xml@,
            valid_utf8(h0),
            valid_utf8(src@),
            i <= sdefs@.len(),
            sd == defs_view(sdefs@),
            spans_well_placed(src@, sdefs@),
            next <= u32::MAX,
            spec_assign(src@, sd, 0, table0, max + 1, remap0, seq![]) is Some,
            spec_assign(src@, sd, 0, table0, max + 1, remap0, seq![])
                == spec_assign(src@, sd, i as int, table_view(table@), next as int, remap@, app@),
            valid_utf8(app@),
        decreases sdefs@.len() - i,
    {
        let (sid, a, b) = sdefs[i];
        proof {
            lemma_def_valid(src@, sdefs@, i as int);
        }
        let raw = vstd::slice::slice_subrange(src, a, b);
        let body = def_body_normalized(raw);
        match lookup_table(&table, body.as_slice()) {
            Some(t) => {
                remap.insert(sid, t);
            },
            None => {
                if next >= 0xffff_ffff {
                    assert(false);
                    return Ok(());
                }
                let target = next as u32;
                let rewritten = rewrite_id_in_def(raw, target);
                let ghost old_app = app@;
                app.push(10u8);
                push_all(&mut app, rewritten.as_slice());
                proof {
                    let nl: Seq<u8> = seq![10u8];
                    assert(all_ascii(nl));
                    lemma_ascii_valid(nl);
                    lemma_concat_valid(old_app, nl);
                    lemma_concat_valid(old_app + nl, rewritten@);
                    assert(app@ =~= old_app + nl + rewritten@);
                }
                let ghost old_table = table@;
                table.push((body, target));
                assert(table_view(table@) =~= table_view(old_table).push((body@, target)));
                remap.insert(sid, target);
                next = next + 1;
            },
        }
        i = i + 1;
    }
    if insert_into_ref_list(header_xml, kind, app.as_slice()) {
        Ok(())
    } else {
        Err(FragmentPasteError::HeaderInsertionPointMissing(ref_list_close_tag(kind)))
    }
}

// ───────────────────────────── All four kinds ─────────────────────────────

/// Result of `build_id_remap`: the header after the merge and the mappings;
/// or the header as it stands when the error occurred (kinds merged before
/// the failing one stay merged) and the error; or an ID overflow.
pub enum BuildOutcome {
    Done(Seq<u8>, RemapView),
    Failed(Seq<u8>, PasteErr),
    Overflow,
}

/// Merging the four kinds in the order charPr, paraPr, style, borderFill.
pub open spec fn spec_build_id_remap(
    h: Seq<u8>,
    char_prs: Seq<char>,
    para_prs: Seq<char>,
    styles: Seq<char>,
    border_fills: Seq<char>,
) -> BuildOutcome {
    match spec_process_kind(h, DefKind::CharPr, char_prs, Map::empty()) {
        KindOutcome::Overflow => BuildOutcome::Overflow,
        KindOutcome::Failed(e) => BuildOutcome::Failed(h, e),
        KindOutcome::Done(h1, m1) => match spec_process_kind(h1, DefKind::ParaPr, para_prs, Map::empty()) {
            KindOutcome::Overflow => BuildOutcome::Overflow,
            KindOutcome::Failed(e) => BuildOutcome::Failed(h1, e),
            KindOutcome::Done(h2, m2) => match spec_process_kind(h2, DefKind::Style, styles, Map::empty()) {
                KindOutcome::Overflow => BuildOutcome::Overflow,
                KindOutcome::Failed(e) => BuildOutcome::Failed(h2, e),
                KindOutcome::Done(h3, m3) => match spec_process_kind(h3, DefKind::BorderFill, border_fills, Map::empty()) {
                    KindOutcome::Overflow => BuildOutcome::Overflow,
                    KindOutcome::Failed(e) => BuildOutcome::Failed(h3, e),
                    KindOutcome::Done(h4, m4) => BuildOutcome::Done(
                        h4,
                        RemapView { char_pr: m1, para_pr: m2, style: m3, border_fill: m4 },
                    ),
                },
            },
        },
    }
}

/// `spec_build_id_remap` on a header and source definitions.
pub open spec fn build_outcome(header: Seq<char>, source: SourceDefinitions) -> BuildOutcome {
    spec_build_id_remap(
        utf8_of(header),
        source.char_prs@,
        source.para_prs@,
        source.styles@,
        source.border_fills@,
    )
}

/// Adds (or reuses) the source definitions in `header_xml` and returns the
/// source ID → target ID mapping of each kind. The header is changed in place
/// and byte-preservingly: existing definitions stay as they are; new ones are
/// inserted right before the closing tag of their reference list. On error the
/// header keeps the kinds merged before the failing one.
pub fn build_id_remap(
    header_xml: &mut String,
    source: &SourceDefinitions,
) -> (r: Result<IdRemap, FragmentPasteError>)
    requires
        !(build_outcome(old(header_xml)@, *source) is Overflow),
    ensures
        match build_outcome(old(header_xml)@, *source) {
            BuildOutcome::Done(h, rv) => r matches Ok(m) && m@ == rv && utf8_of(final(header_xml)@) == h,
            BuildOutcome::Failed(h, e) => r matches Err(x) && error_is(x, e) && utf8_of(final(header_xml)@) == h,
            BuildOutcome::Overflow => false,
        },
{
    let mut h: Vec<u8> = Vec::new();
    push_all(&mut h, bytes_of(header_xml.as_str()));
    assert(h@ =~= utf8_of(header_xml@));
    let mut m1: HashMap<u32, u32> = HashMap::new();
    let mut m2: HashMap<u32, u32> = HashMap::new();
    let mut m3: HashMap<u32, u32> = HashMap::new();
    let mut m4: HashMap<u32, u32> = HashMap::new();
    if let Err(e) = process_one_kind(&mut h, DefKind::CharPr, source.char_prs.as_str(), &mut m1) {
        *header_xml = string_of_valid(h);
        return Err(e);
    }
    if let Err(e) = process_one_kind(&mut h, DefKind::ParaPr, source.para_prs.as_str(), &mut m2) {
        *header_xml = string_of_valid(h);
        return Err(e);
    }
    if let Err(e) = process_one_kind(&mut h, DefKind::Style, source.styles.as_str(), &mut m3) {
        *header_xml = string_of_valid(h);
        return Err(e);
    }
    if let Err(e) = process_one_kind(&mut h, DefKind::BorderFill, source.border_fills.as_str(), &mut m4) {
        *header_xml = string_of_valid(h);
        return Err(e);
    }
    *header_xml = string_of_valid(h);
    Ok(IdRemap { char_pr: m1, para_pr: m2, style: m3, border_fill: m4 })
}

// ───────────────────────────── Laws of the merge ─────────────────────────────

/// Every source definition of `kind` in `source` has its body (the definition
/// without its `id`) among the existing definitions of `kind` in `h`, and both
/// lists are well formed (an empty `source` trivially qualifies).
pub open spec fn all_defs_present(h: Seq<u8>, kind: DefKind, source: Seq<char>) -> bool {
    is_blank_spec(source) || {
        let src = utf8_of(source);
        &&& spec_split(src, kind, 0) is Ok
        &&& spec_split(h, kind, 0) is Ok
        &&& spec_max_id(h, kind, 0, 0) < u32::MAX
        &&& forall|j: int| 0 <= j < spec_split(src, kind, 0)->Ok_0.len() ==> #[trigger] lookup_from(
            body_table(h, spec_split(h, kind, 0)->Ok_0),
            spec_body(src.subrange(
                spec_split(src, kind, 0)->Ok_0[j].1,
                spec_split(src, kind, 0)->Ok_0[j].2,
            )),
            0,
        ) is Some
    }
}

proof fn lemma_assign_all_found(
    src: Seq<u8>,
    sdefs: Seq<(u32, int, int)>,
    i: int,
    table: Seq<(Seq<u8>, u32)>,
    next: int,
    remap: Map<u32, u32>,
    app: Seq<u8>,
)
    requires
        0 <= i,
        forall|j: int| i <= j < sdefs.len() ==> #[trigger] lookup_from(
            table,
            spec_body(src.subrange(sdefs[j].1, sdefs[j].2)),
            0,
        ) is Some,
    ensures
        spec_assign(src, sdefs, i, table, next, remap, app) matches Some((_, a2)) && a2 == app,
    decreases sdefs.len() - i,
{
    if i < sdefs.len() {
        let d = sdefs[i];
        assert(lookup_from(table, spec_body(src.subrange(d.1, d.2)), 0) is Some);
        let t = lookup_from(table, spec_body(src.subrange(d.1, d.2)), 0)->Some_0;
        lemma_assign_all_found(src, sdefs, i + 1, table, next, remap.insert(d.0, t), app);
    }
}

/// Merging definitions that the header already has (same body) leaves the
/// header as it is: every source ID is mapped to an existing ID.
pub proof fn lemma_process_kind_reuses(h: Seq<u8>, kind: DefKind, source: Seq<char>, remap: Map<u32, u32>)
    requires
        all_defs_present(h, kind, source),
    ensures
        spec_process_kind(h, kind, source, remap) matches KindOutcome::Done(h2, _) && h2 == h,
{
    if !is_blank_spec(source) {
        let src = utf8_of(source);
        let sdefs = spec_split(src, kind, 0)->Ok_0;
        let edefs = spec_split(h, kind, 0)->Ok_0;
        let max = spec_max_id(h, kind, 0, 0);
        lemma_assign_all_found(src, sdefs, 0, body_table(h, edefs), max + 1, remap, seq![]);
    }
}

/// `build_id_remap` with source definitions that the header already has
/// leaves the header unchanged (only the mappings are produced).
pub proof fn lemma_build_reuses_existing(header: Seq<char>, source: SourceDefinitions)
    requires
        all_defs_present(utf8_of(header), DefKind::CharPr, source.char_prs@),
        all_defs_present(utf8_of(header), DefKind::ParaPr, source.para_prs@),
        all_defs_present(utf8_of(header), DefKind::Style, source.styles@),
        all_defs_present(utf8_of(header), DefKind::BorderFill, source.border_fills@),
    ensures
        build_outcome(header, source) matches BuildOutcome::Done(h2, _) && h2 == utf8_of(header),
{
    let h = utf8_of(header);
    lemma_process_kind_reuses(h, DefKind::CharPr, source.char_prs@, Map::empty());
    lemma_process_kind_reuses(h, DefKind::ParaPr, source.para_prs@, Map::empty());
    lemma_process_kind_reuses(h, DefKind::Style, source.styles@, Map::empty());
    lemma_process_kind_reuses(h, DefKind::BorderFill, source.border_fills@, Map::empty());
}

/// Merging one kind keeps every byte of the header: the result is the header
/// itself or the header with the new definitions inserted at one offset.
pub proof fn lemma_process_kind_inserts_only(h: Seq<u8>, kind: DefKind, source: Seq<char>, remap: Map<u32, u32>)
    ensures
        spec_process_kind(h, kind, source, remap) matches KindOutcome::Done(h2, _) ==> h2 == h || exists|p: int,
            ins: Seq<u8>| 0 <= p <= h.len() && h2 == splice(h, p, ins),
{
    if let KindOutcome::Done(h2, _) = spec_process_kind(h, kind, source, remap) {
        if h2 != h {
            let src = utf8_of(source);
            let sdefs = spec_split(src, kind, 0)->Ok_0;
            let edefs = spec_split(h, kind, 0)->Ok_0;
            let max = spec_max_id(h, kind, 0, 0);
            let app = spec_assign(src, sdefs, 0, body_table(h, edefs), max + 1, remap, seq![])->Some_0.1;
            lemma_rfind_spec_bounds(h, h.len() - ref_list_candidates(kind).0.len(), ref_list_candidates(kind).0);
            lemma_rfind_spec_bounds(h, h.len() - ref_list_candidates(kind).1.len(), ref_list_candidates(kind).1);
            match rfind_all(h, ref_list_candidates(kind).0) {
                Some(p) => {
                    assert(h2 == splice(h, p, app));
                },
                None => {
                    let p = rfind_all(h, ref_list_candidates(kind).1)->Some_0;
                    assert(h2 == splice(h, p, app));
                },
            }
        }
    }
}

// ───────────────────────────── New IDs are fresh ─────────────────────────────

/// No definition in `defs` holds, after its first byte, the opening of another
/// definition of `kind` (definitions of one kind do not nest).
pub open spec fn defs_do_not_nest(s: Seq<u8>, kind: DefKind, defs: Seq<(u32, int, int)>) -> bool {
    forall|k: int, j: int|
        #![trigger defs[k], matches_at(s, j, open_prefix(kind))]
        0 <= k < defs.len() && defs[k].1 < j < defs[k].2 ==> !matches_at(s, j, open_prefix(kind))
}

proof fn lemma_open_prefix_len(kind: DefKind)
    ensures
        open_prefix(kind).len() > 0,
{
}

proof fn lemma_max_id_at_least(s: Seq<u8>, kind: DefKind, pos: int, m: u32)
    ensures
        spec_max_id(s, kind, pos, m) >= m,
    decreases s.len() - pos,
{
    lemma_open_prefix_len(kind);
    if 0 <= pos <= s.len() {
        lemma_find_spec_bounds(s, pos, open_prefix(kind));
        if let Some(start) = find_spec(s, pos, open_prefix(kind)) {
            let after = start + open_prefix(kind).len();
            if !sep_at(s, after) {
                lemma_max_id_at_least(s, kind, after, m);
            } else {
                lemma_find_spec_bounds(s, start, seq![62u8]);
                if let Some(close) = find_spec(s, start, seq![62u8]) {
                    let m2 = match spec_parse_id_attr(s.subrange(start, close + 1)) {
                        Some(id) => if id > m { id } else { m },
                        None => m,
                    };
                    lemma_max_id_at_least(s, kind, close + 1, m2);
                }
            }
        }
    }
}

proof fn lemma_max_id_skip(s: Seq<u8>, kind: DefKind, p: int, q: int, m: u32)
    requires
        0 <= p <= q <= s.len(),
        forall|j: int| p <= j < q ==> !matches_at(s, j, open_prefix(kind)),
    ensures
        spec_max_id(s, kind, p, m) == spec_max_id(s, kind, q, m),
{
    lemma_find_spec_skip(s, p, q, open_prefix(kind));
}

/// The largest ID that the header scan reports is at least the ID of every
/// definition of the kind, when definitions do not nest.
proof fn lemma_max_id_covers_defs(s: Seq<u8>, kind: DefKind, pos: int, m: u32)
    requires
        0 <= pos,
        spec_split(s, kind, pos) is Ok,
        defs_do_not_nest(s, kind, spec_split(s, kind, pos)->Ok_0),
    ensures
        spec_max_id(s, kind, pos, m) >= m,
        forall|k: int| 0 <= k < spec_split(s, kind, pos)->Ok_0.len() ==> #[trigger] spec_split(s, kind, pos)->Ok_0[k].0
            <= spec_max_id(s, kind, pos, m),
    decreases s.len() - pos,
{
    lemma_open_prefix_len(kind);
    lemma_max_id_at_least(s, kind, pos, m);
    if pos < s.len() {
        lemma_split_step(s, kind, pos);
        lemma_find_spec_bounds(s, pos, open_prefix(kind));
        match split_step(s, kind, pos) {
            SplitStep::Done => {},
            SplitStep::Skip(n) => {
                lemma_max_id_covers_defs(s, kind, n, m);
            },
            SplitStep::Fail(_) => {},
            SplitStep::Found(id, a, b) => {
                let v = spec_split(s, kind, pos)->Ok_0;
                let rest = spec_split(s, kind, b)->Ok_0;
                assert(v == seq![(id, a, b)] + rest);
                let oc = find_spec(s, a, seq![62u8])->Some_0;
                lemma_find_spec_bounds(s, a, seq![62u8]);
                let m2: u32 = if id > m { id } else { m };
                assert(spec_max_id(s, kind, pos, m) == spec_max_id(s, kind, oc + 1, m2));
                if s[oc - 1] != 47 {
                    lemma_find_spec_bounds(s, oc, close_tag(kind));
                }
                assert forall|j: int| oc + 1 <= j < b implies !matches_at(s, j, open_prefix(kind)) by {
                    assert(v[0] == (id, a, b));
                }
                lemma_max_id_skip(s, kind, oc + 1, b, m2);
                assert forall|k: int, j: int|
                    #![trigger rest[k], matches_at(s, j, open_prefix(kind))]
                    0 <= k < rest.len() && rest[k].1 < j < rest[k].2 implies !matches_at(
                    s,
                    j,
                    open_prefix(kind),
                ) by {
                    assert(v[k + 1] == rest[k]);
                }
                lemma_max_id_covers_defs(s, kind, b, m2);
                assert forall|k: int| 0 <= k < v.len() implies #[trigger] v[k].0 <= spec_max_id(s, kind, pos, m) by {
                    if k > 0 {
                        assert(v[k] == rest[k - 1]);
                    }
                }
            },
        }
    }
}

proof fn lemma_lookup_from_found(t: Seq<(Seq<u8>, u32)>, body: Seq<u8>, i: int)
    requires
        0 <= i,
    ensures
        lookup_from(t, body, i) matches Some(x) ==> exists|idx: int| i <= idx < t.len() && t[idx].0 == body
            && t[idx].1 == x,
    decreases t.len() - i,
{
    if i < t.len() && t[i].0 != body {
        lemma_lookup_from_found(t, body, i + 1);
    }
}

/// The ID given to the source ID `sid`: that of an existing definition of
/// `kind` in `h` whose body is the body of a source definition with ID `sid`,
/// or an ID above the ID of every existing definition of `kind`.
pub open spec fn reused_or_fresh(h: Seq<u8>, kind: DefKind, src: Seq<u8>, sid: u32, v: u32) -> bool {
    let edefs = spec_split(h, kind, 0)->Ok_0;
    let sdefs = spec_split(src, kind, 0)->Ok_0;
    ||| forall|k: int| 0 <= k < edefs.len() ==> #[trigger] edefs[k].0 < v
    ||| exists|k: int, j: int|
        0 <= k < edefs.len() && 0 <= j < sdefs.len() && #[trigger] edefs[k].0 == v && #[trigger] sdefs[j].0 == sid
            && spec_body(h.subrange(edefs[k].1, edefs[k].2)) == spec_body(src.subrange(sdefs[j].1, sdefs[j].2))
}

proof fn lemma_assign_reused_or_fresh(
    h: Seq<u8>,
    kind: DefKind,
    src: Seq<u8>,
    i: int,
    table: Seq<(Seq<u8>, u32)>,
    next: int,
    remap0: Map<u32, u32>,
    remap: Map<u32, u32>,
    app: Seq<u8>,
    max: int,
)
    requires
        0 <= i,
        spec_split(h, kind, 0) is Ok,
        spec_split(src, kind, 0) is Ok,
        ({
            let edefs = spec_split(h, kind, 0)->Ok_0;
            &&& edefs.len() <= table.len()
            &&& table.subrange(0, edefs.len() as int) == body_table(h, edefs)
            &&& forall|k: int| 0 <= k < edefs.len() ==> #[trigger] edefs[k].0 <= max
            &&& forall|t: int| edefs.len() <= t < table.len() ==> #[trigger] table[t].1 > max
        }),
        max < next,
        forall|sid: u32| remap.contains_key(sid) && !remap0.contains_key(sid) ==> reused_or_fresh(
            h,
            kind,
            src,
            sid,
            remap[sid],
        ),
    ensures
        spec_assign(src, spec_split(src, kind, 0)->Ok_0, i, table, next, remap, app) matches Some((r2, _))
            ==> forall|sid: u32| r2.contains_key(sid) && !remap0.contains_key(sid) ==> reused_or_fresh(
            h,
            kind,
            src,
            sid,
            r2[sid],
        ),
    decreases spec_split(src, kind, 0)->Ok_0.len() - i,
{
    let sdefs = spec_split(src, kind, 0)->Ok_0;
    let edefs = spec_split(h, kind, 0)->Ok_0;
    if i < sdefs.len() {
        let d = sdefs[i];
        let raw = src.subrange(d.1, d.2);
        let body = spec_body(raw);
        lemma_lookup_from_found(table, body, 0);
        match lookup_from(table, body, 0) {
            Some(t) => {
                let idx = choose|idx: int| 0 <= idx < table.len() && table[idx].0 == body && table[idx].1 == t;
                let r1 = remap.insert(d.0, t);
                assert forall|sid: u32| r1.contains_key(sid) && !remap0.contains_key(sid) implies reused_or_fresh(
                    h,
                    kind,
                    src,
                    sid,
                    r1[sid],
                ) by {
                    if sid == d.0 {
                        if idx < edefs.len() {
                            assert(table.subrange(0, edefs.len() as int)[idx] == table[idx]);
                            assert(body_table(h, edefs)[idx] == (spec_body(h.subrange(edefs[idx].1, edefs[idx].2)), edefs[idx].0));
                            assert(edefs[idx].0 == t && sdefs[i].0 == sid);
                        } else {
                            assert(table[idx].1 > max);
                        }
                    }
                }
                lemma_assign_reused_or_fresh(h, kind, src, i + 1, table, next, remap0, r1, app, max);
            },
            None => {
                if next < u32::MAX {
                    let nt = table.push((body, next as u32));
                    let r1 = remap.insert(d.0, next as u32);
                    assert(nt.subrange(0, edefs.len() as int) =~= table.subrange(0, edefs.len() as int));
                    assert forall|t: int| edefs.len() <= t < nt.len() implies #[trigger] nt[t].1 > max by {
                        if t < table.len() {
                            assert(nt[t] == table[t]);
                        }
                    }
                    lemma_assign_reused_or_fresh(
                        h,
                        kind,
                        src,
                        i + 1,
                        nt,
                        next + 1,
                        remap0,
                        r1,
                        app + seq![10u8] + spec_rewrite_id(raw, next as u32),
                        max,
                    );
                }
            },
        }
    }
}

/// Merging the definitions of one kind gives every source ID either the ID of
/// an existing definition of that kind with the same body, or a fresh ID:
/// one above the ID of every existing definition of the kind. So a new
/// definition never takes the ID of an existing one (definitions of one kind
/// in the header are taken not to nest).
pub proof fn lemma_merge_ids_reused_or_fresh(h: Seq<u8>, kind: DefKind, source: Seq<char>, remap: Map<u32, u32>)
    requires
        spec_split(h, kind, 0) is Ok,
        defs_do_not_nest(h, kind, spec_split(h, kind, 0)->Ok_0),
    ensures
        spec_process_kind(h, kind, source, remap) matches KindOutcome::Done(_, m) ==> forall|sid: u32|
            m.contains_key(sid) && !remap.contains_key(sid) ==> reused_or_fresh(h, kind, utf8_of(source), sid, m[sid]),
{
    if !is_blank_spec(source) {
        let src = utf8_of(source);
        if spec_split(src, kind, 0) is Ok {
            let edefs = spec_split(h, kind, 0)->Ok_0;
            let max = spec_max_id(h, kind, 0, 0);
            lemma_max_id_covers_defs(h, kind, 0, 0);
            let table = body_table(h, edefs);
            assert(table.subrange(0, edefs.len() as int) =~= table);
            lemma_assign_reused_or_fresh(h, kind, src, 0, table, max + 1, remap, remap, seq![], max as int);
        }
    }
}

} // verus!
