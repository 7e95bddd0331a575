//! Table coordinates of pasted fragments.
//!
//! For every `<hp:tbl>` the `rowCnt` of the table and the `rowAddr`/`colAddr`
//! of its cells are recomputed from the rows and the `colSpan`/`rowSpan` of
//! the cells, byte-preservingly; nested tables are handled recursively.

use std::collections::HashSet;
use vstd::prelude::*;
use vstd::utf8::valid_utf8;
use crate::scan::{lt_count, lemma_lt_count_concat, lemma_lt_count_split, lemma_lt_count_none, lemma_lt_count_at, matches_at, find_spec, contains_from, rfind_all, find_from, find_within, find_byte, rfind, push_range, push_all, match_at,
    lemma_find_spec_bounds, lemma_rfind_spec_bounds};
use crate::text::{
    utf8_of, cut_ok, all_ascii, lemma_subrange_valid, lemma_ascii_valid, lemma_after_ascii, lemma_ascii_cut,
    lemma_concat_valid, lemma_concat_ascii, string_of_valid, string_of_ascii, bytes_of,
};
use crate::decimal::{is_digit, spec_parse_u32, decimal, parse_u32, decimal_u64, lemma_decimal_props};
use super::lits::{
    tbl_open, tbl_close, tr_open, tr_close, tc_open, tc_close, attr_col_span, attr_row_span,
    attr_row_addr, attr_col_addr, attr_row_cnt, tbl_open_bytes, tbl_close_bytes, tr_open_bytes,
    tr_close_bytes, tc_open_bytes, tc_close_bytes, attr_col_span_bytes, attr_row_span_bytes,
    attr_row_addr_bytes, attr_col_addr_bytes, attr_row_cnt_bytes, msg_unbalanced_tbl,
    msg_tbl_open_gt, msg_cell_open_gt, msg_unbalanced, msg_unbalanced_tbl_bytes,
    msg_tbl_open_gt_bytes, msg_cell_open_gt_bytes, msg_unbalanced_bytes,
};
use super::types::{FragmentPasteError, PasteErr, error_is, SourceDefinitions, ParagraphPasteResult};
use super::defs::{is_tag_sep, sep_at};
use super::paras::{jump_ok, malformed_fragment, paste_paragraphs_into_section, PasteOutcome, paste_outcome, paste_outcome_bytes};

verus! {

pub proof fn lemma_lt_count_digits(n: nat)
    ensures
        lt_count(decimal(n)) == 0,
{
    lemma_decimal_props(n);
    assert forall|k: int| 0 <= k < decimal(n).len() implies decimal(n)[k] != 60 by {
        assert(is_digit(decimal(n)[k]));
    }
    lemma_lt_count_none(decimal(n));
}

// ───────────────────────────── The closing `</hp:tbl>` ─────────────────────────────

pub enum Balanced {
    Found(int),
    NotFound,
    Panics,
}

/// What the balanced scan meets at `pos`: an opening `<hp:tbl` (followed by a
/// tag separator), a `</hp:tbl>`, or anything else (jump to the next `<`).
pub open spec fn tbl_tok(s: Seq<u8>, pos: int) -> int {
    if matches_at(s, pos, tbl_open()) && sep_at(s, pos + 7) {
        0
    } else if matches_at(s, pos, tbl_close()) {
        1
    } else {
        2
    }
}

pub open spec fn next_lt(s: Seq<u8>, pos: int) -> int {
    match find_spec(s, pos + 1, seq![60u8]) {
        Some(r) => r,
        None => s.len() as int,
    }
}

pub proof fn lemma_next_lt(s: Seq<u8>, pos: int)
    requires
        0 <= pos < s.len(),
    ensures
        pos < next_lt(s, pos) <= s.len(),
        next_lt(s, pos) < s.len() ==> s[next_lt(s, pos)] == 60,
{
    lemma_find_spec_bounds(s, pos + 1, seq![60u8]);
    if let Some(r) = find_spec(s, pos + 1, seq![60u8]) {
        assert(s.subrange(r, r + 1)[0] == s[r]);
    }
}

/// The end (right after the matching `</hp:tbl>`) of the table whose nesting is
/// `depth` at `pos`.
pub open spec fn spec_balanced(s: Seq<u8>, pos: int, depth: int) -> Balanced
    decreases s.len() - pos,
    via balanced_decreases
{
    if pos < 0 || pos >= s.len() {
        Balanced::NotFound
    } else if tbl_tok(s, pos) == 0 {
        if depth + 1 > i32::MAX {
            Balanced::Panics
        } else {
            spec_balanced(s, pos + 7, depth + 1)
        }
    } else if tbl_tok(s, pos) == 1 {
        if depth - 1 < i32::MIN {
            Balanced::Panics
        } else if depth - 1 == 0 {
            Balanced::Found(pos + 9)
        } else {
            spec_balanced(s, pos + 9, depth - 1)
        }
    } else if !jump_ok(s, pos) {
        Balanced::Panics
    } else {
        spec_balanced(s, next_lt(s, pos), depth)
    }
}

#[via_fn]
proof fn balanced_decreases(s: Seq<u8>, pos: int, depth: int) {
    if 0 <= pos < s.len() {
        lemma_next_lt(s, pos);
    }
}

pub open spec fn tbl_pats_ok(open: Seq<u8>, close: Seq<u8>) -> bool {
    open == tbl_open() && close == tbl_close()
}

/// The end of the table that opens at `start` (right after its matching `</hp:tbl>`).
fn find_balanced_close(src: &[u8], start: usize, open: &[u8], close: &[u8]) -> (r: Option<usize>)
    requires
        tbl_pats_ok(open@, close@),
        !(spec_balanced(src@, start as int, 0) is Panics),
    ensures
        match spec_balanced(src@, start as int, 0) {
            Balanced::Found(e) => r == Some(e as usize) && 9 <= e <= src@.len() && src@[e - 1] == 62,
            _ => r is None,
        },
{
    let n = src.len();
    let mut depth: i64 = 0;
    let mut pos = start;
    while pos < n
        invariant
            n == src@.len(),
            tbl_pats_ok(open@, close@),
            i32::MIN <= depth <= i32::MAX,
            spec_balanced(src@, start as int, 0) == spec_balanced(src@, pos as int, depth as int),
            !(spec_balanced(src@, pos as int, depth as int) is Panics),
        decreases n - pos,
    {
        if match_at(src, pos, open) && pos + 7 < n && {
            let b = src[pos + 7];
            b == 32 || b == 47 || b == 62 || b == 9 || b == 10
        } {
            depth = depth + 1;
            pos = pos + 7;
            continue;
        }
        if match_at(src, pos, close) {
            depth = depth - 1;
            pos = pos + 9;
            if depth == 0 {
                proof {
                    assert(src@.subrange(pos - 9, pos as int)[8] == src@[pos - 1]);
                }
                return Some(pos);
            }
            continue;
        }
        proof {
            lemma_next_lt(src@, pos as int);
        }
        match find_byte(src, pos + 1, 60u8) {
            Some(r) => pos = r,
            None => pos = n,
        }
    }
    None
}

// ───────────────────────────── Direct children ─────────────────────────────

/// The markup of a parent element and of its children (`<hp:tbl`/`<hp:tr`
/// or `<hp:tr`/`<hp:tc`).
pub struct ChildPats {
    pub outer_open: Seq<u8>,
    pub outer_close: Seq<u8>,
    pub child_open: Seq<u8>,
    pub child_close: Seq<u8>,
}

pub open spec fn row_pats() -> ChildPats {
    ChildPats { outer_open: tbl_open(), outer_close: tbl_close(), child_open: tr_open(), child_close: tr_close() }
}

pub open spec fn cell_pats() -> ChildPats {
    ChildPats { outer_open: tr_open(), outer_close: tr_close(), child_open: tc_open(), child_close: tc_close() }
}

/// What the children scan meets at `pos`: 0 parent open tag, 1 parent close
/// tag, 2 child open tag, 3 child close tag, 4 anything else.
pub open spec fn child_tok(s: Seq<u8>, pos: int, p: ChildPats) -> int {
    if matches_at(s, pos, p.outer_open) && sep_at(s, pos + p.outer_open.len()) {
        0
    } else if matches_at(s, pos, p.outer_close) {
        1
    } else if matches_at(s, pos, p.child_open) && sep_at(s, pos + p.child_open.len()) {
        2
    } else if matches_at(s, pos, p.child_close) {
        3
    } else {
        4
    }
}

pub enum Children {
    Spans(Seq<(int, int)>),
    Unbalanced,
    Panics,
}

/// The spans of the direct children in `s[pos..]`, given the child nesting
/// `depth` and the start of the child being read; `Unbalanced` when a child
/// close tag has no open tag.
pub open spec fn spec_children(s: Seq<u8>, pos: int, depth: int, cur: Option<int>, p: ChildPats) -> Children
    decreases s.len() - pos,
    via children_decreases
{
    if pos < 0 || pos >= s.len() || p.outer_open.len() == 0 || p.outer_close.len() == 0
        || p.child_open.len() == 0 || p.child_close.len() == 0 {
        Children::Spans(seq![])
    } else {
        let t = child_tok(s, pos, p);
        if t == 0 {
            spec_children(s, pos + p.outer_open.len(), depth, cur, p)
        } else if t == 1 {
            spec_children(s, pos + p.outer_close.len(), depth, cur, p)
        } else if t == 2 {
            if depth + 1 > i32::MAX {
                Children::Panics
            } else {
                spec_children(s, pos + p.child_open.len(), depth + 1,
                    if depth == 0 && cur is None { Some(pos) } else { cur }, p)
            }
        } else if t == 3 {
            let np = pos + p.child_close.len();
            if depth - 1 < i32::MIN {
                Children::Panics
            } else if depth - 1 == 0 {
                match cur {
                    Some(c) => match spec_children(s, np, 0, None, p) {
                        Children::Spans(rest) => Children::Spans(seq![(c, np)] + rest),
                        other => other,
                    },
                    None => spec_children(s, np, 0, None, p),
                }
            } else if depth - 1 < 0 {
                Children::Unbalanced
            } else {
                spec_children(s, np, depth - 1, cur, p)
            }
        } else if !jump_ok(s, pos) {
            Children::Panics
        } else {
            spec_children(s, next_lt(s, pos), depth, cur, p)
        }
    }
}

#[via_fn]
proof fn children_decreases(s: Seq<u8>, pos: int, depth: int, cur: Option<int>, p: ChildPats) {
    if 0 <= pos < s.len() {
        lemma_next_lt(s, pos);
    }
}

/// Exec patterns of a children scan.
pub struct ChildPatsExec {
    pub outer_open: Vec<u8>,
    pub outer_close: Vec<u8>,
    pub child_open: Vec<u8>,
    pub child_close: Vec<u8>,
}

impl ChildPatsExec {
    pub open spec fn view_pats(&self) -> ChildPats {
        ChildPats {
            outer_open: self.outer_open@,
            outer_close: self.outer_close@,
            child_open: self.child_open@,
            child_close: self.child_close@,
        }
    }

    pub fn rows() -> (r: Self)
        ensures
            r.view_pats() == row_pats(),
    {
        ChildPatsExec {
            outer_open: tbl_open_bytes(),
            outer_close: tbl_close_bytes(),
            child_open: tr_open_bytes(),
            child_close: tr_close_bytes(),
        }
    }

    pub fn cells() -> (r: Self)
        ensures
            r.view_pats() == cell_pats(),
    {
        ChildPatsExec {
            outer_open: tr_open_bytes(),
            outer_close: tr_close_bytes(),
            child_open: tc_open_bytes(),
            child_close: tc_close_bytes(),
        }
    }
}

pub open spec fn pairs_view(v: Seq<(usize, usize)>) -> Seq<(int, int)> {
    v.map_values(|d: (usize, usize)| (d.0 as int, d.1 as int))
}

fn sep_after(s: &[u8], i: usize) -> (r: bool)
    ensures
        r == sep_at(s@, i as int),
{
    if i < s.len() {
        let b = s[i];
        b == 32 || b == 47 || b == 62 || b == 9 || b == 10
    } else {
        false
    }
}

/// Spans of the direct children (`child_open` ... `child_close`) of the parent
/// element at the start of `slice`; nested structures are tracked by depth.
fn find_direct_children(slice: &[u8], p: &ChildPatsExec) -> (r: Result<Vec<(usize, usize)>, ()>)
    requires
        p.view_pats() == row_pats() || p.view_pats() == cell_pats(),
        !(spec_children(slice@, 0, 0, None, p.view_pats()) is Panics),
    ensures
        match spec_children(slice@, 0, 0, None, p.view_pats()) {
            Children::Spans(v) => r matches Ok(x) && pairs_view(x@) == v
                && (forall|k: int| 0 <= k < x@.len() ==> (#[trigger] x@[k]).0 < x@[k].1 <= slice@.len()),
            Children::Unbalanced => r is Err,
            Children::Panics => false,
        },
{
    let n = slice.len();
    let ghost gp = p.view_pats();
    let mut spans: Vec<(usize, usize)> = Vec::new();
    let mut pos: usize = 0;
    let mut depth: i64 = 0;
    let mut cur: Option<usize> = None;
    assert(pairs_view(spans@) =~= Seq::<(int, int)>::empty());
    while pos < n
        invariant
            n == slice@.len(),
            gp == p.view_pats(),
            gp == row_pats() || gp == cell_pats(),
            pos <= n,
            i32::MIN <= depth <= i32::MAX,
            cur matches Some(c) ==> c < pos,
            forall|k: int| 0 <= k < spans@.len() ==> (#[trigger] spans@[k]).0 < spans@[k].1 <= n,
            spec_children(slice@, 0, 0, None, gp) == match spec_children(
                slice@, pos as int, depth as int, match cur { Some(c) => Some(c as int), None => None }, gp) {
                Children::Spans(rest) => Children::Spans(pairs_view(spans@) + rest),
                other => other,
            },
            !(spec_children(slice@, 0, 0, None, gp) is Panics),
        decreases n - pos,
    {
        let ghost before = spans@;
        if match_at(slice, pos, p.outer_open.as_slice()) && sep_after(slice, pos + p.outer_open.len()) {
            pos = pos + p.outer_open.len();
            continue;
        }
        if match_at(slice, pos, p.outer_close.as_slice()) {
            pos = pos + p.outer_close.len();
            continue;
        }
        if match_at(slice, pos, p.child_open.as_slice()) && sep_after(slice, pos + p.child_open.len()) {
            if depth == 0 && cur.is_none() {
                cur = Some(pos);
            }
            depth = depth + 1;
            pos = pos + p.child_open.len();
            continue;
        }
        if match_at(slice, pos, p.child_close.as_slice()) {
            depth = depth - 1;
            pos = pos + p.child_close.len();
            if depth == 0 {
                if let Some(c) = cur {
                    spans.push((c, pos));
                    proof {
                        assert(pairs_view(spans@) =~= pairs_view(before) + seq![(c as int, pos as int)]);
                        match spec_children(slice@, pos as int, 0, None, gp) {
                            Children::Spans(rest) => {
                                assert(pairs_view(before) + (seq![(c as int, pos as int)] + rest)
                                    =~= pairs_view(spans@) + rest);
                            },
                            _ => {},
                        }
                        assert forall|k: int| 0 <= k < spans@.len() implies (#[trigger] spans@[k]).0 < spans@[k].1 <= n by {
                            if k < before.len() {
                                assert(spans@[k] == before[k]);
                            }
                        }
                    }
                    cur = None;
                }
            } else if depth < 0 {
                return Err(());
            }
            continue;
        }
        proof {
            lemma_next_lt(slice@, pos as int);
        }
        match find_byte(slice, pos + 1, 60u8) {
            Some(r) => pos = r,
            None => pos = n,
        }
    }
    assert(pairs_view(spans@) + seq![] =~= pairs_view(spans@));
    Ok(spans)
}

// ───────────────────────────── Attribute values in open tags ─────────────────────────────

/// ` name="` (or ` name='` for `quote == 39`).
pub open spec fn attr_q(name: Seq<u8>, quote: u8) -> Seq<u8> {
    seq![32u8] + name + seq![61u8, quote]
}

/// The span of the value of attribute `name` quoted with `quote` inside
/// `s[from..to]`: after the first ` name=<quote>` there, up to the next `quote`
/// before `to`.
pub open spec fn quoted_span(s: Seq<u8>, from: int, to: int, name: Seq<u8>, quote: u8) -> Option<(int, int)> {
    match find_spec(s.subrange(from, to), 0, attr_q(name, quote)) {
        None => None,
        Some(idx) => {
            let vs = from + idx + name.len() + 3;
            match find_spec(s.subrange(vs, to), 0, seq![quote]) {
                None => None,
                Some(e) => Some((vs, vs + e)),
            }
        },
    }
}

/// The span of the value of attribute `name` in the open tag `s[from..to]`,
/// double-quoted form first.
pub open spec fn attr_value_span(s: Seq<u8>, from: int, to: int, name: Seq<u8>) -> Option<(int, int)> {
    match quoted_span(s, from, to, name, 34) {
        Some(p) => Some(p),
        None => quoted_span(s, from, to, name, 39),
    }
}

/// The numeric value of attribute `name` in the open tag at the start of `cell`
/// (up to its first `>`); `None` when it is missing or not a `u32`.
pub open spec fn span_attr(cell: Seq<u8>, name: Seq<u8>) -> Option<u32> {
    match find_spec(cell, 0, seq![62u8]) {
        None => None,
        Some(oe) => match attr_value_span(cell, 0, oe + 1, name) {
            None => None,
            Some((a, b)) => spec_parse_u32(cell.subrange(a, b)),
        },
    }
}

fn attr_pattern(name: &[u8], quote: u8) -> (r: Vec<u8>)
    ensures
        r@ == attr_q(name@, quote),
{
    let mut v: Vec<u8> = Vec::new();
    v.push(32u8);
    push_all(&mut v, name);
    v.push(61u8);
    v.push(quote);
    assert(v@ =~= attr_q(name@, quote));
    v
}

fn quoted_value_span(s: &[u8], from: usize, to: usize, name: &[u8], quote: u8) -> (r: Option<(usize, usize)>)
    requires
        from <= to <= s@.len(),
    ensures
        match quoted_span(s@, from as int, to as int, name@, quote) {
            Some((a, b)) => r == Some((a as usize, b as usize)) && from <= a <= b <= to,
            None => r is None,
        },
{
    let q = attr_pattern(name, quote);
    match find_within(s, from, to, q.as_slice()) {
        None => None,
        Some(i) => {
            proof {
                lemma_find_spec_bounds(s@.subrange(from as int, to as int), 0, q@);
            }
            let vs = i + q.len();
            let one: Vec<u8> = vec![quote];
            assert(one@ =~= seq![quote]);
            match find_within(s, vs, to, one.as_slice()) {
                None => None,
                Some(e) => {
                    proof {
                        lemma_find_spec_bounds(s@.subrange(vs as int, to as int), 0, one@);
                    }
                    Some((vs, e))
                },
            }
        },
    }
}

/// The value span of attribute `name` in the open tag `s[from..to]`.
fn find_attr_value_span(s: &[u8], from: usize, to: usize, name: &[u8]) -> (r: Option<(usize, usize)>)
    requires
        from <= to <= s@.len(),
    ensures
        match attr_value_span(s@, from as int, to as int, name@) {
            Some((a, b)) => r == Some((a as usize, b as usize)) && from <= a <= b <= to,
            None => r is None,
        },
{
    match quoted_value_span(s, from, to, name, 34u8) {
        Some(p) => Some(p),
        None => quoted_value_span(s, from, to, name, 39u8),
    }
}

/// The numeric `colSpan`/`rowSpan` of the cell that starts `cell`.
fn extract_span_attr(cell: &[u8], name: &[u8]) -> (r: Option<u32>)
    ensures
        r == span_attr(cell@, name@),
{
    match find_byte(cell, 0, 62u8) {
        None => None,
        Some(oe) => {
            proof {
                lemma_find_spec_bounds(cell@, 0, seq![62u8]);
            }
            let n = cell.len();
            match find_attr_value_span(cell, 0, oe + 1, name) {
                None => None,
                Some((a, b)) => {
                    let mut v: Vec<u8> = Vec::new();
                    push_range(&mut v, cell, a, b);
                    assert(v@ =~= cell@.subrange(a as int, b as int));
                    parse_u32(v.as_slice())
                },
            }
        },
    }
}

// ───────────────────────────── Rows and cells ─────────────────────────────

/// A cell of a table: its open tag `start..end` in the table text and its
/// column and row spans.
#[derive(Clone, Copy)]
pub struct CellGeom {
    pub start: usize,
    pub end: usize,
    pub col_span: u32,
    pub row_span: u32,
}

pub enum RowsOutcome {
    Rows(Seq<Seq<CellGeom>>),
    Failed(Seq<u8>),
    Panics,
}

/// The cells of the row `t[rs..re]` whose spans (relative to the row) are
/// `cs[k..]`; `None` when an open tag has no `>`.
pub open spec fn row_cells(t: Seq<u8>, rs: int, re: int, cs: Seq<(int, int)>, k: int) -> Option<Seq<CellGeom>>
    decreases cs.len() - k,
{
    if k < 0 || k >= cs.len() {
        Some(seq![])
    } else {
        let cell = t.subrange(rs, re).subrange(cs[k].0, cs[k].1);
        match find_spec(cell, 0, seq![62u8]) {
            None => None,
            Some(oe) => match row_cells(t, rs, re, cs, k + 1) {
                None => None,
                Some(rest) => Some(seq![CellGeom {
                    start: (rs + cs[k].0) as usize,
                    end: (rs + cs[k].0 + oe + 1) as usize,
                    col_span: match span_attr(cell, attr_col_span()) { Some(v) => v, None => 1 },
                    row_span: match span_attr(cell, attr_row_span()) { Some(v) => v, None => 1 },
                }] + rest),
            },
        }
    }
}

/// The rows of the table `t` whose spans are `rspans[k..]`.
pub open spec fn rows_from(t: Seq<u8>, rspans: Seq<(int, int)>, k: int) -> RowsOutcome
    decreases rspans.len() - k,
{
    if k < 0 || k >= rspans.len() {
        RowsOutcome::Rows(seq![])
    } else {
        let rs = rspans[k].0;
        let re = rspans[k].1;
        match spec_children(t.subrange(rs, re), 0, 0, None, cell_pats()) {
            Children::Panics => RowsOutcome::Panics,
            Children::Unbalanced => RowsOutcome::Failed(msg_unbalanced() + tc_close()),
            Children::Spans(cs) => match row_cells(t, rs, re, cs, 0) {
                None => RowsOutcome::Failed(msg_cell_open_gt()),
                Some(cells) => match rows_from(t, rspans, k + 1) {
                    RowsOutcome::Rows(rest) => RowsOutcome::Rows(seq![cells] + rest),
                    other => other,
                },
            },
        }
    }
}

/// The direct rows of the table `t`, each with its direct cells.
pub open spec fn spec_parse_rows(t: Seq<u8>) -> RowsOutcome {
    match spec_children(t, 0, 0, None, row_pats()) {
        Children::Panics => RowsOutcome::Panics,
        Children::Unbalanced => RowsOutcome::Failed(msg_unbalanced() + tr_close()),
        Children::Spans(rspans) => rows_from(t, rspans, 0),
    }
}

pub open spec fn rows_view(v: Seq<Vec<CellGeom>>) -> Seq<Seq<CellGeom>> {
    v.map_values(|r: Vec<CellGeom>| r@)
}

/// Every cell's open tag lies inside a text of length `n`.
pub open spec fn cells_within(rows: Seq<Seq<CellGeom>>, n: int) -> bool {
    forall|r: int, i: int| 0 <= r < rows.len() && 0 <= i < rows[r].len()
        ==> #[trigger] rows[r][i].start <= rows[r][i].end <= n
}

fn unbalanced_msg(close: &[u8]) -> (r: Vec<u8>)
    requires
        all_ascii(close@),
    ensures
        r@ == msg_unbalanced() + close@,
        all_ascii(r@),
{
    let mut m = msg_unbalanced_bytes();
    push_all(&mut m, close);
    proof {
        lemma_concat_ascii(msg_unbalanced(), close@);
    }
    m
}

fn parse_row_cells(t: &[u8], rs: usize, re: usize, cs: &Vec<(usize, usize)>) -> (r: Option<Vec<CellGeom>>)
    requires
        rs <= re <= t@.len(),
        forall|k: int| 0 <= k < cs@.len() ==> (#[trigger] cs@[k]).0 < cs@[k].1 <= re - rs,
    ensures
        match row_cells(t@, rs as int, re as int, pairs_view(cs@), 0) {
            Some(cells) => r matches Some(v) && v@ == cells,
            None => r is None,
        },
        r matches Some(v) ==> forall|i: int| 0 <= i < v@.len() ==> #[trigger] v@[i].start <= v@[i].end <= t@.len(),
{
    let row = &t[rs..re];
    let ghost pv = pairs_view(cs@);
    let mut cells: Vec<CellGeom> = Vec::new();
    let mut k: usize = 0;
    let col_name = attr_col_span_bytes();
    let row_name = attr_row_span_bytes();
    while k < cs.len()
        invariant
            row@ == t@.subrange(rs as int, re as int),
            rs <= re <= t@.len(),
            k <= cs@.len(),
            pv == pairs_view(cs@),
            col_name@ == attr_col_span(),
            row_name@ == attr_row_span(),
            forall|j: int| 0 <= j < cs@.len() ==> (#[trigger] cs@[j]).0 < cs@[j].1 <= re - rs,
            forall|i: int| 0 <= i < cells@.len() ==> #[trigger] cells@[i].start <= cells@[i].end <= t@.len(),
            row_cells(t@, rs as int, re as int, pv, 0) == match row_cells(t@, rs as int, re as int, pv, k as int) {
                Some(rest) => Some(cells@ + rest),
                None => None,
            },
        decreases cs@.len() - k,
    {
        let (c0, c1) = cs[k];
        assert(pv[k as int] == (c0 as int, c1 as int));
        let cell = &row[c0..c1];
        let n = cell.len();
        match find_byte(cell, 0, 62u8) {
            None => {
                return None;
            },
            Some(oe) => {
                proof {
                    lemma_find_spec_bounds(cell@, 0, seq![62u8]);
                }
                let col_span = match extract_span_attr(cell, col_name.as_slice()) {
                    Some(v) => v,
                    None => 1,
                };
                let row_span = match extract_span_attr(cell, row_name.as_slice()) {
                    Some(v) => v,
                    None => 1,
                };
                let g = CellGeom { start: rs + c0, end: rs + c0 + oe + 1, col_span, row_span };
                let ghost before = cells@;
                cells.push(g);
                proof {
                    match row_cells(t@, rs as int, re as int, pv, k + 1) {
                        Some(rest) => {
                            assert(before + (seq![g] + rest) =~= cells@ + rest);
                        },
                        None => {},
                    }
                    assert forall|i: int| 0 <= i < cells@.len() implies #[trigger] cells@[i].start <= cells@[i].end <= t@.len() by {
                        if i < before.len() {
                            assert(cells@[i] == before[i]);
                        }
                    }
                }
                k = k + 1;
            },
        }
    }
    assert(cells@ + seq![] =~= cells@);
    Some(cells)
}

/// The direct rows of the table `t`, each with its direct cells.
fn parse_rows(t: &[u8]) -> (r: Result<Vec<Vec<CellGeom>>, Vec<u8>>)
    requires
        !(spec_parse_rows(t@) is Panics),
    ensures
        match spec_parse_rows(t@) {
            RowsOutcome::Rows(rows) => r matches Ok(v) && rows_view(v@) == rows && cells_within(rows, t@.len() as int),
            RowsOutcome::Failed(m) => r matches Err(e) && e@ == m,
            RowsOutcome::Panics => false,
        },
        r matches Err(e) ==> all_ascii(e@),
{
    let rp = ChildPatsExec::rows();
    let rspans = match find_direct_children(t, &rp) {
        Ok(v) => v,
        Err(_) => {
            let c = tr_close_bytes();
            return Err(unbalanced_msg(c.as_slice()));
        },
    };
    let ghost rv = pairs_view(rspans@);
    let cp = ChildPatsExec::cells();
    let mut rows: Vec<Vec<CellGeom>> = Vec::new();
    let mut k: usize = 0;
    assert(rows_view(rows@) =~= Seq::<Seq<CellGeom>>::empty());
    while k < rspans.len()
        invariant
            spec_parse_rows(t@) == rows_from(t@, rv, 0),
            rv == pairs_view(rspans@),
            k <= rspans@.len(),
            cp.view_pats() == cell_pats(),
            forall|j: int| 0 <= j < rspans@.len() ==> (#[trigger] rspans@[j]).0 < rspans@[j].1 <= t@.len(),
            cells_within(rows_view(rows@), t@.len() as int),
            rows_from(t@, rv, 0) == match rows_from(t@, rv, k as int) {
                RowsOutcome::Rows(rest) => RowsOutcome::Rows(rows_view(rows@) + rest),
                other => other,
            },
            !(rows_from(t@, rv, 0) is Panics),
        decreases rspans@.len() - k,
    {
        let (rs, re) = rspans[k];
        assert(rv[k as int] == (rs as int, re as int));
        let row = &t[rs..re];
        let cs = match find_direct_children(row, &cp) {
            Ok(v) => v,
            Err(_) => {
                let c = tc_close_bytes();
                return Err(unbalanced_msg(c.as_slice()));
            },
        };
        let cells = match parse_row_cells(t, rs, re, &cs) {
            Some(c) => c,
            None => {
                return Err(msg_cell_open_gt_bytes());
            },
        };
        let ghost before = rows@;
        rows.push(cells);
        proof {
            assert(rows_view(rows@) =~= rows_view(before) + seq![cells@]);
            match rows_from(t@, rv, k + 1) {
                RowsOutcome::Rows(rest) => {
                    assert(rows_view(before) + (seq![cells@] + rest) =~= rows_view(rows@) + rest);
                },
                _ => {},
            }
            assert forall|r: int, i: int| 0 <= r < rows_view(rows@).len() && 0 <= i < rows_view(rows@)[r].len()
                implies #[trigger] rows_view(rows@)[r][i].start <= rows_view(rows@)[r][i].end <= t@.len() by {
                if r < before.len() {
                    assert(rows_view(rows@)[r] == rows_view(before)[r]);
                }
            }
        }
        k = k + 1;
    }
    assert(rows_view(rows@) + seq![] =~= rows_view(rows@));
    Ok(rows)
}

// ───────────────────────────── Grid layout ─────────────────────────────

/// The first column `>= c` not taken in `occ`; `None` when the search would
/// go past `u32::MAX`.
pub open spec fn skip_taken(occ: Set<u32>, c: int) -> Option<u32>
    decreases u32::MAX - c,
{
    if c < 0 || c > u32::MAX {
        None
    } else if !occ.contains(c as u32) {
        Some(c as u32)
    } else if c == u32::MAX {
        None
    } else {
        skip_taken(occ, c + 1)
    }
}

/// The columns `col..col + col_span` of `cell`, taken in every row below row
/// `r` that the cell spans.
pub open spec fn mark_below(occ: Seq<Set<u32>>, r: int, col: int, cell: CellGeom) -> Seq<Set<u32>> {
    Seq::new(
        occ.len(),
        |t: int|
            if r < t < r + cell.row_span {
                occ[t].union(Set::new(|x: u32| col <= x < col + cell.col_span))
            } else {
                occ[t]
            },
    )
}

/// The new `rowAddr` and `colAddr` values of `cell` (row `r`, column `col`),
/// for the attributes that its open tag has.
pub open spec fn cell_reps(t: Seq<u8>, cell: CellGeom, r: int, col: u32) -> Seq<(int, int, nat)> {
    (match attr_value_span(t, cell.start as int, cell.end as int, attr_row_addr()) {
        Some((a, b)) => seq![(a, b, (r as u32) as nat)],
        None => seq![],
    }) + (match attr_value_span(t, cell.start as int, cell.end as int, attr_col_addr()) {
        Some((a, b)) => seq![(a, b, col as nat)],
        None => seq![],
    })
}

/// The address replacements of the cells from cell `i` of row `r` on, where
/// `col` is the next free column of row `r` and `occ` the columns that cells
/// of earlier rows take by their row spans. Each cell takes the first column
/// `>= col` that is free in its row; `None` when a column would pass `u32::MAX`.
pub open spec fn layout_reps(
    t: Seq<u8>,
    rows: Seq<Seq<CellGeom>>,
    r: int,
    i: int,
    col: int,
    occ: Seq<Set<u32>>,
) -> Option<Seq<(int, int, nat)>>
    decreases rows.len() - r, rows[r].len() - i,
{
    if r < 0 || r >= rows.len() || i < 0 {
        Some(seq![])
    } else if i >= rows[r].len() {
        layout_reps(t, rows, r + 1, 0, 0, occ)
    } else {
        let cell = rows[r][i];
        match skip_taken(occ[r], col) {
            None => None,
            Some(c) => if c + cell.col_span > u32::MAX {
                None
            } else {
                match layout_reps(t, rows, r, i + 1, c + cell.col_span, mark_below(occ, r, c as int, cell)) {
                    None => None,
                    Some(rest) => Some(cell_reps(t, cell, r, c) + rest),
                }
            },
        }
    }
}

pub open spec fn no_taken(n: int) -> Seq<Set<u32>> {
    Seq::new(n as nat, |t: int| Set::<u32>::empty())
}

pub open spec fn occ_view(v: Seq<HashSet<u32>>) -> Seq<Set<u32>> {
    v.map_values(|h: HashSet<u32>| h@)
}

pub open spec fn reps_view(v: Seq<(usize, usize, u64)>) -> Seq<(int, int, nat)> {
    v.map_values(|x: (usize, usize, u64)| (x.0 as int, x.1 as int, x.2 as nat))
}

fn first_free(occ: &HashSet<u32>, col: u32) -> (r: u32)
    requires
        skip_taken(occ@, col as int) is Some,
    ensures
        skip_taken(occ@, col as int) == Some(r),
{
    broadcast use vstd::std_specs::hash::group_hash_axioms;
    let mut c = col;
    while occ.contains(&c)
        invariant
            skip_taken(occ@, col as int) == skip_taken(occ@, c as int),
            skip_taken(occ@, col as int) is Some,
        decreases u32::MAX - c,
    {
        c = c + 1;
    }
    c
}

fn mark_rows_below(occupied: &mut Vec<HashSet<u32>>, r: usize, col: u32, cell: CellGeom)
    requires
        r < old(occupied)@.len(),
        col + cell.col_span <= u32::MAX,
    ensures
        final(occupied)@.len() == old(occupied)@.len(),
        occ_view(final(occupied)@) =~~= mark_below(occ_view(old(occupied)@), r as int, col as int, cell),
{
    broadcast use vstd::std_specs::hash::group_hash_axioms;
    let n = occupied.len();
    let ghost o0 = occ_view(occupied@);
    let ghost span = Set::new(|x: u32| col <= x < col + cell.col_span);
    let mut sr: u32 = 1;
    while sr < cell.row_span
        invariant
            n == occupied@.len(),
            r < n,
            1 <= sr,
            o0.len() == n,
            col + cell.col_span <= u32::MAX,
            span == Set::new(|x: u32| col <= x < col + cell.col_span),
            r + sr <= n,
            sr <= cell.row_span || sr == 1,
            occ_view(occupied@) =~~= Seq::new(n as nat, |t: int| if r < t < r + sr { o0[t].union(span) } else { o0[t] }),
        ensures
            sr <= cell.row_span || sr == 1,
            sr >= cell.row_span || r + sr >= n,
            occ_view(occupied@) =~~= Seq::new(n as nat, |t: int| if r < t < r + sr { o0[t].union(span) } else { o0[t] }),
        decreases cell.row_span - sr,
    {
        let target = r + sr as usize;
        if target >= n {
            break;
        }
        let mut sc: u32 = 0;
        while sc < cell.col_span
            invariant
                n == occupied@.len(),
                r < target < n,
                target == r + sr,
                sc <= cell.col_span,
                o0.len() == n,
                col + cell.col_span <= u32::MAX,
                span == Set::new(|x: u32| col <= x < col + cell.col_span),
                occ_view(occupied@) =~~= Seq::new(n as nat, |t: int|
                    if r < t < r + sr { o0[t].union(span) }
                    else if t == target { o0[t].union(Set::new(|x: u32| col <= x < col + sc)) }
                    else { o0[t] }),
            decreases cell.col_span - sc,
        {
            let ghost before = occ_view(occupied@);
            occupied[target].insert(col + sc);
            sc = sc + 1;
            proof {
                assert(occ_view(occupied@) =~~= before.update(target as int, before[target as int].insert((col + sc - 1) as u32)));
                assert(before[target as int].insert((col + sc - 1) as u32) =~= o0[target as int].union(Set::new(|x: u32| col <= x < col + sc)));
            }
        }
        proof {
            assert(Set::new(|x: u32| col <= x < col + sc) =~= span);
        }
        sr = sr + 1;
    }
    proof {
        let m = mark_below(o0, r as int, col as int, cell);
        let span2 = Set::new(|x: u32| (col as int) <= x < (col as int) + cell.col_span);
        assert(span =~= span2);
        assert forall|t: int| 0 <= t < n implies #[trigger] occ_view(occupied@)[t] == m[t] by {
            if r < t < r + cell.row_span {
                assert(t < r + sr);
                assert(m[t] == o0[t].union(span2));
                assert(occ_view(occupied@)[t] =~= o0[t].union(span));
            } else {
                assert(m[t] == o0[t]);
                assert(occ_view(occupied@)[t] =~= o0[t]);
            }
        }
        assert(occ_view(occupied@) =~= m);
    }
}

fn push_cell_reps(reps: &mut Vec<(usize, usize, u64)>, t: &[u8], cell: CellGeom, r: usize, col: u32,
    row_addr: &[u8], col_addr: &[u8])
    requires
        cell.start <= cell.end <= t@.len(),
        row_addr@ == attr_row_addr(),
        col_addr@ == attr_col_addr(),
    ensures
        reps_view(final(reps)@) == reps_view(old(reps)@) + cell_reps(t@, cell, r as int, col),
        forall|k: int| 0 <= k < old(reps)@.len() ==> #[trigger] final(reps)@[k] == old(reps)@[k],
        forall|k: int| old(reps)@.len() <= k < final(reps)@.len() ==> #[trigger] final(reps)@[k].0 <= final(reps)@[k].1 <= t@.len(),
{
    let ghost r0 = reps@;
    match find_attr_value_span(t, cell.start, cell.end, row_addr) {
        Some((a, b)) => {
            reps.push((a, b, (r as u32) as u64));
        },
        None => {},
    }
    let ghost r1 = reps@;
    match find_attr_value_span(t, cell.start, cell.end, col_addr) {
        Some((a, b)) => {
            reps.push((a, b, col as u64));
        },
        None => {},
    }
    proof {
        assert(reps_view(reps@) =~= reps_view(r0) + cell_reps(t@, cell, r as int, col));
    }
}

/// The `rowAddr`/`colAddr` replacements of all cells of the table `t`.
fn layout_table(t: &[u8], rows: &Vec<Vec<CellGeom>>) -> (out: Vec<(usize, usize, u64)>)
    requires
        cells_within(rows_view(rows@), t@.len() as int),
        layout_reps(t@, rows_view(rows@), 0, 0, 0, no_taken(rows@.len() as int)) is Some,
    ensures
        layout_reps(t@, rows_view(rows@), 0, 0, 0, no_taken(rows@.len() as int)) == Some(reps_view(out@)),
        forall|k: int| 0 <= k < out@.len() ==> (#[trigger] out@[k]).0 <= out@[k].1,
        forall|k: int| 0 <= k < out@.len() ==> (#[trigger] out@[k]).1 <= t@.len(),
{
    broadcast use vstd::std_specs::hash::group_hash_axioms;
    let nrows = rows.len();
    let ghost rv = rows_view(rows@);
    let ghost full = layout_reps(t@, rv, 0, 0, 0, no_taken(nrows as int));
    let mut occupied: Vec<HashSet<u32>> = Vec::new();
    let mut j: usize = 0;
    while j < nrows
        invariant
            j <= nrows,
            occ_view(occupied@) =~~= no_taken(j as int),
        decreases nrows - j,
    {
        let ghost before = occ_view(occupied@);
        occupied.push(HashSet::new());
        j = j + 1;
        assert(occ_view(occupied@) =~~= before.push(Set::<u32>::empty()));
    }
    let row_addr = attr_row_addr_bytes();
    let col_addr = attr_col_addr_bytes();
    let mut reps: Vec<(usize, usize, u64)> = Vec::new();
    let mut r: usize = 0;
    assert(reps_view(reps@) =~= Seq::<(int, int, nat)>::empty());
    while r < nrows
        invariant
            nrows == rows@.len(),
            rv == rows_view(rows@),
            r <= nrows,
            occupied@.len() == nrows,
            row_addr@ == attr_row_addr(),
            col_addr@ == attr_col_addr(),
            cells_within(rv, t@.len() as int),
            full == layout_reps(t@, rv, 0, 0, 0, no_taken(nrows as int)),
            full is Some,
            full == match layout_reps(t@, rv, r as int, 0, 0, occ_view(occupied@)) {
                Some(rest) => Some(reps_view(reps@) + rest),
                None => None,
            },
            forall|k: int| 0 <= k < reps@.len() ==> #[trigger] reps@[k].0 <= reps@[k].1 <= t@.len(),
        decreases nrows - r,
    {
        let row = &rows[r];
        let ncells = row.len();
        assert(rv[r as int] == row@);
        let mut col: u32 = 0;
        let mut i: usize = 0;
        while i < ncells
            invariant
                nrows == rows@.len(),
                rv == rows_view(rows@),
                r < nrows,
                ncells == row@.len(),
                rv[r as int] == row@,
                i <= ncells,
                occupied@.len() == nrows,
                row_addr@ == attr_row_addr(),
                col_addr@ == attr_col_addr(),
                cells_within(rv, t@.len() as int),
                full is Some,
                full == match layout_reps(t@, rv, r as int, i as int, col as int, occ_view(occupied@)) {
                    Some(rest) => Some(reps_view(reps@) + rest),
                    None => None,
                },
                forall|k: int| 0 <= k < reps@.len() ==> #[trigger] reps@[k].0 <= reps@[k].1 <= t@.len(),
            decreases ncells - i,
        {
            let cell = row[i];
            assert(rv[r as int][i as int] == cell);
            let ghost o = occ_view(occupied@);
            assert(o[r as int] == occupied@[r as int]@);
            let c = first_free(&occupied[r], col);
            let ghost before = reps@;
            push_cell_reps(&mut reps, t, cell, r, c, row_addr.as_slice(), col_addr.as_slice());
            mark_rows_below(&mut occupied, r, c, cell);
            proof {
                let nxt = layout_reps(t@, rv, r as int, i + 1, c + cell.col_span, mark_below(o, r as int, c as int, cell));
                assert(occ_view(occupied@) == mark_below(o, r as int, c as int, cell));
                match nxt {
                    Some(rest) => {
                        assert(reps_view(before) + (cell_reps(t@, cell, r as int, c) + rest)
                            =~= reps_view(reps@) + rest);
                    },
                    None => {},
                }
            }
            col = c + cell.col_span;
            i = i + 1;
        }
        r = r + 1;
    }
    assert(reps_view(reps@) + seq![] =~= reps_view(reps@));
    let out = reps;
    assert(forall|k: int| 0 <= k < out@.len() ==> (#[trigger] out@[k]).0 <= out@[k].1);
    assert(forall|k: int| 0 <= k < out@.len() ==> (#[trigger] out@[k]).1 <= t@.len());
    out
}

// ───────────────────────────── Applying the replacements ─────────────────────────────

/// `sorted` with `x` inserted after every element whose start is `>=` that of `x`.
pub open spec fn insert_desc(sorted: Seq<(int, int, nat)>, x: (int, int, nat)) -> Seq<(int, int, nat)>
    decreases sorted.len(),
{
    if sorted.len() == 0 {
        seq![x]
    } else if sorted.last().0 >= x.0 {
        sorted.push(x)
    } else {
        insert_desc(sorted.drop_last(), x).push(sorted.last())
    }
}

/// `reps` stably sorted by descending start (the order in which
/// `sort_by(|a, b| b.0.cmp(&a.0))` leaves them).
pub open spec fn sort_desc(reps: Seq<(int, int, nat)>) -> Seq<(int, int, nat)>
    decreases reps.len(),
{
    if reps.len() == 0 {
        seq![]
    } else {
        insert_desc(sort_desc(reps.drop_last()), reps.last())
    }
}

/// `s` after each replacement in turn (`String::replace_range` of the value span
/// with the decimal number); `None` when a span is out of bounds or cuts a character.
pub open spec fn apply_reps(s: Seq<u8>, reps: Seq<(int, int, nat)>) -> Option<Seq<u8>>
    decreases reps.len(),
{
    if reps.len() == 0 {
        Some(s)
    } else {
        let a = reps[0].0;
        let b = reps[0].1;
        if 0 <= a <= b <= s.len() && cut_ok(s, a) && cut_ok(s, b) {
            apply_reps(s.subrange(0, a) + decimal(reps[0].2) + s.subrange(b, s.len() as int), reps.drop_first())
        } else {
            None
        }
    }
}

proof fn lemma_insert_desc_at(sorted: Seq<(int, int, nat)>, x: (int, int, nat), p: int)
    requires
        0 <= p <= sorted.len(),
        forall|k: int| p <= k < sorted.len() ==> (#[trigger] sorted[k]).0 < x.0,
        p == 0 || sorted[p - 1].0 >= x.0,
    ensures
        insert_desc(sorted, x) == sorted.subrange(0, p) + seq![x] + sorted.subrange(p, sorted.len() as int),
    decreases sorted.len(),
{
    if sorted.len() == 0 {
        assert(sorted.subrange(0, p) + seq![x] + sorted.subrange(p, sorted.len() as int) =~= seq![x]);
    } else if p == sorted.len() {
        assert(sorted.subrange(0, p) + seq![x] + sorted.subrange(p, sorted.len() as int) =~= sorted.push(x));
    } else {
        let d = sorted.drop_last();
        assert(sorted.last() == sorted[sorted.len() - 1]);
        lemma_insert_desc_at(d, x, p);
        assert(d.subrange(0, p) + seq![x] + d.subrange(p, d.len() as int) + seq![sorted.last()]
            =~= sorted.subrange(0, p) + seq![x] + sorted.subrange(p, sorted.len() as int));
    }
}

fn sort_by_start_desc(reps: &Vec<(usize, usize, u64)>) -> (out: Vec<(usize, usize, u64)>)
    ensures
        reps_view(out@) == sort_desc(reps_view(reps@)),
        forall|k: int| 0 <= k < out@.len() ==> reps@.contains(#[trigger] out@[k]),
{
    let ghost rv = reps_view(reps@);
    let mut out: Vec<(usize, usize, u64)> = Vec::new();
    let mut i: usize = 0;
    assert(rv.subrange(0, 0) =~= Seq::<(int, int, nat)>::empty());
    while i < reps.len()
        invariant
            i <= reps@.len(),
            rv == reps_view(reps@),
            reps_view(out@) == sort_desc(rv.subrange(0, i as int)),
            forall|k: int| 0 <= k < out@.len() ==> reps@.contains(#[trigger] out@[k]),
        decreases reps@.len() - i,
    {
        let x = reps[i];
        let mut p = out.len();
        while p > 0 && out[p - 1].0 < x.0
            invariant
                p <= out@.len(),
                forall|k: int| p <= k < out@.len() ==> (#[trigger] out@[k]).0 < x.0,
            decreases p,
        {
            p = p - 1;
        }
        let ghost before = out@;
        proof {
            let ov = reps_view(before);
            let xv = (x.0 as int, x.1 as int, x.2 as nat);
            assert forall|k: int| p <= k < ov.len() implies (#[trigger] ov[k]).0 < xv.0 by {
                assert(ov[k].0 == before[k].0);
            }
            lemma_insert_desc_at(ov, xv, p as int);
            assert(rv.subrange(0, i + 1).drop_last() =~= rv.subrange(0, i as int));
            assert(rv.subrange(0, i + 1).last() == xv);
        }
        out.insert(p, x);
        proof {
            let xv = (x.0 as int, x.1 as int, x.2 as nat);
            let ov = reps_view(before);
            assert(reps_view(out@) =~= ov.subrange(0, p as int) + seq![xv] + ov.subrange(p as int, ov.len() as int));
            assert(reps@.contains(x)) by {
                assert(reps@[i as int] == x);
            }
            assert forall|k: int| 0 <= k < out@.len() implies reps@.contains(#[trigger] out@[k]) by {
                if k < p {
                    assert(out@[k] == before[k]);
                } else if k > p {
                    assert(out@[k] == before[k - 1]);
                }
            }
        }
        i = i + 1;
    }
    assert(rv.subrange(0, reps@.len() as int) =~= rv);
    out
}

fn apply_replacements(s: &[u8], reps: &Vec<(usize, usize, u64)>) -> (out: Vec<u8>)
    requires
        apply_reps(s@, reps_view(reps@)) is Some,
    ensures
        apply_reps(s@, reps_view(reps@)) == Some(out@),
{
    let ghost rv = reps_view(reps@);
    let mut cur: Vec<u8> = Vec::new();
    push_all(&mut cur, s);
    let mut k: usize = 0;
    assert(rv.subrange(0, rv.len() as int) =~= rv);
    while k < reps.len()
        invariant
            k <= reps@.len(),
            rv == reps_view(reps@),
            apply_reps(s@, rv) == apply_reps(cur@, rv.subrange(k as int, rv.len() as int)),
            apply_reps(s@, rv) is Some,
        decreases reps@.len() - k,
    {
        let (a, b, v) = reps[k];
        let ghost rest = rv.subrange(k as int, rv.len() as int);
        assert(rest[0] == (a as int, b as int, v as nat));
        assert(rest.drop_first() =~= rv.subrange(k + 1, rv.len() as int));
        let n = cur.len();
        let mut next: Vec<u8> = Vec::new();
        push_range(&mut next, cur.as_slice(), 0, a);
        let d = decimal_u64(v);
        push_all(&mut next, d.as_slice());
        push_range(&mut next, cur.as_slice(), b, n);
        cur = next;
        k = k + 1;
    }
    assert(rv.subrange(k as int, rv.len() as int) =~= Seq::<(int, int, nat)>::empty());
    cur
}

// ───────────────────────────── Recomputing tables ─────────────────────────────

pub enum TableOutcome {
    Done(Seq<u8>),
    Failed(Seq<u8>),
    Panics,
}

/// The new `rowCnt` of the table `t` (whose open tag ends at `oe`), when the tag has one.
pub open spec fn row_cnt_rep(t: Seq<u8>, oe: int, n: nat) -> Seq<(int, int, nat)> {
    match attr_value_span(t, 0, oe + 1, attr_row_cnt()) {
        Some((a, b)) => seq![(a, b, n)],
        None => seq![],
    }
}

pub enum RepsOutcome {
    Out(Seq<u8>),
    Failed(Seq<u8>),
    Panics,
}

/// The table `t` (`<hp:tbl ...>` up to its matching `</hp:tbl>`) with the
/// `rowCnt` of its open tag and the `rowAddr`/`colAddr` of its direct cells
/// recomputed.
#[verifier::opaque]
pub open spec fn spec_table_reps(t: Seq<u8>) -> RepsOutcome {
    match spec_parse_rows(t) {
        RowsOutcome::Panics => RepsOutcome::Panics,
        RowsOutcome::Failed(m) => RepsOutcome::Failed(m),
        RowsOutcome::Rows(rows) => match layout_reps(t, rows, 0, 0, 0, no_taken(rows.len() as int)) {
            None => RepsOutcome::Panics,
            Some(creps) => match find_spec(t, 0, seq![62u8]) {
                None => RepsOutcome::Failed(msg_tbl_open_gt()),
                Some(oe) => match apply_reps(t, sort_desc(creps + row_cnt_rep(t, oe, rows.len()))) {
                    None => RepsOutcome::Panics,
                    Some(out) => RepsOutcome::Out(out),
                },
            },
        },
    }
}

/// One table `t` with its own coordinates recomputed (`spec_table_reps`) and
/// then every table nested between its open tag and its last `</hp:tbl>`.
pub open spec fn spec_one_table(t: Seq<u8>) -> TableOutcome
    decreases lt_count(t), 0int, 0int,
    via one_table_decreases
{
    match spec_table_reps(t) {
        RepsOutcome::Panics => TableOutcome::Panics,
        RepsOutcome::Failed(m) => TableOutcome::Failed(m),
        RepsOutcome::Out(out) => match find_spec(out, 0, seq![62u8]) {
            None => TableOutcome::Done(out),
            Some(oe2) => match rfind_all(out, tbl_close()) {
                None => TableOutcome::Done(out),
                Some(cs) => if oe2 + 1 < cs {
                    match spec_addrs(out.subrange(oe2 + 1, cs), 0) {
                        TableOutcome::Done(inner) => TableOutcome::Done(
                            out.subrange(0, oe2 + 1) + inner + out.subrange(cs, out.len() as int),
                        ),
                        other => other,
                    }
                } else {
                    TableOutcome::Done(out)
                },
            },
        },
    }
}

/// `s[pos..]` with every table recomputed (`spec_one_table`); an opening
/// `<hp:tbl` without its matching `</hp:tbl>` is an error.
pub open spec fn spec_addrs(s: Seq<u8>, pos: int) -> TableOutcome
    decreases lt_count(s), 1int, s.len() - pos,
    via addrs_decreases
{
    if pos < 0 || pos > s.len() {
        TableOutcome::Done(seq![])
    } else {
        match find_spec(s, pos, tbl_open()) {
            None => TableOutcome::Done(s.subrange(pos, s.len() as int)),
            Some(ts) => if !sep_at(s, ts + 7) {
                match spec_addrs(s, ts + 7) {
                    TableOutcome::Done(rest) => TableOutcome::Done(s.subrange(pos, ts + 7) + rest),
                    other => other,
                }
            } else {
                match spec_balanced(s, ts, 0) {
                    Balanced::Panics => TableOutcome::Panics,
                    Balanced::NotFound => TableOutcome::Failed(msg_unbalanced_tbl() + decimal(ts as nat)),
                    Balanced::Found(te) => match spec_one_table(s.subrange(ts, te)) {
                        TableOutcome::Done(t2) => match spec_addrs(s, te) {
                            TableOutcome::Done(rest) => TableOutcome::Done(s.subrange(pos, ts) + t2 + rest),
                            other => other,
                        },
                        other => other,
                    },
                }
            },
        }
    }
}

pub proof fn lemma_balanced_bounds(s: Seq<u8>, pos: int, depth: int)
    requires
        0 <= pos,
    ensures
        spec_balanced(s, pos, depth) matches Balanced::Found(e) ==> pos < e <= s.len()
            && s[e - 1] == 62,
    decreases s.len() - pos,
{
    if pos < s.len() {
        if tbl_tok(s, pos) == 0 {
            lemma_balanced_bounds(s, pos + 7, depth + 1);
        } else if tbl_tok(s, pos) == 1 {
            assert(s.subrange(pos, pos + 9)[8] == s[pos + 8]);
            lemma_balanced_bounds(s, pos + 9, depth - 1);
        } else {
            lemma_next_lt(s, pos);
            lemma_balanced_bounds(s, next_lt(s, pos), depth);
        }
    }
}

proof fn lemma_apply_lt(s: Seq<u8>, reps: Seq<(int, int, nat)>)
    ensures
        apply_reps(s, reps) matches Some(o) ==> lt_count(o) <= lt_count(s),
    decreases reps.len(),
{
    if reps.len() > 0 {
        let a = reps[0].0;
        let b = reps[0].1;
        if 0 <= a <= b <= s.len() && cut_ok(s, a) && cut_ok(s, b) {
            let n = s.subrange(0, a) + decimal(reps[0].2) + s.subrange(b, s.len() as int);
            lemma_apply_lt(n, reps.drop_first());
            lemma_lt_count_concat(s.subrange(0, a), decimal(reps[0].2));
            lemma_lt_count_concat(s.subrange(0, a) + decimal(reps[0].2), s.subrange(b, s.len() as int));
            lemma_lt_count_digits(reps[0].2);
            lemma_lt_count_split(s, a, b);
        }
    }
}

proof fn lemma_inner_lt(out: Seq<u8>, i: int, j: int)
    requires
        0 <= i <= j < out.len(),
        out[j] == 60,
    ensures
        lt_count(out.subrange(i, j)) < lt_count(out),
{
    lemma_lt_count_split(out, i, j);
    lemma_lt_count_at(out, j);
}

proof fn lemma_table_reps_lt(t: Seq<u8>)
    ensures
        spec_table_reps(t) matches RepsOutcome::Out(out) ==> lt_count(out) <= lt_count(t),
{
    reveal(spec_table_reps);
    if let RowsOutcome::Rows(rows) = spec_parse_rows(t) {
        if let Some(creps) = layout_reps(t, rows, 0, 0, 0, no_taken(rows.len() as int)) {
            if let Some(oe) = find_spec(t, 0, seq![62u8]) {
                lemma_apply_lt(t, sort_desc(creps + row_cnt_rep(t, oe, rows.len())));
            }
        }
    }
}

proof fn lemma_table_reps_valid(t: Seq<u8>)
    requires
        valid_utf8(t),
    ensures
        spec_table_reps(t) matches RepsOutcome::Out(out) ==> valid_utf8(out),
{
    reveal(spec_table_reps);
    if let RowsOutcome::Rows(rows) = spec_parse_rows(t) {
        if let Some(creps) = layout_reps(t, rows, 0, 0, 0, no_taken(rows.len() as int)) {
            if let Some(oe) = find_spec(t, 0, seq![62u8]) {
                lemma_apply_valid(t, sort_desc(creps + row_cnt_rep(t, oe, rows.len())));
            }
        }
    }
}

#[via_fn]
proof fn one_table_decreases(t: Seq<u8>) {
    lemma_table_reps_lt(t);
    if let RepsOutcome::Out(out) = spec_table_reps(t) {
        lemma_find_spec_bounds(out, 0, seq![62u8]);
        lemma_rfind_spec_bounds(out, out.len() - 9, tbl_close());
        if let Some(oe2) = find_spec(out, 0, seq![62u8]) {
            if let Some(cs) = rfind_all(out, tbl_close()) {
                if oe2 + 1 < cs {
                    assert(out.subrange(cs, cs + 9)[0] == out[cs]);
                    lemma_inner_lt(out, oe2 + 1, cs);
                }
            }
        }
    }
}

#[via_fn]
proof fn addrs_decreases(s: Seq<u8>, pos: int) {
    if 0 <= pos <= s.len() {
        lemma_find_spec_bounds(s, pos, tbl_open());
        if let Some(ts) = find_spec(s, pos, tbl_open()) {
            lemma_balanced_bounds(s, ts, 0);
            if let Balanced::Found(te) = spec_balanced(s, ts, 0) {
                lemma_lt_count_split(s, ts, te);
            }
        }
    }
}

proof fn lemma_apply_valid(s: Seq<u8>, reps: Seq<(int, int, nat)>)
    requires
        valid_utf8(s),
    ensures
        apply_reps(s, reps) matches Some(o) ==> valid_utf8(o),
    decreases reps.len(),
{
    if reps.len() > 0 {
        let a = reps[0].0;
        let b = reps[0].1;
        if 0 <= a <= b <= s.len() && cut_ok(s, a) && cut_ok(s, b) {
            let d = decimal(reps[0].2);
            lemma_decimal_props(reps[0].2);
            lemma_ascii_valid(d);
            lemma_subrange_valid(s, 0, a);
            lemma_subrange_valid(s, b, s.len() as int);
            lemma_concat_valid(s.subrange(0, a), d);
            lemma_concat_valid(s.subrange(0, a) + d, s.subrange(b, s.len() as int));
            lemma_apply_valid(s.subrange(0, a) + d + s.subrange(b, s.len() as int), reps.drop_first());
        }
    }
}

/// The table `t` with its own `rowCnt`, `rowAddr` and `colAddr` values recomputed.
fn table_with_reps(t: &[u8]) -> (r: Result<Vec<u8>, Vec<u8>>)
    requires
        !(spec_table_reps(t@) is Panics),
    ensures
        match spec_table_reps(t@) {
            RepsOutcome::Out(o) => r matches Ok(v) && v@ == o,
            RepsOutcome::Failed(m) => r matches Err(e) && e@ == m,
            RepsOutcome::Panics => false,
        },
        r matches Err(e) ==> all_ascii(e@),
{
    proof {
        reveal(spec_table_reps);
    }
    let rows = match parse_rows(t) {
        Ok(v) => v,
        Err(e) => {
            return Err(e);
        },
    };
    let ghost rv = rows_view(rows@);
    let creps = layout_table(t, &rows);
    let n = t.len();
    let oe = match find_byte(t, 0, 62u8) {
        None => {
            return Err(msg_tbl_open_gt_bytes());
        },
        Some(o) => o,
    };
    proof {
        lemma_find_spec_bounds(t@, 0, seq![62u8]);
    }
    let mut reps = creps;
    let rc = attr_row_cnt_bytes();
    match find_attr_value_span(t, 0, oe + 1, rc.as_slice()) {
        Some((a, b)) => {
            reps.push((a, b, rows.len() as u64));
        },
        None => {},
    }
    proof {
        assert(reps_view(reps@) =~= reps_view(creps@) + row_cnt_rep(t@, oe as int, rv.len()));
    }
    let sorted = sort_by_start_desc(&reps);
    Ok(apply_replacements(t, &sorted))
}

fn recompute_one_table(t: &[u8]) -> (r: Result<Vec<u8>, Vec<u8>>)
    requires
        !(spec_one_table(t@) is Panics),
    ensures
        match spec_one_table(t@) {
            TableOutcome::Done(o) => r matches Ok(v) && v@ == o,
            TableOutcome::Failed(m) => r matches Err(e) && e@ == m,
            TableOutcome::Panics => false,
        },
        r matches Err(e) ==> all_ascii(e@),
        valid_utf8(t@) ==> (r matches Ok(v) ==> valid_utf8(v@)),
    decreases lt_count(t@), 0int, 0int,
{
    let out = match table_with_reps(t) {
        Ok(v) => v,
        Err(e) => {
            return Err(e);
        },
    };
    proof {
        lemma_table_reps_lt(t@);
        if valid_utf8(t@) {
            lemma_table_reps_valid(t@);
        }
    }
    let m = out.len();
    let o2 = match find_byte(out.as_slice(), 0, 62u8) {
        None => {
            return Ok(out);
        },
        Some(o) => o,
    };
    let close = tbl_close_bytes();
    let cs = match rfind(out.as_slice(), close.as_slice()) {
        None => {
            return Ok(out);
        },
        Some(c) => c,
    };
    proof {
        lemma_find_spec_bounds(out@, 0, seq![62u8]);
        lemma_rfind_spec_bounds(out@, out@.len() - 9, tbl_close());
    }
    if o2 + 1 >= cs {
        return Ok(out);
    }
    proof {
        assert(out@.subrange(cs as int, cs + 9)[0] == out@[cs as int]);
        lemma_inner_lt(out@, o2 + 1, cs as int);
    }
    let inner = &out.as_slice()[o2 + 1..cs];
    let ir = match recompute_addrs(inner) {
        Ok(v) => v,
        Err(e) => {
            return Err(e);
        },
    };
    let mut fin: Vec<u8> = Vec::new();
    push_range(&mut fin, out.as_slice(), 0, o2 + 1);
    push_all(&mut fin, ir.as_slice());
    push_range(&mut fin, out.as_slice(), cs, m);
    proof {
        if valid_utf8(t@) {
            assert(out@.subrange(o2 as int, o2 + 1)[0] == out@[o2 as int]);
            lemma_after_ascii(out@, o2 as int);
            lemma_ascii_cut(out@, cs as int);
            lemma_subrange_valid(out@, o2 + 1, cs as int);
            lemma_subrange_valid(out@, 0, o2 + 1);
            lemma_subrange_valid(out@, cs as int, m as int);
            lemma_concat_valid(out@.subrange(0, o2 + 1), ir@);
            lemma_concat_valid(out@.subrange(0, o2 + 1) + ir@, out@.subrange(cs as int, m as int));
        }
    }
    Ok(fin)
}

fn recompute_addrs(s: &[u8]) -> (r: Result<Vec<u8>, Vec<u8>>)
    requires
        !(spec_addrs(s@, 0) is Panics),
    ensures
        match spec_addrs(s@, 0) {
            TableOutcome::Done(o) => r matches Ok(v) && v@ == o,
            TableOutcome::Failed(m) => r matches Err(e) && e@ == m,
            TableOutcome::Panics => false,
        },
        r matches Err(e) ==> all_ascii(e@),
        valid_utf8(s@) ==> (r matches Ok(v) ==> valid_utf8(v@)),
    decreases lt_count(s@), 1int, 0int,
{
    let n = s.len();
    let open = tbl_open_bytes();
    let close = tbl_close_bytes();
    let mut out: Vec<u8> = Vec::new();
    let mut pos: usize = 0;
    proof {
        if valid_utf8(s@) {
            lemma_ascii_valid(out@);
        }
    }
    loop
        invariant
            n == s@.len(),
            pos <= n,
            open@ == tbl_open(),
            close@ == tbl_close(),
            spec_addrs(s@, 0) == match spec_addrs(s@, pos as int) {
                TableOutcome::Done(rest) => TableOutcome::Done(out@ + rest),
                other => other,
            },
            !(spec_addrs(s@, 0) is Panics),
            valid_utf8(s@) ==> valid_utf8(out@) && cut_ok(s@, pos as int),
        decreases n - pos,
    {
        let ghost before = out@;
        let ts = match find_from(s, pos, open.as_slice()) {
            None => {
                push_range(&mut out, s, pos, n);
                proof {
                    if valid_utf8(s@) {
                        lemma_subrange_valid(s@, pos as int, n as int);
                        lemma_concat_valid(before, s@.subrange(pos as int, n as int));
                    }
                }
                return Ok(out);
            },
            Some(x) => x,
        };
        proof {
            lemma_find_spec_bounds(s@, pos as int, tbl_open());
            assert(s@.subrange(ts as int, ts + 7)[0] == s@[ts as int]);
            assert(s@.subrange(ts as int, ts + 7)[6] == s@[ts + 6]);
        }
        if !sep_after(s, ts + 7) {
            push_range(&mut out, s, pos, ts + 7);
            proof {
                match spec_addrs(s@, ts + 7) {
                    TableOutcome::Done(rest) => {
                        assert(before + (s@.subrange(pos as int, ts + 7) + rest) =~= out@ + rest);
                    },
                    _ => {},
                }
                if valid_utf8(s@) {
                    lemma_after_ascii(s@, ts + 6);
                    lemma_subrange_valid(s@, pos as int, ts + 7);
                    lemma_concat_valid(before, s@.subrange(pos as int, ts + 7));
                }
            }
            pos = ts + 7;
            continue;
        }
        let te = match find_balanced_close(s, ts, open.as_slice(), close.as_slice()) {
            None => {
                let mut m = msg_unbalanced_tbl_bytes();
                let d = decimal_u64(ts as u64);
                push_all(&mut m, d.as_slice());
                proof {
                    lemma_decimal_props(ts as nat);
                    lemma_concat_ascii(msg_unbalanced_tbl(), d@);
                }
                return Err(m);
            },
            Some(e) => e,
        };
        proof {
            lemma_balanced_bounds(s@, ts as int, 0);
            lemma_lt_count_split(s@, ts as int, te as int);
        }
        let sub = &s[ts..te];
        let t2 = match recompute_one_table(sub) {
            Ok(v) => v,
            Err(e) => {
                return Err(e);
            },
        };
        proof {
            if valid_utf8(s@) {
                lemma_ascii_cut(s@, ts as int);
                lemma_after_ascii(s@, te - 1);
                lemma_subrange_valid(s@, ts as int, te as int);
                lemma_subrange_valid(s@, pos as int, ts as int);
            }
        }
        push_range(&mut out, s, pos, ts);
        push_all(&mut out, t2.as_slice());
        proof {
            match spec_addrs(s@, te as int) {
                TableOutcome::Done(rest) => {
                    assert(before + (s@.subrange(pos as int, ts as int) + t2@ + rest) =~= out@ + rest);
                },
                _ => {},
            }
            if valid_utf8(s@) {
                lemma_concat_valid(before, s@.subrange(pos as int, ts as int));
                lemma_concat_valid(before + s@.subrange(pos as int, ts as int), t2@);
            }
        }
        pos = te;
    }
}

/// Recomputes `rowCnt`/`rowAddr`/`colAddr` of every `<hp:tbl>` in
/// `fragment_xml` from the grid that the `colSpan`/`rowSpan` of its cells
/// give, byte-preservingly (only the digits inside those attribute values
/// change); nested tables are recomputed too.
pub fn recompute_table_addrs(fragment_xml: &str) -> (r: Result<String, FragmentPasteError>)
    requires
        !(spec_addrs(utf8_of(fragment_xml@), 0) is Panics),
    ensures
        match spec_addrs(utf8_of(fragment_xml@), 0) {
            TableOutcome::Done(o) => r matches Ok(x) && utf8_of(x@) == o,
            TableOutcome::Failed(m) => r matches Err(e) && error_is(e, PasteErr::MalformedFragment(m)),
            TableOutcome::Panics => false,
        },
{
    let b = bytes_of(fragment_xml);
    match recompute_addrs(b) {
        Ok(v) => Ok(string_of_valid(v)),
        Err(m) => Err(malformed_fragment(m)),
    }
}

/// Pasting `fragment` after the top-level paragraph `idx` of `section`: a
/// fragment with a `<hp:tbl` gets its table coordinates recomputed first.
pub open spec fn fragment_paste_outcome(
    section: Seq<char>,
    header: Seq<char>,
    idx: int,
    fragment: Seq<char>,
    source: SourceDefinitions,
) -> PasteOutcome {
    if !contains_from(utf8_of(fragment), 0, tbl_open()) {
        paste_outcome(section, header, idx, fragment, source)
    } else {
        match spec_addrs(utf8_of(fragment), 0) {
            TableOutcome::Panics => PasteOutcome::Panics,
            TableOutcome::Failed(m) => PasteOutcome::Failed(utf8_of(header), PasteErr::MalformedFragment(m)),
            TableOutcome::Done(o) => paste_outcome_bytes(utf8_of(section), header, idx, o, source),
        }
    }
}

/// Table-aware paste: a fragment that holds a `<hp:tbl` has its table
/// coordinates recomputed (`recompute_table_addrs`) before it is pasted with
/// `paste_paragraphs_into_section`; any other fragment is pasted as it is.
pub fn paste_fragment_into_section(
    section_xml: &str,
    header_xml: &mut String,
    after_para_idx: usize,
    fragment_xml: &str,
    source: &SourceDefinitions,
) -> (r: Result<ParagraphPasteResult, FragmentPasteError>)
    requires
        !(fragment_paste_outcome(section_xml@, old(header_xml)@, after_para_idx as int, fragment_xml@, *source) is Panics),
    ensures
        match fragment_paste_outcome(section_xml@, old(header_xml)@, after_para_idx as int, fragment_xml@, *source) {
            PasteOutcome::Done(h, rv, n, ns) => r matches Ok(p) && p.id_remap@ == rv && p.inserted_para_count == n
                && utf8_of(p.new_section_xml@) == ns && utf8_of(final(header_xml)@) == h,
            PasteOutcome::Failed(h, e) => r matches Err(x) && error_is(x, e) && utf8_of(final(header_xml)@) == h,
            PasteOutcome::Panics => false,
        },
{
    let fb = bytes_of(fragment_xml);
    let open = tbl_open_bytes();
    let has_table = match find_from(fb, 0, open.as_slice()) {
        Some(_) => true,
        None => false,
    };
    if !has_table {
        return paste_paragraphs_into_section(section_xml, header_xml, after_para_idx, fragment_xml, source);
    }
    let recomputed = match recompute_table_addrs(fragment_xml) {
        Ok(x) => x,
        Err(e) => {
            return Err(e);
        },
    };
    paste_paragraphs_into_section(section_xml, header_xml, after_para_idx, recomputed.as_str(), source)
}

/// A fragment without `<hp:tbl` comes out of the table recomputation unchanged.
pub proof fn lemma_no_table_unchanged(s: Seq<u8>)
    requires
        !contains_from(s, 0, tbl_open()),
    ensures
        spec_addrs(s, 0) == TableOutcome::Done(s),
{
    assert(s.subrange(0, s.len() as int) =~= s);
}

/// A fragment without `<hp:tbl` is pasted exactly as `paste_paragraphs_into_section` pastes it.
pub proof fn lemma_fragment_paste_without_table(
    section: Seq<char>,
    header: Seq<char>,
    idx: int,
    fragment: Seq<char>,
    source: SourceDefinitions,
)
    requires
        !contains_from(utf8_of(fragment), 0, tbl_open()),
    ensures
        fragment_paste_outcome(section, header, idx, fragment, source) == paste_outcome(section, header, idx, fragment, source),
{
}

} // verus!
