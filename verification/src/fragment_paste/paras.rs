//! Top-level paragraphs of a section and the paragraph paste.
//!
//! A paragraph is top-level when it is not inside another `<hp:p>` or a
//! `<hp:subList>` (table cells, text boxes). CDATA sections and comments are
//! skipped.

use vstd::prelude::*;
use vstd::utf8::{valid_utf8, is_continuation_byte};
use crate::scan::{matches_at, find_spec, find_from, find_byte, push_range, push_all, lemma_find_spec_bounds};
use crate::text::{
    utf8_of, cut_ok, all_ascii, lemma_subrange_valid, lemma_ascii_valid, lemma_after_ascii,
    lemma_concat_valid, lemma_concat_ascii, string_of_valid, string_of_ascii, bytes_of,
};
use crate::decimal::{decimal, decimal_u64, lemma_decimal_props};
use super::lits::{
    p_empty, p_open, p_close, p_bare, sublist_open, sublist_close, cdata_open, cdata_close,
    comment_open, comment_close, p_empty_bytes, p_open_bytes, p_close_bytes, p_bare_bytes,
    sublist_open_bytes, sublist_close_bytes, cdata_open_bytes, cdata_close_bytes,
    comment_open_bytes, comment_close_bytes, msg_no_p, msg_unclosed_tail, msg_no_p_found,
    msg_idx_a, msg_idx_b, msg_idx_c, msg_unbalanced_p, msg_unbalanced_sublist, msg_depth,
    msg_no_p_bytes, msg_unclosed_tail_bytes, msg_no_p_found_bytes, msg_idx_a_bytes,
    msg_idx_b_bytes, msg_idx_c_bytes, msg_unbalanced_p_bytes, msg_unbalanced_sublist_bytes,
    msg_depth_bytes,
};
use super::types::{
    SourceDefinitions, IdRemap, RemapView, FragmentPasteError, PasteErr, error_is,
    ParagraphPasteResult,
};
use super::defs::{build_id_remap, build_outcome, BuildOutcome};
use super::refs::{rewrite_id_refs, spec_rewrite_id_refs};

verus! {

/// What the paragraph scanner meets at a position.
pub enum PTok {
    /// `<![CDATA[` or `<!--`: resume after the matching `]]>`/`-->` (or at the end).
    Skip(int),
    /// `<hp:p/>`
    Empty,
    /// `<hp:p ` (an opening tag with attributes)
    Open,
    /// `</hp:p>`
    Close,
    /// `<hp:subList`
    SubOpen,
    /// `</hp:subList>`
    SubClose,
    /// anything else: resume at the next `<` after this byte (or at the end)
    Jump(int),
}

pub open spec fn p_tok(s: Seq<u8>, pos: int) -> PTok {
    if matches_at(s, pos, cdata_open()) {
        PTok::Skip(
            match find_spec(s, pos, cdata_close()) {
                Some(r) => r + 3,
                None => s.len() as int,
            },
        )
    } else if matches_at(s, pos, comment_open()) {
        PTok::Skip(
            match find_spec(s, pos, comment_close()) {
                Some(r) => r + 3,
                None => s.len() as int,
            },
        )
    } else if matches_at(s, pos, p_empty()) {
        PTok::Empty
    } else if matches_at(s, pos, p_open()) {
        PTok::Open
    } else if matches_at(s, pos, p_close()) {
        PTok::Close
    } else if matches_at(s, pos, sublist_open()) {
        PTok::SubOpen
    } else if matches_at(s, pos, sublist_close()) {
        PTok::SubClose
    } else {
        PTok::Jump(
            match find_spec(s, pos + 1, seq![60u8]) {
                Some(r) => r,
                None => s.len() as int,
            },
        )
    }
}

/// Where the scanner goes after the token at `pos`.
pub open spec fn p_next(s: Seq<u8>, pos: int) -> int {
    match p_tok(s, pos) {
        PTok::Skip(n) => n,
        PTok::Empty => pos + 7,
        PTok::Open => pos + 6,
        PTok::Close => pos + 7,
        PTok::SubOpen => pos + 11,
        PTok::SubClose => pos + 13,
        PTok::Jump(n) => n,
    }
}

/// Jumping over the byte at `pos` slices the text at `pos + 1`, which must be
/// a character boundary (otherwise the scan panics).
pub open spec fn jump_ok(s: Seq<u8>, pos: int) -> bool {
    pos + 1 >= s.len() || !is_continuation_byte(s[pos + 1])
}

pub proof fn lemma_p_next(s: Seq<u8>, pos: int)
    requires
        0 <= pos < s.len(),
    ensures
        pos < p_next(s, pos) <= s.len(),
        p_tok(s, pos) is Empty ==> s[pos + 6] == 62,
        p_tok(s, pos) is Close ==> s[pos + 6] == 62,
        p_tok(s, pos) is Open ==> s[pos + 5] == 32,
        p_tok(s, pos) is SubOpen ==> s[pos + 10] == 116,
        p_tok(s, pos) is SubClose ==> s[pos + 12] == 62,
        p_tok(s, pos) matches PTok::Skip(n) ==> n == s.len() || s[n - 1] == 62,
        p_tok(s, pos) matches PTok::Jump(n) ==> n == s.len() || s[n] == 60,
{
    if matches_at(s, pos, cdata_open()) {
        lemma_find_spec_bounds(s, pos, cdata_close());
        if let Some(r) = find_spec(s, pos, cdata_close()) {
            assert(s.subrange(r, r + 3)[2] == s[r + 2]);
        }
    } else if matches_at(s, pos, comment_open()) {
        lemma_find_spec_bounds(s, pos, comment_close());
        if let Some(r) = find_spec(s, pos, comment_close()) {
            assert(s.subrange(r, r + 3)[2] == s[r + 2]);
        }
    } else if matches_at(s, pos, p_empty()) {
        assert(s.subrange(pos, pos + 7)[6] == s[pos + 6]);
    } else if matches_at(s, pos, p_open()) {
        assert(s.subrange(pos, pos + 6)[5] == s[pos + 5]);
    } else if matches_at(s, pos, p_close()) {
        assert(s.subrange(pos, pos + 7)[6] == s[pos + 6]);
    } else if matches_at(s, pos, sublist_open()) {
        assert(s.subrange(pos, pos + 11)[10] == s[pos + 10]);
    } else if matches_at(s, pos, sublist_close()) {
        assert(s.subrange(pos, pos + 13)[12] == s[pos + 12]);
    } else {
        lemma_find_spec_bounds(s, pos + 1, seq![60u8]);
        if let Some(r) = find_spec(s, pos + 1, seq![60u8]) {
            assert(s.subrange(r, r + 1)[0] == s[r]);
        }
    }
}

// ───────────────────────────── Top-level paragraph spans ─────────────────────────────

/// The (start, end) byte spans of the top-level paragraphs of `s[pos..]`, given
/// the nesting depth and the start of the paragraph being read; `None` when the
/// scan panics (a jump into the middle of a character, or a depth outside `i32`).
pub open spec fn spec_p_spans(s: Seq<u8>, pos: int, depth: int, cur: Option<int>) -> Option<Seq<(int, int)>>
    decreases s.len() - pos,
    via p_spans_decreases
{
    if pos < 0 || pos >= s.len() {
        Some(seq![])
    } else {
        let n = p_next(s, pos);
        match p_tok(s, pos) {
            PTok::Skip(_) => spec_p_spans(s, n, depth, cur),
            PTok::Empty => if depth == 0 {
                match spec_p_spans(s, n, depth, cur) {
                    Some(rest) => Some(seq![(pos, pos + 7)] + rest),
                    None => None,
                }
            } else {
                spec_p_spans(s, n, depth, cur)
            },
            PTok::Open => if depth + 1 > i32::MAX {
                None
            } else {
                spec_p_spans(s, n, depth + 1, if depth == 0 && cur is None { Some(pos) } else { cur })
            },
            PTok::Close => if depth - 1 < i32::MIN {
                None
            } else if depth - 1 == 0 && cur is Some {
                match spec_p_spans(s, n, 0, None) {
                    Some(rest) => Some(seq![(cur->0, pos + 7)] + rest),
                    None => None,
                }
            } else {
                spec_p_spans(s, n, depth - 1, if depth - 1 == 0 { None } else { cur })
            },
            PTok::SubOpen => if depth + 1 > i32::MAX {
                None
            } else {
                spec_p_spans(s, n, depth + 1, cur)
            },
            PTok::SubClose => if depth - 1 < i32::MIN {
                None
            } else {
                spec_p_spans(s, n, depth - 1, cur)
            },
            PTok::Jump(_) => if !jump_ok(s, pos) {
                None
            } else {
                spec_p_spans(s, n, depth, cur)
            },
        }
    }
}

#[via_fn]
proof fn p_spans_decreases(s: Seq<u8>, pos: int, depth: int, cur: Option<int>) {
    if 0 <= pos < s.len() {
        lemma_p_next(s, pos);
    }
}

/// The top-level paragraph spans of `s` (`None` when the scan panics).
pub open spec fn top_level_p_spans(s: Seq<u8>) -> Option<Seq<(int, int)>> {
    spec_p_spans(s, 0, 0, None)
}

pub open spec fn spans_view(v: Seq<(usize, usize)>) -> Seq<(int, int)> {
    v.map_values(|d: (usize, usize)| (d.0 as int, d.1 as int))
}

pub open spec fn prepend_spans(pre: Seq<(int, int)>, r: Option<Seq<(int, int)>>) -> Option<Seq<(int, int)>> {
    match r {
        Some(rest) => Some(pre + rest),
        None => None,
    }
}

/// Every span ends right after a `>` inside `s`.
pub open spec fn spans_end_after_gt(s: Seq<u8>, v: Seq<(usize, usize)>) -> bool {
    forall|k: int| 0 <= k < v.len() ==> {
        let d = #[trigger] v[k];
        &&& 0 < d.1 <= s.len()
        &&& s[d.1 - 1] == 62
    }
}

/// The token at `pos` as a code: 0 skip, 1 empty, 2 open, 3 close, 4 subList
/// open, 5 subList close, 6 jump; with the next position.
fn p_tok_exec(s: &[u8], pos: usize, pats: &PPats) -> (r: (u8, usize))
    requires
        pos < s@.len(),
        pats.wf(),
    ensures
        r.1 == p_next(s@, pos as int),
        match p_tok(s@, pos as int) {
            PTok::Skip(_) => r.0 == 0,
            PTok::Empty => r.0 == 1,
            PTok::Open => r.0 == 2,
            PTok::Close => r.0 == 3,
            PTok::SubOpen => r.0 == 4,
            PTok::SubClose => r.0 == 5,
            PTok::Jump(_) => r.0 == 6,
        },
{
    let n = s.len();
    if crate::scan::match_at(s, pos, pats.cdata_open.as_slice()) {
        match find_from(s, pos, pats.cdata_close.as_slice()) {
            Some(r) => {
                proof {
                    lemma_find_spec_bounds(s@, pos as int, cdata_close());
                }
                (0, r + 3)
            },
            None => (0, n),
        }
    } else if crate::scan::match_at(s, pos, pats.comment_open.as_slice()) {
        match find_from(s, pos, pats.comment_close.as_slice()) {
            Some(r) => {
                proof {
                    lemma_find_spec_bounds(s@, pos as int, comment_close());
                }
                (0, r + 3)
            },
            None => (0, n),
        }
    } else if crate::scan::match_at(s, pos, pats.p_empty.as_slice()) {
        (1, pos + 7)
    } else if crate::scan::match_at(s, pos, pats.p_open.as_slice()) {
        (2, pos + 6)
    } else if crate::scan::match_at(s, pos, pats.p_close.as_slice()) {
        (3, pos + 7)
    } else if crate::scan::match_at(s, pos, pats.sublist_open.as_slice()) {
        (4, pos + 11)
    } else if crate::scan::match_at(s, pos, pats.sublist_close.as_slice()) {
        (5, pos + 13)
    } else {
        match find_byte(s, pos + 1, 60u8) {
            Some(r) => (6, r),
            None => (6, n),
        }
    }
}

/// The markup patterns of the paragraph scanner.
pub struct PPats {
    pub cdata_open: Vec<u8>,
    pub cdata_close: Vec<u8>,
    pub comment_open: Vec<u8>,
    pub comment_close: Vec<u8>,
    pub p_empty: Vec<u8>,
    pub p_open: Vec<u8>,
    pub p_close: Vec<u8>,
    pub sublist_open: Vec<u8>,
    pub sublist_close: Vec<u8>,
}

impl PPats {
    pub open spec fn wf(&self) -> bool {
        &&& self.cdata_open@ == cdata_open()
        &&& self.cdata_close@ == cdata_close()
        &&& self.comment_open@ == comment_open()
        &&& self.comment_close@ == comment_close()
        &&& self.p_empty@ == p_empty()
        &&& self.p_open@ == p_open()
        &&& self.p_close@ == p_close()
        &&& self.sublist_open@ == sublist_open()
        &&& self.sublist_close@ == sublist_close()
    }

    pub fn new() -> (r: Self)
        ensures
            r.wf(),
    {
        PPats {
            cdata_open: cdata_open_bytes(),
            cdata_close: cdata_close_bytes(),
            comment_open: comment_open_bytes(),
            comment_close: comment_close_bytes(),
            p_empty: p_empty_bytes(),
            p_open: p_open_bytes(),
            p_close: p_close_bytes(),
            sublist_open: sublist_open_bytes(),
            sublist_close: sublist_close_bytes(),
        }
    }
}

/// Exact check of `jump_ok`.
fn jump_ok_exec(s: &[u8], pos: usize) -> (r: bool)
    ensures
        r == jump_ok(s@, pos as int),
{
    if pos >= s.len() || pos + 1 >= s.len() {
        true
    } else {
        let b = s[pos + 1];
        !(0x80 <= b && b <= 0xbf)
    }
}

/// The top-level `<hp:p>` spans of `section_xml` as (start, end) byte offsets;
/// paragraphs inside `<hp:subList>` (table cells) or other paragraphs are not
/// included.
fn top_level_p_spans_of(section_xml: &[u8]) -> (r: Vec<(usize, usize)>)
    requires
        top_level_p_spans(section_xml@) is Some,
    ensures
        top_level_p_spans(section_xml@) == Some(spans_view(r@)),
        spans_end_after_gt(section_xml@, r@),
{
    let s = section_xml;
    let n = s.len();
    let pats = PPats::new();
    let mut spans: Vec<(usize, usize)> = Vec::new();
    let mut depth: i64 = 0;
    let mut cur: Option<usize> = None;
    let mut pos: usize = 0;
    assert(spans_view(spans@) =~= Seq::<(int, int)>::empty());
    while pos < n
        invariant
            n == s@.len(),
            pos <= n,
            pats.wf(),
            i32::MIN <= depth <= i32::MAX,
            cur matches Some(c) ==> c < pos && s@[c as int] == 60,
            top_level_p_spans(s@) is Some,
            top_level_p_spans(s@) == prepend_spans(
                spans_view(spans@),
                spec_p_spans(s@, pos as int, depth as int, match cur { Some(c) => Some(c as int), None => None }),
            ),
            spans_end_after_gt(s@, spans@),
        decreases n - pos,
    {
        proof {
            lemma_p_next(s@, pos as int);
        }
        let ghost gcur: Option<int> = match cur { Some(c) => Some(c as int), None => None };
        let ghost before = spans@;
        let (tok, next) = p_tok_exec(s, pos, &pats);
        if tok == 1 {
            if depth == 0 {
                spans.push((pos, pos + 7));
                proof {
                    assert(spans_view(spans@) =~= spans_view(before) + seq![(pos as int, pos + 7)]);
                    if let Some(rest) = spec_p_spans(s@, next as int, depth as int, gcur) {
                        assert(spans_view(before) + (seq![(pos as int, pos + 7)] + rest) =~= spans_view(spans@) + rest);
                    }
                    assert forall|k: int| 0 <= k < spans@.len() implies {
                        let d = #[trigger] spans@[k];
                        &&& 0 < d.1 <= s@.len()
                        &&& s@[d.1 - 1] == 62
                    } by {
                        if k < before.len() {
                            assert(spans@[k] == before[k]);
                        }
                    }
                }
            }
        } else if tok == 2 {
            if depth + 1 > 0x7fff_ffff {
                assert(false);
            }
            if depth == 0 && cur.is_none() {
                proof {
                    assert(s@.subrange(pos as int, pos + 6)[0] == s@[pos as int]);
                }
                cur = Some(pos);
            }
            depth = depth + 1;
        } else if tok == 3 {
            if depth - 1 < -0x8000_0000 {
                assert(false);
            }
            depth = depth - 1;
            if depth == 0 {
                if let Some(c) = cur {
                    spans.push((c, pos + 7));
                    proof {
                        assert(spans_view(spans@) =~= spans_view(before) + seq![(c as int, pos + 7)]);
                        if let Some(rest) = spec_p_spans(s@, next as int, 0, None) {
                            assert(spans_view(before) + (seq![(c as int, pos + 7)] + rest) =~= spans_view(spans@) + rest);
                        }
                        assert forall|k: int| 0 <= k < spans@.len() implies {
                            let d = #[trigger] spans@[k];
                            &&& 0 < d.1 <= s@.len()
                            &&& s@[d.1 - 1] == 62
                        } by {
                            if k < before.len() {
                                assert(spans@[k] == before[k]);
                            }
                        }
                    }
                }
                cur = None;
            }
        } else if tok == 4 {
            if depth + 1 > 0x7fff_ffff {
                assert(false);
            }
            depth = depth + 1;
        } else if tok == 5 {
            if depth - 1 < -0x8000_0000 {
                assert(false);
            }
            depth = depth - 1;
        } else if tok == 6 {
            if !jump_ok_exec(s, pos) {
                assert(false);
            }
        }
        pos = next;
    }
    assert(spans_view(spans@) + seq![] =~= spans_view(spans@));
    spans
}

// ───────────────────────────── Well-formedness checks ─────────────────────────────

/// The fragment check: at least one top-level paragraph, and no `<hp:p ` or
/// `<hp:p>` after the end of the last one.
pub open spec fn spec_validate_paragraphs(f: Seq<u8>, spans: Seq<(int, int)>) -> Option<Seq<u8>> {
    if spans.len() == 0 {
        Some(msg_no_p())
    } else {
        let last_end = spans.last().1;
        if find_spec(f, last_end, p_open()) is Some || find_spec(f, last_end, p_bare()) is Some {
            Some(msg_unclosed_tail())
        } else {
            None
        }
    }
}

/// The section check from `pos` with nesting `depth` (never negative): `Ok`
/// when `<hp:p>`/`<hp:subList>` nesting balances, else the message of the first
/// problem; `None` when the scan panics.
pub open spec fn spec_validate_section(s: Seq<u8>, pos: int, depth: int) -> Option<Result<(), Seq<u8>>>
    decreases s.len() - pos,
    via validate_decreases
{
    if pos < 0 || pos >= s.len() {
        if depth != 0 {
            Some(Err(msg_depth() + decimal(depth as nat)))
        } else {
            Some(Ok(()))
        }
    } else {
        let n = p_next(s, pos);
        match p_tok(s, pos) {
            PTok::Skip(_) => spec_validate_section(s, n, depth),
            PTok::Empty => spec_validate_section(s, n, depth),
            PTok::Open => if depth + 1 > i32::MAX {
                None
            } else {
                spec_validate_section(s, n, depth + 1)
            },
            PTok::Close => if depth - 1 < 0 {
                Some(Err(msg_unbalanced_p()))
            } else {
                spec_validate_section(s, n, depth - 1)
            },
            PTok::SubOpen => if depth + 1 > i32::MAX {
                None
            } else {
                spec_validate_section(s, n, depth + 1)
            },
            PTok::SubClose => if depth - 1 < 0 {
                Some(Err(msg_unbalanced_sublist()))
            } else {
                spec_validate_section(s, n, depth - 1)
            },
            PTok::Jump(_) => if !jump_ok(s, pos) {
                None
            } else {
                spec_validate_section(s, n, depth)
            },
        }
    }
}

#[via_fn]
proof fn validate_decreases(s: Seq<u8>, pos: int, depth: int) {
    if 0 <= pos < s.len() {
        lemma_p_next(s, pos);
    }
}

pub(crate) fn malformed_fragment(m: Vec<u8>) -> (e: FragmentPasteError)
    requires
        all_ascii(m@),
    ensures
        error_is(e, PasteErr::MalformedFragment(m@)),
{
    FragmentPasteError::MalformedFragment(string_of_ascii(m))
}

/// The top-level `<hp:p>` spans of the section text `section_xml` as
/// (start, end) byte offsets.
pub fn find_top_level_p_spans(section_xml: &str) -> (r: Vec<(usize, usize)>)
    requires
        top_level_p_spans(utf8_of(section_xml@)) is Some,
    ensures
        top_level_p_spans(utf8_of(section_xml@)) == Some(spans_view(r@)),
{
    top_level_p_spans_of(bytes_of(section_xml))
}

/// Lightweight well-formedness check of a section: `<hp:p ...>`/`</hp:p>` and
/// `<hp:subList`/`</hp:subList>` nesting never closes more than it opened and
/// ends balanced.
fn validate_section_wellformed(section_xml: &[u8]) -> (r: Result<(), FragmentPasteError>)
    requires
        spec_validate_section(section_xml@, 0, 0) is Some,
    ensures
        match spec_validate_section(section_xml@, 0, 0) {
            Some(Ok(())) => r is Ok,
            Some(Err(m)) => r matches Err(e) && error_is(e, PasteErr::MalformedFragment(m)),
            None => false,
        },
{
    let s = section_xml;
    let n = s.len();
    let pats = PPats::new();
    let mut depth: i64 = 0;
    let mut pos: usize = 0;
    while pos < n
        invariant
            n == s@.len(),
            s@ == section_xml@,
            pos <= n,
            pats.wf(),
            0 <= depth <= i32::MAX,
            spec_validate_section(s@, 0, 0) is Some,
            spec_validate_section(s@, 0, 0) == spec_validate_section(s@, pos as int, depth as int),
        decreases n - pos,
    {
        proof {
            lemma_p_next(s@, pos as int);
        }
        let (tok, next) = p_tok_exec(s, pos, &pats);
        if tok == 2 || tok == 4 {
            if depth + 1 > 0x7fff_ffff {
                assert(false);
            }
            depth = depth + 1;
        } else if tok == 3 {
            if depth - 1 < 0 {
                assert(spec_validate_section(s@, pos as int, depth as int) == Some(Err::<(), Seq<u8>>(msg_unbalanced_p())));
                return Err(malformed_fragment(msg_unbalanced_p_bytes()));
            }
            depth = depth - 1;
        } else if tok == 5 {
            if depth - 1 < 0 {
                assert(spec_validate_section(s@, pos as int, depth as int) == Some(Err::<(), Seq<u8>>(msg_unbalanced_sublist())));
                return Err(malformed_fragment(msg_unbalanced_sublist_bytes()));
            }
            depth = depth - 1;
        } else if tok == 6 {
            if !jump_ok_exec(s, pos) {
                assert(false);
            }
        }
        pos = next;
    }
    if depth != 0 {
        let mut m = msg_depth_bytes();
        let digits = decimal_u64(depth as u64);
        push_all(&mut m, digits.as_slice());
        proof {
            lemma_decimal_props(depth as nat);
            lemma_concat_ascii(msg_depth(), digits@);
        }
        return Err(malformed_fragment(m));
    }
    Ok(())
}

/// The fragment must hold at least one top-level paragraph, all of them closed.
fn validate_paragraphs_wellformed(fragment_xml: &[u8], spans: &Vec<(usize, usize)>) -> (r: Result<(), FragmentPasteError>)
    requires
        spans_end_after_gt(fragment_xml@, spans@),
    ensures
        match spec_validate_paragraphs(fragment_xml@, spans_view(spans@)) {
            None => r is Ok,
            Some(m) => r matches Err(e) && error_is(e, PasteErr::MalformedFragment(m)),
        },
{
    if spans.len() == 0 {
        return Err(malformed_fragment(msg_no_p_bytes()));
    }
    let last_end = spans[spans.len() - 1].1;
    let po = p_open_bytes();
    let pb = p_bare_bytes();
    if find_from(fragment_xml, last_end, po.as_slice()).is_some()
        || find_from(fragment_xml, last_end, pb.as_slice()).is_some() {
        return Err(malformed_fragment(msg_unclosed_tail_bytes()));
    }
    Ok(())
}

} // verus!

verus! {

// ───────────────────────────── Paragraph paste ─────────────────────────────

/// `after_para_idx {idx} out of range (section has {n} top-level paragraphs)`
pub open spec fn msg_idx(idx: int, n: int) -> Seq<u8> {
    msg_idx_a() + decimal(idx as nat) + msg_idx_b() + decimal(n as nat) + msg_idx_c()
}

/// Result of a paragraph paste: the header after the ID merge, the mappings,
/// the number of pasted top-level paragraphs and the new section bytes; or the
/// header and the error; or a panic of the operation.
pub enum PasteOutcome {
    Done(Seq<u8>, RemapView, nat, Seq<u8>),
    Failed(Seq<u8>, PasteErr),
    Panics,
}

/// The paste once the definitions are merged: `fr` is the remapped fragment.
pub open spec fn spec_paste_remapped(section: Seq<u8>, h: Seq<u8>, rv: RemapView, idx: int, fr: Seq<u8>) -> PasteOutcome {
    match top_level_p_spans(fr) {
        None => PasteOutcome::Panics,
        Some(fspans) => match spec_validate_paragraphs(fr, fspans) {
            Some(m) => PasteOutcome::Failed(h, PasteErr::MalformedFragment(m)),
            None => if fspans.len() == 0 {
                PasteOutcome::Failed(h, PasteErr::MalformedFragment(msg_no_p_found()))
            } else {
                match top_level_p_spans(section) {
                    None => PasteOutcome::Panics,
                    Some(sp) => if idx >= sp.len() {
                        PasteOutcome::Failed(h, PasteErr::MalformedFragment(msg_idx(idx, sp.len() as int)))
                    } else {
                        let a_end = sp[idx].1;
                        let ns = section.subrange(0, a_end) + fr + section.subrange(a_end, section.len() as int);
                        match spec_validate_section(ns, 0, 0) {
                            None => PasteOutcome::Panics,
                            Some(Err(m)) => PasteOutcome::Failed(h, PasteErr::MalformedFragment(m)),
                            Some(Ok(())) => PasteOutcome::Done(h, rv, fspans.len(), ns),
                        }
                    },
                }
            },
        },
    }
}

/// Pasting the fragment bytes `fragment` after the top-level paragraph `idx`
/// of the section bytes `section`, with the source definitions merged into
/// `header` first.
pub open spec fn paste_outcome_bytes(
    section: Seq<u8>,
    header: Seq<char>,
    idx: int,
    fragment: Seq<u8>,
    source: SourceDefinitions,
) -> PasteOutcome {
    match build_outcome(header, source) {
        BuildOutcome::Overflow => PasteOutcome::Panics,
        BuildOutcome::Failed(h, e) => PasteOutcome::Failed(h, e),
        BuildOutcome::Done(h, rv) => spec_paste_remapped(
            section,
            h,
            rv,
            idx,
            spec_rewrite_id_refs(fragment, rv),
        ),
    }
}

/// Pasting `fragment` after the top-level paragraph `idx` of `section`, with the
/// source definitions merged into `header` first.
pub open spec fn paste_outcome(
    section: Seq<char>,
    header: Seq<char>,
    idx: int,
    fragment: Seq<char>,
    source: SourceDefinitions,
) -> PasteOutcome {
    paste_outcome_bytes(utf8_of(section), header, idx, utf8_of(fragment), source)
}

/// Inserts the paragraphs of `fragment_xml` (one or more top-level
/// `<hp:p ...>...</hp:p>` or `<hp:p/>`) right after the top-level paragraph
/// `after_para_idx` of `section_xml`, byte-preservingly. The source definitions
/// are merged into `header_xml` first (in place) and the fragment's `*IDRef`
/// attributes are rewritten through the resulting mapping. The fragment must be
/// well formed, the index must name a top-level paragraph, and the resulting
/// section must stay balanced.
pub fn paste_paragraphs_into_section(
    section_xml: &str,
    header_xml: &mut String,
    after_para_idx: usize,
    fragment_xml: &str,
    source: &SourceDefinitions,
) -> (r: Result<ParagraphPasteResult, FragmentPasteError>)
    requires
        !(paste_outcome(section_xml@, old(header_xml)@, after_para_idx as int, fragment_xml@, *source) is Panics),
    ensures
        match paste_outcome(section_xml@, old(header_xml)@, after_para_idx as int, fragment_xml@, *source) {
            PasteOutcome::Done(h, rv, n, ns) => r matches Ok(p) && p.id_remap@ == rv && p.inserted_para_count == n
                && utf8_of(p.new_section_xml@) == ns && utf8_of(final(header_xml)@) == h,
            PasteOutcome::Failed(h, e) => r matches Err(x) && error_is(x, e) && utf8_of(final(header_xml)@) == h,
            PasteOutcome::Panics => false,
        },
{
    let remap = match build_id_remap(header_xml, source) {
        Ok(m) => m,
        Err(e) => return Err(e),
    };
    let fr = rewrite_id_refs(fragment_xml, &remap);
    let frb = bytes_of(fr.as_str());
    let fspans = top_level_p_spans_of(frb);
    if let Err(e) = validate_paragraphs_wellformed(frb, &fspans) {
        return Err(e);
    }
    let count = fspans.len();
    if count == 0 {
        return Err(malformed_fragment(msg_no_p_found_bytes()));
    }
    let sb = bytes_of(section_xml);
    let sp = top_level_p_spans_of(sb);
    if after_para_idx >= sp.len() {
        let mut m = msg_idx_a_bytes();
        let d1 = decimal_u64(after_para_idx as u64);
        push_all(&mut m, d1.as_slice());
        let b = msg_idx_b_bytes();
        push_all(&mut m, b.as_slice());
        let d2 = decimal_u64(sp.len() as u64);
        push_all(&mut m, d2.as_slice());
        let c = msg_idx_c_bytes();
        push_all(&mut m, c.as_slice());
        proof {
            lemma_decimal_props(after_para_idx as nat);
            lemma_decimal_props(sp@.len() as nat);
            lemma_concat_ascii(msg_idx_a(), d1@);
            lemma_concat_ascii(msg_idx_a() + d1@, b@);
            lemma_concat_ascii(msg_idx_a() + d1@ + b@, d2@);
            lemma_concat_ascii(msg_idx_a() + d1@ + b@ + d2@, c@);
        }
        return Err(malformed_fragment(m));
    }
    let a_end = sp[after_para_idx].1;
    let mut ns: Vec<u8> = Vec::new();
    push_range(&mut ns, sb, 0, a_end);
    push_all(&mut ns, frb);
    push_range(&mut ns, sb, a_end, sb.len());
    proof {
        let s = sb@;
        assert(spans_view(sp@)[after_para_idx as int].1 == a_end as int);
        lemma_after_ascii(s, a_end - 1);
        lemma_subrange_valid(s, 0, a_end as int);
        lemma_subrange_valid(s, a_end as int, s.len() as int);
        lemma_concat_valid(s.subrange(0, a_end as int), frb@);
        lemma_concat_valid(s.subrange(0, a_end as int) + frb@, s.subrange(a_end as int, s.len() as int));
    }
    if let Err(e) = validate_section_wellformed(ns.as_slice()) {
        return Err(e);
    }
    Ok(ParagraphPasteResult { id_remap: remap, inserted_para_count: count, new_section_xml: string_of_valid(ns) })
}

proof fn lemma_p_spans_in_bounds(s: Seq<u8>, pos: int, depth: int, cur: Option<int>)
    requires
        0 <= pos,
    ensures
        spec_p_spans(s, pos, depth, cur) matches Some(v) ==> forall|k: int| 0 <= k < v.len() ==> 0 <= (
        #[trigger] v[k]).1 <= s.len(),
    decreases s.len() - pos,
{
    if pos < s.len() {
        lemma_p_next(s, pos);
        let n = p_next(s, pos);
        lemma_p_spans_in_bounds(s, n, depth, cur);
        lemma_p_spans_in_bounds(s, n, depth + 1, cur);
        lemma_p_spans_in_bounds(s, n, depth + 1, Some(pos));
        lemma_p_spans_in_bounds(s, n, 0, None);
        lemma_p_spans_in_bounds(s, n, depth - 1, cur);
        lemma_p_spans_in_bounds(s, n, depth - 1, None);
        if let Some(v) = spec_p_spans(s, pos, depth, cur) {
            match p_tok(s, pos) {
                PTok::Empty => {
                    if depth == 0 {
                        let rest = spec_p_spans(s, n, depth, cur)->Some_0;
                        assert forall|k: int| 0 <= k < v.len() implies 0 <= (#[trigger] v[k]).1 <= s.len() by {
                            if k > 0 {
                                assert(v[k] == rest[k - 1]);
                            }
                        }
                    }
                },
                PTok::Close => {
                    if depth - 1 >= i32::MIN && depth - 1 == 0 && cur is Some {
                        let rest = spec_p_spans(s, n, 0, None)->Some_0;
                        assert forall|k: int| 0 <= k < v.len() implies 0 <= (#[trigger] v[k]).1 <= s.len() by {
                            if k > 0 {
                                assert(v[k] == rest[k - 1]);
                            }
                        }
                    }
                },
                _ => {},
            }
        }
    }
}

proof fn lemma_spans_in_bounds(s: Seq<u8>)
    ensures
        top_level_p_spans(s) matches Some(v) ==> forall|k: int| 0 <= k < v.len() ==> 0 <= (#[trigger] v[k]).1
            <= s.len(),
{
    lemma_p_spans_in_bounds(s, 0, 0, None);
}

/// The span `sp` of `s` is a paragraph element: either `<hp:p/>`, or from a
/// `<hp:p ` start tag to the end of a `</hp:p>` end tag that follows it.
pub open spec fn is_p_element_span(s: Seq<u8>, sp: (int, int)) -> bool {
    ||| sp.1 == sp.0 + 7 && matches_at(s, sp.0, p_empty())
    ||| sp.0 + 6 <= sp.1 - 7 && matches_at(s, sp.0, p_open()) && matches_at(s, sp.1 - 7, p_close())
}

proof fn lemma_p_spans_shape(s: Seq<u8>, pos: int, depth: int, cur: Option<int>)
    requires
        0 <= pos,
        cur matches Some(c) ==> c + 6 <= pos && matches_at(s, c, p_open()),
    ensures
        spec_p_spans(s, pos, depth, cur) matches Some(v) ==> {
            &&& forall|k: int| 0 <= k < v.len() ==> is_p_element_span(s, #[trigger] v[k]) && v[k].1 >= pos + 7
            &&& forall|i: int, j: int| 0 <= i < j < v.len() ==> #[trigger] v[i].1 < #[trigger] v[j].1
        },
    decreases s.len() - pos,
{
    if pos < s.len() {
        lemma_p_next(s, pos);
        let n = p_next(s, pos);
        if let Some(v) = spec_p_spans(s, pos, depth, cur) {
            match p_tok(s, pos) {
                PTok::Empty => {
                    lemma_p_spans_shape(s, n, depth, cur);
                    if depth == 0 {
                        let rest = spec_p_spans(s, n, depth, cur)->Some_0;
                        assert(v == seq![(pos, pos + 7)] + rest);
                        assert forall|k: int| 0 <= k < v.len() implies is_p_element_span(s, #[trigger] v[k])
                            && v[k].1 >= pos + 7 by {
                            if k > 0 {
                                assert(v[k] == rest[k - 1]);
                            }
                        }
                        assert forall|i: int, j: int| 0 <= i < j < v.len() implies #[trigger] v[i].1
                            < #[trigger] v[j].1 by {
                            assert(v[j] == rest[j - 1]);
                            if i > 0 {
                                assert(v[i] == rest[i - 1]);
                            }
                        }
                    }
                },
                PTok::Open => {
                    let c2 = if depth == 0 && cur is None { Some(pos) } else { cur };
                    lemma_p_spans_shape(s, n, depth + 1, c2);
                },
                PTok::Close => {
                    if depth - 1 == 0 && cur is Some {
                        lemma_p_spans_shape(s, n, 0, None);
                        let rest = spec_p_spans(s, n, 0, None)->Some_0;
                        let c = cur->0;
                        assert(matches_at(s, pos, p_close()));
                        assert(v == seq![(c, pos + 7)] + rest);
                        assert forall|k: int| 0 <= k < v.len() implies is_p_element_span(s, #[trigger] v[k])
                            && v[k].1 >= pos + 7 by {
                            if k > 0 {
                                assert(v[k] == rest[k - 1]);
                            }
                        }
                        assert forall|i: int, j: int| 0 <= i < j < v.len() implies #[trigger] v[i].1
                            < #[trigger] v[j].1 by {
                            assert(v[j] == rest[j - 1]);
                            if i > 0 {
                                assert(v[i] == rest[i - 1]);
                            }
                        }
                    } else {
                        lemma_p_spans_shape(s, n, depth - 1, if depth - 1 == 0 { None } else { cur });
                    }
                },
                PTok::SubOpen => {
                    lemma_p_spans_shape(s, n, depth + 1, cur);
                },
                PTok::SubClose => {
                    lemma_p_spans_shape(s, n, depth - 1, cur);
                },
                PTok::Skip(_) => {
                    lemma_p_spans_shape(s, n, depth, cur);
                },
                PTok::Jump(_) => {
                    lemma_p_spans_shape(s, n, depth, cur);
                },
            }
        }
    }
}

/// What the paragraph scanner finds in a section are paragraph elements of
/// it, taken in order: each span is `<hp:p/>` or runs from a `<hp:p ` start
/// tag to the end of a `</hp:p>` end tag, and each span ends before the next
/// one does.
pub proof fn lemma_top_level_p_spans_are_elements(s: Seq<u8>)
    ensures
        top_level_p_spans(s) matches Some(v) ==> {
            &&& forall|k: int| 0 <= k < v.len() ==> is_p_element_span(s, #[trigger] v[k])
            &&& forall|i: int, j: int| 0 <= i < j < v.len() ==> #[trigger] v[i].1 < #[trigger] v[j].1
        },
{
    lemma_p_spans_shape(s, 0, 0, None);
}

/// A successful paste keeps the section byte for byte: the new section is the
/// old one up to the end of a top-level paragraph, then the remapped fragment,
/// then the rest of the old section; the count is that of the fragment's
/// top-level paragraphs, at least one.
pub proof fn lemma_paste_preserves_section(section: Seq<u8>, h: Seq<u8>, rv: RemapView, idx: int, fr: Seq<u8>)
    requires
        0 <= idx,
    ensures
        spec_paste_remapped(section, h, rv, idx, fr) matches PasteOutcome::Done(_, _, n, ns) ==> {
            &&& top_level_p_spans(fr) matches Some(fs) && n == fs.len() && n >= 1
            &&& top_level_p_spans(section) matches Some(sp) && 0 <= idx < sp.len() && {
                let a = sp[idx].1;
                &&& ns.subrange(0, a) == section.subrange(0, a)
                &&& ns.subrange(a, a + fr.len()) == fr
                &&& ns.subrange(a + fr.len(), ns.len() as int) == section.subrange(a, section.len() as int)
            }
        },
{
    if let PasteOutcome::Done(_, _, n, ns) = spec_paste_remapped(section, h, rv, idx, fr) {
        let sp = top_level_p_spans(section)->Some_0;
        let a = sp[idx].1;
        lemma_spans_in_bounds(section);
        let ns0 = section.subrange(0, a) + fr + section.subrange(a, section.len() as int);
        assert(ns == ns0);
        assert(ns.subrange(0, a) =~= section.subrange(0, a));
        assert(ns.subrange(a, a + fr.len()) =~= fr);
        assert(ns.subrange(a + fr.len(), ns.len() as int) =~= section.subrange(a, section.len() as int));
    }
}

} // verus!
