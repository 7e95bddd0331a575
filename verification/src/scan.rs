//! Byte-level scanning primitives shared by the raw-XML editors.
//!
//! All raw XML handled by this crate is manipulated as UTF-8 bytes. The
//! searches below are the byte-level counterparts of `str::find`, `str::rfind`
//! and `str::starts_with` for patterns whose first byte is ASCII; such a match
//! always starts on a character boundary, so byte offsets and string offsets agree.

use vstd::prelude::*;

verus! {

/// `pat` occurs in `s` starting at byte offset `pos`.
pub open spec fn matches_at(s: Seq<u8>, pos: int, pat: Seq<u8>) -> bool {
    0 <= pos && pos + pat.len() <= s.len() && s.subrange(pos, pos + pat.len()) =~= pat
}

/// The first offset `>= from` at which `pat` occurs in `s`.
pub open spec fn find_spec(s: Seq<u8>, from: int, pat: Seq<u8>) -> Option<int>
    decreases s.len() - from,
{
    if from < 0 || from + pat.len() > s.len() {
        None
    } else if matches_at(s, from, pat) {
        Some(from)
    } else {
        find_spec(s, from + 1, pat)
    }
}

/// The last offset `<= upto` at which `pat` occurs in `s`.
pub open spec fn rfind_spec(s: Seq<u8>, upto: int, pat: Seq<u8>) -> Option<int>
    decreases upto + 1,
{
    if upto < 0 {
        None
    } else if matches_at(s, upto, pat) {
        Some(upto)
    } else {
        rfind_spec(s, upto - 1, pat)
    }
}

/// The last occurrence of `pat` anywhere in `s`.
pub open spec fn rfind_all(s: Seq<u8>, pat: Seq<u8>) -> Option<int> {
    rfind_spec(s, s.len() - pat.len(), pat)
}

/// `pat` occurs somewhere in `s` at or after `from`.
pub open spec fn contains_from(s: Seq<u8>, from: int, pat: Seq<u8>) -> bool {
    find_spec(s, from, pat) is Some
}

pub proof fn lemma_find_spec_bounds(s: Seq<u8>, from: int, pat: Seq<u8>)
    ensures
        find_spec(s, from, pat) matches Some(i) ==> from <= i && i + pat.len() <= s.len()
            && matches_at(s, i, pat),
    decreases s.len() - from,
{
    if from < 0 || from + pat.len() > s.len() {
    } else if matches_at(s, from, pat) {
    } else {
        lemma_find_spec_bounds(s, from + 1, pat);
    }
}

/// The search from `from` finds `i` when `pat` occurs there and nowhere
/// between `from` and `i`.
pub proof fn lemma_find_spec_first(s: Seq<u8>, from: int, pat: Seq<u8>, i: int)
    requires
        0 <= from <= i,
        matches_at(s, i, pat),
        forall|j: int| from <= j < i ==> !matches_at(s, j, pat),
    ensures
        find_spec(s, from, pat) == Some(i),
    decreases i - from,
{
    if from < i {
        assert(!matches_at(s, from, pat));
        lemma_find_spec_first(s, from + 1, pat, i);
    }
}

/// The search from `from` finds nothing when `pat` occurs nowhere from `from` on.
pub proof fn lemma_find_spec_none(s: Seq<u8>, from: int, pat: Seq<u8>)
    requires
        forall|j: int| from <= j ==> !matches_at(s, j, pat),
    ensures
        find_spec(s, from, pat) is None,
    decreases s.len() - from,
{
    if from >= 0 && from + pat.len() <= s.len() {
        assert(!matches_at(s, from, pat));
        lemma_find_spec_none(s, from + 1, pat);
    }
}

/// Searching from `p` or from a later `q` finds the same when `pat` does not
/// occur in between.
pub proof fn lemma_find_spec_skip(s: Seq<u8>, p: int, q: int, pat: Seq<u8>)
    requires
        0 <= p <= q,
        forall|j: int| p <= j < q ==> !matches_at(s, j, pat),
    ensures
        find_spec(s, p, pat) == find_spec(s, q, pat),
    decreases q - p,
{
    if p < q {
        if p + pat.len() > s.len() {
            assert(q + pat.len() > s.len());
        } else {
            assert(!matches_at(s, p, pat));
            lemma_find_spec_skip(s, p + 1, q, pat);
        }
    }
}

pub proof fn lemma_rfind_spec_bounds(s: Seq<u8>, upto: int, pat: Seq<u8>)
    ensures
        rfind_spec(s, upto, pat) matches Some(i) ==> 0 <= i <= upto && matches_at(s, i, pat),
    decreases upto + 1,
{
    if upto >= 0 && !matches_at(s, upto, pat) {
        lemma_rfind_spec_bounds(s, upto - 1, pat);
    }
}

/// Exact comparison of `pat` against `s` at `pos`.
pub fn match_at(s: &[u8], pos: usize, pat: &[u8]) -> (r: bool)
    ensures
        r == matches_at(s@, pos as int, pat@),
{
    if pos > s.len() || pat.len() > s.len() - pos {
        return false;
    }
    let end = pos + pat.len();
    let mut k: usize = 0;
    while k < pat.len()
        invariant
            end == pos + pat@.len(),
            pos + pat@.len() <= s@.len(),
            k <= pat@.len(),
            s@.subrange(pos as int, pos + k) =~= pat@.subrange(0, k as int),
        decreases pat@.len() - k,
    {
        if s[pos + k] != pat[k] {
            assert(s@.subrange(pos as int, pos + pat@.len())[k as int] != pat@[k as int]);
            return false;
        }
        k = k + 1;
        assert(s@.subrange(pos as int, pos + k) =~= pat@.subrange(0, k as int));
    }
    assert(pat@.subrange(0, pat@.len() as int) =~= pat@);
    true
}

/// First occurrence of `pat` at or after `from` (the byte counterpart of `s[from..].find(pat)`,
/// reported as an absolute offset).
pub fn find_from(s: &[u8], from: usize, pat: &[u8]) -> (r: Option<usize>)
    ensures
        r matches Some(i) ==> find_spec(s@, from as int, pat@) == Some(i as int),
        r is None ==> find_spec(s@, from as int, pat@) is None,
{
    if from > s.len() || pat.len() > s.len() - from {
        return None;
    }
    let last = s.len() - pat.len();
    let mut i = from;
    loop
        invariant
            from <= i <= last,
            last + pat@.len() == s@.len(),
            find_spec(s@, from as int, pat@) == find_spec(s@, i as int, pat@),
        decreases last - i,
    {
        if match_at(s, i, pat) {
            return Some(i);
        }
        if i == last {
            assert(find_spec(s@, i + 1, pat@) is None);
            return None;
        }
        i = i + 1;
    }
}

/// First occurrence of the single byte `b` at or after `from`.
pub fn find_byte(s: &[u8], from: usize, b: u8) -> (r: Option<usize>)
    ensures
        r matches Some(i) ==> find_spec(s@, from as int, seq![b]) == Some(i as int),
        r is None ==> find_spec(s@, from as int, seq![b]) is None,
{
    let mut i = from;
    while i < s.len()
        invariant
            from <= i,
            find_spec(s@, from as int, seq![b]) == find_spec(s@, i as int, seq![b]),
        decreases s@.len() - i,
    {
        if s[i] == b {
            assert(s@.subrange(i as int, i + 1) =~= seq![b]);
            return Some(i);
        }
        assert(!(s@.subrange(i as int, i + 1) =~= seq![b])) by {
            assert(s@.subrange(i as int, i + 1)[0] == s@[i as int]);
        }
        i = i + 1;
    }
    None
}

/// First occurrence of `pat` inside `s[from..to]` (the byte counterpart of
/// `s[from..to].find(pat)`, reported as an absolute offset).
pub fn find_within(s: &[u8], from: usize, to: usize, pat: &[u8]) -> (r: Option<usize>)
    requires
        from <= to <= s@.len(),
    ensures
        r matches Some(i) ==> from <= i && find_spec(s@.subrange(from as int, to as int), 0, pat@)
            == Some(i - from),
        r is None ==> find_spec(s@.subrange(from as int, to as int), 0, pat@) is None,
{
    let ghost sub = s@.subrange(from as int, to as int);
    if pat.len() > to - from {
        return None;
    }
    let last = to - pat.len();
    let mut i = from;
    loop
        invariant
            from <= i <= last,
            last + pat@.len() == to,
            to <= s@.len(),
            sub == s@.subrange(from as int, to as int),
            find_spec(sub, 0, pat@) == find_spec(sub, i - from, pat@),
        decreases last - i,
    {
        let m = match_at(s, i, pat);
        assert(m == matches_at(sub, i - from, pat@)) by {
            assert(sub.subrange(i - from, i - from + pat@.len()) =~= s@.subrange(i as int, i + pat@.len()));
        }
        if m {
            return Some(i);
        }
        if i == last {
            assert(find_spec(sub, i - from + 1, pat@) is None);
            return None;
        }
        i = i + 1;
    }
}

/// Last occurrence of `pat` in `s` (the byte counterpart of `str::rfind`).
pub fn rfind(s: &[u8], pat: &[u8]) -> (r: Option<usize>)
    ensures
        r matches Some(i) ==> rfind_all(s@, pat@) == Some(i as int),
        r is None ==> rfind_all(s@, pat@) is None,
{
    if pat.len() > s.len() {
        return None;
    }
    let mut i = s.len() - pat.len();
    loop
        invariant
            i + pat@.len() <= s@.len(),
            rfind_all(s@, pat@) == rfind_spec(s@, i as int, pat@),
        decreases i,
    {
        if match_at(s, i, pat) {
            return Some(i);
        }
        if i == 0 {
            assert(rfind_spec(s@, -1, pat@) is None);
            return None;
        }
        i = i - 1;
    }
}

/// `s[from..to]` appended to `out`.
pub fn push_range(out: &mut Vec<u8>, s: &[u8], from: usize, to: usize)
    requires
        from <= to <= s@.len(),
    ensures
        final(out)@ == old(out)@ + s@.subrange(from as int, to as int),
{
    let mut i = from;
    while i < to
        invariant
            from <= i <= to <= s@.len(),
            out@ == old(out)@ + s@.subrange(from as int, i as int),
        decreases to - i,
    {
        out.push(s[i]);
        i = i + 1;
        assert(out@ =~= old(out)@ + s@.subrange(from as int, i as int));
    }
}

/// All of `s` appended to `out`.
pub fn push_all(out: &mut Vec<u8>, s: &[u8])
    ensures
        final(out)@ == old(out)@ + s@,
{
    push_range(out, s, 0, s.len());
    assert(s@.subrange(0, s@.len() as int) =~= s@);
}

/// Number of `<` bytes in `s` (the measure under which the recursion into
/// nested tables terminates).
pub open spec fn lt_count(s: Seq<u8>) -> nat
    decreases s.len(),
{
    if s.len() == 0 {
        0
    } else {
        lt_count(s.drop_last()) + if s.last() == 60 { 1nat } else { 0nat }
    }
}

pub proof fn lemma_lt_count_concat(a: Seq<u8>, b: Seq<u8>)
    ensures
        lt_count(a + b) == lt_count(a) + lt_count(b),
    decreases b.len(),
{
    if b.len() == 0 {
        assert(a + b =~= a);
    } else {
        lemma_lt_count_concat(a, b.drop_last());
        assert((a + b).drop_last() =~= a + b.drop_last());
    }
}

pub proof fn lemma_lt_count_split(s: Seq<u8>, i: int, j: int)
    requires
        0 <= i <= j <= s.len(),
    ensures
        lt_count(s) == lt_count(s.subrange(0, i)) + lt_count(s.subrange(i, j)) + lt_count(s.subrange(j, s.len() as int)),
{
    lemma_lt_count_concat(s.subrange(0, i), s.subrange(i, j));
    lemma_lt_count_concat(s.subrange(0, i) + s.subrange(i, j), s.subrange(j, s.len() as int));
    assert(s.subrange(0, i) + s.subrange(i, j) + s.subrange(j, s.len() as int) =~= s);
}

pub proof fn lemma_lt_count_none(s: Seq<u8>)
    requires
        forall|k: int| 0 <= k < s.len() ==> s[k] != 60,
    ensures
        lt_count(s) == 0,
    decreases s.len(),
{
    if s.len() > 0 {
        lemma_lt_count_none(s.drop_last());
    }
}

pub proof fn lemma_lt_count_at(s: Seq<u8>, i: int)
    requires
        0 <= i < s.len(),
        s[i] == 60,
    ensures
        lt_count(s.subrange(i, s.len() as int)) >= 1,
    decreases s.len() - i,
{
    let t = s.subrange(i, s.len() as int);
    if i == s.len() - 1 {
        assert(t.drop_last() =~= Seq::<u8>::empty());
    } else {
        lemma_lt_count_concat(seq![s[i]], s.subrange(i + 1, s.len() as int));
        assert(seq![s[i]] + s.subrange(i + 1, s.len() as int) =~= t);
        assert(seq![s[i]].drop_last() =~= Seq::<u8>::empty());
    }
}

} // verus!
