//! UTF-8 facts used when raw XML bytes are cut and joined again.
//!
//! Every edit in this crate cuts a valid UTF-8 document only next to ASCII
//! markup bytes and only inserts ASCII text, so the result stays valid UTF-8
//! and can be handed back as a `String` without loss.

use vstd::prelude::*;
use vstd::utf8::*;

verus! {

broadcast use vstd::utf8::encode_utf8_valid_utf8, vstd::utf8::encode_utf8_decode_utf8;

/// UTF-8 bytes of a character sequence (the bytes of a `str`/`String`).
pub open spec fn utf8_of(s: Seq<char>) -> Seq<u8> {
    encode_utf8(s)
}

/// Index `i` is the start of a character or the end of `b`.
pub open spec fn cut_ok(b: Seq<u8>, i: int) -> bool {
    ||| i == 0
    ||| i == b.len()
    ||| (0 < i < b.len() && !is_continuation_byte(b[i]))
}

/// Every byte of `b` is ASCII.
pub open spec fn all_ascii(b: Seq<u8>) -> bool {
    forall|k: int| 0 <= k < b.len() ==> #[trigger] b[k] < 0x80
}

pub proof fn lemma_utf8_of_valid(s: Seq<char>)
    ensures
        valid_utf8(utf8_of(s)),
        decode_utf8(utf8_of(s)) == s,
{
}

pub proof fn lemma_cut_ok_boundary(b: Seq<u8>, i: int)
    requires
        valid_utf8(b),
        cut_ok(b, i),
    ensures
        is_char_boundary(b, i),
{
    is_char_boundary_start_end_of_seq(b);
    if 0 < i < b.len() {
        is_char_boundary_iff_not_is_continuation_byte(b, i);
    }
}

/// A piece of valid UTF-8 cut at two character starts is valid UTF-8.
pub proof fn lemma_subrange_valid(b: Seq<u8>, i: int, j: int)
    requires
        valid_utf8(b),
        0 <= i <= j <= b.len(),
        cut_ok(b, i),
        cut_ok(b, j),
    ensures
        valid_utf8(b.subrange(i, j)),
{
    lemma_cut_ok_boundary(b, j);
    valid_utf8_split(b, j);
    let p = b.subrange(0, j);
    assert(cut_ok(p, i)) by {
        if 0 < i < j {
            assert(p[i] == b[i]);
        }
    }
    lemma_cut_ok_boundary(p, i);
    valid_utf8_split(p, i);
    assert(p.subrange(i, p.len() as int) =~= b.subrange(i, j));
}

/// ASCII bytes are valid UTF-8.
pub proof fn lemma_ascii_valid(a: Seq<u8>)
    requires
        all_ascii(a),
    ensures
        valid_utf8(a),
{
    assert(a.subrange(0, 0) =~= Seq::<u8>::empty());
    assert(valid_utf8(Seq::<u8>::empty()));
    assert(forall|k: int| 0 <= 0 <= k < a.len() <= a.len() ==> #[trigger] is_leading_byte_width_1(a[k])) by {
        assert forall|k: int| 0 <= 0 <= k < a.len() <= a.len() implies #[trigger] is_leading_byte_width_1(a[k]) by {
            assert(a[k] < 0x80);
        }
    }
    partial_valid_utf8_extend_ascii_block(a, 0, a.len() as int);
    assert(a.subrange(0, a.len() as int) =~= a);
}

/// The position right after an ASCII byte of valid UTF-8 starts a character (or is the end).
pub proof fn lemma_after_ascii(b: Seq<u8>, i: int)
    requires
        valid_utf8(b),
        0 <= i < b.len(),
        b[i] < 0x80,
    ensures
        cut_ok(b, i + 1),
{
    if i + 1 < b.len() {
        is_char_boundary_iff_not_is_continuation_byte(b, i);
        valid_utf8_split(b, i);
        let t = b.subrange(i, b.len() as int);
        assert(t[0] == b[i]);
        assert(valid_first_scalar(t) && valid_utf8(pop_first_scalar(t)));
        assert(length_of_first_scalar(t) == 1);
        let u = pop_first_scalar(t);
        assert(u =~= b.subrange(i + 1, b.len() as int));
        assert(u.len() > 0);
        assert(valid_first_scalar(u));
        assert(u[0] == b[i + 1]);
    }
}

/// An ASCII byte of `b` starts a character.
pub proof fn lemma_ascii_cut(b: Seq<u8>, i: int)
    requires
        0 <= i < b.len(),
        b[i] < 0x80,
    ensures
        cut_ok(b, i),
{
}

pub proof fn lemma_concat_valid(a: Seq<u8>, b: Seq<u8>)
    requires
        valid_utf8(a),
        valid_utf8(b),
    ensures
        valid_utf8(a + b),
{
    valid_utf8_concat(a, b);
}

pub proof fn lemma_concat_ascii(a: Seq<u8>, b: Seq<u8>)
    requires
        all_ascii(a),
        all_ascii(b),
    ensures
        all_ascii(a + b),
{
    assert forall|k: int| 0 <= k < (a + b).len() implies #[trigger] (a + b)[k] < 0x80 by {
        if k < a.len() {
            assert((a + b)[k] == a[k]);
        } else {
            assert((a + b)[k] == b[k - a.len()]);
        }
    }
}

/// `String::from_utf8`: the bytes become a `String` exactly when they are valid
/// UTF-8, and the `String` then holds the characters that the bytes encode.
#[verifier::external_body]
pub(crate) fn string_from_utf8(v: Vec<u8>) -> (r: Option<String>)
    ensures
        r is Some <==> valid_utf8(v@),
        r matches Some(s) ==> s@ == decode_utf8(v@),
{
    String::from_utf8(v).ok()
}

/// Bytes already known to be valid UTF-8, as a `String`.
pub fn string_of_valid(v: Vec<u8>) -> (r: String)
    requires
        valid_utf8(v@),
    ensures
        r@ == decode_utf8(v@),
        utf8_of(r@) == v@,
{
    let ghost b = v@;
    proof {
        vstd::utf8::decode_utf8_encode_utf8(b);
    }
    match string_from_utf8(v) {
        Some(s) => s,
        None => String::new(),
    }
}

/// ASCII bytes as a `String`.
pub fn string_of_ascii(v: Vec<u8>) -> (r: String)
    requires
        all_ascii(v@),
    ensures
        r@ == decode_utf8(v@),
        utf8_of(r@) == v@,
{
    proof {
        lemma_ascii_valid(v@);
    }
    string_of_valid(v)
}

/// The UTF-8 bytes of a string slice.
pub fn bytes_of(s: &str) -> (b: &[u8])
    ensures
        b@ == utf8_of(s@),
        valid_utf8(b@),
{
    s.as_bytes()
}

/// Rust's `char::is_whitespace` (the Unicode `White_Space` property).
pub open spec fn is_unicode_whitespace(c: char) -> bool {
    let u = c as u32;
    ||| 0x09 <= u <= 0x0d
    ||| u == 0x20
    ||| u == 0x85
    ||| u == 0xa0
    ||| u == 0x1680
    ||| 0x2000 <= u <= 0x200a
    ||| u == 0x2028
    ||| u == 0x2029
    ||| u == 0x202f
    ||| u == 0x205f
    ||| u == 0x3000
}

pub fn is_whitespace_char(c: char) -> (r: bool)
    ensures
        r == is_unicode_whitespace(c),
{
    let u = c as u32;
    (0x09 <= u && u <= 0x0d) || u == 0x20 || u == 0x85 || u == 0xa0 || u == 0x1680 || (0x2000 <= u
        && u <= 0x200a) || u == 0x2028 || u == 0x2029 || u == 0x202f || u == 0x205f || u == 0x3000
}

/// The number of white-space characters at the start of `s`.
pub open spec fn leading_ws(s: Seq<char>) -> nat
    decreases s.len(),
{
    if s.len() > 0 && is_unicode_whitespace(s[0]) {
        1 + leading_ws(s.drop_first())
    } else {
        0
    }
}

/// The number of white-space characters at the end of `s`.
pub open spec fn trailing_ws(s: Seq<char>) -> nat
    decreases s.len(),
{
    if s.len() > 0 && is_unicode_whitespace(s.last()) {
        1 + trailing_ws(s.drop_last())
    } else {
        0
    }
}

pub proof fn lemma_leading_ws_bound(s: Seq<char>)
    ensures
        leading_ws(s) <= s.len(),
    decreases s.len(),
{
    if s.len() > 0 && is_unicode_whitespace(s[0]) {
        lemma_leading_ws_bound(s.drop_first());
    }
}

pub proof fn lemma_trailing_ws_bound(s: Seq<char>)
    ensures
        trailing_ws(s) <= s.len(),
    decreases s.len(),
{
    if s.len() > 0 && is_unicode_whitespace(s.last()) {
        lemma_trailing_ws_bound(s.drop_last());
    }
}

/// `s` without its leading and trailing white space (`str::trim`).
pub open spec fn trim_chars(s: Seq<char>) -> Seq<char> {
    let t = s.subrange(leading_ws(s) as int, s.len() as int);
    t.subrange(0, t.len() - trailing_ws(t))
}

/// `str::trim`: the string slice without leading and trailing characters of
/// the Unicode `White_Space` property.
pub(crate) fn str_trim<'a>(s: &'a str) -> (r: &'a str)
    ensures
        r@ == trim_chars(s@),
{
    broadcast use vstd::string::group_string_axioms;
    let mut cs: Vec<char> = Vec::new();
    for c in it: s.chars()
        invariant
            it.seq() == s@,
            cs@ == s@.take(it.index() as int),
    {
        proof {
            assert(s@.take(it.index() as int).push(c) =~= s@.take(it.index() + 1));
        }
        cs.push(c);
    }
    assert(cs@ =~= s@);
    let n = cs.len();
    let mut a: usize = 0;
    while a < n && is_whitespace_char(cs[a])
        invariant
            cs@ == s@,
            n == s@.len(),
            a <= n,
            leading_ws(s@) == a + leading_ws(s@.skip(a as int)),
        decreases n - a,
    {
        proof {
            assert(s@.skip(a as int).drop_first() =~= s@.skip(a + 1));
        }
        a = a + 1;
    }
    let mut e: usize = n;
    let ghost t = s@.subrange(a as int, n as int);
    assert(s@.subrange(a as int, e as int) =~= t);
    while e > a && is_whitespace_char(cs[e - 1])
        invariant
            cs@ == s@,
            n == s@.len(),
            a <= e <= n,
            leading_ws(s@) == a,
            t == s@.subrange(a as int, n as int),
            trailing_ws(t) == (n - e) + trailing_ws(s@.subrange(a as int, e as int)),
        decreases e - a,
    {
        proof {
            assert(s@.subrange(a as int, e as int).drop_last() =~= s@.subrange(a as int, e - 1));
        }
        e = e - 1;
    }
    proof {
        assert(t.subrange(0, t.len() - trailing_ws(t)) =~= s@.subrange(a as int, e as int));
    }
    s.substring_char(a, e)
}

/// `&s[from..to]` for two cut points of `s`.
pub fn str_slice<'a>(s: &'a str, from: usize, to: usize) -> (r: &'a str)
    requires
        from <= to <= utf8_of(s@).len(),
        cut_ok(utf8_of(s@), from as int),
        cut_ok(utf8_of(s@), to as int),
    ensures
        utf8_of(r@) == utf8_of(s@).subrange(from as int, to as int),
{
    let ghost b = utf8_of(s@);
    proof {
        lemma_utf8_of_valid(s@);
        lemma_cut_ok_boundary(b, to as int);
    }
    let (head, _) = s.split_at(to);
    let ghost h = utf8_of(head@);
    proof {
        assert(h =~= b.subrange(0, to as int));
        lemma_utf8_of_valid(head@);
        assert(cut_ok(h, from as int)) by {
            if 0 < from < to {
                assert(h[from as int] == b[from as int]);
            }
        }
        lemma_cut_ok_boundary(h, from as int);
    }
    let (_, r) = head.split_at(from);
    proof {
        assert(utf8_of(r@) =~= h.subrange(from as int, to as int));
        assert(h.subrange(from as int, to as int) =~= b.subrange(from as int, to as int));
    }
    r
}

} // verus!

verus! {

/// The UTF-16 code units of a character.
pub open spec fn utf16_units(c: char) -> Seq<u16> {
    let v = c as u32;
    if v < 0x10000 {
        seq![v as u16]
    } else {
        seq![(0xD800 + (v - 0x10000) / 0x400) as u16, (0xDC00 + (v - 0x10000) % 0x400) as u16]
    }
}

/// The UTF-16 code units of a character sequence.
pub open spec fn utf16_of(s: Seq<char>) -> Seq<u16>
    decreases s.len(),
{
    if s.len() == 0 {
        seq![]
    } else {
        utf16_of(s.drop_last()) + utf16_units(s.last())
    }
}

/// Little-endian bytes of a 16-bit value.
pub open spec fn le16_bytes(v: u16) -> Seq<u8> {
    seq![(v % 256) as u8, (v / 256) as u8]
}

/// Little-endian bytes of each unit, in order.
pub open spec fn le_units(u: Seq<u16>) -> Seq<u8>
    decreases u.len(),
{
    if u.len() == 0 {
        seq![]
    } else {
        le_units(u.drop_last()) + le16_bytes(u.last())
    }
}

proof fn lemma_le_units_concat(a: Seq<u16>, b: Seq<u16>)
    ensures
        le_units(a + b) == le_units(a) + le_units(b),
    decreases b.len(),
{
    if b.len() == 0 {
        assert(a + b =~= a);
        assert(le_units(a) + le_units(b) =~= le_units(a));
    } else {
        lemma_le_units_concat(a, b.drop_last());
        assert((a + b).drop_last() =~= a + b.drop_last());
        assert(le_units(a) + le_units(b) =~= le_units(a) + le_units(b.drop_last()) + le16_bytes(b.last()));
    }
}

/// Appends the little-endian bytes of `v`.
pub fn push_le16(out: &mut Vec<u8>, v: u16)
    ensures
        final(out)@ == old(out)@ + le16_bytes(v),
{
    out.push((v % 256) as u8);
    out.push((v / 256) as u8);
}

pub proof fn lemma_le_units_len(u: Seq<u16>)
    ensures
        le_units(u).len() == 2 * u.len(),
    decreases u.len(),
{
    if u.len() > 0 {
        lemma_le_units_len(u.drop_last());
    }
}

/// The UTF-16LE bytes of a string.
pub fn utf16_le_of(s: &str) -> (r: Vec<u8>)
    ensures
        r@ == le_units(utf16_of(s@)),
{
    let mut out: Vec<u8> = Vec::new();
    for c in it: s.chars()
        invariant
            it.seq() == s@,
            out@ == le_units(utf16_of(it.seq().take(it.index()))),
    {
        let ghost done = it.seq().take(it.index());
        let v = c as u32;
        proof {
            assert(it.seq().take(it.index() + 1).drop_last() =~= done);
        }
        if v < 0x10000 {
            push_le16(&mut out, v as u16);
            proof { lemma_le_units_concat(utf16_of(done), utf16_units(c)); }
        } else {
            let w = v - 0x10000;
            push_le16(&mut out, (0xD800 + w / 0x400) as u16);
            push_le16(&mut out, (0xDC00 + w % 0x400) as u16);
            proof {
                lemma_le_units_concat(utf16_of(done), utf16_units(c));
                assert(le_units(utf16_units(c)) =~= le16_bytes((0xD800 + w / 0x400) as u16) + le16_bytes((0xDC00 + w % 0x400) as u16)) by {
                    reveal_with_fuel(le_units, 3);
                }
            }
        }
    }
    assert(s@.take(s@.len() as int) =~= s@);
    out
}

} // verus!
