//! Small parsers for SVG fragments produced by the shape layout: attribute
//! values, single `<image>` elements with a `data:` URL, and base64 data URLs.

use vstd::prelude::*;
use base64::Engine;
use crate::scan::{matches_at, find_spec, lt_count, find_from, find_byte, match_at, lemma_find_spec_bounds};
use crate::text::{utf8_of, cut_ok, str_slice, str_trim, bytes_of, lemma_after_ascii, lemma_ascii_cut, lemma_utf8_of_valid};

verus! {

/// Space, tab, line feed or carriage return.
pub open spec fn is_space_byte(b: u8) -> bool {
    b == 32 || b == 9 || b == 10 || b == 13
}

/// `attr="`.
pub open spec fn attr_needle(attr: Seq<u8>) -> Seq<u8> {
    attr + seq![61u8, 34u8]
}

/// The value span of the first `attr="..."` in `s` at or after `from` whose
/// name starts the text or is preceded by white space; `None` when there is
/// none, or when the first such value has no closing quote.
pub open spec fn svg_attr_span(s: Seq<u8>, needle: Seq<u8>, from: int) -> Option<(int, int)>
    decreases s.len() - from,
    via svg_attr_span_decreases
{
    if needle.len() == 0 {
        None
    } else {
        match find_spec(s, from, needle) {
            None => None,
            Some(pos) => if !(pos == 0 || is_space_byte(s[pos - 1])) {
                svg_attr_span(s, needle, pos + needle.len())
            } else {
                let vs = pos + needle.len();
                match find_spec(s, vs, seq![34u8]) {
                    None => None,
                    Some(e) => Some((vs, e)),
                }
            },
        }
    }
}

#[via_fn]
proof fn svg_attr_span_decreases(s: Seq<u8>, needle: Seq<u8>, from: int) {
    lemma_find_spec_bounds(s, from, needle);
}

proof fn lemma_svg_attr_span_bounds(s: Seq<u8>, needle: Seq<u8>, from: int)
    requires
        0 <= from,
    ensures
        svg_attr_span(s, needle, from) matches Some((a, b)) ==> 0 < a <= b < s.len() && s[b] == 34
            && s[a - 1] == needle.last(),
    decreases s.len() - from,
{
    lemma_find_spec_bounds(s, from, needle);
    if needle.len() > 0 {
        if let Some(pos) = find_spec(s, from, needle) {
            assert(s.subrange(pos, pos + needle.len())[needle.len() - 1] == s[pos + needle.len() - 1]);
            if !(pos == 0 || is_space_byte(s[pos - 1])) {
                lemma_svg_attr_span_bounds(s, needle, pos + needle.len());
            } else {
                let vs = pos + needle.len();
                lemma_find_spec_bounds(s, vs, seq![34u8]);
                if let Some(e) = find_spec(s, vs, seq![34u8]) {
                    assert(s.subrange(e, e + 1)[0] == s[e]);
                }
            }
        }
    }
}

fn is_space_at(s: &[u8], i: usize) -> (r: bool)
    requires
        i < s@.len(),
    ensures
        r == is_space_byte(s@[i as int]),
{
    let b = s[i];
    b == 32 || b == 9 || b == 10 || b == 13
}

/// The value of `attr="..."` in the SVG fragment `s`, where the attribute name
/// is on a word boundary: at the very start of the text or after white space
/// (so `href` does not match `xlink:href`); values are plain double-quoted
/// text.
pub fn find_svg_attr_value<'a>(s: &'a str, attr: &str) -> (r: Option<&'a str>)
    ensures
        match svg_attr_span(utf8_of(s@), attr_needle(utf8_of(attr@)), 0) {
            Some((a, b)) => r matches Some(x) && utf8_of(x@) == utf8_of(s@).subrange(a, b),
            None => r is None,
        },
{
    let sb = bytes_of(s);
    let n = sb.len();
    let mut needle: Vec<u8> = Vec::new();
    crate::scan::push_all(&mut needle, bytes_of(attr));
    needle.push(61u8);
    needle.push(34u8);
    let ghost nd = attr_needle(utf8_of(attr@));
    assert(needle@ =~= nd);
    let mut from: usize = 0;
    loop
        invariant
            sb@ == utf8_of(s@),
            n == sb@.len(),
            needle@ == nd,
            nd == attr_needle(utf8_of(attr@)),
            nd.len() >= 2,
            from <= n,
            svg_attr_span(sb@, nd, 0) == svg_attr_span(sb@, nd, from as int),
        decreases n - from,
    {
        let pos = match find_from(sb, from, needle.as_slice()) {
            None => {
                return None;
            },
            Some(p) => p,
        };
        proof {
            lemma_find_spec_bounds(sb@, from as int, nd);
        }
        let boundary = pos == 0 || is_space_at(sb, pos - 1);
        if !boundary {
            from = pos + needle.len();
            continue;
        }
        let vs = pos + needle.len();
        let e = match find_byte(sb, vs, 34u8) {
            None => {
                return None;
            },
            Some(e) => e,
        };
        proof {
            lemma_svg_attr_span_bounds(sb@, nd, 0);
            lemma_utf8_of_valid(s@);
            let b = sb@;
            let tail = seq![61u8, 34u8];
            assert(nd == utf8_of(attr@) + tail);
            assert(nd[nd.len() - 1] == tail[1]);
            assert(b[vs - 1] == nd.last());
            lemma_after_ascii(b, vs - 1);
            lemma_ascii_cut(b, e as int);
        }
        return Some(str_slice(s, vs, e));
    }
}

/// `<image`.
pub open spec fn image_open() -> Seq<u8> {
    seq![60u8, 105, 109, 97, 103, 101]
}

/// `/>`.
pub open spec fn empty_close() -> Seq<u8> {
    seq![47u8, 62]
}

/// `data:`.
pub open spec fn data_scheme() -> Seq<u8> {
    seq![100u8, 97, 116, 97, 58]
}

fn image_open_bytes() -> (r: Vec<u8>)
    ensures
        r@ == image_open(),
{
    let v: Vec<u8> = vec![60u8, 105, 109, 97, 103, 101];
    assert(v@ =~= image_open());
    v
}

fn empty_close_bytes() -> (r: Vec<u8>)
    ensures
        r@ == empty_close(),
{
    let v: Vec<u8> = vec![47u8, 62];
    assert(v@ =~= empty_close());
    v
}

fn data_scheme_bytes() -> (r: Vec<u8>)
    ensures
        r@ == data_scheme(),
{
    let v: Vec<u8> = vec![100u8, 97, 116, 97, 58];
    assert(v@ =~= data_scheme());
    v
}

/// The span (in the trimmed fragment `t`) of the `data:` URL of a fragment
/// that is exactly one `<image .../>` element: `xlink:href` first, then `href`.
pub open spec fn image_data_url_span(t: Seq<u8>) -> Option<(int, int)> {
    if !(matches_at(t, 0, image_open()) && matches_at(t, t.len() - 2, empty_close())) {
        None
    } else if lt_count(t) != 1 {
        None
    } else {
        let href = match svg_attr_span(t, attr_needle(utf8_of("xlink:href"@)), 0) {
            Some(p) => Some(p),
            None => svg_attr_span(t, attr_needle(utf8_of("href"@)), 0),
        };
        match href {
            None => None,
            Some((a, b)) => if matches_at(t.subrange(a, b), 0, data_scheme()) {
                Some((a, b))
            } else {
                None
            },
        }
    }
}

fn count_lt(s: &[u8]) -> (r: usize)
    ensures
        r == lt_count(s@),
{
    let mut k: usize = 0;
    let mut c: usize = 0;
    while k < s.len()
        invariant
            k <= s@.len(),
            c == lt_count(s@.subrange(0, k as int)),
            c <= k,
        decreases s@.len() - k,
    {
        assert(s@.subrange(0, k + 1).drop_last() =~= s@.subrange(0, k as int));
        if s[k] == 60u8 {
            c = c + 1;
        }
        k = k + 1;
    }
    assert(s@.subrange(0, s@.len() as int) =~= s@);
    c
}

/// The `data:` URL of an SVG fragment that is a single `<image .../>` element
/// (after trimming white space): it must start with `<image`, end with `/>`,
/// hold exactly one `<`, and have an `xlink:href` (or else `href`) value that
/// starts with `data:`.
pub fn try_parse_single_image_data_url<'a>(svg: &'a str) -> (r: Option<&'a str>)
    ensures
        ({
            let s = trim_chars_of(svg@);
            match image_data_url_span(utf8_of(s)) {
                Some((a, b)) => r matches Some(x) && utf8_of(x@) == utf8_of(s).subrange(a, b),
                None => r is None,
            }
        }),
{
    let s = str_trim(svg);
    let t = bytes_of(s);
    let n = t.len();
    let open = image_open_bytes();
    let close = empty_close_bytes();
    if !match_at(t, 0, open.as_slice()) || n < 2 || !match_at(t, n - 2, close.as_slice()) {
        return None;
    }
    if count_lt(t) != 1 {
        return None;
    }
    let href = match find_svg_attr_value(s, "xlink:href") {
        Some(h) => Some(h),
        None => find_svg_attr_value(s, "href"),
    };
    let h = match href {
        None => {
            return None;
        },
        Some(h) => h,
    };
    let hb = bytes_of(h);
    let data = data_scheme_bytes();
    if !match_at(hb, 0, data.as_slice()) {
        return None;
    }
    Some(h)
}

/// `trim` of a character sequence (see `crate::text::trim_chars`).
pub open spec fn trim_chars_of(s: Seq<char>) -> Seq<char> {
    crate::text::trim_chars(s)
}

/// `;base64`.
pub open spec fn base64_marker() -> Seq<u8> {
    seq![59u8, 98, 97, 115, 101, 54, 52]
}

fn base64_marker_bytes() -> (r: Vec<u8>)
    ensures
        r@ == base64_marker(),
{
    let v: Vec<u8> = vec![59u8, 98, 97, 115, 101, 54, 52];
    assert(v@ =~= base64_marker());
    v
}

/// The media type and the payload of a `data:MIME;base64,PAYLOAD` URL.
pub open spec fn data_url_split(u: Seq<u8>) -> Option<(Seq<u8>, Seq<u8>)> {
    if !matches_at(u, 0, data_scheme()) {
        None
    } else {
        let rest = u.subrange(5, u.len() as int);
        match find_spec(rest, 0, seq![44u8]) {
            None => None,
            Some(c) => {
                let header = rest.subrange(0, c);
                if matches_at(header, header.len() - 7, base64_marker()) {
                    Some((header.subrange(0, header.len() - 7), rest.subrange(c + 1, rest.len() as int)))
                } else {
                    None
                }
            },
        }
    }
}

/// What `base64::engine::general_purpose::STANDARD` decodes `input` to
/// (`None` when it refuses the input).
pub uninterp spec fn base64_standard_decode(input: Seq<u8>) -> Option<Seq<u8>>;

/// `base64::engine::general_purpose::STANDARD.decode(input).ok()`: the decoded
/// bytes, or `None` for input that the standard padded alphabet rejects. The
/// result is a function of the input bytes alone; which inputs are rejected
/// and what the others decode to is left to the base64 crate.
#[verifier::external_body]
fn standard_decode(input: &[u8]) -> (r: Option<Vec<u8>>)
    ensures
        match base64_standard_decode(input@) {
            Some(v) => r matches Some(x) && x@ == v,
            None => r is None,
        },
{
    base64::engine::general_purpose::STANDARD.decode(input).ok()
}

/// The media type and payload of a `data:MIME;base64,PAYLOAD` URL, as slices
/// of `data_url`; `None` for other URLs.
pub fn split_base64_data_url<'a>(data_url: &'a str) -> (r: Option<(&'a str, &'a str)>)
    ensures
        match data_url_split(utf8_of(data_url@)) {
            Some((m, p)) => r matches Some((rm, rp)) && utf8_of(rm@) == m && utf8_of(rp@) == p,
            None => r is None,
        },
{
    let u = bytes_of(data_url);
    let n = u.len();
    let data = data_scheme_bytes();
    if !match_at(u, 0, data.as_slice()) {
        return None;
    }
    let c = match find_byte(u, 5, 44u8) {
        None => {
            proof {
                let rest = u@.subrange(5, n as int);
                assert(find_spec(rest, 0, seq![44u8]) is None) by {
                    lemma_find_shift(u@, 5, seq![44u8]);
                }
            }
            return None;
        },
        Some(c) => c,
    };
    proof {
        lemma_find_shift(u@, 5, seq![44u8]);
        lemma_find_spec_bounds(u@, 5, seq![44u8]);
    }
    let marker = base64_marker_bytes();
    if c < 5 + 7 || !match_at(u, c - 7, marker.as_slice()) {
        proof {
            let rest = u@.subrange(5, n as int);
            let header = rest.subrange(0, c - 5);
            if c >= 12 {
                assert(header.subrange(header.len() - 7, header.len() as int) =~= u@.subrange(c - 7, c as int));
            }
        }
        return None;
    }
    proof {
        let rest = u@.subrange(5, n as int);
        let header = rest.subrange(0, c - 5);
        assert(header.subrange(header.len() - 7, header.len() as int) =~= u@.subrange(c - 7, c as int));
        lemma_utf8_of_valid(data_url@);
        assert(u@.subrange(4, 5)[0] == u@[4]);
        lemma_after_ascii(u@, 4);
        assert(u@.subrange(c - 7, c as int)[0] == u@[c - 7]);
        lemma_ascii_cut(u@, c - 7);
        assert(u@.subrange(c as int, c + 1)[0] == u@[c as int]);
        lemma_after_ascii(u@, c as int);
        assert(rest.subrange(0, c - 5 - 7) =~= u@.subrange(5, c - 7));
        assert(rest.subrange(c - 5 + 1, rest.len() as int) =~= u@.subrange(c + 1, n as int));
    }
    let mime = str_slice(data_url, 5, c - 7);
    let payload = str_slice(data_url, c + 1, n);
    Some((mime, payload))
}

proof fn lemma_find_shift(u: Seq<u8>, k: int, pat: Seq<u8>)
    requires
        0 <= k <= u.len(),
    ensures
        match find_spec(u, k, pat) {
            Some(i) => find_spec(u.subrange(k, u.len() as int), 0, pat) == Some(i - k),
            None => find_spec(u.subrange(k, u.len() as int), 0, pat) is None,
        },
{
    lemma_find_shift_from(u, k, k, pat);
}

proof fn lemma_find_shift_from(u: Seq<u8>, k: int, j: int, pat: Seq<u8>)
    requires
        0 <= k <= j,
        k <= u.len(),
    ensures
        match find_spec(u, j, pat) {
            Some(i) => find_spec(u.subrange(k, u.len() as int), j - k, pat) == Some(i - k),
            None => find_spec(u.subrange(k, u.len() as int), j - k, pat) is None,
        },
    decreases u.len() - j,
{
    let v = u.subrange(k, u.len() as int);
    if j + pat.len() <= u.len() {
        assert(matches_at(u, j, pat) == matches_at(v, j - k, pat)) by {
            assert(u.subrange(j, j + pat.len()) =~= v.subrange(j - k, j - k + pat.len()));
        }
        if !matches_at(u, j, pat) {
            lemma_find_shift_from(u, k, j + 1, pat);
        }
    }
}

/// The result of a base64 data URL once its payload went through the decoder:
/// the media type with the decoded bytes, or `None` when decoding failed.
pub fn data_url_result(mime: &str, decoded: Option<Vec<u8>>) -> (r: Option<(String, Vec<u8>)>)
    ensures
        match decoded {
            Some(v) => r matches Some((m, b)) && m@ == mime@ && b@ == v@,
            None => r is None,
        },
{
    match decoded {
        Some(v) => Some((mime.to_owned(), v)),
        None => None,
    }
}

/// Decodes a `data:MIME;base64,PAYLOAD` URL into its media type and bytes;
/// `None` for other URLs (such as percent-encoded ones) or a payload that the
/// standard base64 alphabet rejects.
pub fn decode_base64_data_url(data_url: &str) -> (r: Option<(String, Vec<u8>)>)
    ensures
        match data_url_split(utf8_of(data_url@)) {
            None => r is None,
            Some((m, p)) => match base64_standard_decode(p) {
                None => r is None,
                Some(bytes) => r matches Some((rm, rb)) && utf8_of(rm@) == m && rb@ == bytes,
            },
        },
{
    let (mime, payload) = match split_base64_data_url(data_url) {
        None => {
            return None;
        },
        Some(p) => p,
    };
    let decoded = standard_decode(bytes_of(payload));
    data_url_result(mime, decoded)
}

} // verus!
