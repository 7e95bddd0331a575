//! What the native chart rendering computes exactly: the series colours and
//! the escaping of text put into the SVG.

use vstd::prelude::*;
use crate::text::{utf8_of, all_ascii, string_of_ascii, string_of_valid, bytes_of, cut_ok, lemma_subrange_valid,
    lemma_after_ascii, lemma_concat_valid, lemma_ascii_valid};
use crate::scan::push_all;
use vstd::utf8::valid_utf8;

verus! {

/// The default series colours (`0xAARRGGBB`), used in turn.
pub open spec fn palette_spec(i: nat) -> u32 {
    let k = i % 8;
    if k == 0 {
        0xFF4A90E2
    } else if k == 1 {
        0xFFF5A623
    } else if k == 2 {
        0xFF7ED321
    } else if k == 3 {
        0xFFBD10E0
    } else if k == 4 {
        0xFFD0021B
    } else if k == 5 {
        0xFF417505
    } else if k == 6 {
        0xFF9013FE
    } else {
        0xFF50E3C2
    }
}

/// The default colour of series `i`.
pub fn palette(i: usize) -> (r: u32)
    ensures
        r == palette_spec(i as nat),
{
    let k = i % 8;
    if k == 0 {
        0xFF4A90E2
    } else if k == 1 {
        0xFFF5A623
    } else if k == 2 {
        0xFF7ED321
    } else if k == 3 {
        0xFFBD10E0
    } else if k == 4 {
        0xFFD0021B
    } else if k == 5 {
        0xFF417505
    } else if k == 6 {
        0xFF9013FE
    } else {
        0xFF50E3C2
    }
}

/// The lowercase hexadecimal digit of `d < 16`.
pub open spec fn hex_digit(d: nat) -> u8 {
    if d < 10 {
        (48 + d) as u8
    } else {
        (87 + d) as u8
    }
}

/// `#rrggbb` of the low 24 bits `v` of a colour.
pub open spec fn color_hex_text(v: nat) -> Seq<u8> {
    seq![
        35u8,
        hex_digit((v / 1048576) % 16),
        hex_digit((v / 65536) % 16),
        hex_digit((v / 4096) % 16),
        hex_digit((v / 256) % 16),
        hex_digit((v / 16) % 16),
        hex_digit(v % 16),
    ]
}

fn hex_digit_exec(d: u32) -> (r: u8)
    requires
        d < 16,
    ensures
        r == hex_digit(d as nat),
        r < 0x80,
{
    if d < 10 {
        (48 + d) as u8
    } else {
        (87 + d) as u8
    }
}

/// `#rrggbb` of a colour: the alpha byte is dropped.
pub fn color_hex(c: u32) -> (r: String)
    ensures
        utf8_of(r@) == color_hex_text((c % 16777216) as nat),
{
    let v = c & 0xFFFFFF;
    assert(v == c % 16777216) by (bit_vector)
        requires
            v == c & 0xFFFFFF,
    ;
    let mut out: Vec<u8> = Vec::new();
    out.push(35u8);
    out.push(hex_digit_exec((v / 1048576) % 16));
    out.push(hex_digit_exec((v / 65536) % 16));
    out.push(hex_digit_exec((v / 4096) % 16));
    out.push(hex_digit_exec((v / 256) % 16));
    out.push(hex_digit_exec((v / 16) % 16));
    out.push(hex_digit_exec(v % 16));
    assert(out@ =~= color_hex_text(v as nat));
    assert(all_ascii(out@));
    string_of_ascii(out)
}


/// The colour of series `idx`: its own, else the default one.
pub fn series_color(color: Option<u32>, idx: usize) -> (r: String)
    ensures
        utf8_of(r@) == color_hex_text(((match color {
            Some(c) => c,
            None => palette_spec(idx as nat),
        }) % 16777216) as nat),
{
    let c = match color {
        Some(c) => c,
        None => palette(idx),
    };
    color_hex(c)
}

/// The bytes that stand for byte `b` in XML text: an entity for `<`, `>`,
/// `&`, `"` and `'`, else the byte itself.
pub open spec fn entity(b: u8) -> Seq<u8> {
    if b == 60 {
        seq![38u8, 108, 116, 59]
    } else if b == 62 {
        seq![38u8, 103, 116, 59]
    } else if b == 38 {
        seq![38u8, 97, 109, 112, 59]
    } else if b == 34 {
        seq![38u8, 113, 117, 111, 116, 59]
    } else if b == 39 {
        seq![38u8, 97, 112, 111, 115, 59]
    } else {
        seq![b]
    }
}

pub open spec fn special(b: u8) -> bool {
    b == 60 || b == 62 || b == 38 || b == 34 || b == 39
}

/// `b` with each of its bytes replaced as `entity` says.
pub open spec fn xml_escaped(b: Seq<u8>) -> Seq<u8>
    decreases b.len(),
{
    if b.len() == 0 {
        seq![]
    } else {
        xml_escaped(b.drop_last()) + entity(b.last())
    }
}

proof fn lemma_escaped_concat(a: Seq<u8>, c: Seq<u8>)
    ensures
        xml_escaped(a + c) == xml_escaped(a) + xml_escaped(c),
    decreases c.len(),
{
    if c.len() == 0 {
        assert(a + c =~= a);
        assert(xml_escaped(a) + xml_escaped(c) =~= xml_escaped(a));
    } else {
        lemma_escaped_concat(a, c.drop_last());
        assert((a + c).drop_last() =~= a + c.drop_last());
        assert(xml_escaped(a) + xml_escaped(c) =~= xml_escaped(a) + xml_escaped(c.drop_last()) + entity(c.last()));
    }
}

proof fn lemma_escaped_plain(a: Seq<u8>)
    requires
        forall|k: int| 0 <= k < a.len() ==> !special(#[trigger] a[k]),
    ensures
        xml_escaped(a) == a,
    decreases a.len(),
{
    if a.len() > 0 {
        lemma_escaped_plain(a.drop_last());
        assert(!special(a[a.len() - 1]));
        assert(xml_escaped(a) =~= a);
    }
}

/// Escaping keeps valid UTF-8 valid.
proof fn lemma_escaped_valid(b: Seq<u8>)
    requires
        valid_utf8(b),
    ensures
        valid_utf8(xml_escaped(b)),
    decreases b.len(),
{
    if exists|k: int| 0 <= k < b.len() && special(#[trigger] b[k]) {
        let k = choose|k: int| 0 <= k < b.len() && special(#[trigger] b[k]);
        let front = b.subrange(0, k);
        let back = b.subrange(k + 1, b.len() as int);
        assert(cut_ok(b, k));
        lemma_after_ascii(b, k);
        lemma_subrange_valid(b, 0, k);
        lemma_subrange_valid(b, k + 1, b.len() as int);
        lemma_escaped_valid(front);
        lemma_escaped_valid(back);
        assert(b =~= front + seq![b[k]] + back);
        lemma_escaped_concat(front + seq![b[k]], back);
        lemma_escaped_concat(front, seq![b[k]]);
        assert(xml_escaped(seq![b[k]]) =~= entity(b[k])) by {
            let one = seq![b[k]];
            assert(one.drop_last() =~= Seq::<u8>::empty());
            assert(xml_escaped(one.drop_last()) == Seq::<u8>::empty());
            assert(one.last() == b[k]);
            assert(Seq::<u8>::empty() + entity(b[k]) =~= entity(b[k]));
        }
        assert(all_ascii(entity(b[k])));
        lemma_ascii_valid(entity(b[k]));
        lemma_concat_valid(xml_escaped(front), entity(b[k]));
        lemma_concat_valid(xml_escaped(front) + entity(b[k]), xml_escaped(back));
    } else {
        lemma_escaped_plain(b);
    }
}

/// The text `s` escaped for XML: `<`, `>`, `&`, `"` and `'` become
/// `&lt;`, `&gt;`, `&amp;`, `&quot;` and `&apos;`.
pub fn xml_escape(s: &str) -> (r: String)
    ensures
        utf8_of(r@) == xml_escaped(utf8_of(s@)),
{
    let b = bytes_of(s);
    let mut out: Vec<u8> = Vec::new();
    let n = b.len();
    let mut i: usize = 0;
    while i < n
        invariant
            n == b@.len(),
            i <= n,
            out@ == xml_escaped(b@.subrange(0, i as int)),
        decreases n - i,
    {
        let x = b[i];
        proof {
            assert(b@.subrange(0, i + 1).drop_last() =~= b@.subrange(0, i as int));
        }
        let ghost before = out@;
        if x == 60 {
            push_all(&mut out, &[38u8, 108, 116, 59]);
        } else if x == 62 {
            push_all(&mut out, &[38u8, 103, 116, 59]);
        } else if x == 38 {
            push_all(&mut out, &[38u8, 97, 109, 112, 59]);
        } else if x == 34 {
            push_all(&mut out, &[38u8, 113, 117, 111, 116, 59]);
        } else if x == 39 {
            push_all(&mut out, &[38u8, 97, 112, 111, 115, 59]);
        } else {
            out.push(x);
        }
        assert(out@ =~= before + entity(x));
        i = i + 1;
    }
    proof {
        assert(b@.subrange(0, n as int) =~= b@);
        lemma_escaped_valid(b@);
    }
    let r = string_of_valid(out);
    r
}

} // verus!
