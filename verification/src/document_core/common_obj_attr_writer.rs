//! The common object attribute record of an object control, as written to
//! an HWP file: attribute bits, offsets, size, z-order, outer margins,
//! instance id, page-break protection and the description (UTF-16LE, with
//! its length in code units first), all little-endian.

use vstd::prelude::*;
use crate::model::CommonObjAttr;
use crate::text::{utf16_of, le_units, le16_bytes, push_le16, utf16_le_of, lemma_le_units_len};
use crate::emf::parser::le32;
use crate::scan::push_all;

verus! {

/// Little-endian bytes of a 32-bit value.
pub open spec fn le32_bytes(v: u32) -> Seq<u8> {
    seq![(v % 256) as u8, ((v / 256) % 256) as u8, ((v / 65536) % 256) as u8, (v / 16777216) as u8]
}

/// The record of `c`: its attribute bits, then the rest.
pub open spec fn common_obj_attr_bytes(c: CommonObjAttr) -> Seq<u8> {
    le32_bytes(c.attr) + common_obj_attr_tail(c)
}

/// The record of `c` after the attribute bits.
pub open spec fn common_obj_attr_tail(c: CommonObjAttr) -> Seq<u8> {
    let d = utf16_of(c.description@);
    le32_bytes(c.vertical_offset) + le32_bytes(c.horizontal_offset)
        + le32_bytes(c.width) + le32_bytes(c.height) + le32_bytes(c.z_order as u32)
        + le16_bytes(c.margin[0] as u16) + le16_bytes(c.margin[1] as u16)
        + le16_bytes(c.margin[2] as u16) + le16_bytes(c.margin[3] as u16)
        + le32_bytes(c.instance_id) + le32_bytes(c.prevent_page_break as u32)
        + le16_bytes(d.len() as u16) + le_units(d)
}

/// Four bytes written by `le32_bytes` read back as the value.
pub proof fn lemma_le32_bytes(v: u32, b: Seq<u8>)
    requires
        b.len() >= 4,
        b.subrange(0, 4) == le32_bytes(v),
    ensures
        le32(b, 0) == v,
{
    assert(b[0] == b.subrange(0, 4)[0]);
    assert(b[1] == b.subrange(0, 4)[1]);
    assert(b[2] == b.subrange(0, 4)[2]);
    assert(b[3] == b.subrange(0, 4)[3]);
    assert((v % 256) + ((v / 256) % 256) * 256 + ((v / 65536) % 256) * 65536 + (v / 16777216) * 16777216 == v)
        by (bit_vector);
}

/// The record starts with the attribute bits, which read back as they were.
pub proof fn lemma_common_obj_attr_starts_with_attr(c: CommonObjAttr)
    ensures
        common_obj_attr_bytes(c).len() >= 4,
        le32(common_obj_attr_bytes(c), 0) == c.attr,
{
    let b = common_obj_attr_bytes(c);
    assert(b.subrange(0, 4) =~= le32_bytes(c.attr));
    lemma_le32_bytes(c.attr, b);
}

fn push_le32(out: &mut Vec<u8>, v: u32)
    ensures
        final(out)@ == old(out)@ + le32_bytes(v),
{
    out.push((v % 256) as u8);
    out.push(((v / 256) % 256) as u8);
    out.push(((v / 65536) % 256) as u8);
    out.push((v / 16777216) as u8);
}

/// Writes the common object attribute record of `c`.
pub fn serialize_common_obj_attr(c: &CommonObjAttr) -> (r: Vec<u8>)
    ensures
        r@ == common_obj_attr_bytes(*c),
{
    let mut out: Vec<u8> = Vec::new();
    push_le32(&mut out, c.attr);
    let ghost head = out@;
    push_le32(&mut out, c.vertical_offset);
    push_le32(&mut out, c.horizontal_offset);
    push_le32(&mut out, c.width);
    push_le32(&mut out, c.height);
    push_le32(&mut out, c.z_order as u32);
    push_le16(&mut out, c.margin[0] as u16);
    push_le16(&mut out, c.margin[1] as u16);
    push_le16(&mut out, c.margin[2] as u16);
    push_le16(&mut out, c.margin[3] as u16);
    push_le32(&mut out, c.instance_id);
    push_le32(&mut out, c.prevent_page_break as u32);
    let d = utf16_le_of(c.description.as_str());
    proof {
        lemma_le_units_len(utf16_of(c.description@));
    }
    let units = d.len() / 2;
    push_le16(&mut out, units as u16);
    push_all(&mut out, d.as_slice());
    proof {
        assert(out@.subrange(4, out@.len() as int) =~= common_obj_attr_tail(*c));
        assert(out@ =~= head + out@.subrange(4, out@.len() as int));
    }
    out
}

} // verus!
