//! Parsed EMF records.

use vstd::prelude::*;
use super::super::Error;
use super::objects::{Header, HeaderExt1, HeaderExt2, RectL, SizeL};
use super::{Cursor, le32, le16, read_le32, read_le16, spec_record_header};

verus! {

/// `" EMF"`, the signature of `EMR_HEADER`.
pub const EMF_SIGNATURE: u32 = 0x464D4520;

/// A parsed EMF record: the header, the end marker, and every other record
/// kept as its type and payload (the bytes after type and size).
#[derive(Debug, Clone)]
pub enum Record {
    Header(Header),
    Eof,
    Unknown { record_type: u32, payload: Vec<u8> },
}

pub enum RecordView {
    Header(Header),
    Eof,
    Unknown(u32, Seq<u8>),
}

impl View for Record {
    type V = RecordView;

    open spec fn view(&self) -> RecordView {
        match self {
            Record::Header(h) => RecordView::Header(*h),
            Record::Eof => RecordView::Eof,
            Record::Unknown { record_type, payload } => RecordView::Unknown(*record_type, payload@),
        }
    }
}

/// The header fields of the `EMR_HEADER` record bytes `r` (at least 88 bytes;
/// the extensions when the record is long enough to hold them).
pub open spec fn header_of(r: Seq<u8>) -> Header {
    Header {
        bounds: RectL {
            left: le32(r, 8) as i32,
            top: le32(r, 12) as i32,
            right: le32(r, 16) as i32,
            bottom: le32(r, 20) as i32,
        },
        frame: RectL {
            left: le32(r, 24) as i32,
            top: le32(r, 28) as i32,
            right: le32(r, 32) as i32,
            bottom: le32(r, 36) as i32,
        },
        signature: le32(r, 40),
        version: le32(r, 44),
        bytes: le32(r, 48),
        records: le32(r, 52),
        handles: le16(r, 56),
        reserved: le16(r, 58),
        n_description: le32(r, 60),
        off_description: le32(r, 64),
        n_pal_entries: le32(r, 68),
        device: SizeL { cx: le32(r, 72) as i32, cy: le32(r, 76) as i32 },
        millimeters: SizeL { cx: le32(r, 80) as i32, cy: le32(r, 84) as i32 },
        ext1: if r.len() >= 100 {
            Some(HeaderExt1 { cb_pixel_format: le32(r, 88), off_pixel_format: le32(r, 92), b_open_gl: le32(r, 96) })
        } else {
            None
        },
        ext2: if r.len() >= 108 {
            Some(HeaderExt2 { micrometers_x: le32(r, 100), micrometers_y: le32(r, 104) })
        } else {
            None
        },
    }
}

/// The `EMR_HEADER` record at `pos`: its header must be valid, its size at
/// least 88, all of it present, and its signature `" EMF"`.
pub open spec fn spec_header_record(b: Seq<u8>, pos: int) -> Result<Header, Error> {
    match spec_record_header(b, pos) {
        Err(e) => Err(e),
        Ok(rh) => if rh.size < 88 {
            Err(Error::RecordTooSmall { offset: pos as usize, size: rh.size })
        } else if b.len() - pos < rh.size {
            Err(Error::UnexpectedEof { at: pos as usize, need: rh.size as usize })
        } else {
            let h = header_of(b.subrange(pos, pos + rh.size));
            if h.signature != EMF_SIGNATURE {
                Err(Error::InvalidSignature { got: h.signature })
            } else {
                Ok(h)
            }
        },
    }
}

/// Reads the `EMR_HEADER` record at the cursor (all of it is consumed on success).
pub fn parse_header_record(cursor: &mut Cursor) -> (r: Result<Header, Error>)
    ensures
        final(cursor).data() == old(cursor).data(),
        r == spec_header_record(old(cursor).data(), old(cursor).offset()),
        r is Ok ==> final(cursor).offset() == old(cursor).offset() + spec_record_header(
            old(cursor).data(),
            old(cursor).offset(),
        )->Ok_0.size,
{
    let rh = match cursor.peek_record_header() {
        Ok(h) => h,
        Err(e) => {
            return Err(e);
        },
    };
    let start = cursor.position();
    if rh.size < 88 {
        return Err(Error::RecordTooSmall { offset: start, size: rh.size });
    }
    let r = match cursor.take(rh.size as usize) {
        Ok(r) => r,
        Err(e) => {
            return Err(e);
        },
    };
    let n = r.len();
    let ext1 = if n >= 100 {
        Some(HeaderExt1 { cb_pixel_format: read_le32(r, 88), off_pixel_format: read_le32(r, 92), b_open_gl: read_le32(r, 96) })
    } else {
        None
    };
    let ext2 = if n >= 108 {
        Some(HeaderExt2 { micrometers_x: read_le32(r, 100), micrometers_y: read_le32(r, 104) })
    } else {
        None
    };
    let h = Header {
        bounds: RectL {
            left: read_le32(r, 8) as i32,
            top: read_le32(r, 12) as i32,
            right: read_le32(r, 16) as i32,
            bottom: read_le32(r, 20) as i32,
        },
        frame: RectL {
            left: read_le32(r, 24) as i32,
            top: read_le32(r, 28) as i32,
            right: read_le32(r, 32) as i32,
            bottom: read_le32(r, 36) as i32,
        },
        signature: read_le32(r, 40),
        version: read_le32(r, 44),
        bytes: read_le32(r, 48),
        records: read_le32(r, 52),
        handles: read_le16(r, 56),
        reserved: read_le16(r, 58),
        n_description: read_le32(r, 60),
        off_description: read_le32(r, 64),
        n_pal_entries: read_le32(r, 68),
        device: SizeL { cx: read_le32(r, 72) as i32, cy: read_le32(r, 76) as i32 },
        millimeters: SizeL { cx: read_le32(r, 80) as i32, cy: read_le32(r, 84) as i32 },
        ext1,
        ext2,
    };
    assert(h == header_of(r@));
    if h.signature != EMF_SIGNATURE {
        return Err(Error::InvalidSignature { got: h.signature });
    }
    Ok(h)
}

// ───────────────────────────── Where the rectangles come from ─────────────────────────────

/// The four little-endian bytes of `v`.
pub open spec fn le32_bytes(v: u32) -> Seq<u8> {
    seq![(v % 256) as u8, ((v / 256) % 256) as u8, ((v / 65536) % 256) as u8, ((v / 16777216) % 256) as u8]
}

/// A `RECTL` as it is stored: `left`, `top`, `right`, `bottom`, each a
/// little-endian 32-bit integer.
pub open spec fn rectl_bytes(r: RectL) -> Seq<u8> {
    le32_bytes(r.left as u32) + le32_bytes(r.top as u32) + le32_bytes(r.right as u32) + le32_bytes(r.bottom as u32)
}

proof fn lemma_le32_bytes(b: Seq<u8>, i: int)
    requires
        0 <= i,
        i + 4 <= b.len(),
    ensures
        le32_bytes((le32(b, i) as i32) as u32) == b.subrange(i, i + 4),
{
    let b0 = b[i];
    let b1 = b[i + 1];
    let b2 = b[i + 2];
    let b3 = b[i + 3];
    let v: u32 = le32(b, i);
    assert(v == (b0 as u32) + (b1 as u32) * 256 + (b2 as u32) * 65536 + (b3 as u32) * 16777216) by {
        assert(0 <= b0 as int + b1 as int * 256 + b2 as int * 65536 + b3 as int * 16777216 <= 0xffff_ffff)
            by (nonlinear_arith)
            requires
                b0 < 256,
                b1 < 256,
                b2 < 256,
                b3 < 256,
        ;
    }
    assert((v as i32) as u32 == v) by (bit_vector);
    assert(v % 256 == b0 as u32 && (v / 256) % 256 == b1 as u32 && (v / 65536) % 256 == b2 as u32
        && (v / 16777216) % 256 == b3 as u32) by (bit_vector)
        requires
            v == (b0 as u32) + (b1 as u32) * 256 + (b2 as u32) * 65536 + (b3 as u32) * 16777216,
    ;
    assert(le32_bytes(v) =~= b.subrange(i, i + 4));
}

/// The `RECTL` stored at `r[i..i + 16]`.
pub open spec fn rectl_at(r: Seq<u8>, i: int) -> RectL {
    RectL {
        left: le32(r, i) as i32,
        top: le32(r, i + 4) as i32,
        right: le32(r, i + 8) as i32,
        bottom: le32(r, i + 12) as i32,
    }
}

proof fn lemma_rectl_bytes(r: Seq<u8>, i: int)
    requires
        0 <= i,
        i + 16 <= r.len(),
    ensures
        rectl_bytes(rectl_at(r, i)) == r.subrange(i, i + 16),
{
    lemma_le32_bytes(r, i);
    lemma_le32_bytes(r, i + 4);
    lemma_le32_bytes(r, i + 8);
    lemma_le32_bytes(r, i + 12);
    assert(r.subrange(i, i + 16) =~= r.subrange(i, i + 4) + r.subrange(i + 4, i + 8) + r.subrange(i + 8, i + 12)
        + r.subrange(i + 12, i + 16));
}

/// The two little-endian bytes of `v`.
pub open spec fn le16_bytes(v: u16) -> Seq<u8> {
    seq![(v % 256) as u8, ((v / 256) % 256) as u8]
}

proof fn lemma_le32_bytes_u(b: Seq<u8>, i: int)
    requires
        0 <= i,
        i + 4 <= b.len(),
    ensures
        le32_bytes(le32(b, i)) == b.subrange(i, i + 4),
{
    lemma_le32_bytes(b, i);
    let v = le32(b, i);
    assert((v as i32) as u32 == v) by (bit_vector);
}

proof fn lemma_le16_bytes(b: Seq<u8>, i: int)
    requires
        0 <= i,
        i + 2 <= b.len(),
    ensures
        le16_bytes(le16(b, i)) == b.subrange(i, i + 2),
{
    let b0 = b[i];
    let b1 = b[i + 1];
    let v: u16 = le16(b, i);
    assert(v == (b0 as u16) + (b1 as u16) * 256) by {
        assert(0 <= b0 as int + b1 as int * 256 <= 0xffff) by (nonlinear_arith)
            requires
                b0 < 256,
                b1 < 256,
        ;
    }
    assert(v % 256 == b0 as u16 && (v / 256) % 256 == b1 as u16) by (bit_vector)
        requires
            v == (b0 as u16) + (b1 as u16) * 256,
    ;
    assert(le16_bytes(v) =~= b.subrange(i, i + 2));
}

/// The fixed fields of an `EMR_HEADER` after type and size, as they are
/// stored: `rclBounds`, `rclFrame`, `dSignature`, `nVersion`, `nBytes`,
/// `nRecords`, `nHandles`, `sReserved`, `nDescription`, `offDescription`,
/// `nPalEntries`, `szlDevice`, `szlMillimeters`, little-endian.
#[verifier::opaque]
pub open spec fn header_fields_bytes(h: Header) -> Seq<u8> {
    rectl_bytes(h.bounds) + rectl_bytes(h.frame) + le32_bytes(h.signature) + le32_bytes(h.version) + le32_bytes(
        h.bytes,
    ) + le32_bytes(h.records) + le16_bytes(h.handles) + le16_bytes(h.reserved) + le32_bytes(h.n_description)
        + le32_bytes(h.off_description) + le32_bytes(h.n_pal_entries) + le32_bytes(h.device.cx as u32) + le32_bytes(
        h.device.cy as u32,
    ) + le32_bytes(h.millimeters.cx as u32) + le32_bytes(h.millimeters.cy as u32)
}

proof fn lemma_subrange_join(r: Seq<u8>, i: int, j: int, k: int)
    requires
        0 <= i <= j <= k <= r.len(),
    ensures
        r.subrange(i, j) + r.subrange(j, k) == r.subrange(i, k),
{
    assert(r.subrange(i, j) + r.subrange(j, k) =~= r.subrange(i, k));
}

/// The fixed fields of `h` are those stored in the record bytes `r`.
spec fn fields_read_from(h: Header, r: Seq<u8>) -> bool {
    &&& h.bounds == rectl_at(r, 8)
    &&& h.frame == rectl_at(r, 24)
    &&& h.signature == le32(r, 40) && h.version == le32(r, 44) && h.bytes == le32(r, 48) && h.records == le32(r, 52)
    &&& h.handles == le16(r, 56) && h.reserved == le16(r, 58)
    &&& h.n_description == le32(r, 60) && h.off_description == le32(r, 64) && h.n_pal_entries == le32(r, 68)
    &&& h.device.cx == le32(r, 72) as i32 && h.device.cy == le32(r, 76) as i32
    &&& h.millimeters.cx == le32(r, 80) as i32 && h.millimeters.cy == le32(r, 84) as i32
}

proof fn lemma_header_of_fields(r: Seq<u8>)
    ensures
        fields_read_from(header_of(r), r),
{
}

proof fn lemma_header_of_bytes(h: Header, r: Seq<u8>)
    requires
        r.len() >= 88,
        fields_read_from(h, r),
    ensures
        header_fields_bytes(h) == r.subrange(8, 88),
{
    reveal(header_fields_bytes);
    lemma_rectl_bytes(r, 8);
    lemma_rectl_bytes(r, 24);
    lemma_le32_bytes_u(r, 40);
    lemma_le32_bytes_u(r, 44);
    lemma_le32_bytes_u(r, 48);
    lemma_le32_bytes_u(r, 52);
    lemma_le16_bytes(r, 56);
    lemma_le16_bytes(r, 58);
    lemma_le32_bytes_u(r, 60);
    lemma_le32_bytes_u(r, 64);
    lemma_le32_bytes_u(r, 68);
    lemma_le32_bytes(r, 72);
    lemma_le32_bytes(r, 76);
    lemma_le32_bytes(r, 80);
    lemma_le32_bytes(r, 84);
    lemma_subrange_join(r, 8, 24, 40);
    lemma_subrange_join(r, 8, 40, 44);
    lemma_subrange_join(r, 8, 44, 48);
    lemma_subrange_join(r, 8, 48, 52);
    lemma_subrange_join(r, 8, 52, 56);
    lemma_subrange_join(r, 8, 56, 58);
    lemma_subrange_join(r, 8, 58, 60);
    lemma_subrange_join(r, 8, 60, 64);
    lemma_subrange_join(r, 8, 64, 68);
    lemma_subrange_join(r, 8, 68, 72);
    lemma_subrange_join(r, 8, 72, 76);
    lemma_subrange_join(r, 8, 76, 80);
    lemma_subrange_join(r, 8, 80, 84);
    lemma_subrange_join(r, 8, 84, 88);
}

/// The header read from an `EMR_HEADER` record is the one stored in it:
/// bytes 8..88 of the record are its fixed fields in their order, so
/// `rclBounds` is at 8..24 and `rclFrame` at 24..40, each as `left`, `top`,
/// `right`, `bottom`.
#[verifier::spinoff_prover]
#[verifier::rlimit(50)]
pub proof fn lemma_header_fields_as_stored(b: Seq<u8>, pos: int)
    requires
        0 <= pos,
    ensures
        spec_header_record(b, pos) matches Ok(h) ==> {
            &&& b.subrange(pos + 8, pos + 88) == header_fields_bytes(h)
            &&& b.subrange(pos + 8, pos + 24) == rectl_bytes(h.bounds)
            &&& b.subrange(pos + 24, pos + 40) == rectl_bytes(h.frame)
        },
{
    if let Ok(h) = spec_header_record(b, pos) {
        let rh = spec_record_header(b, pos)->Ok_0;
        let r = b.subrange(pos, pos + rh.size);
        assert(r.len() >= 88);
        lemma_header_of_fields(r);
        assert(fields_read_from(h, r));
        lemma_header_of_bytes(h, r);
        lemma_rectl_bytes(r, 8);
        lemma_rectl_bytes(r, 24);
        assert(b.subrange(pos + 8, pos + 88) =~= r.subrange(8, 88));
        assert(b.subrange(pos + 8, pos + 24) =~= r.subrange(8, 24));
        assert(b.subrange(pos + 24, pos + 40) =~= r.subrange(24, 40));
    }
}

} // verus!
