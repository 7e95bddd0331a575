//! The EMF record stream: a little-endian cursor and the record dispatcher.

pub mod objects;
pub mod records;

use vstd::prelude::*;
use super::Error;
use crate::scan::push_all;
use self::objects::Header;
use self::records::{Record, RecordView, spec_header_record, parse_header_record};

verus! {

/// `RecordType` of `EMR_HEADER`.
pub const RT_HEADER: u32 = 1;

/// `RecordType` of `EMR_EOF`.
pub const RT_EOF: u32 = 14;

/// The little-endian `u32` at `b[i..i + 4]`.
pub open spec fn le32(b: Seq<u8>, i: int) -> u32 {
    (b[i] as int + b[i + 1] as int * 256 + b[i + 2] as int * 65536 + b[i + 3] as int * 16777216) as u32
}

/// The little-endian `u16` at `b[i..i + 2]`.
pub open spec fn le16(b: Seq<u8>, i: int) -> u16 {
    (b[i] as int + b[i + 1] as int * 256) as u16
}

pub fn read_le32(s: &[u8], i: usize) -> (r: u32)
    requires
        i + 4 <= s@.len(),
    ensures
        r == le32(s@, i as int),
{
    (s[i] as u32) + (s[i + 1] as u32) * 256 + (s[i + 2] as u32) * 65536 + (s[i + 3] as u32) * 16777216
}

pub fn read_le16(s: &[u8], i: usize) -> (r: u16)
    requires
        i + 2 <= s@.len(),
    ensures
        r == le16(s@, i as int),
{
    (s[i] as u16) + (s[i + 1] as u16) * 256
}

/// The common 8-byte header of a record.
#[derive(Debug, Clone, Copy)]
pub struct RecordHeader {
    pub record_type: u32,
    pub size: u32,
}

/// The record header at offset `pos` of `b`, checked: at least 8 bytes must
/// remain, and the size must be at least 8 and a multiple of 4.
pub open spec fn spec_record_header(b: Seq<u8>, pos: int) -> Result<RecordHeader, Error> {
    if b.len() - pos < 8 {
        Err(Error::UnexpectedEof { at: pos as usize, need: 8 })
    } else {
        let size = le32(b, pos + 4);
        if size < 8 {
            Err(Error::RecordTooSmall { offset: pos as usize, size })
        } else if size % 4 != 0 {
            Err(Error::MisalignedRecord { offset: pos as usize, size })
        } else {
            Ok(RecordHeader { record_type: le32(b, pos), size })
        }
    }
}

/// A little-endian reader over a byte buffer.
pub struct Cursor<'a> {
    buf: &'a [u8],
    pos: usize,
}

impl<'a> Cursor<'a> {
    #[verifier::type_invariant]
    spec fn inv(self) -> bool {
        self.pos <= self.buf@.len()
    }

    /// The bytes being read.
    pub closed spec fn data(self) -> Seq<u8> {
        self.buf@
    }

    /// The read position.
    pub closed spec fn offset(self) -> int {
        self.pos as int
    }

    pub fn new(buf: &'a [u8]) -> (r: Self)
        ensures
            r.data() == buf@,
            r.offset() == 0,
    {
        Self { buf, pos: 0 }
    }

    pub fn position(&self) -> (r: usize)
        ensures
            r == self.offset(),
            r <= self.data().len(),
    {
        proof {
            use_type_invariant(self);
        }
        self.pos
    }

    pub fn remaining(&self) -> (r: usize)
        ensures
            r == self.data().len() - self.offset(),
    {
        proof {
            use_type_invariant(self);
        }
        self.buf.len() - self.pos
    }

    pub fn is_empty(&self) -> (r: bool)
        ensures
            r == (self.offset() >= self.data().len()),
            0 <= self.offset() <= self.data().len(),
    {
        proof {
            use_type_invariant(self);
        }
        self.pos >= self.buf.len()
    }

    /// The next `n` bytes, consumed; `UnexpectedEof` (nothing consumed) when
    /// fewer remain.
    pub fn take(&mut self, n: usize) -> (r: Result<&'a [u8], Error>)
        ensures
            final(self).data() == old(self).data(),
            old(self).data().len() - old(self).offset() < n ==> r == Err::<&[u8], Error>(
                Error::UnexpectedEof { at: old(self).offset() as usize, need: n },
            ) && final(self).offset() == old(self).offset(),
            old(self).data().len() - old(self).offset() >= n ==> (r matches Ok(s) && s@ == old(
                self,
            ).data().subrange(old(self).offset(), old(self).offset() + n) && final(self).offset()
                == old(self).offset() + n),
    {
        proof {
            use_type_invariant(&*self);
        }
        let len = self.buf.len();
        if self.remaining() < n {
            return Err(Error::UnexpectedEof { at: self.pos, need: n });
        }
        let s = &self.buf[self.pos..self.pos + n];
        self.pos = self.pos + n;
        Ok(s)
    }

    /// The next `n` bytes, not consumed; `UnexpectedEof` when fewer remain.
    pub fn peek(&self, n: usize) -> (r: Result<&'a [u8], Error>)
        ensures
            self.data().len() - self.offset() < n ==> r == Err::<&[u8], Error>(
                Error::UnexpectedEof { at: self.offset() as usize, need: n },
            ),
            self.data().len() - self.offset() >= n ==> (r matches Ok(s) && s@ == self.data().subrange(
                self.offset(),
                self.offset() + n,
            )),
    {
        proof {
            use_type_invariant(self);
        }
        let len = self.buf.len();
        if self.remaining() < n {
            return Err(Error::UnexpectedEof { at: self.pos, need: n });
        }
        Ok(&self.buf[self.pos..self.pos + n])
    }

    /// The next little-endian `u32`, consumed.
    pub fn u32(&mut self) -> (r: Result<u32, Error>)
        ensures
            final(self).data() == old(self).data(),
            old(self).data().len() - old(self).offset() < 4 ==> r == Err::<u32, Error>(
                Error::UnexpectedEof { at: old(self).offset() as usize, need: 4 },
            ) && final(self).offset() == old(self).offset(),
            old(self).data().len() - old(self).offset() >= 4 ==> r == Ok::<u32, Error>(
                le32(old(self).data(), old(self).offset()),
            ) && final(self).offset() == old(self).offset() + 4,
    {
        let b = match self.take(4) {
            Ok(b) => b,
            Err(e) => {
                return Err(e);
            },
        };
        Ok(read_le32(b, 0))
    }

    /// The next little-endian `i32` (the `u32` reinterpreted), consumed.
    pub fn i32(&mut self) -> (r: Result<i32, Error>)
        ensures
            final(self).data() == old(self).data(),
            old(self).data().len() - old(self).offset() < 4 ==> r == Err::<i32, Error>(
                Error::UnexpectedEof { at: old(self).offset() as usize, need: 4 },
            ) && final(self).offset() == old(self).offset(),
            old(self).data().len() - old(self).offset() >= 4 ==> r == Ok::<i32, Error>(
                le32(old(self).data(), old(self).offset()) as i32,
            ) && final(self).offset() == old(self).offset() + 4,
    {
        match self.u32() {
            Ok(v) => Ok(v as i32),
            Err(e) => Err(e),
        }
    }

    /// The next little-endian `u16`, consumed.
    pub fn u16(&mut self) -> (r: Result<u16, Error>)
        ensures
            final(self).data() == old(self).data(),
            old(self).data().len() - old(self).offset() < 2 ==> r == Err::<u16, Error>(
                Error::UnexpectedEof { at: old(self).offset() as usize, need: 2 },
            ) && final(self).offset() == old(self).offset(),
            old(self).data().len() - old(self).offset() >= 2 ==> r == Ok::<u16, Error>(
                le16(old(self).data(), old(self).offset()),
            ) && final(self).offset() == old(self).offset() + 2,
    {
        let b = match self.take(2) {
            Ok(b) => b,
            Err(e) => {
                return Err(e);
            },
        };
        Ok(read_le16(b, 0))
    }

    /// The header of the record at the read position, not consumed.
    pub fn peek_record_header(&self) -> (r: Result<RecordHeader, Error>)
        ensures
            r == spec_record_header(self.data(), self.offset()),
    {
        let b = match self.peek(8) {
            Ok(b) => b,
            Err(e) => {
                return Err(e);
            },
        };
        let record_type = read_le32(b, 0);
        let size = read_le32(b, 4);
        proof {
            let d = self.data().subrange(self.offset(), self.offset() + 8);
            assert(d[0] == self.data()[self.offset()]);
            assert(d[4] == self.data()[self.offset() + 4]);
        }
        assert(record_type == le32(self.data(), self.offset()));
        assert(size == le32(self.data(), self.offset() + 4));
        if size < 8 {
            return Err(Error::RecordTooSmall { offset: self.pos, size });
        }
        if size % 4 != 0 {
            return Err(Error::MisalignedRecord { offset: self.pos, size });
        }
        Ok(RecordHeader { record_type, size })
    }
}

pub open spec fn records_view(v: Seq<Record>) -> Seq<RecordView> {
    v.map_values(|r: Record| r@)
}

/// The records from offset `pos` on (after the header record): each is kept
/// as `Unknown` with its payload, until `EMR_EOF` (kept as `Eof`, the end) or
/// the end of the bytes.
pub open spec fn spec_records_from(b: Seq<u8>, pos: int) -> Result<Seq<RecordView>, Error>
    decreases b.len() - pos,
{
    if pos < 0 || pos >= b.len() {
        Ok(seq![])
    } else {
        match spec_record_header(b, pos) {
            Err(e) => Err(e),
            Ok(rh) => if b.len() - (pos + 8) < rh.size - 8 {
                Err(Error::UnexpectedEof { at: (pos + 8) as usize, need: (rh.size - 8) as usize })
            } else if rh.record_type == RT_EOF {
                Ok(seq![RecordView::Eof])
            } else {
                match spec_records_from(b, pos + rh.size) {
                    Ok(rest) => Ok(seq![RecordView::Unknown(rh.record_type, b.subrange(pos + 8, pos + rh.size))] + rest),
                    Err(e) => Err(e),
                }
            },
        }
    }
}

/// EMF bytes as records: an `EMR_HEADER` first (decoded), then the other
/// records (see `spec_records_from`).
pub open spec fn spec_parse(b: Seq<u8>) -> Result<Seq<RecordView>, Error> {
    match spec_record_header(b, 0) {
        Err(e) => Err(e),
        Ok(first) => if first.record_type != RT_HEADER {
            Err(Error::InvalidFirstRecord { got: first.record_type })
        } else {
            match spec_header_record(b, 0) {
                Err(e) => Err(e),
                Ok(h) => match spec_records_from(b, first.size as int) {
                    Ok(rest) => Ok(seq![RecordView::Header(h)] + rest),
                    Err(e) => Err(e),
                },
            }
        },
    }
}

/// Parses EMF bytes into their record sequence: the first record must be
/// `EMR_HEADER`; every later record up to `EMR_EOF` is kept with its payload.
pub fn parse(bytes: &[u8]) -> (r: Result<Vec<Record>, Error>)
    ensures
        match spec_parse(bytes@) {
            Ok(recs) => r matches Ok(v) && records_view(v@) == recs,
            Err(e) => r == Err::<Vec<Record>, Error>(e),
        },
{
    let mut cursor = Cursor::new(bytes);
    let mut out: Vec<Record> = Vec::new();
    let first = match cursor.peek_record_header() {
        Ok(h) => h,
        Err(e) => {
            return Err(e);
        },
    };
    if first.record_type != RT_HEADER {
        return Err(Error::InvalidFirstRecord { got: first.record_type });
    }
    let header_record = match parse_header_record(&mut cursor) {
        Ok(h) => h,
        Err(e) => {
            return Err(e);
        },
    };
    out.push(Record::Header(header_record));
    let ghost n = bytes@.len();
    proof {
        assert(records_view(out@) =~= seq![RecordView::Header(header_record)]);
    }
    let _ = cursor.position();
    while !cursor.is_empty()
        invariant
            cursor.data() == bytes@,
            cursor.offset() <= bytes@.len(),
            spec_parse(bytes@) == match spec_records_from(bytes@, cursor.offset()) {
                Ok(rest) => Ok(records_view(out@) + rest),
                Err(e) => Err(e),
            },
        decreases bytes@.len() - cursor.offset(),
    {
        let rh = match cursor.peek_record_header() {
            Ok(h) => h,
            Err(e) => {
                return Err(e);
            },
        };
        let offset = cursor.position();
        let payload_len = (rh.size as usize) - 8;
        let _ = cursor.take(8);
        let payload = match cursor.take(payload_len) {
            Ok(p) => p,
            Err(e) => {
                return Err(e);
            },
        };
        if rh.record_type == RT_EOF {
            out.push(Record::Eof);
            proof {
                assert(records_view(out@) =~= records_view(out@.drop_last()) + seq![RecordView::Eof]);
            }
            return Ok(out);
        }
        let ghost before = out@;
        let mut pv: Vec<u8> = Vec::new();
        push_all(&mut pv, payload);
        out.push(Record::Unknown { record_type: rh.record_type, payload: pv });
        proof {
            let u = RecordView::Unknown(rh.record_type, bytes@.subrange(offset + 8, offset + rh.size));
            assert(records_view(out@) =~= records_view(before) + seq![u]);
            match spec_records_from(bytes@, offset + rh.size) {
                Ok(rest) => {
                    assert(records_view(before) + (seq![u] + rest) =~= records_view(out@) + rest);
                },
                Err(_) => {},
            }
        }
        let _ = cursor.position();
    }
    assert(records_view(out@) + seq![] =~= records_view(out@));
    Ok(out)
}

} // verus!
