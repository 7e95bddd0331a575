//! EMF (Enhanced Metafile) reading: the record stream of a metafile, with
//! its `EMR_HEADER` decoded.

pub mod parser;

use vstd::prelude::*;
use self::parser::records::Record;

verus! {

/// Errors of EMF parsing.
#[derive(Debug, Clone, Copy, PartialEq, Eq)]
pub enum Error {
    /// The stream ended: `need` bytes were wanted at offset `at`.
    UnexpectedEof { at: usize, need: usize },
    /// A record declares a size below its minimum.
    RecordTooSmall { offset: usize, size: u32 },
    /// A record size is not a multiple of 4.
    MisalignedRecord { offset: usize, size: u32 },
    /// The first record is not `EMR_HEADER`.
    InvalidFirstRecord { got: u32 },
    /// The header signature is not `" EMF"`.
    InvalidSignature { got: u32 },
}

/// Parses EMF bytes into their record sequence (see `parser::parse`).
pub fn parse_emf(bytes: &[u8]) -> (r: Result<Vec<Record>, Error>)
    ensures
        match parser::spec_parse(bytes@) {
            Ok(recs) => r matches Ok(v) && parser::records_view(v@) == recs,
            Err(e) => r == Err::<Vec<Record>, Error>(e),
        },
{
    parser::parse(bytes)
}

} // verus!
