//! Parsing of embedded binary containers, and the formats a document can be
//! loaded from.

pub mod ole_container;
pub mod hwpx;

use vstd::prelude::*;

verus! {

/// The file format a document was loaded from.
#[derive(Debug, Clone, Copy, PartialEq, Eq)]
pub enum FileFormat {
    /// HWP 5.0 (an OLE compound file).
    Hwp,
    /// HWPX (a ZIP container of XML parts).
    Hwpx,
}

} // verus!
