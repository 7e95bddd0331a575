//! Parts of an HWPX container that are carried over when a document is
//! saved as HWP.

pub mod contract_streams;
