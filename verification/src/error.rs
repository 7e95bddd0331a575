//! Errors of document operations.

use vstd::prelude::*;

verus! {

/// An error of a document operation.
#[derive(Debug)]
pub enum HwpError {
    /// The operation cannot be carried out on this document; the message
    /// says why.
    RenderError(String),
}

} // verus!
