//! Error types of the library.
use vstd::prelude::*;

verus! {

/// Errors of the document operations.
#[derive(Debug)]
pub enum HwpError {
    /// A request names a section or paragraph that the document does not have.
    RenderError(String),
}

/// Errors of the HWPX serializer.
#[derive(Debug)]
pub enum SerializeError {
    XmlError(String),
}

/// Errors of the HWPX reader.
#[derive(Debug)]
pub enum HwpxError {
    XmlError(String),
}

} // verus!
