//! The error taxonomy shared by the signature algebra, the value model and
//! the header validator. All validation functions are total: they report a
//! malformed construction through one of these variants and never panic.

use vstd::prelude::*;

use crate::message::{HeaderFieldKind, MessageType};

verus! {

/// Everything that can be wrong with a signature string, a value tree or a
/// set of header fields.
#[derive(Debug, Clone, PartialEq, Eq)]
pub enum Error {
    /// The signature string breaks the grammar; the payload is the position
    /// at which parsing failed, counted in characters. Every character the
    /// grammar accepts is ASCII, so on input that is ASCII up to the failure
    /// this equals the byte offset.
    InvalidSignature(usize),
    /// The signature string is longer than the configured maximum.
    SignatureTooLong,
    /// The signature string ends while a `(` or `{` is still open.
    UnmatchedDelimiter,
    /// A value was checked against an expected type and derived a different
    /// one; the payloads are the expected and the derived signature strings.
    TypeMismatch(String, String),
    /// An array element's signature differs from the array's element type;
    /// the payload is the index of the first offending element.
    HeterogeneousArray(usize),
    /// A struct value or struct type with no fields.
    EmptyStructNotAllowed,
    /// A dict-entry value or dict-entry type somewhere other than directly
    /// below an array, or a dict-entry type whose key is not a basic kind.
    DictEntryNotInArray,
    /// An object-path scalar whose text breaks the object-path grammar.
    InvalidObjectPath,
    /// A variant whose declared signature does not describe its inner value.
    InvalidVariantSignature,
    /// The same header-field kind appears more than once.
    DuplicateHeaderField(HeaderFieldKind),
    /// A header field required by the message kind is missing.
    MissingRequiredField(MessageType, HeaderFieldKind),
}

} // verus!
