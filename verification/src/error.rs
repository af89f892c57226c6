//! The failure taxonomy shared by every codec operation.  Each failure is a
//! typed, inspectable value; rendering is the caller's business.  The kinds
//! cover input exhaustion, malformed text, unrecognized tag bytes, list
//! counts and string lengths outside their wire ranges, list element type
//! mismatches, and free-form builder misuse.

use vstd::prelude::*;

use crate::tag::Tag;

verus! {

/// What went wrong, by cause.
#[derive(Debug, Clone, PartialEq)]
pub enum NBTErrorKind {
    /// A byte channel broke down.  The verified codec works on in-memory
    /// buffers and never raises this itself; callers that drive it from a
    /// stream map their channel failures to this kind.
    IO,
    /// The input ended before the field being decoded was complete.
    UnexpectedEOF,
    /// A string payload was not valid UTF-8.
    FromUTF8,
    /// The byte is not one of the thirteen assigned tag discriminants, or a
    /// structural operation met a value of the wrong kind (carrying that
    /// value's own discriminant).
    InvalidTagID(u8),
    /// A length field is outside the range the wire format accepts; carries
    /// the offending length.  Also raised for list counts outside `0..=32767`.
    InvalidStringLength(usize),
    /// The document structure is malformed.
    InvalidFormat,
    /// A list element's kind differs from the first element's kind: the
    /// offending index, the expected kind, and the actual kind.
    ListTypeMismatch(usize, Tag, Tag),
    /// A free-form failure, used for builder misuse.
    Custom(String),
}

/// A codec failure: a wrapper around its kind.
#[derive(Debug, Clone)]
pub struct NBTError {
    pub kind: NBTErrorKind,
}

impl NBTError {
    /// A channel failure reported by the caller's byte source or sink.
    pub fn io() -> (r: Self)
        ensures
            r.kind == NBTErrorKind::IO,
    {
        NBTError { kind: NBTErrorKind::IO }
    }

    /// The input ran out mid-field.
    pub fn unexpected_eof() -> (r: Self)
        ensures
            r.kind == NBTErrorKind::UnexpectedEOF,
    {
        NBTError { kind: NBTErrorKind::UnexpectedEOF }
    }

    /// A string payload failed UTF-8 validation.
    pub fn from_utf8() -> (r: Self)
        ensures
            r.kind == NBTErrorKind::FromUTF8,
    {
        NBTError { kind: NBTErrorKind::FromUTF8 }
    }

    /// An unassigned tag discriminant, or a value of the wrong kind.
    pub fn invalid_tag_id(id: u8) -> (r: Self)
        ensures
            r.kind == NBTErrorKind::InvalidTagID(id),
    {
        NBTError { kind: NBTErrorKind::InvalidTagID(id) }
    }

    /// A length field outside the accepted range.
    pub fn invalid_string_length(len: usize) -> (r: Self)
        ensures
            r.kind == NBTErrorKind::InvalidStringLength(len),
    {
        NBTError { kind: NBTErrorKind::InvalidStringLength(len) }
    }

    /// A list element whose kind differs from the first element's.
    pub fn list_type_mismatch(index: usize, expected: Tag, actual: Tag) -> (r: Self)
        ensures
            r.kind == NBTErrorKind::ListTypeMismatch(index, expected, actual),
    {
        NBTError { kind: NBTErrorKind::ListTypeMismatch(index, expected, actual) }
    }

    /// A free-form failure with a caller-supplied message.
    pub fn custom_msg(msg: &str) -> (r: Self)
        ensures
            r.kind matches NBTErrorKind::Custom(m) && m@ == msg@,
    {
        NBTError { kind: NBTErrorKind::Custom(msg.to_owned()) }
    }
}

} // verus!
