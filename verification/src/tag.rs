//! The closed set of wire type discriminants: thirteen kinds, each bound to a
//! fixed one-byte id in `0..=12`.  `tag_id` and `tag_from_id` are the two
//! directions of the bijection; `Tag::identify` is the checked exec decoder
//! for an arbitrary byte.

use vstd::prelude::*;

use crate::error::{NBTError, NBTErrorKind};

verus! {

/// The kind of a value as it appears on the wire, one byte ahead of every
/// payload.
#[derive(Debug, Clone, Copy, PartialEq, Eq, Structural)]
pub enum Tag {
    End,
    Byte,
    Short,
    Int,
    Long,
    Float,
    Double,
    ByteArray,
    String,
    List,
    Compound,
    IntArray,
    LongArray,
}

/// The wire discriminant of a tag kind.
pub open spec fn tag_id(t: Tag) -> u8 {
    match t {
        Tag::End => 0,
        Tag::Byte => 1,
        Tag::Short => 2,
        Tag::Int => 3,
        Tag::Long => 4,
        Tag::Float => 5,
        Tag::Double => 6,
        Tag::ByteArray => 7,
        Tag::String => 8,
        Tag::List => 9,
        Tag::Compound => 10,
        Tag::IntArray => 11,
        Tag::LongArray => 12,
    }
}

/// The tag kind a wire discriminant stands for, if any.
pub open spec fn tag_from_id(id: u8) -> Option<Tag> {
    if id == 0 {
        Some(Tag::End)
    } else if id == 1 {
        Some(Tag::Byte)
    } else if id == 2 {
        Some(Tag::Short)
    } else if id == 3 {
        Some(Tag::Int)
    } else if id == 4 {
        Some(Tag::Long)
    } else if id == 5 {
        Some(Tag::Float)
    } else if id == 6 {
        Some(Tag::Double)
    } else if id == 7 {
        Some(Tag::ByteArray)
    } else if id == 8 {
        Some(Tag::String)
    } else if id == 9 {
        Some(Tag::List)
    } else if id == 10 {
        Some(Tag::Compound)
    } else if id == 11 {
        Some(Tag::IntArray)
    } else if id == 12 {
        Some(Tag::LongArray)
    } else {
        None
    }
}

impl Tag {
    /// The wire discriminant of this tag.
    pub fn id(&self) -> (r: u8)
        ensures
            r == tag_id(*self),
    {
        match self {
            Tag::End => 0,
            Tag::Byte => 1,
            Tag::Short => 2,
            Tag::Int => 3,
            Tag::Long => 4,
            Tag::Float => 5,
            Tag::Double => 6,
            Tag::ByteArray => 7,
            Tag::String => 8,
            Tag::List => 9,
            Tag::Compound => 10,
            Tag::IntArray => 11,
            Tag::LongArray => 12,
        }
    }

    /// Maps a wire byte to its tag kind; any byte outside `0..=12` fails with
    /// an invalid-tag-id error carrying the offending byte.
    pub fn identify(id: u8) -> (r: Result<Tag, NBTError>)
        ensures
            match tag_from_id(id) {
                Some(t) => r matches Ok(rt) && rt == t,
                None => r matches Err(e) && e.kind == NBTErrorKind::InvalidTagID(id),
            },
    {
        match id {
            0 => Ok(Tag::End),
            1 => Ok(Tag::Byte),
            2 => Ok(Tag::Short),
            3 => Ok(Tag::Int),
            4 => Ok(Tag::Long),
            5 => Ok(Tag::Float),
            6 => Ok(Tag::Double),
            7 => Ok(Tag::ByteArray),
            8 => Ok(Tag::String),
            9 => Ok(Tag::List),
            10 => Ok(Tag::Compound),
            11 => Ok(Tag::IntArray),
            12 => Ok(Tag::LongArray),
            _ => Err(NBTError::invalid_tag_id(id)),
        }
    }
}

/// The discriminant/kind correspondence is a bijection: every kind's id maps
/// back to that kind, every id in `0..=12` is some kind's id, and every id
/// above 12 is unassigned.
pub proof fn lemma_tag_bijection()
    ensures
        forall|t: Tag| #![auto] tag_id(t) <= 12 && tag_from_id(tag_id(t)) == Some(t),
        forall|id: u8| id <= 12 ==> (#[trigger] tag_from_id(id)) is Some,
        forall|id: u8| #![auto] id <= 12 ==> tag_id(tag_from_id(id).unwrap()) == id,
        forall|id: u8| id > 12 ==> (#[trigger] tag_from_id(id)) is None,
{
}

} // verus!
