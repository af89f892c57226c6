//! A codec for a tagged, length-prefixed binary tree format: named, typed
//! values are serialized as a one-byte tag, a length-prefixed name, and a
//! payload, with lists, compounds and arrays nesting recursively.  Every
//! encode and decode routine is verified against a mathematical model of the
//! wire format, and the round-trip law (decoding an encoding yields the
//! original tree) is proved for all well-formed trees under both byte orders.

pub mod codec;
pub mod error;
pub mod laws;
pub mod model;
pub mod tag;
pub mod value;
pub mod wire;
