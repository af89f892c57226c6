//! The mathematical wire format: what encoding a tree produces, byte for
//! byte, and what decoding a byte sequence yields, both as total spec
//! functions.  The exec codec is verified against these, and the round-trip
//! law is proved about them.
//!
//! Decoding functions take the whole input and a position, and return the
//! decoded model together with the position one past the consumed bytes, or
//! the error kind the codec raises on that input.

use vstd::prelude::*;
use vstd::utf8::{decode_utf8, encode_utf8, valid_utf8};

use crate::codec::Endian;
use crate::error::NBTErrorKind;
use crate::tag::{tag_from_id, tag_id, Tag};
use crate::value::{insert_entry, kind_of, ValueModel};
use crate::wire::{
    dec_u16, dec_u32, dec_u64, enc_u16, enc_u32, enc_u64, i16_of_u16, i32_of_u32, i64_of_u64,
    i8_of_u8, u16_of_i16, u32_of_i32, u64_of_i64, u8_of_i8,
};

verus! {

// ---------------------------------------------------------------------------
// Encoding.
// ---------------------------------------------------------------------------
/// A string on the wire: a 2-byte length prefix followed by that many UTF-8
/// bytes.  Text whose encoding exceeds 65535 bytes does not fit the prefix
/// and is rejected.
pub open spec fn enc_string(e: Endian, s: Seq<char>) -> Result<Seq<u8>, NBTErrorKind> {
    let b = encode_utf8(s);
    if b.len() <= 65535 {
        Ok(enc_u16(e, b.len() as u16) + b)
    } else {
        Err(NBTErrorKind::InvalidStringLength(b.len() as usize))
    }
}

/// The raw bytes of a signed byte array payload.
pub open spec fn bytes_of_i8s(a: Seq<i8>) -> Seq<u8> {
    a.map(|i: int, x: i8| u8_of_i8(x))
}

/// A byte array on the wire: a 4-byte length prefix, then the raw bytes.
pub open spec fn enc_byte_array(e: Endian, a: Seq<i8>) -> Result<Seq<u8>, NBTErrorKind> {
    if a.len() <= u32::MAX {
        Ok(enc_u32(e, a.len() as u32) + bytes_of_i8s(a))
    } else {
        Err(NBTErrorKind::InvalidStringLength(a.len() as usize))
    }
}

/// The concatenated 4-byte encodings of 32-bit elements.
pub open spec fn enc_i32s(e: Endian, a: Seq<i32>) -> Seq<u8>
    decreases a.len(),
{
    if a.len() == 0 {
        Seq::empty()
    } else {
        enc_u32(e, u32_of_i32(a[0])) + enc_i32s(e, a.skip(1))
    }
}

/// An int array on the wire: a 4-byte length prefix, then the elements.
pub open spec fn enc_int_array(e: Endian, a: Seq<i32>) -> Result<Seq<u8>, NBTErrorKind> {
    if a.len() <= u32::MAX {
        Ok(enc_u32(e, a.len() as u32) + enc_i32s(e, a))
    } else {
        Err(NBTErrorKind::InvalidStringLength(a.len() as usize))
    }
}

/// The concatenated 8-byte encodings of 64-bit elements.
pub open spec fn enc_i64s(e: Endian, a: Seq<i64>) -> Seq<u8>
    decreases a.len(),
{
    if a.len() == 0 {
        Seq::empty()
    } else {
        enc_u64(e, u64_of_i64(a[0])) + enc_i64s(e, a.skip(1))
    }
}

/// A long array on the wire: a 4-byte length prefix, then the elements.
pub open spec fn enc_long_array(e: Endian, a: Seq<i64>) -> Result<Seq<u8>, NBTErrorKind> {
    if a.len() <= u32::MAX {
        Ok(enc_u32(e, a.len() as u32) + enc_i64s(e, a))
    } else {
        Err(NBTErrorKind::InvalidStringLength(a.len() as usize))
    }
}

/// Homogeneity: every element from `i` on has kind `t`; the first that does
/// not names its index, the expected kind and its own kind.
pub open spec fn check_homog(elems: Seq<ValueModel>, t: Tag, i: int) -> Result<
    (),
    NBTErrorKind,
>
    decreases elems.len() - i,
{
    if i < 0 || i >= elems.len() {
        Ok(())
    } else if kind_of(elems[i]) != t {
        Err(NBTErrorKind::ListTypeMismatch(i as usize, t, kind_of(elems[i])))
    } else {
        check_homog(elems, t, i + 1)
    }
}

/// The payload of a value: what follows its tag byte on the wire.
pub open spec fn enc_value(e: Endian, v: ValueModel) -> Result<Seq<u8>, NBTErrorKind>
    decreases v, 0int, 0int,
{
    match v {
        ValueModel::End => Ok(Seq::empty()),
        ValueModel::Byte(x) => Ok(seq![u8_of_i8(x)]),
        ValueModel::Short(x) => Ok(enc_u16(e, u16_of_i16(x))),
        ValueModel::Int(x) => Ok(enc_u32(e, u32_of_i32(x))),
        ValueModel::Long(x) => Ok(enc_u64(e, u64_of_i64(x))),
        ValueModel::Float(bits) => Ok(enc_u32(e, bits)),
        ValueModel::Double(bits) => Ok(enc_u64(e, bits)),
        ValueModel::ByteArray(a) => enc_byte_array(e, a),
        ValueModel::String(s) => enc_string(e, s),
        ValueModel::List(elems) => {
            if elems.len() == 0 {
                Ok(seq![tag_id(Tag::End)] + enc_u32(e, 0))
            } else if elems.len() > 32767 {
                Err(NBTErrorKind::InvalidStringLength(elems.len() as usize))
            } else {
                let t = kind_of(elems[0]);
                match check_homog(elems, t, 0) {
                    Err(k) => Err(k),
                    Ok(_) => match enc_elems(e, elems, 0) {
                        Err(k) => Err(k),
                        Ok(payload) => Ok(
                            seq![tag_id(t)] + enc_u32(e, elems.len() as u32) + payload,
                        ),
                    },
                }
            }
        },
        ValueModel::Compound(es) => match enc_entries(e, es, 0) {
            Err(k) => Err(k),
            Ok(body) => Ok(body + seq![tag_id(Tag::End)]),
        },
        ValueModel::IntArray(a) => enc_int_array(e, a),
        ValueModel::LongArray(a) => enc_long_array(e, a),
    }
}

/// The concatenated payloads of list elements from `i` on, with no
/// per-element framing.
pub open spec fn enc_elems(e: Endian, elems: Seq<ValueModel>, i: int) -> Result<
    Seq<u8>,
    NBTErrorKind,
>
    decreases elems, elems.len() - i, 1int,
{
    if i < 0 || i >= elems.len() {
        Ok(Seq::empty())
    } else {
        match enc_value(e, elems[i]) {
            Err(k) => Err(k),
            Ok(b) => match enc_elems(e, elems, i + 1) {
                Err(k) => Err(k),
                Ok(rest) => Ok(b + rest),
            },
        }
    }
}

/// The concatenated framed entries of a compound from `i` on: each is a tag
/// byte, a name string, and a payload.
pub open spec fn enc_entries(
    e: Endian,
    es: Seq<(Seq<char>, ValueModel)>,
    i: int,
) -> Result<Seq<u8>, NBTErrorKind>
    decreases es, es.len() - i, 1int,
{
    if i < 0 || i >= es.len() {
        Ok(Seq::empty())
    } else {
        match enc_string(e, es[i].0) {
            Err(k) => Err(k),
            Ok(nb) => match enc_value(e, es[i].1) {
                Err(k) => Err(k),
                Ok(vb) => match enc_entries(e, es, i + 1) {
                    Err(k) => Err(k),
                    Ok(rest) => Ok(seq![tag_id(kind_of(es[i].1))] + nb + vb + rest),
                },
            },
        }
    }
}

/// The document framing: a tag byte, a name string, and a payload.  An
/// absent name is written as the empty string.
pub open spec fn enc_named(e: Endian, name: Seq<char>, v: ValueModel) -> Result<
    Seq<u8>,
    NBTErrorKind,
> {
    match enc_string(e, name) {
        Err(k) => Err(k),
        Ok(nb) => match enc_value(e, v) {
            Err(k) => Err(k),
            Ok(vb) => Ok(seq![tag_id(kind_of(v))] + nb + vb),
        },
    }
}

// ---------------------------------------------------------------------------
// Decoding.
// ---------------------------------------------------------------------------
/// Decodes a length-prefixed string at `pos`: fails with input exhaustion if
/// the prefix or the payload runs past the end, and with a text-decoding
/// failure if the payload is not UTF-8.
pub open spec fn dec_string(e: Endian, b: Seq<u8>, pos: int) -> Result<
    (Seq<char>, int),
    NBTErrorKind,
> {
    if pos + 2 > b.len() {
        Err(NBTErrorKind::UnexpectedEOF)
    } else {
        let n = dec_u16(e, b.subrange(pos, pos + 2)) as int;
        if pos + 2 + n > b.len() {
            Err(NBTErrorKind::UnexpectedEOF)
        } else {
            let bytes = b.subrange(pos + 2, pos + 2 + n);
            if valid_utf8(bytes) {
                Ok((decode_utf8(bytes), pos + 2 + n))
            } else {
                Err(NBTErrorKind::FromUTF8)
            }
        }
    }
}

/// Decodes a byte array at `pos`: a 4-byte length, then that many raw bytes
/// read as signed bytes.
pub open spec fn dec_byte_array(e: Endian, b: Seq<u8>, pos: int) -> Result<
    (Seq<i8>, int),
    NBTErrorKind,
> {
    if pos + 4 > b.len() {
        Err(NBTErrorKind::UnexpectedEOF)
    } else {
        let n = dec_u32(e, b.subrange(pos, pos + 4)) as int;
        if pos + 4 + n > b.len() {
            Err(NBTErrorKind::UnexpectedEOF)
        } else {
            Ok((b.subrange(pos + 4, pos + 4 + n).map(|i: int, x: u8| i8_of_u8(x)), pos + 4 + n))
        }
    }
}

/// The `n` 32-bit elements whose encodings sit back to back at `pos`.
pub open spec fn dec_i32s(e: Endian, b: Seq<u8>, pos: int, n: int) -> Seq<i32> {
    Seq::new(n as nat, |i: int| i32_of_u32(dec_u32(e, b.subrange(pos + 4 * i, pos + 4 * i + 4))))
}

/// Decodes an int array at `pos`: a 4-byte length, then that many 32-bit
/// elements.
pub open spec fn dec_int_array(e: Endian, b: Seq<u8>, pos: int) -> Result<
    (Seq<i32>, int),
    NBTErrorKind,
> {
    if pos + 4 > b.len() {
        Err(NBTErrorKind::UnexpectedEOF)
    } else {
        let n = dec_u32(e, b.subrange(pos, pos + 4)) as int;
        if pos + 4 + 4 * n > b.len() {
            Err(NBTErrorKind::UnexpectedEOF)
        } else {
            Ok((dec_i32s(e, b, pos + 4, n), pos + 4 + 4 * n))
        }
    }
}

/// The `n` 64-bit elements whose encodings sit back to back at `pos`.
pub open spec fn dec_i64s(e: Endian, b: Seq<u8>, pos: int, n: int) -> Seq<i64> {
    Seq::new(n as nat, |i: int| i64_of_u64(dec_u64(e, b.subrange(pos + 8 * i, pos + 8 * i + 8))))
}

/// Decodes a long array at `pos`: a 4-byte length, then that many 64-bit
/// elements.
pub open spec fn dec_long_array(e: Endian, b: Seq<u8>, pos: int) -> Result<
    (Seq<i64>, int),
    NBTErrorKind,
> {
    if pos + 4 > b.len() {
        Err(NBTErrorKind::UnexpectedEOF)
    } else {
        let n = dec_u32(e, b.subrange(pos, pos + 4)) as int;
        if pos + 4 + 8 * n > b.len() {
            Err(NBTErrorKind::UnexpectedEOF)
        } else {
            Ok((dec_i64s(e, b, pos + 4, n), pos + 4 + 8 * n))
        }
    }
}

/// Decodes the payload of a value of kind `t` at `pos`.
pub open spec fn dec_value(e: Endian, t: Tag, b: Seq<u8>, pos: int) -> Result<
    (ValueModel, int),
    NBTErrorKind,
>
    decreases b.len() - pos, 0int, 2int,
{
    match t {
        Tag::End => Ok((ValueModel::End, pos)),
        Tag::Byte => if pos + 1 > b.len() {
            Err(NBTErrorKind::UnexpectedEOF)
        } else {
            Ok((ValueModel::Byte(i8_of_u8(b[pos])), pos + 1))
        },
        Tag::Short => if pos + 2 > b.len() {
            Err(NBTErrorKind::UnexpectedEOF)
        } else {
            Ok((ValueModel::Short(i16_of_u16(dec_u16(e, b.subrange(pos, pos + 2)))), pos + 2))
        },
        Tag::Int => if pos + 4 > b.len() {
            Err(NBTErrorKind::UnexpectedEOF)
        } else {
            Ok((ValueModel::Int(i32_of_u32(dec_u32(e, b.subrange(pos, pos + 4)))), pos + 4))
        },
        Tag::Long => if pos + 8 > b.len() {
            Err(NBTErrorKind::UnexpectedEOF)
        } else {
            Ok((ValueModel::Long(i64_of_u64(dec_u64(e, b.subrange(pos, pos + 8)))), pos + 8))
        },
        Tag::Float => if pos + 4 > b.len() {
            Err(NBTErrorKind::UnexpectedEOF)
        } else {
            Ok((ValueModel::Float(dec_u32(e, b.subrange(pos, pos + 4))), pos + 4))
        },
        Tag::Double => if pos + 8 > b.len() {
            Err(NBTErrorKind::UnexpectedEOF)
        } else {
            Ok((ValueModel::Double(dec_u64(e, b.subrange(pos, pos + 8))), pos + 8))
        },
        Tag::ByteArray => match dec_byte_array(e, b, pos) {
            Err(k) => Err(k),
            Ok((a, p)) => Ok((ValueModel::ByteArray(a), p)),
        },
        Tag::String => match dec_string(e, b, pos) {
            Err(k) => Err(k),
            Ok((s, p)) => Ok((ValueModel::String(s), p)),
        },
        Tag::List => if pos + 1 > b.len() {
            Err(NBTErrorKind::UnexpectedEOF)
        } else {
            match tag_from_id(b[pos]) {
                None => Err(NBTErrorKind::InvalidTagID(b[pos])),
                Some(et) => if pos + 5 > b.len() {
                    Err(NBTErrorKind::UnexpectedEOF)
                } else {
                    let raw = dec_u32(e, b.subrange(pos + 1, pos + 5));
                    let cnt = i32_of_u32(raw);
                    if cnt < 0 || cnt > 32767 {
                        Err(NBTErrorKind::InvalidStringLength(raw as usize))
                    } else {
                        match dec_elems(e, et, b, pos + 5, cnt as int) {
                            Err(k) => Err(k),
                            Ok((vs, p)) => Ok((ValueModel::List(vs), p)),
                        }
                    }
                },
            }
        },
        Tag::Compound => match dec_entries(e, b, pos, Seq::empty()) {
            Err(k) => Err(k),
            Ok((es, p)) => Ok((ValueModel::Compound(es), p)),
        },
        Tag::IntArray => match dec_int_array(e, b, pos) {
            Err(k) => Err(k),
            Ok((a, p)) => Ok((ValueModel::IntArray(a), p)),
        },
        Tag::LongArray => match dec_long_array(e, b, pos) {
            Err(k) => Err(k),
            Ok((a, p)) => Ok((ValueModel::LongArray(a), p)),
        },
    }
}

/// Decodes `n` unframed payloads of kind `t` starting at `pos`, trusting the
/// declared element kind for every slot.
pub open spec fn dec_elems(e: Endian, t: Tag, b: Seq<u8>, pos: int, n: int) -> Result<
    (Seq<ValueModel>, int),
    NBTErrorKind,
>
    decreases b.len() - pos, n, 1int,
{
    if n <= 0 {
        Ok((Seq::empty(), pos))
    } else {
        match dec_value(e, t, b, pos) {
            Err(k) => Err(k),
            Ok((v, p)) => if p < pos || p > b.len() {
                Err(NBTErrorKind::UnexpectedEOF)
            } else {
                match dec_elems(e, t, b, p, n - 1) {
                    Err(k) => Err(k),
                    Ok((vs, pe)) => Ok((seq![v] + vs, pe)),
                }
            },
        }
    }
}

/// Decodes framed compound entries from `pos` until an End tag byte,
/// accumulating a mapping where a repeated key keeps the value read last.
pub open spec fn dec_entries(
    e: Endian,
    b: Seq<u8>,
    pos: int,
    acc: Seq<(Seq<char>, ValueModel)>,
) -> Result<(Seq<(Seq<char>, ValueModel)>, int), NBTErrorKind>
    decreases b.len() - pos, 0int, 1int,
{
    if pos < 0 || pos + 1 > b.len() {
        Err(NBTErrorKind::UnexpectedEOF)
    } else {
        match tag_from_id(b[pos]) {
            None => Err(NBTErrorKind::InvalidTagID(b[pos])),
            Some(t) => if t == Tag::End {
                Ok((acc, pos + 1))
            } else {
                match dec_string(e, b, pos + 1) {
                    Err(k) => Err(k),
                    Ok((name, p1)) => if p1 <= pos || p1 > b.len() {
                        Err(NBTErrorKind::UnexpectedEOF)
                    } else {
                        match dec_value(e, t, b, p1) {
                            Err(k) => Err(k),
                            Ok((v, p2)) => if p2 <= pos || p2 > b.len() {
                                Err(NBTErrorKind::UnexpectedEOF)
                            } else {
                                dec_entries(e, b, p2, insert_entry(acc, name, v))
                            },
                        }
                    },
                }
            },
        }
    }
}

// ---------------------------------------------------------------------------
// Facts about the model that the codec and the laws lean on.
// ---------------------------------------------------------------------------
/// Appending an element appends its encoding.
pub proof fn lemma_enc_i32s_snoc(e: Endian, a: Seq<i32>, x: i32)
    ensures
        enc_i32s(e, a.push(x)) == enc_i32s(e, a) + enc_u32(e, u32_of_i32(x)),
    decreases a.len(),
{
    let ap = a.push(x);
    if a.len() == 0 {
        assert(ap[0] == x);
        assert(ap.skip(1) =~= Seq::<i32>::empty());
        assert(enc_i32s(e, ap.skip(1)) =~= Seq::<u8>::empty());
        assert(enc_i32s(e, a) =~= Seq::<u8>::empty());
        assert(enc_i32s(e, ap) == enc_u32(e, u32_of_i32(ap[0])) + enc_i32s(e, ap.skip(1)));
        assert(enc_i32s(e, ap) =~= enc_i32s(e, a) + enc_u32(e, u32_of_i32(x)));
    } else {
        assert(ap.skip(1) =~= a.skip(1).push(x));
        lemma_enc_i32s_snoc(e, a.skip(1), x);
        assert(enc_i32s(e, ap) == enc_u32(e, u32_of_i32(ap[0])) + enc_i32s(e, ap.skip(1)));
        assert(enc_i32s(e, ap) =~= enc_i32s(e, a) + enc_u32(e, u32_of_i32(x)));
    }
}

/// Appending an element appends its encoding.
pub proof fn lemma_enc_i64s_snoc(e: Endian, a: Seq<i64>, x: i64)
    ensures
        enc_i64s(e, a.push(x)) == enc_i64s(e, a) + enc_u64(e, u64_of_i64(x)),
    decreases a.len(),
{
    let ap = a.push(x);
    if a.len() == 0 {
        assert(ap[0] == x);
        assert(ap.skip(1) =~= Seq::<i64>::empty());
        assert(enc_i64s(e, ap.skip(1)) =~= Seq::<u8>::empty());
        assert(enc_i64s(e, a) =~= Seq::<u8>::empty());
        assert(enc_i64s(e, ap) == enc_u64(e, u64_of_i64(ap[0])) + enc_i64s(e, ap.skip(1)));
        assert(enc_i64s(e, ap) =~= enc_i64s(e, a) + enc_u64(e, u64_of_i64(x)));
    } else {
        assert(ap.skip(1) =~= a.skip(1).push(x));
        lemma_enc_i64s_snoc(e, a.skip(1), x);
        assert(enc_i64s(e, ap) == enc_u64(e, u64_of_i64(ap[0])) + enc_i64s(e, ap.skip(1)));
        assert(enc_i64s(e, ap) =~= enc_i64s(e, a) + enc_u64(e, u64_of_i64(x)));
    }
}

/// The first index at or after `i` whose element does not have kind `t`, or
/// -1 if every one does.
pub open spec fn first_mismatch(elems: Seq<ValueModel>, t: Tag, i: int) -> int
    decreases elems.len() - i,
{
    if i < 0 || i >= elems.len() {
        -1
    } else if kind_of(elems[i]) != t {
        i
    } else {
        first_mismatch(elems, t, i + 1)
    }
}

/// What the homogeneity check decides: it passes exactly when every element
/// from `i` on has kind `t`, and otherwise names the first offender, the
/// expected kind, and the offender's own kind.
pub proof fn lemma_check_homog(elems: Seq<ValueModel>, t: Tag, i: int)
    requires
        0 <= i <= elems.len(),
    ensures
        -1 <= first_mismatch(elems, t, i),
        first_mismatch(elems, t, i) == -1 ==> check_homog(elems, t, i) == Ok::<
            (),
            NBTErrorKind,
        >(()) && forall|j: int| i <= j < elems.len() ==> kind_of(#[trigger] elems[j]) == t,
        first_mismatch(elems, t, i) >= 0 ==> {
            let f = first_mismatch(elems, t, i);
            &&& i <= f < elems.len()
            &&& kind_of(elems[f]) != t
            &&& forall|j: int| i <= j < f ==> kind_of(#[trigger] elems[j]) == t
            &&& check_homog(elems, t, i) == Err::<(), NBTErrorKind>(
                NBTErrorKind::ListTypeMismatch(f as usize, t, kind_of(elems[f])),
            )
        },
    decreases elems.len() - i,
{
    if i < elems.len() && kind_of(elems[i]) == t {
        lemma_check_homog(elems, t, i + 1);
    }
}

/// A successful decode lands between its start and the end of the input.
pub proof fn lemma_dec_value_bounds(e: Endian, t: Tag, b: Seq<u8>, pos: int)
    requires
        pos <= b.len(),
    ensures
        dec_value(e, t, b, pos) matches Ok((v, p)) ==> pos <= p <= b.len(),
    decreases b.len() - pos, 0int, 2int,
{
    match t {
        Tag::List => {
            if pos + 1 <= b.len() && tag_from_id(b[pos]) is Some && pos + 5 <= b.len() {
                let et = tag_from_id(b[pos]).unwrap();
                let cnt = i32_of_u32(dec_u32(e, b.subrange(pos + 1, pos + 5)));
                if 0 <= cnt <= 32767 {
                    lemma_dec_elems_bounds(e, et, b, pos + 5, cnt as int);
                }
            }
        },
        Tag::Compound => {
            lemma_dec_entries_bounds(e, b, pos, Seq::empty());
        },
        _ => {},
    }
}

/// A successful element-run decode lands between its start and the end of
/// the input, and yields exactly `n` elements.
pub proof fn lemma_dec_elems_bounds(e: Endian, t: Tag, b: Seq<u8>, pos: int, n: int)
    requires
        pos <= b.len(),
    ensures
        dec_elems(e, t, b, pos, n) matches Ok((vs, p)) ==> pos <= p <= b.len() && vs.len()
            == (if n >= 0 {
            n
        } else {
            0
        }),
    decreases b.len() - pos, n, 1int,
{
    if n > 0 {
        match dec_value(e, t, b, pos) {
            Ok((v, p)) => {
                if pos <= p <= b.len() {
                    lemma_dec_elems_bounds(e, t, b, p, n - 1);
                }
            },
            Err(_) => {},
        }
    }
}

/// A successful entry-run decode consumes at least its terminator and lands
/// within the input.
pub proof fn lemma_dec_entries_bounds(
    e: Endian,
    b: Seq<u8>,
    pos: int,
    acc: Seq<(Seq<char>, ValueModel)>,
)
    requires
        pos <= b.len(),
    ensures
        dec_entries(e, b, pos, acc) matches Ok((es, p)) ==> pos < p <= b.len(),
    decreases b.len() - pos, 0int, 1int,
{
    if 0 <= pos && pos + 1 <= b.len() {
        match tag_from_id(b[pos]) {
            Some(t) => {
                if t != Tag::End {
                    match dec_string(e, b, pos + 1) {
                        Ok((name, p1)) => {
                            if pos < p1 <= b.len() {
                                match dec_value(e, t, b, p1) {
                                    Ok((v, p2)) => {
                                        if pos < p2 <= b.len() {
                                            lemma_dec_entries_bounds(
                                                e,
                                                b,
                                                p2,
                                                insert_entry(acc, name, v),
                                            );
                                        }
                                    },
                                    Err(_) => {},
                                }
                            }
                        },
                        Err(_) => {},
                    }
                }
            },
            None => {},
        }
    }
}

/// Decodes one named entry at `pos`: a tag byte, a name, and a payload.  An
/// empty name on the wire reads back as no name.
pub open spec fn dec_named(e: Endian, b: Seq<u8>, pos: int) -> Result<
    ((Option<Seq<char>>, ValueModel), int),
    NBTErrorKind,
> {
    if pos + 1 > b.len() {
        Err(NBTErrorKind::UnexpectedEOF)
    } else {
        match tag_from_id(b[pos]) {
            None => Err(NBTErrorKind::InvalidTagID(b[pos])),
            Some(t) => match dec_string(e, b, pos + 1) {
                Err(k) => Err(k),
                Ok((name, p1)) => match dec_value(e, t, b, p1) {
                    Err(k) => Err(k),
                    Ok((v, p2)) => Ok(
                        ((if name.len() == 0 {
                            None
                        } else {
                            Some(name)
                        }, v), p2),
                    ),
                },
            },
        }
    }
}

} // verus!
