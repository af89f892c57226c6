//! The endianness-parameterized codec.  A codec holds one immutable byte
//! order, applied uniformly to every multi-byte field, length prefixes
//! included.  Readers take the input buffer and a position and return the
//! decoded value with the position one past its bytes; writers append to an
//! output buffer.  Every reader and writer is verified against the
//! corresponding spec function of the wire model.

use vstd::prelude::*;
use vstd::utf8::{decode_utf8, valid_utf8};

use crate::error::{NBTError, NBTErrorKind};
use crate::model::{
    check_homog, dec_byte_array, dec_entries, dec_elems, dec_i32s, dec_i64s, dec_int_array,
    dec_long_array, dec_named, dec_string, dec_value, enc_byte_array, enc_elems, enc_entries,
    enc_i32s, enc_i64s, enc_int_array, enc_long_array, enc_named, enc_string, enc_value,
    first_mismatch, lemma_check_homog, lemma_dec_value_bounds, lemma_enc_i32s_snoc,
    lemma_enc_i64s_snoc,
};
use crate::tag::{tag_from_id, tag_id, Tag};
use crate::value::{
    insert_entry, insert_pair, kind_of, lemma_view_entries, lemma_view_values, view_entries,
    view_values, Value, ValueModel,
};
use crate::wire::{
    dec_u16, dec_u32, dec_u64, enc_u16, enc_u32, enc_u64, get_u16, get_u32, get_u64, i16_of_u16,
    i16_to_u16, i32_of_u32, i32_to_u32, i64_of_u64, i64_to_u64, i8_of_u8, i8_to_u8, put_u16,
    put_u32, put_u64, u16_of_i16, u16_to_i16, u32_of_i32, u32_to_i32, u64_of_i64, u64_to_i64,
    u8_of_i8, u8_to_i8,
};

verus! {

broadcast use vstd::slice::group_slice_axioms, vstd::std_specs::vec::group_vec_axioms,
    crate::value::group_value_views;

/// The byte order of every multi-byte field of one document.
#[derive(Debug, Clone, Copy, PartialEq, Eq, Structural, Default)]
pub enum Endian {
    #[default]
    Big,
    Little,
}

/// An encode/decode engine configured with one byte order.
#[derive(Debug, Clone, Default)]
pub struct NBTCodec {
    pub endian: Endian,
}

/// Relies on String::from_utf8: it succeeds exactly on UTF-8 input and
/// returns the text those bytes spell.
#[verifier::external_body]
fn string_from_utf8(bytes: Vec<u8>) -> (r: Option<String>)
    ensures
        r matches Some(s) ==> valid_utf8(bytes@) && s@ == decode_utf8(bytes@),
        r is None ==> !valid_utf8(bytes@),
{
    String::from_utf8(bytes).ok()
}

/// How a reader's outcome relates to the wire model's: same success, same
/// decoded value (through its view), same one-past-the-end position, or the
/// same error kind.
pub open spec fn reads<T: View>(
    r: Result<(T, usize), NBTError>,
    s: Result<(T::V, int), NBTErrorKind>,
) -> bool {
    match s {
        Ok((v, p)) => r matches Ok(rp) && rp.0@ == v && rp.1 == p,
        Err(k) => r matches Err(err) && err.kind == k,
    }
}

/// How a writer's outcome relates to the wire model's: on success the model
/// bytes and nothing else were appended; on failure the same error kind.
pub open spec fn writes(
    r: Result<(), NBTError>,
    out0: Seq<u8>,
    out1: Seq<u8>,
    s: Result<Seq<u8>, NBTErrorKind>,
) -> bool {
    match s {
        Ok(bs) => r is Ok && out1 == out0 + bs,
        Err(k) => r matches Err(err) && err.kind == k,
    }
}

/// The name written for an optional document name: an absent name collapses
/// to the empty string.
pub open spec fn name_or_empty(name: Option<&str>) -> Seq<char> {
    match name {
        Some(s) => s@,
        None => Seq::empty(),
    }
}

impl NBTCodec {
    /// A codec using the given byte order.
    pub fn new(endian: Endian) -> (r: Self)
        ensures
            r.endian == endian,
    {
        NBTCodec { endian }
    }

    /// A codec writing and reading most-significant byte first.
    pub fn big_endian() -> (r: Self)
        ensures
            r.endian == Endian::Big,
    {
        Self::new(Endian::Big)
    }

    /// A codec writing and reading least-significant byte first.
    pub fn little_endian() -> (r: Self)
        ensures
            r.endian == Endian::Little,
    {
        Self::new(Endian::Little)
    }

    // -----------------------------------------------------------------------
    // Primitive scalars.
    // -----------------------------------------------------------------------
    /// Reads one unsigned byte.
    pub fn read_u8(&self, b: &[u8], pos: usize) -> (r: Result<(u8, usize), NBTError>)
        ensures
            pos + 1 <= b@.len() ==> (r matches Ok(rp) && rp.0 == b@[pos as int] && rp.1 == pos
                + 1),
            pos + 1 > b@.len() ==> (r matches Err(err) && err.kind
                == NBTErrorKind::UnexpectedEOF),
    {
        let n = b.len();
        if pos >= n {
            return Err(NBTError::unexpected_eof());
        }
        let v = *vstd::slice::slice_index_get(b, pos);
        Ok((v, pos + 1))
    }

    /// Reads one signed byte.
    pub fn read_i8(&self, b: &[u8], pos: usize) -> (r: Result<(i8, usize), NBTError>)
        ensures
            pos + 1 <= b@.len() ==> (r matches Ok(rp) && rp.0 == i8_of_u8(b@[pos as int])
                && rp.1 == pos + 1),
            pos + 1 > b@.len() ==> (r matches Err(err) && err.kind
                == NBTErrorKind::UnexpectedEOF),
    {
        match self.read_u8(b, pos) {
            Ok((v, p)) => Ok((u8_to_i8(v), p)),
            Err(err) => Err(err),
        }
    }

    /// Reads a 16-bit unsigned scalar in the configured byte order.
    pub fn read_u16(&self, b: &[u8], pos: usize) -> (r: Result<(u16, usize), NBTError>)
        ensures
            pos + 2 <= b@.len() ==> (r matches Ok(rp) && rp.0 == dec_u16(
                self.endian,
                b@.subrange(pos as int, pos as int + 2),
            ) && rp.1 == pos + 2),
            pos + 2 > b@.len() ==> (r matches Err(err) && err.kind
                == NBTErrorKind::UnexpectedEOF),
    {
        let n = b.len();
        if pos > n || n - pos < 2 {
            return Err(NBTError::unexpected_eof());
        }
        Ok((get_u16(self.endian, b, pos), pos + 2))
    }

    /// Reads a 16-bit signed scalar in the configured byte order.
    pub fn read_i16(&self, b: &[u8], pos: usize) -> (r: Result<(i16, usize), NBTError>)
        ensures
            pos + 2 <= b@.len() ==> (r matches Ok(rp) && rp.0 == i16_of_u16(
                dec_u16(self.endian, b@.subrange(pos as int, pos as int + 2)),
            ) && rp.1 == pos + 2),
            pos + 2 > b@.len() ==> (r matches Err(err) && err.kind
                == NBTErrorKind::UnexpectedEOF),
    {
        match self.read_u16(b, pos) {
            Ok((v, p)) => Ok((u16_to_i16(v), p)),
            Err(err) => Err(err),
        }
    }

    /// Reads a 32-bit unsigned scalar in the configured byte order.
    pub fn read_u32(&self, b: &[u8], pos: usize) -> (r: Result<(u32, usize), NBTError>)
        ensures
            pos + 4 <= b@.len() ==> (r matches Ok(rp) && rp.0 == dec_u32(
                self.endian,
                b@.subrange(pos as int, pos as int + 4),
            ) && rp.1 == pos + 4),
            pos + 4 > b@.len() ==> (r matches Err(err) && err.kind
                == NBTErrorKind::UnexpectedEOF),
    {
        let n = b.len();
        if pos > n || n - pos < 4 {
            return Err(NBTError::unexpected_eof());
        }
        Ok((get_u32(self.endian, b, pos), pos + 4))
    }

    /// Reads a 32-bit signed scalar in the configured byte order.
    pub fn read_i32(&self, b: &[u8], pos: usize) -> (r: Result<(i32, usize), NBTError>)
        ensures
            pos + 4 <= b@.len() ==> (r matches Ok(rp) && rp.0 == i32_of_u32(
                dec_u32(self.endian, b@.subrange(pos as int, pos as int + 4)),
            ) && rp.1 == pos + 4),
            pos + 4 > b@.len() ==> (r matches Err(err) && err.kind
                == NBTErrorKind::UnexpectedEOF),
    {
        match self.read_u32(b, pos) {
            Ok((v, p)) => Ok((u32_to_i32(v), p)),
            Err(err) => Err(err),
        }
    }

    /// Reads a 64-bit unsigned scalar in the configured byte order.
    pub fn read_u64(&self, b: &[u8], pos: usize) -> (r: Result<(u64, usize), NBTError>)
        ensures
            pos + 8 <= b@.len() ==> (r matches Ok(rp) && rp.0 == dec_u64(
                self.endian,
                b@.subrange(pos as int, pos as int + 8),
            ) && rp.1 == pos + 8),
            pos + 8 > b@.len() ==> (r matches Err(err) && err.kind
                == NBTErrorKind::UnexpectedEOF),
    {
        let n = b.len();
        if pos > n || n - pos < 8 {
            return Err(NBTError::unexpected_eof());
        }
        Ok((get_u64(self.endian, b, pos), pos + 8))
    }

    /// Reads a 64-bit signed scalar in the configured byte order.
    pub fn read_i64(&self, b: &[u8], pos: usize) -> (r: Result<(i64, usize), NBTError>)
        ensures
            pos + 8 <= b@.len() ==> (r matches Ok(rp) && rp.0 == i64_of_u64(
                dec_u64(self.endian, b@.subrange(pos as int, pos as int + 8)),
            ) && rp.1 == pos + 8),
            pos + 8 > b@.len() ==> (r matches Err(err) && err.kind
                == NBTErrorKind::UnexpectedEOF),
    {
        match self.read_u64(b, pos) {
            Ok((v, p)) => Ok((u64_to_i64(v), p)),
            Err(err) => Err(err),
        }
    }

    /// Appends one unsigned byte.
    pub fn write_u8(&self, out: &mut Vec<u8>, value: u8) -> (r: Result<(), NBTError>)
        ensures
            r is Ok,
            final(out)@ == old(out)@ + seq![value],
    {
        out.push(value);
        proof {
            assert(out@ =~= old(out)@ + seq![value]);
        }
        Ok(())
    }

    /// Appends one signed byte.
    pub fn write_i8(&self, out: &mut Vec<u8>, value: i8) -> (r: Result<(), NBTError>)
        ensures
            r is Ok,
            final(out)@ == old(out)@ + seq![u8_of_i8(value)],
    {
        self.write_u8(out, i8_to_u8(value))
    }

    /// Appends a 16-bit unsigned scalar in the configured byte order.
    pub fn write_u16(&self, out: &mut Vec<u8>, value: u16) -> (r: Result<(), NBTError>)
        ensures
            r is Ok,
            final(out)@ == old(out)@ + enc_u16(self.endian, value),
    {
        put_u16(out, self.endian, value);
        Ok(())
    }

    /// Appends a 16-bit signed scalar in the configured byte order.
    pub fn write_i16(&self, out: &mut Vec<u8>, value: i16) -> (r: Result<(), NBTError>)
        ensures
            r is Ok,
            final(out)@ == old(out)@ + enc_u16(self.endian, u16_of_i16(value)),
    {
        self.write_u16(out, i16_to_u16(value))
    }

    /// Appends a 32-bit unsigned scalar in the configured byte order.
    pub fn write_u32(&self, out: &mut Vec<u8>, value: u32) -> (r: Result<(), NBTError>)
        ensures
            r is Ok,
            final(out)@ == old(out)@ + enc_u32(self.endian, value),
    {
        put_u32(out, self.endian, value);
        Ok(())
    }

    /// Appends a 32-bit signed scalar in the configured byte order.
    pub fn write_i32(&self, out: &mut Vec<u8>, value: i32) -> (r: Result<(), NBTError>)
        ensures
            r is Ok,
            final(out)@ == old(out)@ + enc_u32(self.endian, u32_of_i32(value)),
    {
        self.write_u32(out, i32_to_u32(value))
    }

    /// Appends a 64-bit unsigned scalar in the configured byte order.
    pub fn write_u64(&self, out: &mut Vec<u8>, value: u64) -> (r: Result<(), NBTError>)
        ensures
            r is Ok,
            final(out)@ == old(out)@ + enc_u64(self.endian, value),
    {
        put_u64(out, self.endian, value);
        Ok(())
    }

    /// Appends a 64-bit signed scalar in the configured byte order.
    pub fn write_i64(&self, out: &mut Vec<u8>, value: i64) -> (r: Result<(), NBTError>)
        ensures
            r is Ok,
            final(out)@ == old(out)@ + enc_u64(self.endian, u64_of_i64(value)),
    {
        self.write_u64(out, i64_to_u64(value))
    }

    // -----------------------------------------------------------------------
    // Strings.
    // -----------------------------------------------------------------------
    /// Reads a length-prefixed UTF-8 string.
    pub fn read_string(&self, b: &[u8], pos: usize) -> (r: Result<(String, usize), NBTError>)
        ensures
            reads(r, dec_string(self.endian, b@, pos as int)),
    {
        let n = b.len();
        let (len16, p2) = match self.read_u16(b, pos) {
            Ok(x) => x,
            Err(err) => {
                return Err(err);
            },
        };
        let sl = len16 as usize;
        if n - p2 < sl {
            return Err(NBTError::unexpected_eof());
        }
        let sub = vstd::slice::slice_subrange(b, p2, p2 + sl);
        let bytes = vstd::slice::slice_to_vec(sub);
        match string_from_utf8(bytes) {
            Some(s) => Ok((s, p2 + sl)),
            None => Err(NBTError::from_utf8()),
        }
    }

    /// Writes a length-prefixed UTF-8 string; text longer than 65535 bytes
    /// does not fit the prefix and is rejected.
    pub fn write_string(&self, out: &mut Vec<u8>, value: &str) -> (r: Result<(), NBTError>)
        ensures
            writes(r, old(out)@, final(out)@, enc_string(self.endian, value@)),
    {
        let bytes = value.as_bytes();
        let n = bytes.len();
        if n > 65535 {
            return Err(NBTError::invalid_string_length(n));
        }
        let ghost out0 = out@;
        put_u16(out, self.endian, n as u16);
        out.extend_from_slice(bytes);
        proof {
            assert(out@ =~= out0 + (enc_u16(self.endian, n as u16) + bytes@));
        }
        Ok(())
    }

    // -----------------------------------------------------------------------
    // Arrays.
    // -----------------------------------------------------------------------
    /// Reads a byte array: a 4-byte length, then that many signed bytes.
    pub fn read_byte_array(&self, b: &[u8], pos: usize) -> (r: Result<
        (Vec<i8>, usize),
        NBTError,
    >)
        ensures
            reads(r, dec_byte_array(self.endian, b@, pos as int)),
    {
        let n = b.len();
        let (len32, p4) = match self.read_u32(b, pos) {
            Ok(x) => x,
            Err(err) => {
                return Err(err);
            },
        };
        if ((n - p4) as u64) < (len32 as u64) {
            return Err(NBTError::unexpected_eof());
        }
        let sl = len32 as usize;
        let mut a: Vec<i8> = Vec::new();
        let mut i: usize = 0;
        while i < sl
            invariant
                n == b@.len(),
                p4 == pos + 4 <= n,
                sl <= n - p4,
                i <= sl,
                a@.len() == i,
                forall|j: int| 0 <= j < i ==> a@[j] == i8_of_u8(b@[p4 + j]),
            decreases sl - i,
        {
            let x = *vstd::slice::slice_index_get(b, p4 + i);
            a.push(u8_to_i8(x));
            i = i + 1;
        }
        proof {
            assert(a@ =~= b@.subrange(p4 as int, p4 + sl).map(|i: int, x: u8| i8_of_u8(x)));
        }
        Ok((a, p4 + sl))
    }

    /// Writes a byte array: a 4-byte length, then the raw bytes.
    pub fn write_byte_array(&self, out: &mut Vec<u8>, value: &[i8]) -> (r: Result<
        (),
        NBTError,
    >)
        ensures
            writes(r, old(out)@, final(out)@, enc_byte_array(self.endian, value@)),
    {
        let n = value.len();
        if (n as u64) > (u32::MAX as u64) {
            return Err(NBTError::invalid_string_length(n));
        }
        let ghost out0 = out@;
        put_u32(out, self.endian, n as u32);
        let ghost mid = out@;
        let mut i: usize = 0;
        while i < n
            invariant
                n == value@.len(),
                i <= n,
                out@.len() == mid.len() + i,
                out@ == mid + value@.subrange(0, i as int).map(|j: int, x: i8| u8_of_i8(x)),
            decreases n - i,
        {
            let x = *vstd::slice::slice_index_get(value, i);
            out.push(i8_to_u8(x));
            proof {
                assert(out@ =~= mid + value@.subrange(0, i + 1).map(
                    |j: int, x: i8| u8_of_i8(x),
                ));
            }
            i = i + 1;
        }
        proof {
            assert(value@.subrange(0, n as int) =~= value@);
            assert(out@ =~= out0 + (enc_u32(self.endian, n as u32) + value@.map(
                |j: int, x: i8| u8_of_i8(x),
            )));
        }
        Ok(())
    }

    /// Reads an int array: a 4-byte length, then that many 32-bit scalars.
    pub fn read_int_array(&self, b: &[u8], pos: usize) -> (r: Result<
        (Vec<i32>, usize),
        NBTError,
    >)
        ensures
            reads(r, dec_int_array(self.endian, b@, pos as int)),
    {
        let n = b.len();
        let (len32, p4) = match self.read_u32(b, pos) {
            Ok(x) => x,
            Err(err) => {
                return Err(err);
            },
        };
        if ((n - p4) as u64) < (len32 as u64) * 4 {
            return Err(NBTError::unexpected_eof());
        }
        let sl = len32 as usize;
        let mut a: Vec<i32> = Vec::new();
        let mut cur: usize = p4;
        let mut i: usize = 0;
        while i < sl
            invariant
                n == b@.len(),
                p4 == pos + 4 <= n,
                4 * sl <= n - p4,
                i <= sl,
                cur == p4 + 4 * i,
                a@.len() == i,
                forall|j: int|
                    0 <= j < i ==> a@[j] == i32_of_u32(
                        dec_u32(self.endian, b@.subrange(p4 + 4 * j, p4 + 4 * j + 4)),
                    ),
            decreases sl - i,
        {
            let (x, p) = match self.read_i32(b, cur) {
                Ok(x) => x,
                Err(err) => {
                    return Err(err);
                },
            };
            a.push(x);
            cur = p;
            i = i + 1;
        }
        proof {
            assert(a@ =~= dec_i32s(self.endian, b@, p4 as int, sl as int));
        }
        Ok((a, cur))
    }

    /// Writes an int array: a 4-byte length, then the 32-bit scalars.
    pub fn write_int_array(&self, out: &mut Vec<u8>, value: &[i32]) -> (r: Result<
        (),
        NBTError,
    >)
        ensures
            writes(r, old(out)@, final(out)@, enc_int_array(self.endian, value@)),
    {
        let n = value.len();
        if (n as u64) > (u32::MAX as u64) {
            return Err(NBTError::invalid_string_length(n));
        }
        let ghost out0 = out@;
        put_u32(out, self.endian, n as u32);
        let ghost mid = out@;
        let mut i: usize = 0;
        while i < n
            invariant
                n == value@.len(),
                i <= n,
                out@ == mid + enc_i32s(self.endian, value@.subrange(0, i as int)),
            decreases n - i,
        {
            let x = *vstd::slice::slice_index_get(value, i);
            put_u32(out, self.endian, i32_to_u32(x));
            proof {
                lemma_enc_i32s_snoc(self.endian, value@.subrange(0, i as int), value@[i as int]);
                assert(value@.subrange(0, i + 1) =~= value@.subrange(0, i as int).push(
                    value@[i as int],
                ));
                assert(out@ =~= mid + enc_i32s(self.endian, value@.subrange(0, i + 1)));
            }
            i = i + 1;
        }
        proof {
            assert(value@.subrange(0, n as int) =~= value@);
            assert(out@ =~= out0 + (enc_u32(self.endian, n as u32) + enc_i32s(
                self.endian,
                value@,
            )));
        }
        Ok(())
    }

    /// Reads a long array: a 4-byte length, then that many 64-bit scalars.
    pub fn read_long_array(&self, b: &[u8], pos: usize) -> (r: Result<
        (Vec<i64>, usize),
        NBTError,
    >)
        ensures
            reads(r, dec_long_array(self.endian, b@, pos as int)),
    {
        let n = b.len();
        let (len32, p4) = match self.read_u32(b, pos) {
            Ok(x) => x,
            Err(err) => {
                return Err(err);
            },
        };
        if ((n - p4) as u64) < (len32 as u64) * 8 {
            return Err(NBTError::unexpected_eof());
        }
        let sl = len32 as usize;
        let mut a: Vec<i64> = Vec::new();
        let mut cur: usize = p4;
        let mut i: usize = 0;
        while i < sl
            invariant
                n == b@.len(),
                p4 == pos + 4 <= n,
                8 * sl <= n - p4,
                i <= sl,
                cur == p4 + 8 * i,
                a@.len() == i,
                forall|j: int|
                    0 <= j < i ==> a@[j] == i64_of_u64(
                        dec_u64(self.endian, b@.subrange(p4 + 8 * j, p4 + 8 * j + 8)),
                    ),
            decreases sl - i,
        {
            let (x, p) = match self.read_i64(b, cur) {
                Ok(x) => x,
                Err(err) => {
                    return Err(err);
                },
            };
            a.push(x);
            cur = p;
            i = i + 1;
        }
        proof {
            assert(a@ =~= dec_i64s(self.endian, b@, p4 as int, sl as int));
        }
        Ok((a, cur))
    }

    /// Writes a long array: a 4-byte length, then the 64-bit scalars.
    pub fn write_long_array(&self, out: &mut Vec<u8>, value: &[i64]) -> (r: Result<
        (),
        NBTError,
    >)
        ensures
            writes(r, old(out)@, final(out)@, enc_long_array(self.endian, value@)),
    {
        let n = value.len();
        if (n as u64) > (u32::MAX as u64) {
            return Err(NBTError::invalid_string_length(n));
        }
        let ghost out0 = out@;
        put_u32(out, self.endian, n as u32);
        let ghost mid = out@;
        let mut i: usize = 0;
        while i < n
            invariant
                n == value@.len(),
                i <= n,
                out@ == mid + enc_i64s(self.endian, value@.subrange(0, i as int)),
            decreases n - i,
        {
            let x = *vstd::slice::slice_index_get(value, i);
            put_u64(out, self.endian, i64_to_u64(x));
            proof {
                lemma_enc_i64s_snoc(self.endian, value@.subrange(0, i as int), value@[i as int]);
                assert(value@.subrange(0, i + 1) =~= value@.subrange(0, i as int).push(
                    value@[i as int],
                ));
                assert(out@ =~= mid + enc_i64s(self.endian, value@.subrange(0, i + 1)));
            }
            i = i + 1;
        }
        proof {
            assert(value@.subrange(0, n as int) =~= value@);
            assert(out@ =~= out0 + (enc_u32(self.endian, n as u32) + enc_i64s(
                self.endian,
                value@,
            )));
        }
        Ok(())
    }

    // -----------------------------------------------------------------------
    // The recursive tree walk.
    // -----------------------------------------------------------------------
    /// Reads the payload of a value of the given kind: the single dispatch
    /// point that lists and compounds recurse through.
    pub fn read_value(&self, b: &[u8], pos: usize, tag: &Tag) -> (r: Result<
        (Value, usize),
        NBTError,
    >)
        ensures
            reads(r, dec_value(self.endian, *tag, b@, pos as int)),
        decreases b@.len() - pos, 1int,
    {
        match tag {
            Tag::End => Ok((Value::End, pos)),
            Tag::Byte => match self.read_i8(b, pos) {
                Ok((v, p)) => Ok((Value::Byte(v), p)),
                Err(err) => Err(err),
            },
            Tag::Short => match self.read_i16(b, pos) {
                Ok((v, p)) => Ok((Value::Short(v), p)),
                Err(err) => Err(err),
            },
            Tag::Int => match self.read_i32(b, pos) {
                Ok((v, p)) => Ok((Value::Int(v), p)),
                Err(err) => Err(err),
            },
            Tag::Long => match self.read_i64(b, pos) {
                Ok((v, p)) => Ok((Value::Long(v), p)),
                Err(err) => Err(err),
            },
            Tag::Float => match self.read_u32(b, pos) {
                Ok((v, p)) => Ok((Value::Float(v), p)),
                Err(err) => Err(err),
            },
            Tag::Double => match self.read_u64(b, pos) {
                Ok((v, p)) => Ok((Value::Double(v), p)),
                Err(err) => Err(err),
            },
            Tag::ByteArray => match self.read_byte_array(b, pos) {
                Ok((v, p)) => Ok((Value::ByteArray(v), p)),
                Err(err) => Err(err),
            },
            Tag::String => match self.read_string(b, pos) {
                Ok((v, p)) => Ok((Value::String(v), p)),
                Err(err) => Err(err),
            },
            Tag::List => self.read_list(b, pos),
            Tag::Compound => self.read_compound(b, pos),
            Tag::IntArray => match self.read_int_array(b, pos) {
                Ok((v, p)) => Ok((Value::IntArray(v), p)),
                Err(err) => Err(err),
            },
            Tag::LongArray => match self.read_long_array(b, pos) {
                Ok((v, p)) => Ok((Value::LongArray(v), p)),
                Err(err) => Err(err),
            },
        }
    }

    /// Reads a list payload: an element-kind byte, a signed 32-bit count
    /// rejected outside `0..=32767` before any element byte is consumed,
    /// then the unframed element payloads.
    #[verifier::loop_isolation(false)]
    #[verifier::rlimit(100)]
    pub fn read_list(&self, b: &[u8], pos: usize) -> (r: Result<(Value, usize), NBTError>)
        ensures
            reads(r, dec_value(self.endian, Tag::List, b@, pos as int)),
        decreases b@.len() - pos, 0int,
    {
        let n = b.len();
        if pos >= n {
            return Err(NBTError::unexpected_eof());
        }
        let et_byte = *vstd::slice::slice_index_get(b, pos);
        let et = match Tag::identify(et_byte) {
            Ok(t) => t,
            Err(err) => {
                return Err(err);
            },
        };
        if n - pos < 5 {
            return Err(NBTError::unexpected_eof());
        }
        let raw = get_u32(self.endian, b, pos + 1);
        let cnt = u32_to_i32(raw);
        if cnt < 0 || cnt > 32767 {
            return Err(NBTError::invalid_string_length(raw as usize));
        }
        let cntu = cnt as usize;
        let mut elems: Vec<Value> = Vec::new();
        let mut cur: usize = pos + 5;
        let mut i: usize = 0;
        while i < cntu
            invariant
                i <= cntu,
                pos + 5 <= cur <= n,
                elems@.len() == i,
                dec_elems(self.endian, et, b@, pos + 5, cnt as int) == (match dec_elems(
                    self.endian,
                    et,
                    b@,
                    cur as int,
                    cnt - i,
                ) {
                    Ok((vs, p)) => Ok::<_, NBTErrorKind>((view_values(elems@) + vs, p)),
                    Err(k) => Err(k),
                }),
            decreases cntu - i,
        {
            let ghost cur0 = cur as int;
            let ghost elems0 = elems@;
            let (v, p) = match self.read_value(b, cur, &et) {
                Ok(x) => x,
                Err(err) => {
                    return Err(err);
                },
            };
            proof {
                lemma_dec_value_bounds(self.endian, et, b@, cur as int);
            }
            elems.push(v);
            cur = p;
            i = i + 1;
            proof {
                assert(elems@ =~= elems0.push(v));
                assert(view_values(elems@) =~= view_values(elems0).push(v@));
                let sub = dec_elems(self.endian, et, b@, cur as int, cnt - i);
                match sub {
                    Ok((vs, pe)) => {
                        assert(view_values(elems0) + (seq![v@] + vs) =~= view_values(elems@)
                            + vs);
                    },
                    Err(_) => {},
                }
            }
        }
        proof {
            assert(view_values(elems@) + Seq::<ValueModel>::empty() =~= view_values(elems@));
        }
        Ok((Value::List(elems), cur))
    }

    /// Reads a compound payload: framed entries until an End tag byte, a
    /// repeated key keeping the value read last.
    #[verifier::loop_isolation(false)]
    #[verifier::rlimit(100)]
    pub fn read_compound(&self, b: &[u8], pos: usize) -> (r: Result<(Value, usize), NBTError>)
        ensures
            reads(r, dec_value(self.endian, Tag::Compound, b@, pos as int)),
        decreases b@.len() - pos, 0int,
    {
        let n = b.len();
        let mut entries: Vec<(String, Value)> = Vec::new();
        let mut cur: usize = pos;
        proof {
            assert(view_entries(entries@) =~= Seq::<(Seq<char>, ValueModel)>::empty());
        }
        loop
            invariant
                pos <= cur,
                cur <= n || cur == pos,
                dec_entries(self.endian, b@, pos as int, Seq::empty()) == dec_entries(
                    self.endian,
                    b@,
                    cur as int,
                    view_entries(entries@),
                ),
            decreases b@.len() - cur,
        {
            if cur >= n {
                return Err(NBTError::unexpected_eof());
            }
            let t_byte = *vstd::slice::slice_index_get(b, cur);
            let t = match Tag::identify(t_byte) {
                Ok(t) => t,
                Err(err) => {
                    return Err(err);
                },
            };
            if matches!(t, Tag::End) {
                return Ok((Value::Compound(entries), cur + 1));
            }
            let (name, p1) = match self.read_string(b, cur + 1) {
                Ok(x) => x,
                Err(err) => {
                    return Err(err);
                },
            };
            let (v, p2) = match self.read_value(b, p1, &t) {
                Ok(x) => x,
                Err(err) => {
                    return Err(err);
                },
            };
            proof {
                lemma_dec_value_bounds(self.endian, t, b@, p1 as int);
            }
            insert_pair(&mut entries, name, v);
            cur = p2;
        }
    }

    /// Reads one named entry: a tag byte, a name string, and a payload.  An
    /// empty name on the wire reads back as no name.
    pub fn read_tag(&self, b: &[u8], pos: usize) -> (r: Result<
        ((Option<String>, Value), usize),
        NBTError,
    >)
        ensures
            match dec_named(self.endian, b@, pos as int) {
                Ok(((name, vm), p)) => {
                    &&& r matches Ok(rp)
                    &&& match (rp.0.0, name) {
                        (Some(s), Some(m)) => s@ == m,
                        (None, None) => true,
                        _ => false,
                    }
                    &&& rp.0.1@ == vm
                    &&& rp.1 == p
                },
                Err(k) => r matches Err(err) && err.kind == k,
            },
    {
        let n = b.len();
        if pos >= n {
            return Err(NBTError::unexpected_eof());
        }
        let t_byte = *vstd::slice::slice_index_get(b, pos);
        let t = match Tag::identify(t_byte) {
            Ok(t) => t,
            Err(err) => {
                return Err(err);
            },
        };
        let (name, p1) = match self.read_string(b, pos + 1) {
            Ok(x) => x,
            Err(err) => {
                return Err(err);
            },
        };
        let (v, p2) = match self.read_value(b, p1, &t) {
            Ok(x) => x,
            Err(err) => {
                return Err(err);
            },
        };
        let name_opt = if !name.as_str().is_empty() {
            Some(name)
        } else {
            None
        };
        Ok(((name_opt, v), p2))
    }

    /// Writes the payload of a value: the single dispatch point that lists
    /// and compounds recurse through.
    pub fn write_value(&self, out: &mut Vec<u8>, value: &Value) -> (r: Result<(), NBTError>)
        ensures
            writes(r, old(out)@, final(out)@, enc_value(self.endian, value@)),
        decreases value, 1int,
    {
        match value {
            Value::End => Ok(()),
            Value::Byte(v) => self.write_i8(out, *v),
            Value::Short(v) => self.write_i16(out, *v),
            Value::Int(v) => self.write_i32(out, *v),
            Value::Long(v) => self.write_i64(out, *v),
            Value::Float(v) => self.write_u32(out, *v),
            Value::Double(v) => self.write_u64(out, *v),
            Value::ByteArray(a) => self.write_byte_array(out, a.as_slice()),
            Value::String(s) => self.write_string(out, s.as_str()),
            Value::IntArray(a) => self.write_int_array(out, a.as_slice()),
            Value::LongArray(a) => self.write_long_array(out, a.as_slice()),
            Value::List(_) => self.write_list(out, value),
            Value::Compound(_) => self.write_compound(out, value),
        }
    }

    /// Writes a list: an element-kind byte (End for an empty list), a signed
    /// 32-bit count, then the unframed element payloads.  Homogeneity is
    /// enforced before any list byte is written: the first element of a
    /// different kind fails the write, naming its index and both kinds.
    /// Called on a non-list, fails with that value's own tag discriminant.
    #[verifier::loop_isolation(false)]
    #[verifier::rlimit(100)]
    pub fn write_list(&self, out: &mut Vec<u8>, value: &Value) -> (r: Result<(), NBTError>)
        ensures
            value@ matches ValueModel::List(_) ==> writes(
                r,
                old(out)@,
                final(out)@,
                enc_value(self.endian, value@),
            ),
            !(value@ matches ValueModel::List(_)) ==> (r matches Err(err) && err.kind
                == NBTErrorKind::InvalidTagID(tag_id(kind_of(value@)))),
            (match value@ {
                ValueModel::List(elems) => elems.len() > 32767 || (elems.len() > 0 && !(
                check_homog(elems, kind_of(elems[0]), 0) is Ok)),
                _ => false,
            }) ==> final(out)@ == old(out)@,
        decreases value, 0int,
    {
        match value {
            Value::List(list) => {
                let ghost elems = view_values(list@);
                let n = list.len();
                proof {
                    lemma_view_values(list@);
                    assert(elems.len() == n);
                }
                if n == 0 {
                    let ghost out0 = out@;
                    out.push(0u8);
                    put_u32(out, self.endian, 0);
                    proof {
                        assert(out@ =~= out0 + (seq![tag_id(Tag::End)] + enc_u32(
                            self.endian,
                            0,
                        )));
                    }
                    return Ok(());
                }
                if n > 32767 {
                    return Err(NBTError::invalid_string_length(n));
                }
                let first = &list[0];
                let first_tag = first.tag();
                let mut i: usize = 0;
                while i < n
                    invariant
                        i <= n,
                        forall|j: int| 0 <= j < i ==> kind_of(#[trigger] elems[j]) == first_tag,
                    decreases n - i,
                {
                    let cur = &list[i];
                    let vt = cur.tag();
                    if vt != first_tag {
                        proof {
                            lemma_check_homog(elems, first_tag, 0);
                            let f = first_mismatch(elems, first_tag, 0);
                            assert(kind_of(elems[i as int]) != first_tag);
                            if f == -1 {
                                assert(kind_of(elems[i as int]) == first_tag);
                            } else {
                                if f < i {
                                    assert(kind_of(elems[f]) == first_tag);
                                }
                                if f > i {
                                    assert(kind_of(elems[i as int]) == first_tag);
                                }
                            }
                            assert(f == i);
                        }
                        return Err(NBTError::list_type_mismatch(i, first_tag, vt));
                    }
                    i = i + 1;
                }
                proof {
                    lemma_check_homog(elems, first_tag, 0);
                    let f = first_mismatch(elems, first_tag, 0);
                    if f >= 0 {
                        assert(kind_of(elems[f]) == first_tag);
                    }
                    assert(check_homog(elems, first_tag, 0) == Ok::<(), NBTErrorKind>(()));
                }
                let ghost out0 = out@;
                out.push(first_tag.id());
                put_u32(out, self.endian, n as u32);
                let ghost header = seq![tag_id(first_tag)] + enc_u32(self.endian, n as u32);
                let ghost base = out@;
                proof {
                    assert(base =~= out0 + header);
                }
                let ghost mut done: Seq<u8> = Seq::empty();
                proof {
                    assert(base + done =~= base);
                }
                let mut i: usize = 0;
                while i < n
                    invariant
                        i <= n,
                        out@ == base + done,
                        enc_elems(self.endian, elems, 0) == (match enc_elems(
                            self.endian,
                            elems,
                            i as int,
                        ) {
                            Ok(rest) => Ok::<_, NBTErrorKind>(done + rest),
                            Err(k) => Err(k),
                        }),
                    decreases n - i,
                {
                    let ghost done0 = done;
                    match self.write_value(out, &list[i]) {
                        Ok(()) => {},
                        Err(err) => {
                            return Err(err);
                        },
                    }
                    proof {
                        let piece = enc_value(self.endian, elems[i as int]).unwrap();
                        done = done + piece;
                        assert(out@ =~= base + done);
                        match enc_elems(self.endian, elems, i + 1) {
                            Ok(rest) => {
                                assert(done0 + (piece + rest) =~= done + rest);
                            },
                            Err(_) => {},
                        }
                    }
                    i = i + 1;
                }
                proof {
                    assert(done + Seq::<u8>::empty() =~= done);
                    assert(out@ =~= old(out)@ + (header + done));
                }
                Ok(())
            },
            _ => Err(NBTError::invalid_tag_id(value.tag().id())),
        }
    }

    /// Writes a compound: for each entry a tag byte, the name string, and
    /// the payload, then a terminating End tag byte.  Called on a
    /// non-compound, fails with that value's own tag discriminant.
    #[verifier::loop_isolation(false)]
    #[verifier::rlimit(100)]
    pub fn write_compound(&self, out: &mut Vec<u8>, value: &Value) -> (r: Result<
        (),
        NBTError,
    >)
        ensures
            value@ matches ValueModel::Compound(_) ==> writes(
                r,
                old(out)@,
                final(out)@,
                enc_value(self.endian, value@),
            ),
            !(value@ matches ValueModel::Compound(_)) ==> (r matches Err(err) && err.kind
                == NBTErrorKind::InvalidTagID(tag_id(kind_of(value@)))),
        decreases value, 0int,
    {
        match value {
            Value::Compound(entries) => {
                let ghost es = view_entries(entries@);
                let ghost out0 = out@;
                let n = entries.len();
                let ghost mut done: Seq<u8> = Seq::empty();
                proof {
                    assert(out@ =~= out0 + done);
                }
                let mut i: usize = 0;
                while i < n
                    invariant
                        i <= n,
                        out@ == out0 + done,
                        enc_entries(self.endian, es, 0) == (match enc_entries(
                            self.endian,
                            es,
                            i as int,
                        ) {
                            Ok(rest) => Ok::<_, NBTErrorKind>(done + rest),
                            Err(k) => Err(k),
                        }),
                    decreases n - i,
                {
                    let ghost done0 = done;
                    let ghost outa = out@;
                    let entry = &entries[i];
                    let vt = entry.1.tag();
                    out.push(vt.id());
                    match self.write_string(out, entry.0.as_str()) {
                        Ok(()) => {},
                        Err(err) => {
                            return Err(err);
                        },
                    }
                    let ghost outb = out@;
                    match self.write_value(out, &entry.1) {
                        Ok(()) => {},
                        Err(err) => {
                            return Err(err);
                        },
                    }
                    proof {
                        let nb = enc_string(self.endian, es[i as int].0).unwrap();
                        let vb = enc_value(self.endian, es[i as int].1).unwrap();
                        let piece = seq![tag_id(kind_of(es[i as int].1))] + nb + vb;
                        done = done + piece;
                        assert(outb =~= outa + seq![tag_id(kind_of(es[i as int].1))] + nb);
                        assert(out@ =~= out0 + done);
                        match enc_entries(self.endian, es, i + 1) {
                            Ok(rest) => {
                                assert(done0 + (piece + rest) =~= done + rest);
                            },
                            Err(_) => {},
                        }
                    }
                    i = i + 1;
                }
                out.push(0u8);
                proof {
                    assert(done + Seq::<u8>::empty() =~= done);
                    assert(out@ =~= out0 + (done + seq![tag_id(Tag::End)]));
                }
                Ok(())
            },
            _ => Err(NBTError::invalid_tag_id(value.tag().id())),
        }
    }

    /// Writes one named entry: the value's tag byte, the name (the empty
    /// string when absent), and the payload.
    pub fn write_tag(&self, out: &mut Vec<u8>, name: Option<&str>, value: &Value) -> (r: Result<
        (),
        NBTError,
    >)
        ensures
            writes(
                r,
                old(out)@,
                final(out)@,
                enc_named(self.endian, name_or_empty(name), value@),
            ),
    {
        let ghost out0 = out@;
        let vt = value.tag();
        out.push(vt.id());
        let ghost outa = out@;
        let wrapped_name: &str = match name {
            Some(s) => s,
            None => "",
        };
        proof {
            reveal_strlit("");
            assert(""@ =~= Seq::<char>::empty());
            assert(wrapped_name@ == name_or_empty(name));
        }
        match self.write_string(out, wrapped_name) {
            Ok(()) => {},
            Err(err) => {
                return Err(err);
            },
        }
        let ghost outb = out@;
        match self.write_value(out, value) {
            Ok(()) => {},
            Err(err) => {
                return Err(err);
            },
        }
        proof {
            let nb = enc_string(self.endian, name_or_empty(name)).unwrap();
            let vb = enc_value(self.endian, value@).unwrap();
            assert(outb =~= out0 + seq![tag_id(kind_of(value@))] + nb);
            assert(out@ =~= out0 + (seq![tag_id(kind_of(value@))] + nb + vb));
        }
        Ok(())
    }
}

} // verus!
