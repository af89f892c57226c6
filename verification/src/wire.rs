//! Byte-level primitives of the wire format: fixed-width two's-complement
//! scalars laid out in a configurable byte order.  The `enc_*`/`dec_*` spec
//! functions are the mathematical layout; the exec functions produce and
//! consume exactly those bytes.

use vstd::bytes::*;
use vstd::prelude::*;

use crate::codec::Endian;

verus! {

broadcast use vstd::slice::group_slice_axioms;

// ---------------------------------------------------------------------------
// Signed/unsigned reinterpretation (two's complement), spec side.
// ---------------------------------------------------------------------------
/// The unsigned byte with the same bit pattern as a signed byte.
pub open spec fn u8_of_i8(x: i8) -> u8 {
    if x >= 0 {
        x as u8
    } else {
        (x + 0x100) as u8
    }
}

/// The signed byte with the same bit pattern as an unsigned byte.
pub open spec fn i8_of_u8(b: u8) -> i8 {
    if b < 0x80 {
        b as i8
    } else {
        (b - 0x100) as i8
    }
}

pub open spec fn u16_of_i16(x: i16) -> u16 {
    if x >= 0 {
        x as u16
    } else {
        (x + 0x1_0000) as u16
    }
}

pub open spec fn i16_of_u16(v: u16) -> i16 {
    if v < 0x8000 {
        v as i16
    } else {
        (v - 0x1_0000) as i16
    }
}

pub open spec fn u32_of_i32(x: i32) -> u32 {
    if x >= 0 {
        x as u32
    } else {
        (x + 0x1_0000_0000) as u32
    }
}

pub open spec fn i32_of_u32(v: u32) -> i32 {
    if v < 0x8000_0000 {
        v as i32
    } else {
        (v - 0x1_0000_0000) as i32
    }
}

pub open spec fn u64_of_i64(x: i64) -> u64 {
    if x >= 0 {
        x as u64
    } else {
        (x + 0x1_0000_0000_0000_0000) as u64
    }
}

pub open spec fn i64_of_u64(v: u64) -> i64 {
    if v < 0x8000_0000_0000_0000 {
        v as i64
    } else {
        (v - 0x1_0000_0000_0000_0000) as i64
    }
}

// ---------------------------------------------------------------------------
// Signed/unsigned reinterpretation, exec side.
// ---------------------------------------------------------------------------
pub fn i8_to_u8(x: i8) -> (r: u8)
    ensures
        r == u8_of_i8(x),
{
    if x >= 0 {
        x as u8
    } else {
        ((x as i16) + 0x100) as u8
    }
}

pub fn u8_to_i8(b: u8) -> (r: i8)
    ensures
        r == i8_of_u8(b),
{
    if b < 0x80 {
        b as i8
    } else {
        ((b as i16) - 0x100) as i8
    }
}

pub fn i16_to_u16(x: i16) -> (r: u16)
    ensures
        r == u16_of_i16(x),
{
    if x >= 0 {
        x as u16
    } else {
        ((x as i32) + 0x1_0000) as u16
    }
}

pub fn u16_to_i16(v: u16) -> (r: i16)
    ensures
        r == i16_of_u16(v),
{
    if v < 0x8000 {
        v as i16
    } else {
        ((v as i32) - 0x1_0000) as i16
    }
}

pub fn i32_to_u32(x: i32) -> (r: u32)
    ensures
        r == u32_of_i32(x),
{
    if x >= 0 {
        x as u32
    } else {
        ((x as i64) + 0x1_0000_0000) as u32
    }
}

pub fn u32_to_i32(v: u32) -> (r: i32)
    ensures
        r == i32_of_u32(v),
{
    if v < 0x8000_0000 {
        v as i32
    } else {
        ((v as i64) - 0x1_0000_0000) as i32
    }
}

pub fn i64_to_u64(x: i64) -> (r: u64)
    ensures
        r == u64_of_i64(x),
{
    if x >= 0 {
        x as u64
    } else {
        ((x as i128) + 0x1_0000_0000_0000_0000) as u64
    }
}

pub fn u64_to_i64(v: u64) -> (r: i64)
    ensures
        r == i64_of_u64(v),
{
    if v < 0x8000_0000_0000_0000 {
        v as i64
    } else {
        ((v as i128) - 0x1_0000_0000_0000_0000) as i64
    }
}

/// Reinterpretation round-trips: the signed and unsigned readings of one bit
/// pattern map back and forth without loss, at every width.
pub proof fn lemma_reinterpret_roundtrip()
    ensures
        forall|x: i8| #![auto] i8_of_u8(u8_of_i8(x)) == x,
        forall|b: u8| #![auto] u8_of_i8(i8_of_u8(b)) == b,
        forall|x: i16| #![auto] i16_of_u16(u16_of_i16(x)) == x,
        forall|v: u16| #![auto] u16_of_i16(i16_of_u16(v)) == v,
        forall|x: i32| #![auto] i32_of_u32(u32_of_i32(x)) == x,
        forall|v: u32| #![auto] u32_of_i32(i32_of_u32(v)) == v,
        forall|x: i64| #![auto] i64_of_u64(u64_of_i64(x)) == x,
        forall|v: u64| #![auto] u64_of_i64(i64_of_u64(v)) == v,
{
}

// ---------------------------------------------------------------------------
// Multi-byte scalars in a configured byte order, spec side.
// ---------------------------------------------------------------------------
/// The two bytes of a 16-bit scalar in the given byte order.
pub open spec fn enc_u16(e: Endian, x: u16) -> Seq<u8> {
    match e {
        Endian::Big => spec_u16_to_le_bytes(x).reverse(),
        Endian::Little => spec_u16_to_le_bytes(x),
    }
}

/// The 16-bit scalar two bytes stand for in the given byte order.
pub open spec fn dec_u16(e: Endian, s: Seq<u8>) -> u16 {
    match e {
        Endian::Big => spec_u16_from_le_bytes(s.reverse()),
        Endian::Little => spec_u16_from_le_bytes(s),
    }
}

pub open spec fn enc_u32(e: Endian, x: u32) -> Seq<u8> {
    match e {
        Endian::Big => spec_u32_to_le_bytes(x).reverse(),
        Endian::Little => spec_u32_to_le_bytes(x),
    }
}

pub open spec fn dec_u32(e: Endian, s: Seq<u8>) -> u32 {
    match e {
        Endian::Big => spec_u32_from_le_bytes(s.reverse()),
        Endian::Little => spec_u32_from_le_bytes(s),
    }
}

pub open spec fn enc_u64(e: Endian, x: u64) -> Seq<u8> {
    match e {
        Endian::Big => spec_u64_to_le_bytes(x).reverse(),
        Endian::Little => spec_u64_to_le_bytes(x),
    }
}

pub open spec fn dec_u64(e: Endian, s: Seq<u8>) -> u64 {
    match e {
        Endian::Big => spec_u64_from_le_bytes(s.reverse()),
        Endian::Little => spec_u64_from_le_bytes(s),
    }
}

/// Encoding then decoding a scalar in one byte order is the identity, and the
/// encodings have their fixed widths.
pub proof fn lemma_scalar_roundtrip(e: Endian)
    ensures
        forall|x: u16| #![auto] enc_u16(e, x).len() == 2 && dec_u16(e, enc_u16(e, x)) == x,
        forall|x: u32| #![auto] enc_u32(e, x).len() == 4 && dec_u32(e, enc_u32(e, x)) == x,
        forall|x: u64| #![auto] enc_u64(e, x).len() == 8 && dec_u64(e, enc_u64(e, x)) == x,
{
    lemma_auto_spec_u16_to_from_le_bytes();
    lemma_auto_spec_u32_to_from_le_bytes();
    lemma_auto_spec_u64_to_from_le_bytes();
    assert forall|x: u16| #![auto] enc_u16(e, x).len() == 2 && dec_u16(e, enc_u16(e, x)) == x by {
        let s = spec_u16_to_le_bytes(x);
        assert(s.reverse().reverse() =~= s);
    }
    assert forall|x: u32| #![auto] enc_u32(e, x).len() == 4 && dec_u32(e, enc_u32(e, x)) == x by {
        let s = spec_u32_to_le_bytes(x);
        assert(s.reverse().reverse() =~= s);
    }
    assert forall|x: u64| #![auto] enc_u64(e, x).len() == 8 && dec_u64(e, enc_u64(e, x)) == x by {
        let s = spec_u64_to_le_bytes(x);
        assert(s.reverse().reverse() =~= s);
    }
}

// ---------------------------------------------------------------------------
// Multi-byte scalars, exec side.
// ---------------------------------------------------------------------------
/// The bytes of a slice in reverse order.
fn rev_bytes(s: &[u8]) -> (r: Vec<u8>)
    ensures
        r@ == s@.reverse(),
{
    let n = s.len();
    let mut r: Vec<u8> = Vec::new();
    let mut i: usize = 0;
    while i < n
        invariant
            n == s@.len(),
            i <= n,
            r@.len() == i,
            forall|j: int| 0 <= j < i ==> r@[j] == s@[n - 1 - j],
        decreases n - i,
    {
        r.push(s[n - 1 - i]);
        i = i + 1;
    }
    assert(r@ =~= s@.reverse());
    r
}

/// Appends the two bytes of `x` in byte order `e`.
pub fn put_u16(out: &mut Vec<u8>, e: Endian, x: u16) -> (n: usize)
    ensures
        final(out)@ == old(out)@ + enc_u16(e, x),
        n == enc_u16(e, x).len(),
{
    proof {
        lemma_auto_spec_u16_to_from_le_bytes();
    }
    let bytes = u16_to_le_bytes(x);
    match e {
        Endian::Little => {
            let mut b = bytes;
            out.append(&mut b);
        },
        Endian::Big => {
            let mut b = rev_bytes(bytes.as_slice());
            out.append(&mut b);
        },
    }
    2
}

/// Appends the four bytes of `x` in byte order `e`.
pub fn put_u32(out: &mut Vec<u8>, e: Endian, x: u32) -> (n: usize)
    ensures
        final(out)@ == old(out)@ + enc_u32(e, x),
        n == enc_u32(e, x).len(),
{
    proof {
        lemma_auto_spec_u32_to_from_le_bytes();
    }
    let bytes = u32_to_le_bytes(x);
    match e {
        Endian::Little => {
            let mut b = bytes;
            out.append(&mut b);
        },
        Endian::Big => {
            let mut b = rev_bytes(bytes.as_slice());
            out.append(&mut b);
        },
    }
    4
}

/// Appends the eight bytes of `x` in byte order `e`.
pub fn put_u64(out: &mut Vec<u8>, e: Endian, x: u64) -> (n: usize)
    ensures
        final(out)@ == old(out)@ + enc_u64(e, x),
        n == enc_u64(e, x).len(),
{
    proof {
        lemma_auto_spec_u64_to_from_le_bytes();
    }
    let bytes = u64_to_le_bytes(x);
    match e {
        Endian::Little => {
            let mut b = bytes;
            out.append(&mut b);
        },
        Endian::Big => {
            let mut b = rev_bytes(bytes.as_slice());
            out.append(&mut b);
        },
    }
    8
}

/// Reads the 16-bit scalar whose bytes sit at `pos` in byte order `e`.
pub fn get_u16(e: Endian, b: &[u8], pos: usize) -> (r: u16)
    requires
        pos + 2 <= b@.len(),
    ensures
        r == dec_u16(e, b@.subrange(pos as int, pos as int + 2)),
{
    let n = b.len();
    let s = vstd::slice::slice_subrange(b, pos, pos + 2);
    match e {
        Endian::Little => u16_from_le_bytes(s),
        Endian::Big => {
            let v = rev_bytes(s);
            u16_from_le_bytes(v.as_slice())
        },
    }
}

/// Reads the 32-bit scalar whose bytes sit at `pos` in byte order `e`.
pub fn get_u32(e: Endian, b: &[u8], pos: usize) -> (r: u32)
    requires
        pos + 4 <= b@.len(),
    ensures
        r == dec_u32(e, b@.subrange(pos as int, pos as int + 4)),
{
    let n = b.len();
    let s = vstd::slice::slice_subrange(b, pos, pos + 4);
    match e {
        Endian::Little => u32_from_le_bytes(s),
        Endian::Big => {
            let v = rev_bytes(s);
            u32_from_le_bytes(v.as_slice())
        },
    }
}

/// Reads the 64-bit scalar whose bytes sit at `pos` in byte order `e`.
pub fn get_u64(e: Endian, b: &[u8], pos: usize) -> (r: u64)
    requires
        pos + 8 <= b@.len(),
    ensures
        r == dec_u64(e, b@.subrange(pos as int, pos as int + 8)),
{
    let n = b.len();
    let s = vstd::slice::slice_subrange(b, pos, pos + 8);
    match e {
        Endian::Little => u64_from_le_bytes(s),
        Endian::Big => {
            let v = rev_bytes(s);
            u64_from_le_bytes(v.as_slice())
        },
    }
}

} // verus!
