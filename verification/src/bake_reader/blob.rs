//! Decoding a byte range of a blob file into a typed, densely packed array.
//!
//! A blob stores elements back to back, little-endian. Decoding is a pure
//! transformation of the byte range: the whole range is consumed, and a range
//! that reaches past the end of the blob or whose length is not a multiple of
//! the element width is refused, never truncated.

use vstd::prelude::*;

use crate::bake_reader::api::AttributeType;
use crate::bake_reader::geometry::{AttributeData, AttributeDataV};
use crate::errors::{result_view, MetaReadError};

verus! {

/// The unsigned value of four little-endian bytes.
pub open spec fn le_u32(b0: u8, b1: u8, b2: u8, b3: u8) -> u32 {
    (b0 + b1 * 0x100 + b2 * 0x10000 + b3 * 0x1000000) as u32
}

/// The signed two's-complement value of four little-endian bytes.
pub open spec fn le_i32(b0: u8, b1: u8, b2: u8, b3: u8) -> i32 {
    if le_u32(b0, b1, b2, b3) < 0x80000000 {
        le_u32(b0, b1, b2, b3) as i32
    } else {
        (le_u32(b0, b1, b2, b3) - 0x100000000) as i32
    }
}

/// The unsigned value of the four bytes at `at`.
pub open spec fn le_u32_at(bytes: Seq<u8>, at: int) -> u32
    recommends
        0 <= at,
        at + 4 <= bytes.len(),
{
    le_u32(bytes[at], bytes[at + 1], bytes[at + 2], bytes[at + 3])
}

/// The signed value of the four bytes at `at`.
pub open spec fn le_i32_at(bytes: Seq<u8>, at: int) -> i32
    recommends
        0 <= at,
        at + 4 <= bytes.len(),
{
    le_i32(bytes[at], bytes[at + 1], bytes[at + 2], bytes[at + 3])
}

/// A byte range decoded as `FLOAT`: the bit pattern of one little-endian
/// IEEE-754 single-precision value every four bytes.
pub open spec fn floats_of(bytes: Seq<u8>) -> Seq<u32> {
    Seq::new(bytes.len() / 4, |i: int| le_u32_at(bytes, 4 * i))
}

/// A byte range decoded as `BOOLEAN`: one element per byte, `false` exactly
/// when the byte is zero.
pub open spec fn bools_of(bytes: Seq<u8>) -> Seq<bool> {
    Seq::new(bytes.len(), |i: int| bytes[i] != 0)
}

/// A byte range decoded as `INT`: one little-endian signed 32-bit value
/// every four bytes.
pub open spec fn ints_of(bytes: Seq<u8>) -> Seq<i32> {
    Seq::new(bytes.len() / 4, |i: int| le_i32_at(bytes, 4 * i))
}

/// A byte range decoded as `FLOAT_VECTOR`: three consecutive little-endian
/// single-precision bit patterns every twelve bytes.
pub open spec fn float_vectors_of(bytes: Seq<u8>) -> Seq<(u32, u32, u32)> {
    Seq::new(
        bytes.len() / 12,
        |i: int| (le_u32_at(bytes, 12 * i), le_u32_at(bytes, 12 * i + 4), le_u32_at(bytes, 12 * i + 8)),
    )
}

/// A byte range decoded as `INT32_2D`: two consecutive little-endian signed
/// 32-bit values every eight bytes.
pub open spec fn int_pairs_of(bytes: Seq<u8>) -> Seq<(i32, i32)> {
    Seq::new(bytes.len() / 8, |i: int| (le_i32_at(bytes, 8 * i), le_i32_at(bytes, 8 * i + 4)))
}

/// A full byte range decoded under one element type.
pub open spec fn typed_of(bytes: Seq<u8>, t: AttributeType) -> AttributeDataV {
    match t {
        AttributeType::FLOAT => AttributeDataV::FLOAT(floats_of(bytes)),
        AttributeType::BOOLEAN => AttributeDataV::BOOL(bools_of(bytes)),
        AttributeType::INT => AttributeDataV::INT(ints_of(bytes)),
        AttributeType::FLOAT_VECTOR => AttributeDataV::FLOAT_VECTOR(float_vectors_of(bytes)),
        AttributeType::INT32_2D => AttributeDataV::INT32_2D(int_pairs_of(bytes)),
    }
}

/// What decoding a byte range of a blob yields: a short range is a read
/// failure, a length that is no multiple of the element width is a size
/// failure, and otherwise the range decodes whole.
pub open spec fn spec_decode(bytes: Seq<u8>, start: u64, size: u64, t: AttributeType) -> Result<
    AttributeDataV,
    MetaReadError,
> {
    if start + size > bytes.len() {
        Err(MetaReadError::Io)
    } else if size as int % (t.spec_width() as int) != 0 {
        Err(MetaReadError::DecodeSizeError)
    } else {
        Ok(typed_of(bytes.subrange(start as int, start + size), t))
    }
}

/// Read the unsigned little-endian value of the four bytes at `at`.
fn read_le_u32(bytes: &Vec<u8>, at: usize) -> (x: u32)
    requires
        at + 4 <= bytes@.len(),
    ensures
        x == le_u32_at(bytes@, at as int),
{
    let l = bytes.len();
    bytes[at] as u32 + (bytes[at + 1] as u32) * 0x100 + (bytes[at + 2] as u32) * 0x10000 + (bytes[at
        + 3] as u32) * 0x1000000
}

/// Read the signed little-endian value of the four bytes at `at`.
fn read_le_i32(bytes: &Vec<u8>, at: usize) -> (x: i32)
    requires
        at + 4 <= bytes@.len(),
    ensures
        x == le_i32_at(bytes@, at as int),
{
    let u = read_le_u32(bytes, at);
    if u < 0x80000000 {
        u as i32
    } else {
        (u as i64 - 0x100000000i64) as i32
    }
}

/// Decode a `FLOAT` range: one bit pattern every four bytes.
fn read_float(bytes: &Vec<u8>, start: usize, size: usize) -> (v: Vec<u32>)
    requires
        start + size <= bytes@.len(),
        size % 4 == 0,
    ensures
        v@ == floats_of(bytes@.subrange(start as int, start as int + size)),
{
    let l = bytes.len();
    let ghost sub = bytes@.subrange(start as int, start as int + size);
    let n = size / 4;
    let mut v: Vec<u32> = Vec::new();
    let mut i: usize = 0;
    while i < n
        invariant
            i <= n,
            n == size / 4,
            size % 4 == 0,
            start + size <= bytes@.len(),
            l == bytes@.len(),
            sub == bytes@.subrange(start as int, start as int + size),
            v@ =~= floats_of(sub).take(i as int),
        decreases n - i,
    {
        let x = read_le_u32(bytes, start + 4 * i);
        proof {
            assert(le_u32_at(bytes@, (start + 4 * i) as int) == le_u32_at(sub, 4 * i)) by {
                assert(sub[4 * i] == bytes@[start + 4 * i]);
                assert(sub[4 * i + 1] == bytes@[start + 4 * i + 1]);
                assert(sub[4 * i + 2] == bytes@[start + 4 * i + 2]);
                assert(sub[4 * i + 3] == bytes@[start + 4 * i + 3]);
            }
        }
        v.push(x);
        i = i + 1;
    }
    proof {
        assert(v@ =~= floats_of(sub));
    }
    v
}

/// Decode a `BOOLEAN` range: one element per byte, `false` exactly for a
/// zero byte.
fn read_bool(bytes: &Vec<u8>, start: usize, size: usize) -> (v: Vec<bool>)
    requires
        start + size <= bytes@.len(),
    ensures
        v@ == bools_of(bytes@.subrange(start as int, start as int + size)),
{
    let l = bytes.len();
    let ghost sub = bytes@.subrange(start as int, start as int + size);
    let mut v: Vec<bool> = Vec::new();
    let mut i: usize = 0;
    while i < size
        invariant
            i <= size,
            start + size <= bytes@.len(),
            l == bytes@.len(),
            sub == bytes@.subrange(start as int, start as int + size),
            v@ =~= bools_of(sub).take(i as int),
        decreases size - i,
    {
        let b = bytes[start + i];
        v.push(b != 0);
        i = i + 1;
    }
    proof {
        assert(v@ =~= bools_of(sub));
    }
    v
}

/// Decode an `INT` range: one signed value every four bytes.
fn read_int(bytes: &Vec<u8>, start: usize, size: usize) -> (v: Vec<i32>)
    requires
        start + size <= bytes@.len(),
        size % 4 == 0,
    ensures
        v@ == ints_of(bytes@.subrange(start as int, start as int + size)),
{
    let l = bytes.len();
    let ghost sub = bytes@.subrange(start as int, start as int + size);
    let n = size / 4;
    let mut v: Vec<i32> = Vec::new();
    let mut i: usize = 0;
    while i < n
        invariant
            i <= n,
            n == size / 4,
            size % 4 == 0,
            start + size <= bytes@.len(),
            l == bytes@.len(),
            sub == bytes@.subrange(start as int, start as int + size),
            v@ =~= ints_of(sub).take(i as int),
        decreases n - i,
    {
        let x = read_le_i32(bytes, start + 4 * i);
        proof {
            assert(le_u32_at(bytes@, (start + 4 * i) as int) == le_u32_at(sub, 4 * i)) by {
                assert(sub[4 * i] == bytes@[start + 4 * i]);
                assert(sub[4 * i + 1] == bytes@[start + 4 * i + 1]);
                assert(sub[4 * i + 2] == bytes@[start + 4 * i + 2]);
                assert(sub[4 * i + 3] == bytes@[start + 4 * i + 3]);
            }
        }
        v.push(x);
        i = i + 1;
    }
    proof {
        assert(v@ =~= ints_of(sub));
    }
    v
}

/// Decode a `FLOAT_VECTOR` range: three bit patterns every twelve bytes.
fn read_float_vector(bytes: &Vec<u8>, start: usize, size: usize) -> (v: Vec<(u32, u32, u32)>)
    requires
        start + size <= bytes@.len(),
        size % 12 == 0,
    ensures
        v@ == float_vectors_of(bytes@.subrange(start as int, start as int + size)),
{
    let l = bytes.len();
    let ghost sub = bytes@.subrange(start as int, start as int + size);
    let n = size / 12;
    let mut v: Vec<(u32, u32, u32)> = Vec::new();
    let mut i: usize = 0;
    while i < n
        invariant
            i <= n,
            n == size / 12,
            size % 12 == 0,
            start + size <= bytes@.len(),
            l == bytes@.len(),
            sub == bytes@.subrange(start as int, start as int + size),
            v@ =~= float_vectors_of(sub).take(i as int),
        decreases n - i,
    {
        let x = read_le_u32(bytes, start + 12 * i);
        let y = read_le_u32(bytes, start + 12 * i + 4);
        let z = read_le_u32(bytes, start + 12 * i + 8);
        proof {
            assert(le_u32_at(bytes@, (start + 12 * i) as int) == le_u32_at(sub, 12 * i)) by {
                assert(sub[12 * i] == bytes@[start + 12 * i]);
                assert(sub[12 * i + 1] == bytes@[start + 12 * i + 1]);
                assert(sub[12 * i + 2] == bytes@[start + 12 * i + 2]);
                assert(sub[12 * i + 3] == bytes@[start + 12 * i + 3]);
            }
            assert(le_u32_at(bytes@, (start + 12 * i + 4) as int) == le_u32_at(sub, 12 * i + 4)) by {
                assert(sub[12 * i + 4] == bytes@[start + 12 * i + 4]);
                assert(sub[12 * i + 5] == bytes@[start + 12 * i + 5]);
                assert(sub[12 * i + 6] == bytes@[start + 12 * i + 6]);
                assert(sub[12 * i + 7] == bytes@[start + 12 * i + 7]);
            }
            assert(le_u32_at(bytes@, (start + 12 * i + 8) as int) == le_u32_at(sub, 12 * i + 8)) by {
                assert(sub[12 * i + 8] == bytes@[start + 12 * i + 8]);
                assert(sub[12 * i + 9] == bytes@[start + 12 * i + 9]);
                assert(sub[12 * i + 10] == bytes@[start + 12 * i + 10]);
                assert(sub[12 * i + 11] == bytes@[start + 12 * i + 11]);
            }
        }
        v.push((x, y, z));
        i = i + 1;
    }
    proof {
        assert(v@ =~= float_vectors_of(sub));
    }
    v
}

/// Decode an `INT32_2D` range: two signed values every eight bytes.
fn read_int_pair(bytes: &Vec<u8>, start: usize, size: usize) -> (v: Vec<(i32, i32)>)
    requires
        start + size <= bytes@.len(),
        size % 8 == 0,
    ensures
        v@ == int_pairs_of(bytes@.subrange(start as int, start as int + size)),
{
    let l = bytes.len();
    let ghost sub = bytes@.subrange(start as int, start as int + size);
    let n = size / 8;
    let mut v: Vec<(i32, i32)> = Vec::new();
    let mut i: usize = 0;
    while i < n
        invariant
            i <= n,
            n == size / 8,
            size % 8 == 0,
            start + size <= bytes@.len(),
            l == bytes@.len(),
            sub == bytes@.subrange(start as int, start as int + size),
            v@ =~= int_pairs_of(sub).take(i as int),
        decreases n - i,
    {
        let x = read_le_i32(bytes, start + 8 * i);
        let y = read_le_i32(bytes, start + 8 * i + 4);
        proof {
            assert(le_u32_at(bytes@, (start + 8 * i) as int) == le_u32_at(sub, 8 * i)) by {
                assert(sub[8 * i] == bytes@[start + 8 * i]);
                assert(sub[8 * i + 1] == bytes@[start + 8 * i + 1]);
                assert(sub[8 * i + 2] == bytes@[start + 8 * i + 2]);
                assert(sub[8 * i + 3] == bytes@[start + 8 * i + 3]);
            }
            assert(le_u32_at(bytes@, (start + 8 * i + 4) as int) == le_u32_at(sub, 8 * i + 4)) by {
                assert(sub[8 * i + 4] == bytes@[start + 8 * i + 4]);
                assert(sub[8 * i + 5] == bytes@[start + 8 * i + 5]);
                assert(sub[8 * i + 6] == bytes@[start + 8 * i + 6]);
                assert(sub[8 * i + 7] == bytes@[start + 8 * i + 7]);
            }
        }
        v.push((x, y));
        i = i + 1;
    }
    proof {
        assert(v@ =~= int_pairs_of(sub));
    }
    v
}

/// Decode the byte range `start..start + size` of a blob under the element
/// type `t`: exactly [`spec_decode`], so a short range fails with `Io`, a
/// length off the element grid fails with `DecodeSizeError`, and otherwise
/// every element of the range comes back, in order.
pub fn decode(bytes: &Vec<u8>, start: u64, size: u64, t: &AttributeType) -> (r: Result<
    AttributeData,
    MetaReadError,
>)
    ensures
        result_view(r) == spec_decode(bytes@, start, size, *t),
{
    let len = bytes.len();
    if start > len as u64 || size > len as u64 - start {
        return Err(MetaReadError::Io);
    }
    let width = t.width();
    if size % width != 0 {
        return Err(MetaReadError::DecodeSizeError);
    }
    let s = start as usize;
    let z = size as usize;
    match t {
        AttributeType::FLOAT => Ok(AttributeData::FLOAT(read_float(bytes, s, z))),
        AttributeType::BOOLEAN => Ok(AttributeData::BOOL(read_bool(bytes, s, z))),
        AttributeType::INT => Ok(AttributeData::INT(read_int(bytes, s, z))),
        AttributeType::FLOAT_VECTOR => Ok(
            AttributeData::FLOAT_VECTOR(read_float_vector(bytes, s, z)),
        ),
        AttributeType::INT32_2D => Ok(AttributeData::INT32_2D(read_int_pair(bytes, s, z))),
    }
}

} // verus!
