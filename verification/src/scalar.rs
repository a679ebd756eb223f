//! The scalar codec: each supported leaf kind as its fixed- or
//! variable-width byte representation, independent of any tag.
//!
//! Floating-point leaves are carried as their IEEE-754 bit patterns
//! (`u32` for single precision, `u64` for double precision); the wire
//! format is exactly the little-endian bytes of those patterns.

use vstd::prelude::*;
use vstd::bytes::{spec_u32_to_le_bytes, spec_u64_to_le_bytes, u32_to_le_bytes, u64_to_le_bytes};
use vstd::utf8::encode_utf8;
use crate::varint::{varint_bytes, encode_unsigned_varint};

verus! {

/// The 64-bit two's-complement bit pattern of `n`, read as unsigned.
pub open spec fn twos_complement_64(n: i64) -> nat {
    if n >= 0 {
        n as nat
    } else {
        (n + 0x1_0000_0000_0000_0000) as nat
    }
}

/// The payload of an `int64` field: the unsigned varint of the value's
/// two's-complement bit pattern (plain protobuf integers are not zig-zag
/// encoded).
pub open spec fn int64_payload(n: i64) -> Seq<u8> {
    varint_bytes(twos_complement_64(n))
}

/// The payload of an `int32` field: the value is sign-extended to 64 bits
/// before varint-encoding, which keeps the two integer widths
/// wire-compatible.
pub open spec fn int32_payload(n: i32) -> Seq<u8> {
    int64_payload(n as i64)
}

/// The payload of a `float` field: the four little-endian bytes of the
/// IEEE-754 single-precision bit pattern.
pub open spec fn float_payload(bits: u32) -> Seq<u8> {
    spec_u32_to_le_bytes(bits)
}

/// The payload of a `double` field: the eight little-endian bytes of the
/// IEEE-754 double-precision bit pattern.
pub open spec fn double_payload(bits: u64) -> Seq<u8> {
    spec_u64_to_le_bytes(bits)
}

/// The payload of a `string` field: the value's UTF-8 bytes, unmodified and
/// without a terminator. The object encoder prefixes the byte length.
pub open spec fn string_payload(s: Seq<char>) -> Seq<u8> {
    encode_utf8(s)
}

/// Encodes an `int64` value.
pub fn encode_int64(num: i64) -> (r: Vec<u8>)
    ensures
        r@ == int64_payload(num),
{
    let bits: u64 = if num >= 0 {
        num as u64
    } else {
        let above_min: i64 = num - i64::MIN;
        (above_min as u64) + 0x8000_0000_0000_0000
    };
    assert(bits as nat == twos_complement_64(num));
    encode_unsigned_varint(bits)
}

/// Encodes an `int32` value, sign-extending it to 64 bits first.
pub fn encode_int32(num: i32) -> (r: Vec<u8>)
    ensures
        r@ == int32_payload(num),
{
    encode_int64(num as i64)
}

/// Encodes a `float` value given as its IEEE-754 single-precision bits.
pub fn encode_float(bits: u32) -> (r: Vec<u8>)
    ensures
        r@ == float_payload(bits),
{
    u32_to_le_bytes(bits)
}

/// Encodes a `double` value given as its IEEE-754 double-precision bits.
pub fn encode_double(bits: u64) -> (r: Vec<u8>)
    ensures
        r@ == double_payload(bits),
{
    u64_to_le_bytes(bits)
}

/// Encodes a `string` value as its raw UTF-8 bytes.
pub fn encode_string(val: &str) -> (r: Vec<u8>)
    ensures
        r@ == string_payload(val@),
{
    val.as_bytes_vec()
}

} // verus!
