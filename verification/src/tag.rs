//! The tag encoder: packs a field number and a wire-type code into the
//! leading varint of each encoded field.

use vstd::prelude::*;
use crate::error::EncodeError;
use crate::varint::{
    varint_bytes, varint_value, valid_varint, encode_unsigned_varint, decode_unsigned_varint,
    lemma_varint_round_trip,
};

verus! {

/// The four wire-type codes the protocol defines: `0` varint, `1` 64-bit
/// fixed, `2` length-delimited, `5` 32-bit fixed.
pub open spec fn valid_wire_type(w: u8) -> bool {
    w == 0 || w == 1 || w == 2 || w == 5
}

/// The packed tag value: the field number shifted past the three wire-type
/// bits, with the wire-type code in the low bits.
pub open spec fn tag_value(field_number: u32, wire_type: u8) -> nat {
    field_number as nat * 8 + wire_type as nat
}

/// The wire bytes of a tag: its packed value as an unsigned varint.
pub open spec fn tag_bytes(field_number: u32, wire_type: u8) -> Seq<u8> {
    varint_bytes(tag_value(field_number, wire_type))
}

/// Encodes the tag for `field_number` with `wire_type`. Fails exactly when
/// `wire_type` is not one of the four legal protocol codes; the field number,
/// being unsigned, is always legal, and a single varint rule covers every
/// magnitude.
pub fn encode_tag(field_number: u32, wire_type: u8) -> (r: Result<Vec<u8>, EncodeError>)
    ensures
        valid_wire_type(wire_type) ==> (r matches Ok(b) && b@ == tag_bytes(
            field_number,
            wire_type,
        )),
        !valid_wire_type(wire_type) ==> r == Err::<Vec<u8>, EncodeError>(
            EncodeError::InvalidInput,
        ),
{
    if wire_type == 0 || wire_type == 1 || wire_type == 2 || wire_type == 5 {
        let packed: u64 = (field_number as u64) * 8 + (wire_type as u64);
        Ok(encode_unsigned_varint(packed))
    } else {
        Err(EncodeError::InvalidInput)
    }
}

/// Decodes a buffer holding exactly one tag varint back into its field
/// number and wire-type code. Fails when the buffer is not a single varint
/// or the field number does not fit in 32 bits.
pub fn decode_tag(bytes: &Vec<u8>) -> (r: Result<(u32, u8), EncodeError>)
    ensures
        match r {
            Ok((f, w)) => {
                &&& valid_varint(bytes@)
                &&& varint_value(bytes@) == tag_value(f, w)
                &&& w < 8
            },
            Err(e) => e == EncodeError::InvalidInput && !(valid_varint(bytes@) && varint_value(
                bytes@,
            ) <= tag_value(u32::MAX, 7)),
        },
{
    match decode_unsigned_varint(bytes) {
        Err(e) => Err(e),
        Ok(v) => {
            let f: u64 = v / 8;
            let w: u8 = (v % 8) as u8;
            if f <= u32::MAX as u64 {
                proof {
                    vstd::arithmetic::div_mod::lemma_fundamental_div_mod(v as int, 8);
                }
                Ok((f as u32, w))
            } else {
                proof {
                    vstd::arithmetic::div_mod::lemma_fundamental_div_mod(v as int, 8);
                }
                Err(EncodeError::InvalidInput)
            }
        },
    }
}

/// Round-trip law of the tag codec: for any field number and any legal wire
/// type, the encoded tag is one well-formed varint, and splitting its decoded
/// value at the three wire-type bits gives back exactly the field number and
/// the wire type.
pub proof fn lemma_tag_round_trip(field_number: u32, wire_type: u8)
    requires
        valid_wire_type(wire_type),
    ensures
        valid_varint(tag_bytes(field_number, wire_type)),
        varint_value(tag_bytes(field_number, wire_type)) / 8 == field_number,
        varint_value(tag_bytes(field_number, wire_type)) % 8 == wire_type,
{
    lemma_varint_round_trip(tag_value(field_number, wire_type));
    vstd::arithmetic::div_mod::lemma_fundamental_div_mod_converse(
        tag_value(field_number, wire_type) as int,
        8,
        field_number as int,
        wire_type as int,
    );
}

} // verus!
