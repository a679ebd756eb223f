//! The object encoder: walks a mapping of annotated keys to values,
//! dispatches each entry to the tag and scalar codecs its kind calls for,
//! and concatenates the results in the mapping's own order. Nested mappings
//! become length-delimited embedded messages.

use vstd::prelude::*;
use vstd::pervasive::unreached;
use crate::error::EncodeError;
use crate::key::{FieldKind, spec_parse_key, parse_key, wire_type_of, wire_type_code};
use crate::scalar::{
    int32_payload, int64_payload, float_payload, double_payload, string_payload, encode_int32,
    encode_int64, encode_float, encode_double, encode_string,
};
use crate::tag::{tag_bytes, encode_tag};
use crate::value::{
    Value, kind_matches, value_well_kinded, entries_well_kinded, value_keys_ok,
    entries_keys_ok, entry_keys_ok, lemma_entries_well_kinded_index,
};
use crate::varint::{varint_bytes, encode_unsigned_varint};

verus! {

/// The wire bytes of one field whose key resolved to `kind` and
/// `field_number`: the tag, then for the length-delimited kinds (`string`,
/// nested objects) the payload's byte length as a varint and the payload,
/// and for all other kinds the payload alone. Fails exactly when a key
/// inside a nested object fails to parse.
pub open spec fn spec_encode_value(kind: FieldKind, field_number: u32, v: Value) -> Result<
    Seq<u8>,
    EncodeError,
>
    decreases v, 1int,
{
    let tag = tag_bytes(field_number, wire_type_of(kind));
    match v {
        Value::Int32(n) => Ok(tag + int32_payload(n)),
        Value::Int64(n) => Ok(tag + int64_payload(n)),
        Value::FloatBits(b) => Ok(tag + float_payload(b)),
        Value::DoubleBits(b) => Ok(tag + double_payload(b)),
        Value::Str(s) => Ok(
            tag + varint_bytes(string_payload(s@).len()) + string_payload(s@),
        ),
        Value::Object(entries) => match spec_encode_entries(entries@) {
            Ok(payload) => Ok(tag + varint_bytes(payload.len()) + payload),
            Err(e) => Err(e),
        },
    }
}

/// The wire bytes of one entry: its key parsed, then [`spec_encode_value`];
/// the key's own error when it does not parse.
pub open spec fn spec_encode_field(key: Seq<char>, v: Value) -> Result<Seq<u8>, EncodeError>
    decreases v, 2int,
{
    match spec_parse_key(key) {
        Ok((kind, field_number)) => spec_encode_value(kind, field_number, v),
        Err(e) => Err(e),
    }
}

/// The wire bytes of an entry list: each entry's bytes concatenated in the
/// list's own order; the first failing entry's error otherwise, and no
/// partial output.
pub open spec fn spec_encode_entries(es: Seq<(String, Value)>) -> Result<Seq<u8>, EncodeError>
    decreases es, 0int,
{
    if es.len() == 0 {
        Ok(Seq::empty())
    } else {
        match spec_encode_field(es[0].0@, es[0].1) {
            Ok(first) => match spec_encode_entries(es.drop_first()) {
                Ok(rest) => Ok(first + rest),
                Err(e) => Err(e),
            },
            Err(e) => Err(e),
        }
    }
}

/// The wire bytes of a whole tree: its entries encoded in order when the
/// root is an object, `InvalidInput` otherwise.
pub open spec fn spec_encode_object(v: Value) -> Result<Seq<u8>, EncodeError> {
    match v {
        Value::Object(entries) => spec_encode_entries(entries@),
        _ => Err(EncodeError::InvalidInput),
    }
}

/// An encode result with the byte buffer seen as a sequence.
pub open spec fn bytes_result_view(r: Result<Vec<u8>, EncodeError>) -> Result<
    Seq<u8>,
    EncodeError,
> {
    match r {
        Ok(b) => Ok(b@),
        Err(e) => Err(e),
    }
}

/// Encoding an empty object yields an empty byte sequence.
pub proof fn lemma_encode_empty_object(v: Value)
    requires
        v matches Value::Object(entries) && entries@.len() == 0,
    ensures
        spec_encode_object(v) == Ok::<Seq<u8>, EncodeError>(Seq::empty()),
{
}

/// A field's bytes succeed exactly when every key under it parses.
pub proof fn lemma_value_encode_ok(kind: FieldKind, field_number: u32, v: Value)
    ensures
        spec_encode_value(kind, field_number, v) is Ok <==> value_keys_ok(v),
    decreases v, 1int,
{
    match v {
        Value::Object(entries) => lemma_entries_encode_ok(entries@),
        _ => {},
    }
}

/// An entry list's bytes succeed exactly when every key in it, at every
/// depth, parses into a recognized kind and field number.
pub proof fn lemma_entries_encode_ok(es: Seq<(String, Value)>)
    ensures
        spec_encode_entries(es) is Ok <==> entries_keys_ok(es),
    decreases es, 2int,
{
    if es.len() > 0 {
        let e0 = es[0];
        assert(entries_keys_ok(es) == (entry_keys_ok(e0) && entries_keys_ok(es.drop_first())));
        assert(entry_keys_ok(e0) == (spec_parse_key(e0.0@) is Ok && value_keys_ok(e0.1)));
        match spec_parse_key(e0.0@) {
            Ok((kind, field_number)) => {
                lemma_value_encode_ok(kind, field_number, e0.1);
                assert(spec_encode_field(e0.0@, e0.1) == spec_encode_value(
                    kind,
                    field_number,
                    e0.1,
                ));
            },
            Err(e) => {
                assert(spec_encode_field(e0.0@, e0.1) == Err::<Seq<u8>, EncodeError>(e));
            },
        }
        lemma_entries_encode_ok(es.drop_first());
    }
}

/// Order law of the object encoder: fields appear in the output in the same
/// relative order as in the input list, never re-sorted — the bytes of a
/// split list are the bytes of its two halves in sequence, and an error in
/// either half is the whole encoding's error.
pub proof fn lemma_entries_encode_concat(es1: Seq<(String, Value)>, es2: Seq<(String, Value)>)
    ensures
        spec_encode_entries(es1 + es2) == match spec_encode_entries(es1) {
            Ok(b1) => match spec_encode_entries(es2) {
                Ok(b2) => Ok::<Seq<u8>, EncodeError>(b1 + b2),
                Err(e) => Err(e),
            },
            Err(e) => Err(e),
        },
    decreases es1.len(),
{
    if es1.len() == 0 {
        assert(es1 + es2 =~= es2);
        match spec_encode_entries(es2) {
            Ok(b2) => {
                assert(Seq::<u8>::empty() + b2 =~= b2);
            },
            Err(_) => {},
        }
    } else {
        let es = es1 + es2;
        assert(es[0] == es1[0]);
        assert(es.drop_first() =~= es1.drop_first() + es2);
        lemma_entries_encode_concat(es1.drop_first(), es2);
        match spec_encode_field(es1[0].0@, es1[0].1) {
            Ok(first) => {
                match spec_encode_entries(es1.drop_first()) {
                    Ok(rest1) => {
                        match spec_encode_entries(es2) {
                            Ok(b2) => {
                                assert(first + (rest1 + b2) =~= (first + rest1) + b2);
                            },
                            Err(_) => {},
                        }
                    },
                    Err(_) => {},
                }
            },
            Err(_) => {},
        }
    }
}

/// The tag of a field of the given kind. Every kind's wire type is one of
/// the four legal codes, so the tag encoder cannot fail here.
fn tag_for(field_number: u32, kind: FieldKind) -> (r: Vec<u8>)
    ensures
        r@ == tag_bytes(field_number, wire_type_of(kind)),
{
    let wt: u8 = wire_type_code(kind);
    match encode_tag(field_number, wt) {
        Ok(t) => t,
        Err(_) => unreached(),
    }
}

/// Encodes one field whose key resolved to `kind` and `field_number`: the
/// tag, then the payload, length-prefixed for the length-delimited kinds.
pub fn encode_value(kind: FieldKind, field_number: u32, v: &Value) -> (r: Result<
    Vec<u8>,
    EncodeError,
>)
    requires
        kind_matches(kind, *v),
        value_well_kinded(*v),
    ensures
        bytes_result_view(r) == spec_encode_value(kind, field_number, *v),
    decreases *v, 1int,
{
    let mut out = tag_for(field_number, kind);
    match v {
        Value::Int32(n) => {
            let mut payload = encode_int32(*n);
            out.append(&mut payload);
            Ok(out)
        },
        Value::Int64(n) => {
            let mut payload = encode_int64(*n);
            out.append(&mut payload);
            Ok(out)
        },
        Value::FloatBits(bits) => {
            let mut payload = encode_float(*bits);
            out.append(&mut payload);
            Ok(out)
        },
        Value::DoubleBits(bits) => {
            let mut payload = encode_double(*bits);
            out.append(&mut payload);
            Ok(out)
        },
        Value::Str(s) => {
            let mut payload = encode_string(s.as_str());
            let mut len_bytes = encode_unsigned_varint(payload.len() as u64);
            out.append(&mut len_bytes);
            out.append(&mut payload);
            Ok(out)
        },
        Value::Object(entries) => {
            match encode_entries(entries) {
                Ok(mut payload) => {
                    let mut len_bytes = encode_unsigned_varint(payload.len() as u64);
                    out.append(&mut len_bytes);
                    out.append(&mut payload);
                    Ok(out)
                },
                Err(e) => Err(e),
            }
        },
    }
}

/// Encodes an entry list: each entry in order, keys parsed, payloads
/// dispatched by kind, all bytes concatenated. The first failing key aborts
/// the whole call with its error and no partial output.
pub fn encode_entries(entries: &Vec<(String, Value)>) -> (r: Result<Vec<u8>, EncodeError>)
    requires
        entries_well_kinded(entries@),
    ensures
        bytes_result_view(r) == spec_encode_entries(entries@),
    decreases entries@, 0int,
{
    let ghost es = entries@;
    let mut out: Vec<u8> = Vec::new();
    let mut i: usize = 0;
    while i < entries.len()
        invariant
            i <= es.len(),
            es == entries@,
            entries_well_kinded(es),
            spec_encode_entries(es.subrange(0, i as int)) == Ok::<Seq<u8>, EncodeError>(out@),
        decreases es.len() - i,
    {
        let ghost prefix = es.subrange(0, i as int);
        let ghost suffix = es.subrange(i as int, es.len() as int);
        proof {
            lemma_entries_well_kinded_index(es, i as int);
            assert(prefix + suffix =~= es);
            assert(suffix[0] == es[i as int]);
            assert(suffix.drop_first() =~= es.subrange(i as int + 1, es.len() as int));
        }
        let pair = &entries[i];
        let field_result = match parse_key(pair.0.as_str()) {
            Ok((kind, field_number)) => encode_value(kind, field_number, &pair.1),
            Err(e) => Err(e),
        };
        proof {
            assert(bytes_result_view(field_result) == spec_encode_field(
                es[i as int].0@,
                es[i as int].1,
            ));
        }
        match field_result {
            Ok(mut field_bytes) => {
                proof {
                    let entry_seq = seq![es[i as int]];
                    lemma_entries_encode_concat(prefix, entry_seq);
                    assert(entry_seq.drop_first() =~= Seq::<(String, Value)>::empty());
                    assert(spec_encode_entries(Seq::<(String, Value)>::empty())
                        == Ok::<Seq<u8>, EncodeError>(Seq::empty()));
                    assert(entry_seq[0] == es[i as int]);
                    assert(spec_encode_field(entry_seq[0].0@, entry_seq[0].1)
                        == Ok::<Seq<u8>, EncodeError>(field_bytes@));
                    assert(spec_encode_entries(entry_seq) == Ok::<Seq<u8>, EncodeError>(
                        field_bytes@ + Seq::<u8>::empty(),
                    ));
                    assert(field_bytes@ + Seq::<u8>::empty() =~= field_bytes@);
                    assert(prefix + entry_seq =~= es.subrange(0, i as int + 1));
                }
                out.append(&mut field_bytes);
            },
            Err(e) => {
                proof {
                    assert(spec_encode_entries(suffix) == Err::<Seq<u8>, EncodeError>(e));
                    lemma_entries_encode_concat(prefix, suffix);
                }
                return Err(e);
            },
        }
        i += 1;
    }
    proof {
        assert(es.subrange(0, i as int) =~= es);
    }
    Ok(out)
}

/// Encodes a whole value tree. The root must be an object; any other root
/// is `InvalidInput`. On success the bytes are each entry's field, in the
/// mapping's own order; the first key that fails to parse aborts the whole
/// call with its error.
pub fn encode_object(data: &Value) -> (r: Result<Vec<u8>, EncodeError>)
    requires
        value_well_kinded(*data),
    ensures
        bytes_result_view(r) == spec_encode_object(*data),
        r is Ok <==> (*data matches Value::Object(_) && value_keys_ok(*data)),
{
    match data {
        Value::Object(entries) => {
            proof {
                lemma_entries_encode_ok(entries@);
            }
            encode_entries(entries)
        },
        _ => Err(EncodeError::InvalidInput),
    }
}

/// A serializer holding one value tree, borrowed for the duration of each
/// encode call; no call mutates it.
pub struct ProtoSerializer {
    data: Value,
}

impl View for ProtoSerializer {
    type V = Value;

    closed spec fn view(&self) -> Value {
        self.data
    }
}

impl ProtoSerializer {
    /// Wraps a value tree for serialization.
    pub fn new(data: Value) -> (s: ProtoSerializer)
        ensures
            s@ == data,
    {
        ProtoSerializer { data }
    }

    /// Serializes the tree to protobuf wire format: exactly the bytes of
    /// [`spec_encode_object`], or its error. The tree must be well-kinded:
    /// wherever a key parses, the value under it has the variant the key's
    /// kind calls for.
    pub fn serialize(&self) -> (r: Result<Vec<u8>, EncodeError>)
        requires
            value_well_kinded(self@),
        ensures
            bytes_result_view(r) == spec_encode_object(self@),
            r is Ok <==> (self@ matches Value::Object(_) && value_keys_ok(self@)),
    {
        encode_object(&self.data)
    }
}

} // verus!
