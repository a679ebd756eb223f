//! The value tree the encoder walks: a mapping from annotated keys to
//! scalars or nested mappings, in the mapping's own entry order.

use vstd::prelude::*;
use crate::key::{FieldKind, spec_parse_key};

verus! {

/// A node of the value tree. Scalar leaves carry the five supported kinds;
/// floating-point leaves are carried as their IEEE-754 bit patterns, since
/// only those bits reach the wire. An object is its entries in order: the
/// encoder never re-sorts them.
#[derive(Debug)]
pub enum Value {
    /// A 32-bit integer leaf (`int32`).
    Int32(i32),
    /// A 64-bit integer leaf (`int64`).
    Int64(i64),
    /// A single-precision float leaf (`float`), as its IEEE-754 bits.
    FloatBits(u32),
    /// A double-precision float leaf (`double`), as its IEEE-754 bits.
    DoubleBits(u64),
    /// A string leaf (`string`).
    Str(String),
    /// A nested mapping (`object`): annotated keys to values, in order.
    Object(Vec<(String, Value)>),
}

/// The value variant a key's kind calls for.
pub open spec fn kind_matches(kind: FieldKind, v: Value) -> bool {
    match (kind, v) {
        (FieldKind::Int32, Value::Int32(_)) => true,
        (FieldKind::Int64, Value::Int64(_)) => true,
        (FieldKind::Float, Value::FloatBits(_)) => true,
        (FieldKind::Double, Value::DoubleBits(_)) => true,
        (FieldKind::Str, Value::Str(_)) => true,
        (FieldKind::Object, Value::Object(_)) => true,
        _ => false,
    }
}

/// Wherever a key of the tree parses, the value under it has the variant the
/// key's kind calls for. The encoder requires this of its input: a tree
/// whose key promises one kind over a value of another has no encoding.
pub open spec fn value_well_kinded(v: Value) -> bool
    decreases v, 0int,
{
    match v {
        Value::Object(entries) => entries_well_kinded(entries@),
        _ => true,
    }
}

/// [`value_well_kinded`], entry list form.
pub open spec fn entries_well_kinded(es: Seq<(String, Value)>) -> bool
    decreases es, 2int,
{
    if es.len() == 0 {
        true
    } else {
        entry_well_kinded(es[0]) && entries_well_kinded(es.drop_first())
    }
}

/// [`value_well_kinded`], single entry form.
pub open spec fn entry_well_kinded(e: (String, Value)) -> bool
    decreases e, 1int,
{
    &&& match spec_parse_key(e.0@) {
        Ok((kind, _)) => kind_matches(kind, e.1),
        Err(_) => true,
    }
    &&& value_well_kinded(e.1)
}

/// Every key of the tree, at every depth, parses into a recognized kind and
/// a field number: exactly the trees the encoder accepts.
pub open spec fn value_keys_ok(v: Value) -> bool
    decreases v, 0int,
{
    match v {
        Value::Object(entries) => entries_keys_ok(entries@),
        _ => true,
    }
}

/// [`value_keys_ok`], entry list form.
pub open spec fn entries_keys_ok(es: Seq<(String, Value)>) -> bool
    decreases es, 2int,
{
    if es.len() == 0 {
        true
    } else {
        entry_keys_ok(es[0]) && entries_keys_ok(es.drop_first())
    }
}

/// [`value_keys_ok`], single entry form.
pub open spec fn entry_keys_ok(e: (String, Value)) -> bool
    decreases e, 1int,
{
    spec_parse_key(e.0@) is Ok && value_keys_ok(e.1)
}

/// A well-kinded entry list is well-kinded at each index.
pub proof fn lemma_entries_well_kinded_index(es: Seq<(String, Value)>, i: int)
    requires
        entries_well_kinded(es),
        0 <= i < es.len(),
    ensures
        entry_well_kinded(es[i]),
    decreases i,
{
    if i > 0 {
        assert(es.drop_first()[i - 1] == es[i]);
        lemma_entries_well_kinded_index(es.drop_first(), i - 1);
    }
}

} // verus!
