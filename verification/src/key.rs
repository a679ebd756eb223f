//! Annotated keys: `"<kind>/<field_number>"`, the convention that stands in
//! for a compiled schema. The kind part names one of the six supported
//! kinds; the numeric part is the field number in decimal digits.

use vstd::prelude::*;
use crate::error::EncodeError;

verus! {

/// The six supported field kinds, parsed once from an annotated key.
#[derive(Clone, Copy, Debug, PartialEq, Eq, Structural)]
pub enum FieldKind {
    Int32,
    Int64,
    Float,
    Double,
    Str,
    Object,
}

/// The wire type each kind is carried with: varint for the integers, 64-bit
/// fixed for `double`, length-delimited for `string` and nested objects,
/// 32-bit fixed for `float`.
pub open spec fn wire_type_of(kind: FieldKind) -> u8 {
    match kind {
        FieldKind::Int32 => 0,
        FieldKind::Int64 => 0,
        FieldKind::Double => 1,
        FieldKind::Str => 2,
        FieldKind::Object => 2,
        FieldKind::Float => 5,
    }
}

/// Resolves a kind's wire-type code.
pub fn wire_type_code(kind: FieldKind) -> (w: u8)
    ensures
        w == wire_type_of(kind),
{
    match kind {
        FieldKind::Int32 => 0,
        FieldKind::Int64 => 0,
        FieldKind::Double => 1,
        FieldKind::Str => 2,
        FieldKind::Object => 2,
        FieldKind::Float => 5,
    }
}

/// `i` is the position of the one and only `/` in `k`: the key splits into
/// exactly two parts there.
pub open spec fn valid_split_at(k: Seq<char>, i: int) -> bool {
    &&& 0 <= i < k.len()
    &&& k[i] == '/'
    &&& forall|j: int| 0 <= j < k.len() && j != i ==> k[j] != '/'
}

/// The key holds exactly one `/`.
pub open spec fn splits_in_two(k: Seq<char>) -> bool {
    exists|i: int| valid_split_at(k, i)
}

/// The position of the one `/` of a key that splits in two.
pub open spec fn slash_index(k: Seq<char>) -> int {
    choose|i: int| valid_split_at(k, i)
}

/// What stands before the `/`.
pub open spec fn kind_part(k: Seq<char>) -> Seq<char> {
    k.subrange(0, slash_index(k))
}

/// What stands after the `/`.
pub open spec fn number_part(k: Seq<char>) -> Seq<char> {
    k.subrange(slash_index(k) + 1, k.len() as int)
}

/// `c` is a decimal digit.
pub open spec fn is_digit(c: char) -> bool {
    48 <= c as u32 <= 57
}

/// The value of a decimal digit.
pub open spec fn digit_val(c: char) -> nat
    recommends
        is_digit(c),
{
    (c as u32 - 48) as nat
}

/// Every character of `s` is a decimal digit.
pub open spec fn all_digits(s: Seq<char>) -> bool {
    forall|i: int| 0 <= i < s.len() ==> is_digit(s[i])
}

/// The value of a string of decimal digits, most significant first.
pub open spec fn digits_val(s: Seq<char>) -> nat
    decreases s.len(),
{
    if s.len() == 0 {
        0
    } else {
        digits_val(s.drop_last()) * 10 + digit_val(s.last())
    }
}

/// The numeric part parses as a field number: nonempty, digits only, and a
/// value that fits in 32 bits.
pub open spec fn number_parses(s: Seq<char>) -> bool {
    s.len() > 0 && all_digits(s) && digits_val(s) <= u32::MAX
}

/// The key splits into exactly two parts and its numeric part parses.
pub open spec fn key_shape_ok(k: Seq<char>) -> bool {
    splits_in_two(k) && number_parses(number_part(k))
}

/// The kind a kind name stands for, if it is one of the six.
pub open spec fn kind_of_name(s: Seq<char>) -> Option<FieldKind> {
    if s == "int32"@ {
        Some(FieldKind::Int32)
    } else if s == "int64"@ {
        Some(FieldKind::Int64)
    } else if s == "float"@ {
        Some(FieldKind::Float)
    } else if s == "double"@ {
        Some(FieldKind::Double)
    } else if s == "string"@ {
        Some(FieldKind::Str)
    } else if s == "object"@ {
        Some(FieldKind::Object)
    } else {
        None
    }
}

/// What parsing an annotated key yields: its kind and field number, or the
/// exact error — `MalformedKey` when the key does not split into two parts
/// or the numeric part does not parse, `UnknownKind` when the kind name is
/// not recognized.
pub open spec fn spec_parse_key(k: Seq<char>) -> Result<(FieldKind, u32), EncodeError> {
    if !key_shape_ok(k) {
        Err(EncodeError::MalformedKey)
    } else {
        match kind_of_name(kind_part(k)) {
            Some(kind) => Ok((kind, digits_val(number_part(k)) as u32)),
            None => Err(EncodeError::UnknownKind),
        }
    }
}

/// A digit string's value only grows as digits are appended: any prefix
/// stands for no more than the whole.
proof fn lemma_digits_val_prefix_le(s: Seq<char>, j: int)
    requires
        0 <= j <= s.len(),
    ensures
        digits_val(s.subrange(0, j)) <= digits_val(s),
    decreases s.len() - j,
{
    if j == s.len() {
        assert(s.subrange(0, j) =~= s);
    } else {
        lemma_digits_val_prefix_le(s, j + 1);
        let p1 = s.subrange(0, j + 1);
        assert(p1.drop_last() =~= s.subrange(0, j));
        assert(digits_val(p1) == digits_val(s.subrange(0, j)) * 10 + digit_val(p1.last()));
    }
}

/// Character-for-character string equality.
fn str_eq(a: &str, b: &str) -> (r: bool)
    ensures
        r == (a@ == b@),
{
    let n: usize = a.unicode_len();
    if n != b.unicode_len() {
        return false;
    }
    let mut i: usize = 0;
    while i < n
        invariant
            i <= n,
            n as nat == a@.len(),
            a@.len() == b@.len(),
            forall|j: int| 0 <= j < i ==> a@[j] == b@[j],
        decreases n - i,
    {
        if a.get_char(i) != b.get_char(i) {
            return false;
        }
        i += 1;
    }
    proof {
        assert(a@ =~= b@);
    }
    true
}

/// Parses a decimal field number. Fails when the string is empty, holds a
/// non-digit, or its value does not fit in 32 bits.
fn parse_number(s: &str) -> (r: Result<u32, EncodeError>)
    ensures
        match r {
            Ok(v) => number_parses(s@) && v as nat == digits_val(s@),
            Err(e) => e == EncodeError::MalformedKey && !number_parses(s@),
        },
{
    let n: usize = s.unicode_len();
    if n == 0 {
        return Err(EncodeError::MalformedKey);
    }
    let mut acc: u32 = 0;
    let mut i: usize = 0;
    while i < n
        invariant
            i <= n,
            n as nat == s@.len(),
            all_digits(s@.subrange(0, i as int)),
            acc as nat == digits_val(s@.subrange(0, i as int)),
        decreases n - i,
    {
        let c = s.get_char(i);
        let cu: u32 = c as u32;
        if cu < 48 || cu > 57 {
            proof {
                assert(!is_digit(s@[i as int]));
            }
            return Err(EncodeError::MalformedKey);
        }
        let d: u32 = cu - 48;
        let ghost p1 = s@.subrange(0, i as int + 1);
        proof {
            assert(p1.drop_last() =~= s@.subrange(0, i as int));
            assert(p1.last() == s@[i as int]);
            assert(digits_val(p1) == acc as nat * 10 + d as nat);
        }
        if acc > (u32::MAX - d) / 10 {
            proof {
                assert(acc as nat * 10 + d as nat > u32::MAX) by (nonlinear_arith)
                    requires
                        acc > (u32::MAX - d) / 10,
                        d <= 9,
                ;
                lemma_digits_val_prefix_le(s@, i as int + 1);
            }
            return Err(EncodeError::MalformedKey);
        }
        proof {
            assert(acc as nat * 10 + d as nat <= u32::MAX) by (nonlinear_arith)
                requires
                    acc <= (u32::MAX - d) / 10,
                    d <= 9,
            ;
            assert(forall|j: int| 0 <= j < p1.len() ==> is_digit(p1[j])) by {
                assert(forall|j: int|
                    0 <= j < i ==> p1[j] == s@.subrange(0, i as int)[j]);
            }
        }
        acc = acc * 10 + d;
        i += 1;
    }
    proof {
        assert(s@.subrange(0, i as int) =~= s@);
    }
    Ok(acc)
}

/// Parses an annotated key into its kind and field number, with the exact
/// error of [`spec_parse_key`] when it is no such key.
pub fn parse_key(key: &str) -> (r: Result<(FieldKind, u32), EncodeError>)
    ensures
        r == spec_parse_key(key@),
{
    let n: usize = key.unicode_len();
    let mut count: usize = 0;
    let mut pos1: usize = 0;
    let mut pos2: usize = 0;
    let mut i: usize = 0;
    while i < n
        invariant
            i <= n,
            n as nat == key@.len(),
            count <= 2,
            count == 0 ==> forall|j: int| 0 <= j < i ==> key@[j] != '/',
            count == 1 ==> pos1 < i && key@[pos1 as int] == '/' && (forall|j: int|
                0 <= j < i && j != pos1 ==> key@[j] != '/'),
            count == 2 ==> pos1 < pos2 < i && key@[pos1 as int] == '/' && key@[pos2 as int]
                == '/',
        decreases n - i,
    {
        let c = key.get_char(i);
        if c == '/' {
            if count == 0 {
                pos1 = i;
                count = 1;
            } else if count == 1 {
                pos2 = i;
                count = 2;
            }
        }
        i += 1;
    }
    if count != 1 {
        proof {
            assert forall|ii: int| !valid_split_at(key@, ii) by {
                if valid_split_at(key@, ii) {
                    if count == 0 {
                        assert(key@[ii] != '/');
                    } else {
                        if ii != pos1 {
                            assert(key@[pos1 as int] != '/');
                        } else {
                            assert(key@[pos2 as int] != '/');
                        }
                    }
                }
            }
            assert(!splits_in_two(key@));
        }
        return Err(EncodeError::MalformedKey);
    }
    proof {
        assert(valid_split_at(key@, pos1 as int));
        assert(splits_in_two(key@));
        let si: int = slash_index(key@);
        assert(valid_split_at(key@, si));
        if si != pos1 {
            assert(key@[pos1 as int] != '/');
        }
        assert(slash_index(key@) == pos1);
    }
    let kind_str = key.substring_char(0, pos1);
    let num_str = key.substring_char(pos1 + 1, n);
    proof {
        assert(kind_str@ == kind_part(key@));
        assert(num_str@ == number_part(key@));
    }
    let field_number = match parse_number(num_str) {
        Ok(v) => v,
        Err(e) => {
            return Err(e);
        },
    };
    let kind = if str_eq(kind_str, "int32") {
        FieldKind::Int32
    } else if str_eq(kind_str, "int64") {
        FieldKind::Int64
    } else if str_eq(kind_str, "float") {
        FieldKind::Float
    } else if str_eq(kind_str, "double") {
        FieldKind::Double
    } else if str_eq(kind_str, "string") {
        FieldKind::Str
    } else if str_eq(kind_str, "object") {
        FieldKind::Object
    } else {
        return Err(EncodeError::UnknownKind);
    };
    Ok((kind, field_number))
}

} // verus!
