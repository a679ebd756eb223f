//! The varint codec: unsigned integers in little-endian base-128
//! continuation form, the atomic primitive under every length and tag.

use vstd::prelude::*;
use crate::error::EncodeError;

verus! {

/// The varint encoding of `n`: each byte carries seven bits of `n`, least
/// significant group first, with the continuation bit (bit 7) set on every
/// byte but the last.
pub open spec fn varint_bytes(n: nat) -> Seq<u8>
    decreases n,
{
    if n < 128 {
        seq![n as u8]
    } else {
        seq![((n % 128) + 128) as u8] + varint_bytes(n / 128)
    }
}

/// A buffer holding exactly one varint: nonempty, the continuation bit set
/// on every byte but the last, and clear on the last.
pub open spec fn valid_varint(s: Seq<u8>) -> bool {
    &&& s.len() >= 1
    &&& s[s.len() - 1] < 128
    &&& forall|i: int| 0 <= i < s.len() - 1 ==> s[i] >= 128
}

/// The unsigned value a varint buffer stands for.
pub open spec fn varint_value(s: Seq<u8>) -> nat
    decreases s.len(),
{
    if s.len() == 0 {
        0
    } else if s[0] < 128 {
        s[0] as nat
    } else {
        (s[0] - 128) as nat + 128 * varint_value(s.drop_first())
    }
}

/// Encodes `n` as an unsigned varint: one byte for values below 128,
/// one more byte for each further seven bits. Lengths, tags and integer bit
/// patterns reach this codec unsigned, so there is no negative quantity to
/// reject and the function is total.
pub fn encode_unsigned_varint(n: u64) -> (r: Vec<u8>)
    ensures
        r@ == varint_bytes(n as nat),
{
    let mut out: Vec<u8> = Vec::new();
    let mut cur: u64 = n;
    proof {
        assert(Seq::<u8>::empty() + varint_bytes(n as nat) =~= varint_bytes(n as nat));
    }
    while cur >= 128
        invariant
            varint_bytes(n as nat) == out@ + varint_bytes(cur as nat),
        decreases cur,
    {
        let b: u8 = (cur % 128) as u8 + 128;
        proof {
            assert(varint_bytes(cur as nat) == seq![b] + varint_bytes((cur / 128) as nat));
            assert(out@ + (seq![b] + varint_bytes((cur / 128) as nat))
                =~= (out@ + seq![b]) + varint_bytes((cur / 128) as nat));
        }
        out.push(b);
        cur = cur / 128;
    }
    proof {
        assert(varint_bytes(cur as nat) =~= seq![cur as u8]);
        assert(out@ + seq![cur as u8] =~= out@.push(cur as u8));
    }
    out.push(cur as u8);
    out
}

/// Decodes the varint starting at `i` and running to the end of `bytes`.
fn decode_varint_at(bytes: &Vec<u8>, i: usize) -> (r: Result<u64, EncodeError>)
    requires
        i <= bytes@.len(),
    ensures
        ({
            let tail = bytes@.subrange(i as int, bytes@.len() as int);
            match r {
                Ok(v) => valid_varint(tail) && v as nat == varint_value(tail),
                Err(e) => e == EncodeError::InvalidInput && !(valid_varint(tail)
                    && varint_value(tail) <= u64::MAX),
            }
        }),
    decreases bytes@.len() - i,
{
    let ghost tail = bytes@.subrange(i as int, bytes@.len() as int);
    if i == bytes.len() {
        return Err(EncodeError::InvalidInput);
    }
    let b: u8 = bytes[i];
    assert(tail[0] == b);
    if b < 128 {
        if i + 1 == bytes.len() {
            assert(valid_varint(tail) && varint_value(tail) == b as nat);
            Ok(b as u64)
        } else {
            assert(!valid_varint(tail)) by {
                assert(tail[0] < 128 && 0 < tail.len() - 1);
            }
            Err(EncodeError::InvalidInput)
        }
    } else {
        let ghost inner = bytes@.subrange(i + 1, bytes@.len() as int);
        proof {
            assert(tail.drop_first() =~= inner);
            assert(valid_varint(tail) <==> valid_varint(inner)) by {
                if valid_varint(inner) {
                    assert(forall|j: int|
                        0 <= j < tail.len() - 1 ==> tail[j] >= 128) by {
                        assert(forall|j: int|
                            1 <= j < tail.len() - 1 ==> tail[j] == inner[j - 1]);
                    }
                }
                if valid_varint(tail) {
                    assert(forall|j: int|
                        0 <= j < inner.len() - 1 ==> inner[j] == tail[j + 1] && tail[j + 1]
                            >= 128);
                }
            }
            assert(varint_value(tail) == (b - 128) as nat + 128 * varint_value(inner));
        }
        match decode_varint_at(bytes, i + 1) {
            Err(e) => {
                proof {
                    if valid_varint(tail) && varint_value(tail) <= u64::MAX {
                        assert(varint_value(inner) <= varint_value(tail)) by (nonlinear_arith)
                            requires
                                varint_value(tail) == (b - 128) as nat + 128 * varint_value(
                                    inner,
                                ),
                        ;
                    }
                }
                Err(e)
            },
            Ok(rest) => {
                let low = (b - 128) as u64;
                if rest <= (u64::MAX - low) / 128 {
                    proof {
                        assert(low + 128 * rest <= u64::MAX) by (nonlinear_arith)
                            requires
                                low < 128,
                                rest <= (u64::MAX - low) / 128,
                        ;
                    }
                    Ok(low + 128 * rest)
                } else {
                    proof {
                        assert(!(varint_value(tail) <= u64::MAX)) by (nonlinear_arith)
                            requires
                                low < 128,
                                rest > (u64::MAX - low) / 128,
                                varint_value(tail) == low as nat + 128 * (rest as nat),
                        ;
                    }
                    Err(EncodeError::InvalidInput)
                }
            },
        }
    }
}

/// Decodes a buffer that holds exactly one unsigned varint. Fails when the
/// buffer is not a single whole varint, or its value does not fit in 64 bits.
pub fn decode_unsigned_varint(bytes: &Vec<u8>) -> (r: Result<u64, EncodeError>)
    ensures
        match r {
            Ok(v) => valid_varint(bytes@) && v as nat == varint_value(bytes@),
            Err(e) => e == EncodeError::InvalidInput && !(valid_varint(bytes@)
                && varint_value(bytes@) <= u64::MAX),
        },
{
    proof {
        assert(bytes@.subrange(0, bytes@.len() as int) =~= bytes@);
    }
    decode_varint_at(bytes, 0)
}

/// Round-trip law of the varint codec: the encoding of any `n` is a single
/// well-formed varint, and decoding it reconstructs `n` exactly.
pub proof fn lemma_varint_round_trip(n: nat)
    ensures
        valid_varint(varint_bytes(n)),
        varint_value(varint_bytes(n)) == n,
    decreases n,
{
    if n < 128 {
    } else {
        lemma_varint_round_trip(n / 128);
        let rest = varint_bytes(n / 128);
        let s = varint_bytes(n);
        assert(s.drop_first() =~= rest);
        assert(forall|j: int| 0 <= j < s.len() - 1 ==> s[j] >= 128) by {
            assert(forall|j: int| 1 <= j < s.len() - 1 ==> s[j] == rest[j - 1]);
        }
        assert(varint_value(s) == (n % 128) + 128 * (n / 128));
        vstd::arithmetic::div_mod::lemma_fundamental_div_mod(n as int, 128);
    }
}

/// The varint encoding never has fewer bytes than one.
pub proof fn lemma_varint_min_len(n: nat)
    ensures
        varint_bytes(n).len() >= 1,
    decreases n,
{
    if n >= 128 {
        lemma_varint_min_len(n / 128);
    }
}

/// Length law of the varint codec: the encoding of `n` fits in `k` bytes
/// exactly when `n` fits in `7 * k` bits; together with
/// [`lemma_varint_min_len`] this pins the length to one byte for each seven
/// bits of `n`, with a minimum of one byte.
pub proof fn lemma_varint_len(n: nat, k: nat)
    requires
        k >= 1,
    ensures
        varint_bytes(n).len() <= k <==> n < vstd::arithmetic::power2::pow2(7 * k),
    decreases k,
{
    vstd::arithmetic::power2::lemma2_to64();
    if n < 128 {
        if 7 * k > 7 {
            vstd::arithmetic::power2::lemma_pow2_strictly_increases(7, 7 * k);
        }
        assert(n < vstd::arithmetic::power2::pow2(7 * k));
    } else {
        if k == 1 {
            lemma_varint_min_len(n / 128);
        } else {
            lemma_varint_len(n / 128, (k - 1) as nat);
            let e: nat = (7 * (k - 1)) as nat;
            vstd::arithmetic::power2::lemma_pow2_adds(7, e);
            assert(7 + e == 7 * k);
            vstd::arithmetic::power2::lemma_pow2_pos(e);
            let m: nat = vstd::arithmetic::power2::pow2(e);
            assert(n / 128 < m <==> n < 128 * m) by (nonlinear_arith)
                requires
                    m >= 1,
            ;
        }
    }
}

} // verus!

