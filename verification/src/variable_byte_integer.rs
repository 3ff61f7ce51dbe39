use vstd::arithmetic::div_mod::lemma_fundamental_div_mod;
use vstd::prelude::*;

use crate::error::CodecError;

verus! {

/// Largest value the variable-byte scheme can carry: 2^28 - 1.
pub const VARIABLE_BYTE_INT_MAX: u32 = 0x0FFF_FFFF;

/// The bytes of the variable-byte encoding of `v`: base-128 digits, least
/// significant first, every byte but the last with its high (continuation)
/// bit set.
pub open spec fn vbi_bytes(v: nat) -> Seq<u8>
    decreases v,
{
    if v < 128 {
        seq![v as u8]
    } else {
        seq![(v % 128 + 128) as u8] + vbi_bytes(v / 128)
    }
}

/// The standard width table of the scheme: how many bytes carry `v`.
pub open spec fn vbi_width(v: nat) -> nat {
    if v < 128 {
        1
    } else if v < 16384 {
        2
    } else if v < 2097152 {
        3
    } else {
        4
    }
}

/// The encoding of a value within range is exactly `vbi_width(v)` bytes.
pub proof fn lemma_vbi_bytes_width(v: nat)
    requires
        v <= VARIABLE_BYTE_INT_MAX,
    ensures
        vbi_bytes(v).len() == vbi_width(v),
    decreases v,
{
    if v >= 128 {
        lemma_vbi_bytes_width(v / 128);
    }
}

/// Decode one variable-byte integer at the head of `s`, allowed to look at
/// `rem` more bytes. Returns the value and the count of bytes consumed.
/// Runs out of buffer before the terminating byte: `EndOfBuffer`; a byte with
/// its continuation bit set where no further byte is allowed:
/// `MalformedVariableInt`.
pub open spec fn vbi_parse_rec(s: Seq<u8>, rem: nat) -> Result<(nat, nat), CodecError>
    decreases rem,
{
    if rem == 0 {
        Err(CodecError::MalformedVariableInt)
    } else if s.len() == 0 {
        Err(CodecError::EndOfBuffer)
    } else if s[0] < 128 {
        Ok((s[0] as nat, 1 as nat))
    } else if rem == 1 {
        Err(CodecError::MalformedVariableInt)
    } else {
        match vbi_parse_rec(s.skip(1), (rem - 1) as nat) {
            Ok((v, n)) => Ok((((s[0] - 128) + 128 * v) as nat, (n + 1) as nat)),
            Err(e) => Err(e),
        }
    }
}

/// Decode one variable-byte integer at the head of `s`: at most four bytes.
pub open spec fn vbi_parse(s: Seq<u8>) -> Result<(nat, nat), CodecError> {
    vbi_parse_rec(s, 4)
}

/// Largest value, plus one, that a parse allowed `rem` more bytes can return.
pub open spec fn vbi_limit(rem: nat) -> nat {
    if rem == 0 {
        1
    } else if rem == 1 {
        128
    } else if rem == 2 {
        16384
    } else if rem == 3 {
        2097152
    } else {
        0x10000000
    }
}

/// A successful parse with at most four bytes allowed yields a value below
/// `vbi_limit(rem)` and consumes between one byte and `min(rem, s.len())` bytes.
pub proof fn lemma_vbi_parse_rec_bounds(s: Seq<u8>, rem: nat)
    requires
        rem <= 4,
    ensures
        vbi_parse_rec(s, rem) matches Ok((v, n)) ==> v < vbi_limit(rem) && 1 <= n <= rem && n
            <= s.len(),
    decreases rem,
{
    if rem > 0 && s.len() > 0 && s[0] >= 128 && rem > 1 {
        lemma_vbi_parse_rec_bounds(s.skip(1), (rem - 1) as nat);
    }
}

/// A successful four-byte parse yields a value within the scheme's range.
pub proof fn lemma_vbi_parse_bounds(s: Seq<u8>)
    ensures
        vbi_parse(s) matches Ok((v, n)) ==> v <= VARIABLE_BYTE_INT_MAX && 1 <= n <= 4 && n
            <= s.len(),
{
    lemma_vbi_parse_rec_bounds(s, 4);
}

proof fn lemma_vbi_round_trip_rec(v: nat, rest: Seq<u8>, rem: nat)
    requires
        v <= VARIABLE_BYTE_INT_MAX,
        vbi_width(v) <= rem,
        rem <= 4,
    ensures
        vbi_parse_rec(vbi_bytes(v) + rest, rem) == Ok::<(nat, nat), CodecError>((v, vbi_width(v))),
    decreases v,
{
    lemma_vbi_bytes_width(v);
    let s = vbi_bytes(v) + rest;
    if v < 128 {
        assert(s[0] == v as u8);
    } else {
        lemma_vbi_round_trip_rec(v / 128, rest, (rem - 1) as nat);
        assert(s.skip(1) =~= vbi_bytes(v / 128) + rest);
        assert(s[0] == (v % 128 + 128) as u8);
        lemma_fundamental_div_mod(v as int, 128);
    }
}

/// Law: for every value the scheme can carry, decoding its encoding — with
/// any bytes following it — returns exactly that value and consumes exactly
/// the width the standard table gives.
pub proof fn lemma_vbi_round_trip(v: nat, rest: Seq<u8>)
    requires
        v <= VARIABLE_BYTE_INT_MAX,
    ensures
        vbi_parse(vbi_bytes(v) + rest) == Ok::<(nat, nat), CodecError>((v, vbi_width(v))),
{
    lemma_vbi_round_trip_rec(v, rest, 4);
}

/// Width of an array produced by `VariableByteIntegerEncoder::encode`: one
/// past the index of the first byte without its continuation bit.
pub open spec fn encoded_width(s: Seq<u8>) -> nat
    recommends
        s.len() == 4,
{
    if s[0] < 128 {
        1
    } else if s[1] < 128 {
        2
    } else if s[2] < 128 {
        3
    } else {
        4
    }
}

/// Encoder for the MQTT variable-byte integer scheme.
pub struct VariableByteIntegerEncoder;

impl VariableByteIntegerEncoder {
    /// Encode `value` into a four-byte array; bytes past the encoding's width
    /// are zero. Values above `VARIABLE_BYTE_INT_MAX` are refused.
    pub fn encode(value: u32) -> (r: Result<[u8; 4], CodecError>)
        ensures
            value <= VARIABLE_BYTE_INT_MAX <==> r is Ok,
            r matches Ok(a) ==> a@.take(vbi_width(value as nat) as int) == vbi_bytes(
                value as nat,
            ) && (forall|i: int| vbi_width(value as nat) <= i < 4 ==> a@[i] == 0)
                && encoded_width(a@) == vbi_width(value as nat),
            r matches Err(e) ==> e == CodecError::MalformedVariableInt,
    {
        if value > VARIABLE_BYTE_INT_MAX {
            return Err(CodecError::MalformedVariableInt);
        }
        let d0: u8 = (value % 128) as u8;
        let r0: u32 = value / 128;
        let d1: u8 = (r0 % 128) as u8;
        let r1: u32 = r0 / 128;
        let d2: u8 = (r1 % 128) as u8;
        let r2: u32 = r1 / 128;
        let d3: u8 = (r2 % 128) as u8;
        let b0: u8 = if r0 > 0 {
            d0 + 128
        } else {
            d0
        };
        let b1: u8 = if r0 == 0 {
            0
        } else if r1 > 0 {
            d1 + 128
        } else {
            d1
        };
        let b2: u8 = if r1 == 0 {
            0
        } else if r2 > 0 {
            d2 + 128
        } else {
            d2
        };
        let b3: u8 = if r2 == 0 {
            0
        } else {
            d3
        };
        let a = [b0, b1, b2, b3];
        proof {
            let v = value as nat;
            if v < 128 {
                assert(a@.take(1) =~= vbi_bytes(v));
            } else if v < 16384 {
                assert(vbi_bytes(v / 128) == seq![(v / 128) as u8]);
                assert(a@.take(2) =~= vbi_bytes(v));
            } else if v < 2097152 {
                assert(vbi_bytes(v / 128 / 128) == seq![(v / 128 / 128) as u8]);
                assert(vbi_bytes(v / 128) == seq![(v / 128 % 128 + 128) as u8] + vbi_bytes(
                    v / 128 / 128,
                ));
                assert(a@.take(3) =~= vbi_bytes(v));
            } else {
                assert(vbi_bytes(v / 128 / 128 / 128) == seq![(v / 128 / 128 / 128) as u8]);
                assert(vbi_bytes(v / 128 / 128) == seq![(v / 128 / 128 % 128 + 128) as u8]
                    + vbi_bytes(v / 128 / 128 / 128));
                assert(vbi_bytes(v / 128) == seq![(v / 128 % 128 + 128) as u8] + vbi_bytes(
                    v / 128 / 128,
                ));
                assert(a@.take(4) =~= vbi_bytes(v));
            }
        }
        Ok(a)
    }

    /// The count of bytes an `encode` result actually uses.
    pub fn len(encoded: [u8; 4]) -> (r: usize)
        ensures
            r == encoded_width(encoded@),
    {
        if encoded[0] < 128 {
            1
        } else if encoded[1] < 128 {
            2
        } else if encoded[2] < 128 {
            3
        } else {
            4
        }
    }
}

} // verus!
