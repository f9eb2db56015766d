//! The compact encoding of a 16-bit count in one to three bytes.
//!
//! Each byte carries seven bits, least significant group first; all bytes
//! but the last have their high bit set.

use vstd::prelude::*;
use crate::error::DecodeError;

verus! {

/// The encoding of `n`: the shortest one.
pub open spec fn compact_u16_bytes(n: u16) -> Seq<u8> {
    if n < 128 {
        seq![n as u8]
    } else if n < 16384 {
        seq![(n % 128 + 128) as u8, (n / 128) as u8]
    } else {
        seq![(n % 128 + 128) as u8, (n / 128 % 128 + 128) as u8, (n / 16384) as u8]
    }
}

/// What a reader finds at `pos` in `s`: the value and the position behind it,
/// or `None` where `s` ends before the encoding does. Of a third byte only
/// the two low bits reach the 16-bit result.
pub open spec fn compact_u16_at(s: Seq<u8>, pos: int) -> Option<(u16, int)> {
    if pos < 0 || pos >= s.len() {
        None
    } else if s[pos] < 128 {
        Some((s[pos] as u16, pos + 1))
    } else if pos + 1 >= s.len() {
        None
    } else if s[pos + 1] < 128 {
        Some(((s[pos] - 128 + 128 * s[pos + 1]) as u16, pos + 2))
    } else if pos + 2 >= s.len() {
        None
    } else {
        Some(((s[pos] - 128 + 128 * (s[pos + 1] - 128) + 16384 * (s[pos + 2] % 4)) as u16, pos + 3))
    }
}

/// Appends the encoding of `u` to `w`.
pub fn encode_compact_u16(u: u16, w: &mut Vec<u8>)
    ensures
        final(w)@ == old(w)@ + compact_u16_bytes(u),
{
    if u > 0x7F {
        let low: u8 = (u & 0x7F) as u8 | 0x80;
        let rest: u16 = u >> 7;
        assert(low == (u % 128 + 128) as u8 && rest == u / 128 && rest <= 511) by (bit_vector)
            requires
                low == (u & 0x7F) as u8 | 0x80,
                rest == u >> 7,
        ;
        w.push(low);
        if rest > 0x7F {
            let mid: u8 = (rest & 0x7F) as u8 | 0x80;
            let high: u8 = (rest >> 7) as u8;
            assert(mid == (rest % 128 + 128) as u8 && high == rest / 128) by (bit_vector)
                requires
                    mid == (rest & 0x7F) as u8 | 0x80,
                    high == (rest >> 7) as u8,
                    rest <= 511,
            ;
            w.push(mid);
            w.push(high);
            assert(u / 128 / 128 == u / 16384) by (nonlinear_arith);
        } else {
            w.push(rest as u8);
        }
    } else {
        w.push(u as u8);
    }
}

/// Reads one count at `pos` in `bytes`; gives the count and the position
/// behind it.
pub fn decode_compact_u16(bytes: &[u8], pos: usize) -> (r: Result<(u16, usize), DecodeError>)
    ensures
        match compact_u16_at(bytes@, pos as int) {
            Some((v, next)) => r == Ok::<(u16, usize), DecodeError>((v, next as usize)),
            None => r == Err::<(u16, usize), DecodeError>(DecodeError::Incomplete),
        },
{
    if pos >= bytes.len() {
        return Err(DecodeError::Incomplete);
    }
    let b0: u8 = bytes[pos];
    if (b0 & 0x80) == 0x80 {
        if pos + 1 >= bytes.len() {
            assert(b0 >= 128) by (bit_vector)
                requires
                    (b0 & 0x80) == 0x80,
            ;
            return Err(DecodeError::Incomplete);
        }
        let b1: u8 = bytes[pos + 1];
        if (b1 & 0x80) == 0x80 {
            if pos + 2 >= bytes.len() {
                assert(b0 >= 128 && b1 >= 128) by (bit_vector)
                    requires
                        (b0 & 0x80) == 0x80,
                        (b1 & 0x80) == 0x80,
                ;
                return Err(DecodeError::Incomplete);
            }
            let b2: u8 = bytes[pos + 2];
            let v: u16 = ((b0 as u16) & 0x7F) | (((b1 as u16) & 0x7F) << 7) | ((b2 as u16) << 14);
            assert(b0 >= 128 && b1 >= 128 && v == (b0 - 128 + 128 * (b1 - 128) + 16384 * (b2
                % 4)) as u16) by (bit_vector)
                requires
                    (b0 & 0x80) == 0x80,
                    (b1 & 0x80) == 0x80,
                    v == ((b0 as u16) & 0x7F) | (((b1 as u16) & 0x7F) << 7) | ((b2 as u16) << 14),
            ;
            Ok((v, pos + 3))
        } else {
            let v: u16 = ((b0 as u16) & 0x7F) | (((b1 as u16) & 0x7F) << 7);
            assert(b0 >= 128 && b1 < 128 && v == (b0 - 128 + 128 * b1) as u16) by (bit_vector)
                requires
                    (b0 & 0x80) == 0x80,
                    (b1 & 0x80) != 0x80,
                    v == ((b0 as u16) & 0x7F) | (((b1 as u16) & 0x7F) << 7),
            ;
            Ok((v, pos + 2))
        }
    } else {
        assert(b0 < 128) by (bit_vector)
            requires
                (b0 & 0x80) != 0x80,
        ;
        Ok((b0 as u16, pos + 1))
    }
}

/// Reading an encoding gives back the number that was encoded, whatever
/// bytes stand before and behind it, and the encoding has one byte below 128,
/// two bytes below 16384 and three bytes from there on.
pub proof fn compact_u16_round_trip(n: u16, before: Seq<u8>, after: Seq<u8>)
    ensures
        compact_u16_at(before + compact_u16_bytes(n) + after, before.len() as int) == Some(
            (n, (before.len() + compact_u16_bytes(n).len()) as int),
        ),
        n < 128 ==> compact_u16_bytes(n).len() == 1,
        128 <= n < 16384 ==> compact_u16_bytes(n).len() == 2,
        16384 <= n ==> compact_u16_bytes(n).len() == 3,
{
    let e = compact_u16_bytes(n);
    let s = before + e + after;
    let p = before.len() as int;
    assert(forall|i: int| 0 <= i < e.len() ==> s[p + i] == e[i]);
    if n < 128 {
        assert(s[p] == e[0]);
    } else if n < 16384 {
        assert(s[p] == e[0]);
        assert(s[p + 1] == e[1]);
    } else {
        assert(s[p] == e[0]);
        assert(s[p + 1] == e[1]);
        assert(s[p + 2] == e[2]);
        assert(n / 16384 < 4 && n / 128 % 128 == (n / 128) % 128);
        assert(n % 128 + 128 * (n / 128 % 128) + 16384 * (n / 16384) == n) by (nonlinear_arith);
    }
}

/// No encoding that a reader accepts for a number is shorter than the one
/// the encoder writes.
pub proof fn compact_u16_shortest(s: Seq<u8>, pos: int)
    ensures
        compact_u16_at(s, pos) matches Some((n, next)) ==> next - pos >= compact_u16_bytes(n).len(),
{
}

} // verus!
