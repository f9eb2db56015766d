//! The text of a key file: the 64 bytes of a keypair as decimal numbers
//! with commas between them. Blanks and square brackets do not count.

use vstd::prelude::*;
use vstd::string::StringSliceAdditionalSpecFns;
use crate::error::KeyFileError;

verus! {

/// Whether a byte of the text counts: it is no blank and no square bracket.
pub open spec fn counts(c: u8) -> bool {
    c != 0x20 && c != 0x5b && c != 0x5d
}

/// The text without the bytes that do not count.
pub open spec fn stripped(text: Seq<u8>) -> Seq<u8>
    decreases text.len(),
{
    if text.len() == 0 {
        Seq::empty()
    } else if counts(text.last()) {
        stripped(text.drop_last()).push(text.last())
    } else {
        stripped(text.drop_last())
    }
}

/// The pieces of a text between its commas. A text without a comma is one
/// piece, and so is the empty text.
pub open spec fn pieces(text: Seq<u8>) -> Seq<Seq<u8>>
    decreases text.len(),
{
    if text.len() == 0 {
        seq![Seq::empty()]
    } else {
        let front = pieces(text.drop_last());
        if text.last() == 0x2c {
            front.push(Seq::empty())
        } else {
            front.update(front.len() - 1, front.last().push(text.last()))
        }
    }
}

/// Whether every byte is a decimal digit.
pub open spec fn all_digits(digits: Seq<u8>) -> bool {
    forall|i: int| 0 <= i < digits.len() ==> 0x30 <= #[trigger] digits[i] <= 0x39
}

/// The number that decimal digits stand for.
pub open spec fn digits_value(digits: Seq<u8>) -> nat
    decreases digits.len(),
{
    if digits.len() == 0 {
        0
    } else {
        10 * digits_value(digits.drop_last()) + (digits.last() - 0x30) as nat
    }
}

/// The digits of a piece: what follows a plus sign in front, if something
/// does.
pub open spec fn digits_of(piece: Seq<u8>) -> Seq<u8> {
    if piece.len() >= 2 && piece[0] == 0x2b {
        piece.skip(1)
    } else {
        piece
    }
}

/// The byte that a piece stands for: it has at least one digit, nothing but
/// digits behind an optional plus sign, and a value of at most 255.
pub open spec fn number_of(piece: Seq<u8>) -> Option<u8> {
    let digits = digits_of(piece);
    if digits.len() > 0 && all_digits(digits) && digits_value(digits) <= 255 {
        Some(digits_value(digits) as u8)
    } else {
        None
    }
}

/// The bytes that the first `n` pieces stand for, or the position of the
/// first of them that stands for none.
pub open spec fn values_of(parts: Seq<Seq<u8>>, n: nat) -> Result<Seq<u8>, KeyFileError>
    decreases n,
{
    if n == 0 {
        Ok(Seq::empty())
    } else {
        match values_of(parts, (n - 1) as nat) {
            Err(e) => Err(e),
            Ok(values) => match number_of(parts[n - 1]) {
                None => Err(KeyFileError::InvalidValue { position: (n - 1) as usize }),
                Some(v) => Ok(values.push(v)),
            },
        }
    }
}

/// The bytes that the text of a key file stands for.
pub open spec fn key_file_bytes(text: Seq<u8>) -> Result<Seq<u8>, KeyFileError> {
    let parts = pieces(stripped(text));
    values_of(parts, parts.len())
}

/// More digits do not make a number smaller.
proof fn digits_value_grows(digits: Seq<u8>, k: int)
    requires
        0 <= k <= digits.len(),
        all_digits(digits),
    ensures
        digits_value(digits.take(k)) <= digits_value(digits),
    decreases digits.len(),
{
    if k < digits.len() {
        let front = digits.drop_last();
        assert(front.take(k) =~= digits.take(k));
        assert forall|i: int| 0 <= i < front.len() implies 0x30 <= #[trigger] front[i] <= 0x39 by {
            assert(front[i] == digits[i]);
        }
        digits_value_grows(front, k);
    } else {
        assert(digits.take(k) =~= digits);
    }
}

/// A failure among the first `n` pieces is the failure of any longer run of
/// them.
proof fn values_failure_stays(parts: Seq<Seq<u8>>, n: nat, m: nat)
    requires
        n <= m,
        values_of(parts, n) is Err,
    ensures
        values_of(parts, m) == values_of(parts, n),
    decreases m,
{
    if n < m {
        values_failure_stays(parts, n, (m - 1) as nat);
    }
}

/// The byte that a piece stands for.
pub fn parse_number(piece: &Vec<u8>) -> (r: Option<u8>)
    ensures
        r == number_of(piece@),
{
    let start: usize = if piece.len() >= 2 && piece[0] == 0x2b {
        1
    } else {
        0
    };
    let ghost digits = digits_of(piece@);
    if piece.len() == start {
        return None;
    }
    let mut value: u16 = 0;
    let mut i: usize = start;
    assert(digits.take(0) =~= Seq::<u8>::empty());
    while i < piece.len()
        invariant
            start <= i <= piece.len(),
            digits == digits_of(piece@),
            digits.len() == piece.len() - start,
            forall|j: int| 0 <= j < digits.len() ==> digits[j] == piece@[start + j],
            all_digits(digits.take(i - start)),
            value == digits_value(digits.take(i - start)),
            value <= 255,
        decreases piece.len() - i,
    {
        let c = piece[i];
        if c < 0x30 || c > 0x39 {
            assert(digits[i - start] == c);
            return None;
        }
        let ghost before = digits.take(i - start);
        let ghost now = digits.take(i - start + 1);
        assert(now.drop_last() =~= before);
        assert(now.last() == c);
        assert forall|j: int| 0 <= j < now.len() implies 0x30 <= #[trigger] now[j] <= 0x39 by {
            if j < before.len() {
                assert(before[j] == now[j]);
            }
        }
        value = value * 10 + (c - 0x30) as u16;
        if value > 255 {
            proof {
                if all_digits(digits) {
                    digits_value_grows(digits, i - start + 1);
                }
            }
            return None;
        }
        i += 1;
    }
    assert(digits.take(digits.len() as int) =~= digits);
    Some(value as u8)
}

/// The bytes that the text of a key file stands for: the text is cut at its
/// commas, blanks and square brackets left out, and every piece must be a
/// number from 0 to 255 in decimal digits.
pub fn parse_key_file(contents: &str) -> (r: Result<Vec<u8>, KeyFileError>)
    ensures
        match key_file_bytes(contents.spec_bytes()) {
            Ok(bytes) => r matches Ok(found) && found@ == bytes,
            Err(e) => r matches Err(x) && x == e,
        },
{
    let text = contents.as_bytes();
    let mut parts: Vec<Vec<u8>> = Vec::new();
    parts.push(Vec::new());
    let ghost mut kept: Seq<u8> = Seq::empty();
    let mut i: usize = 0;
    assert(text@.take(0) =~= Seq::<u8>::empty());
    assert(parts@.map_values(|p: Vec<u8>| p@) =~= pieces(kept));
    while i < text.len()
        invariant
            i <= text.len(),
            kept == stripped(text@.take(i as int)),
            parts@.len() >= 1,
            parts@.map_values(|p: Vec<u8>| p@) == pieces(kept),
        decreases text.len() - i,
    {
        let c = text[i];
        let ghost views = parts@.map_values(|p: Vec<u8>| p@);
        assert(text@.take(i + 1).drop_last() =~= text@.take(i as int));
        assert(text@.take(i + 1).last() == c);
        if c != 0x20 && c != 0x5b && c != 0x5d {
            proof {
                kept = kept.push(c);
                assert(kept.drop_last() =~= stripped(text@.take(i as int)));
            }
            if c == 0x2c {
                parts.push(Vec::new());
                assert(parts@.map_values(|p: Vec<u8>| p@) =~= views.push(Seq::empty()));
            } else {
                let last = parts.len() - 1;
                let mut piece = parts.pop().unwrap();
                piece.push(c);
                parts.push(piece);
                assert(parts@.map_values(|p: Vec<u8>| p@) =~= views.update(
                    last as int,
                    views.last().push(c),
                ));
            }
        }
        i += 1;
    }
    assert(text@.take(text@.len() as int) =~= text@);
    let ghost all = parts@.map_values(|p: Vec<u8>| p@);
    let mut values: Vec<u8> = Vec::new();
    let mut k: usize = 0;
    while k < parts.len()
        invariant
            k <= parts.len(),
            all == parts@.map_values(|p: Vec<u8>| p@),
            all == pieces(stripped(text@)),
            text@ == contents.spec_bytes(),
            values_of(all, k as nat) == Ok::<Seq<u8>, KeyFileError>(values@),
        decreases parts.len() - k,
    {
        assert(all[k as int] == parts@[k as int]@);
        match parse_number(&parts[k]) {
            Some(v) => {
                values.push(v);
            },
            None => {
                proof {
                    assert(values_of(all, (k + 1) as nat) is Err);
                    values_failure_stays(all, (k + 1) as nat, all.len());
                }
                return Err(KeyFileError::InvalidValue { position: k });
            },
        }
        k += 1;
    }
    Ok(values)
}

} // verus!
