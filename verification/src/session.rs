//! Taking a transaction in line by line, and putting one out in lines.

use vstd::prelude::*;
use vstd::string::{StrSliceExecFns, StringExecFns};
use crate::decode::decoded;
use crate::error::{Base64Error, DecodeError, DecodeFault};
use crate::model::{Transaction, TransactionView};
use crate::text::CHALLENGE_ATTEMPTS;
use crate::trusted::{base64_bytes, base64_decoded, base64_string, base64_text};

verus! {

/// The width of a line of base64 text.
pub const LINE_WIDTH: usize = 72;

/// The number of lines that a text of `len` characters takes.
pub open spec fn line_count(len: nat) -> nat {
    ((len + LINE_WIDTH - 1) / LINE_WIDTH as int) as nat
}

/// Line number `k` of `text`: 72 characters, or what is left of the text.
pub open spec fn line_of(text: Seq<char>, k: int) -> Seq<char> {
    text.subrange(
        LINE_WIDTH * k,
        if LINE_WIDTH * k + LINE_WIDTH <= text.len() {
            LINE_WIDTH * k + LINE_WIDTH
        } else {
            text.len() as int
        },
    )
}

/// The base64 text of `bytes` in lines of 72 characters; the last line holds
/// what is left.
pub fn base64_lines(bytes: &[u8]) -> (r: Vec<String>)
    ensures
        r@.len() == line_count(base64_text(bytes@).len()),
        forall|k: int| 0 <= k < r@.len() ==> (#[trigger] r@[k])@ == line_of(base64_text(bytes@), k),
{
    let text = base64_string(bytes);
    let len = text.as_str().unicode_len();
    let mut lines: Vec<String> = Vec::new();
    let mut idx: usize = 0;
    while idx < len
        invariant
            idx <= len,
            len == text@.len(),
            idx < len ==> idx == LINE_WIDTH * lines@.len(),
            idx == len ==> lines@.len() == line_count(len as nat),
            forall|k: int| 0 <= k < lines@.len() ==> (#[trigger] lines@[k])@ == line_of(text@, k),
        decreases len - idx,
    {
        let end = if len - idx > LINE_WIDTH {
            idx + LINE_WIDTH
        } else {
            len
        };
        let line = String::from_str(text.as_str().substring_char(idx, end));
        lines.push(line);
        idx = end;
    }
    lines
}

/// What a line of input leads to.
#[derive(Debug, Clone, PartialEq, Eq)]
pub enum Step {
    /// The text so far is a transaction.
    Decoded(Transaction),
    /// The text so far is base64 of bytes that are no transaction: drop it.
    Rejected(DecodeFault),
    /// A blank line came while the text so far is not base64: drop it.
    Invalid(Base64Error),
    /// Something is still missing: read another line.
    More,
}

/// What follows from the text so far, `text`, after a line that was blank
/// or not, `blank`.
pub open spec fn step_of(text: Seq<char>, blank: bool) -> Option<
    Result<TransactionView, Result<DecodeFault, Base64Error>>,
> {
    match base64_decoded(text) {
        Err(e) => if blank {
            Some(Err(Err(e)))
        } else {
            None
        },
        Ok(bytes) => match decoded(bytes) {
            Ok(tx) => Some(Ok(tx)),
            Err(DecodeError::Fatal(fault)) => Some(Err(Ok(fault))),
            Err(DecodeError::Incomplete) => None,
        },
    }
}

/// Takes one line of input, with its white space taken out, behind the text
/// so far, and tells what the whole is: a transaction, something to drop,
/// or the front of something that needs another line.
pub fn feed_line(buffer: &mut String, line: &str) -> (r: Step)
    ensures
        final(buffer)@ == old(buffer)@ + line@,
        match step_of(old(buffer)@ + line@, line@.len() == 0) {
            Some(Ok(tx)) => r matches Step::Decoded(found) && found@ == tx,
            Some(Err(Ok(fault))) => r == Step::Rejected(fault),
            Some(Err(Err(e))) => r == Step::Invalid(e),
            None => r == Step::More,
        },
{
    buffer.append(line);
    match base64_bytes(buffer.as_str()) {
        Ok(bytes) => match Transaction::decode(bytes.as_slice()) {
            Ok(tx) => Step::Decoded(tx),
            Err(DecodeError::Fatal(fault)) => Step::Rejected(fault),
            Err(DecodeError::Incomplete) => Step::More,
        },
        Err(e) => {
            if line.unicode_len() == 0 {
                Step::Invalid(e)
            } else {
                Step::More
            }
        },
    }
}

/// What an attempt at the challenge password leads to.
#[derive(Debug, Clone, Copy, PartialEq, Eq)]
pub enum Challenge {
    /// The password was right: go on and sign.
    Passed,
    /// The password was wrong: ask again.
    Again,
    /// The password was wrong for the last time: sign nothing.
    Failed,
}

/// Decides on an attempt at the challenge password that came after `failed`
/// failed attempts and was right or not: a wrong attempt may be followed by
/// another one until five have failed.
pub fn challenge_step(failed: u8, right: bool) -> (r: Challenge)
    requires
        failed < CHALLENGE_ATTEMPTS,
    ensures
        right ==> r == Challenge::Passed,
        !right && failed + 1 < CHALLENGE_ATTEMPTS ==> r == Challenge::Again,
        !right && failed + 1 == CHALLENGE_ATTEMPTS ==> r == Challenge::Failed,
{
    if right {
        Challenge::Passed
    } else if failed == CHALLENGE_ATTEMPTS - 1 {
        Challenge::Failed
    } else {
        Challenge::Again
    }
}

} // verus!
