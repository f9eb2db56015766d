//! Texts for the operator.

use vstd::prelude::*;
use vstd::string::StringExecFns;
use crate::error::{DecodeError, DecodeFault, EncodeError, EncodeFault, KeyError, KeyFileError};
use crate::trusted::{base58_string, base58_text};

verus! {

/// How the signer is used on the command line.
pub const USAGE: &'static str = "\nUsage: solsign [--help]\n       solsign [--no-prompt] [KEY_FILE]...\n\n  solsign reads Solana transactions in Base64 encoded format from stdin,\n  displays them, signs them, writes signed transactions and signatures to\n  stdout.\n\n  On start-up, solsign reads any private key files specified on the command\n  line. It also prompts for mnemonic and passcode combinations from stdin.\n  Collectively these signing keys become available to the program to sign\n  transactions.\n\n  After reading in private keys, solsign asks the user to supply a challenge\n  password which will be used to ensure that the correct user is signing\n  subsequent transactions.  Entering a password is highly recommended as it\n  will protect the user in case an intruder gains access to the command\n  line.\n\n  solsign then enters a loop where it waits to read Base64 encoded\n  transactions from standard input. After each encoded transaction is read\n  in, if there was a challenge password set, solsign will require the user\n  to supply that password before proceeding.  For any signatures not\n  provided within the transaction, if the key required for that signature\n  was provided to solsign, the transaction will be signed with that key.\n\n  After all possible signatures are applied, if the transaction is still not\n  completely signed, then the list of pubkeys which must still sign the\n  transaction is printed, along with the Base64 encoded version of the\n  partially signed transaction is printed, ready for further signing.\n\n  If after signing, the transaction is completely signed, then the signature\n  of the transaction is printed.\n";

/// The usage text as an owned string.
pub fn usage_string() -> (r: String)
    ensures
        r@ == USAGE@,
{
    String::from_str(USAGE)
}

/// The character of a decimal digit.
pub open spec fn digit_char(d: nat) -> char {
    if d == 0 {
        '0'
    } else if d == 1 {
        '1'
    } else if d == 2 {
        '2'
    } else if d == 3 {
        '3'
    } else if d == 4 {
        '4'
    } else if d == 5 {
        '5'
    } else if d == 6 {
        '6'
    } else if d == 7 {
        '7'
    } else if d == 8 {
        '8'
    } else {
        '9'
    }
}

/// A number in decimal digits, without leading zeros.
pub open spec fn decimal_text(n: nat) -> Seq<char>
    decreases n,
{
    if n < 10 {
        seq![digit_char(n)]
    } else {
        decimal_text(n / 10).push(digit_char(n % 10))
    }
}

/// The text of one decimal digit.
fn digit_str(d: u64) -> (r: &'static str)
    requires
        d < 10,
    ensures
        r@ == seq![digit_char(d as nat)],
{
    proof {
        reveal_strlit("0");
        reveal_strlit("1");
        reveal_strlit("2");
        reveal_strlit("3");
        reveal_strlit("4");
        reveal_strlit("5");
        reveal_strlit("6");
        reveal_strlit("7");
        reveal_strlit("8");
        reveal_strlit("9");
    }
    let r = if d == 0 {
        "0"
    } else if d == 1 {
        "1"
    } else if d == 2 {
        "2"
    } else if d == 3 {
        "3"
    } else if d == 4 {
        "4"
    } else if d == 5 {
        "5"
    } else if d == 6 {
        "6"
    } else if d == 7 {
        "7"
    } else if d == 8 {
        "8"
    } else {
        "9"
    };
    assert(r@ =~= seq![digit_char(d as nat)]);
    r
}

/// Writes a number in decimal digits.
pub fn decimal(n: u64) -> (r: String)
    ensures
        r@ == decimal_text(n as nat),
    decreases n,
{
    if n < 10 {
        String::from_str(digit_str(n))
    } else {
        let mut r = decimal(n / 10);
        r.append(digit_str(n % 10));
        assert(r@ =~= decimal_text(n as nat / 10).push(digit_char(n as nat % 10)));
        r
    }
}

/// What a decode fault says to the operator.
pub open spec fn decode_fault_text(fault: DecodeFault) -> Seq<char> {
    match fault {
        DecodeFault::TooManySignatures { count } =>
            "Too many signatures in transaction: expected at most "@ + decimal_text(18)
                + ", got "@ + decimal_text(count as nat),
        DecodeFault::MalformedSignature => "signature error"@,
        DecodeFault::TooManySignedAddresses { signed } =>
            "Too many signatures supplied: expected at most "@ + decimal_text(signed as nat)
                + ", got "@ + decimal_text(37),
        DecodeFault::TooManySignaturesSupplied { signatures, signed } =>
            "Too many signatures supplied: expected at most "@ + decimal_text(signed as nat)
                + ", got "@ + decimal_text(signatures as nat),
        DecodeFault::TooManySignedReadOnly { signed, read_only } =>
            "Too many signed read only addresses: expected at most "@ + decimal_text(
                signed as nat,
            ) + ", got "@ + decimal_text(read_only as nat),
        DecodeFault::NoFeePayer => "Minimum signed address count of 1 required for fee payer"@,
        DecodeFault::TooFewAddresses { supplied, required } => "Too few addresses in header; "@
            + decimal_text(supplied as nat) + " supplied but at least "@ + decimal_text(
            required as nat,
        ) + " required"@,
        DecodeFault::InvalidProgramIndex { index, instruction } => "Invalid program id index "@
            + decimal_text(index as nat) + " for instruction "@ + decimal_text(instruction as nat),
        DecodeFault::TooManyInstructionAddresses { instruction, count } =>
            "Too many addresses in instruction "@ + decimal_text(instruction as nat)
                + ": expected at most "@ + decimal_text(1190) + " got "@ + decimal_text(
                count as nat,
            ),
        DecodeFault::InvalidAddressIndex { index, instruction } => "Invalid address index "@
            + decimal_text(index as nat) + " referenced from instruction "@ + decimal_text(
            instruction as nat,
        ),
        DecodeFault::TooManyInstructionData { instruction, count } =>
            "Too many data bytes in instruction "@ + decimal_text(instruction as nat)
                + ": expected at most "@ + decimal_text(1192) + " got "@ + decimal_text(
                count as nat,
            ),
    }
}

/// What an encode fault says to the operator.
pub open spec fn encode_fault_text(fault: EncodeFault) -> Seq<char> {
    match fault {
        EncodeFault::TooManyAddresses => "Too many addresses"@,
        EncodeFault::TooManySignedAddresses => "Too many signed addresses"@,
        EncodeFault::TooManyInstructions => "Too many instructions"@,
        EncodeFault::ProgramAddressNotFound { address } =>
            "Invalid Transaction - program address "@ + base58_text(address)
                + " not in address list"@,
        EncodeFault::AddressNotFound { address } => "Invalid Transaction - address "@
            + base58_text(address) + " is not in address list"@,
        EncodeFault::AddressIndexTooLarge { address } => "Invalid Transaction - address "@
            + base58_text(address) + " is beyond index 255 of the address list"@,
        EncodeFault::TooManyInstructionAddresses { len } =>
            "Too many addresses in instruction: "@ + decimal_text(len as nat) + " > "@
                + decimal_text(65535),
        EncodeFault::DataTooLong { len } => "Instruction data len too long: "@ + decimal_text(
            len as nat,
        ) + " > "@ + decimal_text(1192),
    }
}

/// What a key error says to the operator.
pub open spec fn key_error_text(error: KeyError) -> Seq<char> {
    match error {
        KeyError::SeedTooShort => "Seed is too short"@,
        KeyError::ExpectedHardenedIndex { index } => "expected hardened child index: "@
            + decimal_text(index as nat),
        KeyError::KeypairLength => "signature error: Keypair must be 64 bytes in length"@,
        KeyError::PublicKeyOffCurve => "signature error: Cannot decompress Edwards point"@,
        KeyError::Ed25519 => "ed25519 error"@,
    }
}

/// A literal, then a number.
fn text_number(a: &str, n: u64) -> (r: String)
    ensures
        r@ == a@ + decimal_text(n as nat),
{
    let mut r = String::from_str(a);
    r.append(decimal(n).as_str());
    r
}

/// A literal, a number, a literal, and a number.
fn text_two_numbers(a: &str, n: u64, b: &str, m: u64) -> (r: String)
    ensures
        r@ == a@ + decimal_text(n as nat) + b@ + decimal_text(m as nat),
{
    let mut r = text_number(a, n);
    r.append(b);
    r.append(decimal(m).as_str());
    r
}

impl DecodeFault {
    /// The diagnostic message of the fault.
    pub fn message(&self) -> (r: String)
        ensures
            r@ == decode_fault_text(*self),
    {
        match *self {
            DecodeFault::TooManySignatures { count } => text_two_numbers(
                "Too many signatures in transaction: expected at most ",
                18,
                ", got ",
                count as u64,
            ),
            DecodeFault::MalformedSignature => String::from_str("signature error"),
            DecodeFault::TooManySignedAddresses { signed } => text_two_numbers(
                "Too many signatures supplied: expected at most ",
                signed as u64,
                ", got ",
                37,
            ),
            DecodeFault::TooManySignaturesSupplied { signatures, signed } => text_two_numbers(
                "Too many signatures supplied: expected at most ",
                signed as u64,
                ", got ",
                signatures as u64,
            ),
            DecodeFault::TooManySignedReadOnly { signed, read_only } => text_two_numbers(
                "Too many signed read only addresses: expected at most ",
                signed as u64,
                ", got ",
                read_only as u64,
            ),
            DecodeFault::NoFeePayer => String::from_str(
                "Minimum signed address count of 1 required for fee payer",
            ),
            DecodeFault::TooFewAddresses { supplied, required } => {
                let mut r = text_two_numbers(
                    "Too few addresses in header; ",
                    supplied as u64,
                    " supplied but at least ",
                    required as u64,
                );
                r.append(" required");
                r
            },
            DecodeFault::InvalidProgramIndex { index, instruction } => text_two_numbers(
                "Invalid program id index ",
                index as u64,
                " for instruction ",
                instruction as u64,
            ),
            DecodeFault::TooManyInstructionAddresses { instruction, count } => {
                let mut r = text_two_numbers(
                    "Too many addresses in instruction ",
                    instruction as u64,
                    ": expected at most ",
                    1190,
                );
                r.append(" got ");
                r.append(decimal(count as u64).as_str());
                r
            },
            DecodeFault::InvalidAddressIndex { index, instruction } => text_two_numbers(
                "Invalid address index ",
                index as u64,
                " referenced from instruction ",
                instruction as u64,
            ),
            DecodeFault::TooManyInstructionData { instruction, count } => {
                let mut r = text_two_numbers(
                    "Too many data bytes in instruction ",
                    instruction as u64,
                    ": expected at most ",
                    1192,
                );
                r.append(" got ");
                r.append(decimal(count as u64).as_str());
                r
            },
        }
    }
}

impl DecodeError {
    /// The diagnostic message of a fatal error; an incomplete input has
    /// none.
    pub fn message(&self) -> (r: Option<String>)
        ensures
            match *self {
                DecodeError::Fatal(fault) => r matches Some(text) && text@ == decode_fault_text(
                    fault,
                ),
                DecodeError::Incomplete => r is None,
            },
    {
        match self {
            DecodeError::Fatal(fault) => Some(fault.message()),
            DecodeError::Incomplete => None,
        }
    }
}

impl EncodeError {
    /// The diagnostic message of the error.
    pub fn message(&self) -> (r: String)
        ensures
            r@ == encode_fault_text(self@),
    {
        match *self {
            EncodeError::TooManyAddresses => String::from_str("Too many addresses"),
            EncodeError::TooManySignedAddresses => String::from_str("Too many signed addresses"),
            EncodeError::TooManyInstructions => String::from_str("Too many instructions"),
            EncodeError::ProgramAddressNotFound { address } => {
                let mut r = String::from_str("Invalid Transaction - program address ");
                r.append(base58_string(address.0.as_slice()).as_str());
                r.append(" not in address list");
                r
            },
            EncodeError::AddressNotFound { address } => {
                let mut r = String::from_str("Invalid Transaction - address ");
                r.append(base58_string(address.0.as_slice()).as_str());
                r.append(" is not in address list");
                r
            },
            EncodeError::AddressIndexTooLarge { address } => {
                let mut r = String::from_str("Invalid Transaction - address ");
                r.append(base58_string(address.0.as_slice()).as_str());
                r.append(" is beyond index 255 of the address list");
                r
            },
            EncodeError::TooManyInstructionAddresses { len } => text_two_numbers(
                "Too many addresses in instruction: ",
                len as u64,
                " > ",
                65535,
            ),
            EncodeError::DataTooLong { len } => text_two_numbers(
                "Instruction data len too long: ",
                len as u64,
                " > ",
                1192,
            ),
        }
    }
}

impl KeyError {
    /// The diagnostic message of the error.
    pub fn message(&self) -> (r: String)
        ensures
            r@ == key_error_text(*self),
    {
        match *self {
            KeyError::SeedTooShort => String::from_str("Seed is too short"),
            KeyError::ExpectedHardenedIndex { index } => text_number(
                "expected hardened child index: ",
                index as u64,
            ),
            KeyError::KeypairLength => String::from_str(
                "signature error: Keypair must be 64 bytes in length",
            ),
            KeyError::PublicKeyOffCurve => String::from_str(
                "signature error: Cannot decompress Edwards point",
            ),
            KeyError::Ed25519 => String::from_str("ed25519 error"),
        }
    }
}

/// What a key file error says to the operator.
pub open spec fn key_file_error_text(error: KeyFileError) -> Seq<char> {
    match error {
        KeyFileError::InvalidValue { position } => "invalid value at position "@ + decimal_text(
            position as nat,
        ),
    }
}

impl KeyFileError {
    /// The diagnostic message of the error.
    pub fn message(&self) -> (r: String)
        ensures
            r@ == key_file_error_text(*self),
    {
        match *self {
            KeyFileError::InvalidValue { position } => text_number(
                "invalid value at position ",
                position as u64,
            ),
        }
    }
}

/// How often the operator may try the challenge password.
pub const CHALLENGE_ATTEMPTS: u8 = 5;

/// What the operator is asked after `failed` failed attempts at the
/// challenge password.
pub open spec fn challenge_prompt_text(failed: u8) -> Seq<char> {
    "  Enter challenge password ("@ + decimal_text((CHALLENGE_ATTEMPTS - failed) as nat) + (if failed
        == CHALLENGE_ATTEMPTS - 1 {
        " attempt remaining): "@
    } else {
        " attempts remaining): "@
    })
}

/// Asks for the challenge password and says how many attempts are left.
pub fn challenge_prompt(failed: u8) -> (r: String)
    requires
        failed < CHALLENGE_ATTEMPTS,
    ensures
        r@ == challenge_prompt_text(failed),
{
    let mut r = text_number("  Enter challenge password (", (CHALLENGE_ATTEMPTS - failed) as u64);
    if failed == CHALLENGE_ATTEMPTS - 1 {
        r.append(" attempt remaining): ");
    } else {
        r.append(" attempts remaining): ");
    }
    r
}

/// The label of candidate number `i` of a seed: blank for the root keypair,
/// else the derivation path of the keypair.
pub open spec fn candidate_label_text(i: nat) -> Seq<char> {
    if i == 0 {
        "                "@
    } else {
        "m/44'/501'/0'/"@ + decimal_text((i - 1) as nat) + "'"@
    }
}

/// The label under which candidate number `i` of a seed is shown.
pub fn candidate_label(i: usize) -> (r: String)
    ensures
        r@ == candidate_label_text(i as nat),
{
    if i == 0 {
        String::from_str("                ")
    } else {
        let mut r = text_number("m/44'/501'/0'/", (i - 1) as u64);
        r.append("'");
        r
    }
}

} // verus!
