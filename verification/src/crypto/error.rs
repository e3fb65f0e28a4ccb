//! What can be wrong with keys, signatures, addresses and encodings.
use crate::text::{decimal, decimal_text, joined2, joined4};
use vstd::prelude::*;

verus! {

/// Why a text is not the hexadecimal form of some bytes.
#[derive(Debug, Clone, Copy, PartialEq, Eq, Structural)]
pub enum HexFault {
    /// A byte of the text that is no hexadecimal digit, and where it stands.
    InvalidHexCharacter { c: char, index: usize },
    /// Two digits make a byte, and the text holds an odd number of them.
    OddLength,
    /// The text spells another number of bytes than was asked for.
    InvalidStringLength,
}

/// A character as `{:?}` writes it: in quotes, escaped where it is not printable.
pub uninterp spec fn quoted_char(c: char) -> Seq<char>;

/// `format!` with `{:?}` on a `char`: a function of the character alone.
#[verifier::external_body]
fn quote_char(c: char) -> (r: String)
    ensures
        r@ == quoted_char(c),
{
    format!("{:?}", c)
}

impl HexFault {
    pub open spec fn words(self) -> Seq<char> {
        match self {
            HexFault::InvalidHexCharacter { c, index } => "Invalid character "@ + quoted_char(c)
                + " at position "@ + decimal(index as nat),
            HexFault::OddLength => "Odd number of digits"@,
            HexFault::InvalidStringLength => "Invalid string length"@,
        }
    }

    /// The fault in words.
    pub fn message(&self) -> (r: String)
        ensures
            r@ == self.words(),
    {
        match self {
            HexFault::InvalidHexCharacter { c, index } => {
                let quoted = quote_char(*c);
                let position = decimal_text(*index as u64);
                joined4(
                    "Invalid character ",
                    quoted.as_str(),
                    " at position ",
                    position.as_str(),
                )
            },
            HexFault::OddLength => "Odd number of digits".to_owned(),
            HexFault::InvalidStringLength => "Invalid string length".to_owned(),
        }
    }
}

#[derive(Debug)]
pub enum CryptoError {
    InvalidPublicKey(String),
    InvalidSecretKey(String),
    InvalidSignature(String),
    VerificationFailed,
    InvalidAddress(String),
    HexError(HexFault),
    SerializationError(String),
}

/// A `CryptoError` with its text as characters.
pub enum CryptoFault {
    InvalidPublicKey(Seq<char>),
    InvalidSecretKey(Seq<char>),
    InvalidSignature(Seq<char>),
    VerificationFailed,
    InvalidAddress(Seq<char>),
    HexError(HexFault),
    SerializationError(Seq<char>),
}

impl View for CryptoError {
    type V = CryptoFault;

    open spec fn view(&self) -> CryptoFault {
        match *self {
            CryptoError::InvalidPublicKey(s) => CryptoFault::InvalidPublicKey(s@),
            CryptoError::InvalidSecretKey(s) => CryptoFault::InvalidSecretKey(s@),
            CryptoError::InvalidSignature(s) => CryptoFault::InvalidSignature(s@),
            CryptoError::VerificationFailed => CryptoFault::VerificationFailed,
            CryptoError::InvalidAddress(s) => CryptoFault::InvalidAddress(s@),
            CryptoError::HexError(h) => CryptoFault::HexError(h),
            CryptoError::SerializationError(s) => CryptoFault::SerializationError(s@),
        }
    }
}

impl CryptoFault {
    pub open spec fn words(self) -> Seq<char> {
        match self {
            CryptoFault::InvalidPublicKey(s) => "Invalid public key: "@ + s,
            CryptoFault::InvalidSecretKey(s) => "Invalid secret key: "@ + s,
            CryptoFault::InvalidSignature(s) => "Invalid signature: "@ + s,
            CryptoFault::VerificationFailed => "Signature verification failed"@,
            CryptoFault::InvalidAddress(s) => "Invalid address: "@ + s,
            CryptoFault::HexError(h) => "Invalid hex encoding: "@ + h.words(),
            CryptoFault::SerializationError(s) => "Serialization error: "@ + s,
        }
    }
}

impl CryptoError {
    /// The error in words.
    pub fn message(&self) -> (r: String)
        ensures
            r@ == self@.words(),
    {
        match self {
            CryptoError::InvalidPublicKey(s) => joined2("Invalid public key: ", s.as_str()),
            CryptoError::InvalidSecretKey(s) => joined2("Invalid secret key: ", s.as_str()),
            CryptoError::InvalidSignature(s) => joined2("Invalid signature: ", s.as_str()),
            CryptoError::VerificationFailed => "Signature verification failed".to_owned(),
            CryptoError::InvalidAddress(s) => joined2("Invalid address: ", s.as_str()),
            CryptoError::HexError(h) => {
                let words = h.message();
                joined2("Invalid hex encoding: ", words.as_str())
            },
            CryptoError::SerializationError(s) => joined2("Serialization error: ", s.as_str()),
        }
    }
}

pub type CryptoResult<T> = Result<T, CryptoError>;

} // verus!
