//! Hexadecimal text.
use crate::crypto::error::HexFault;
use vstd::prelude::*;
use vstd::string::StringSliceAdditionalSpecFns;

verus! {

/// The lower-case hexadecimal digit of a value below sixteen.
pub open spec fn hex_digit(v: int) -> char {
    if v < 10 {
        (48 + v) as char
    } else {
        (87 + v) as char
    }
}

/// Two lower-case digits for each byte, the high half first.
pub open spec fn hex_chars(bytes: Seq<u8>) -> Seq<char> {
    Seq::new(
        2 * bytes.len(),
        |i: int|
            if i % 2 == 0 {
                hex_digit(bytes[i / 2] as int / 16)
            } else {
                hex_digit(bytes[i / 2] as int % 16)
            },
    )
}

/// The value of a hexadecimal digit of either case.
pub open spec fn hex_value(c: u8) -> Option<u8> {
    if 48 <= c <= 57 {
        Some((c - 48) as u8)
    } else if 97 <= c <= 102 {
        Some((c - 87) as u8)
    } else if 65 <= c <= 70 {
        Some((c - 55) as u8)
    } else {
        None
    }
}

/// Every byte of the text is a hexadecimal digit.
pub open spec fn all_hex(text: Seq<u8>) -> bool {
    forall|i: int| 0 <= i < text.len() ==> hex_value(#[trigger] text[i]) is Some
}

/// The bytes that an even number of hexadecimal digits spell.
pub open spec fn hex_bytes(text: Seq<u8>) -> Seq<u8> {
    Seq::new(
        text.len() / 2,
        |i: int| (16 * hex_value(text[2 * i])->0 + hex_value(text[2 * i + 1])->0) as u8,
    )
}

/// What decoding a text gives: its bytes, or the first thing wrong with it.
pub open spec fn hex_outcome(text: Seq<u8>, r: Result<Seq<u8>, HexFault>) -> bool {
    match r {
        Ok(bytes) => text.len() % 2 == 0 && all_hex(text) && bytes == hex_bytes(text),
        Err(HexFault::OddLength) => text.len() % 2 != 0,
        Err(HexFault::InvalidHexCharacter { c, index }) => {
            &&& text.len() % 2 == 0
            &&& index < text.len()
            &&& hex_value(text[index as int]) is None
            &&& c == text[index as int] as char
            &&& all_hex(text.take(index as int))
        },
        Err(HexFault::InvalidStringLength) => false,
    }
}

/// Where the first byte stands that is no hexadecimal digit, or the length.
pub open spec fn first_non_hex(text: Seq<u8>) -> int
    decreases text.len(),
{
    if text.len() == 0 || hex_value(text[0]) is None {
        0
    } else {
        1 + first_non_hex(text.drop_first())
    }
}

/// What decoding a text gives, as a function of it.
pub open spec fn hex_decoded(text: Seq<u8>) -> Result<Seq<u8>, HexFault> {
    if text.len() % 2 != 0 {
        Err(HexFault::OddLength)
    } else if all_hex(text) {
        Ok(hex_bytes(text))
    } else {
        let at = first_non_hex(text);
        Err(HexFault::InvalidHexCharacter { c: text[at] as char, index: at as usize })
    }
}

proof fn first_non_hex_is(text: Seq<u8>, i: int)
    requires
        0 <= i < text.len(),
        all_hex(text.take(i)),
        hex_value(text[i]) is None,
    ensures
        first_non_hex(text) == i,
    decreases i,
{
    if i > 0 {
        assert(text.take(i)[0] == text[0]);
        assert forall|k: int| 0 <= k < i - 1 implies hex_value(
            #[trigger] text.drop_first().take(i - 1)[k],
        ) is Some by {
            assert(text.take(i)[k + 1] == text.drop_first().take(i - 1)[k]);
        }
        first_non_hex_is(text.drop_first(), i - 1);
    }
}

/// There is only one outcome of decoding a text.
proof fn hex_outcome_is_decoded(text: Seq<u8>, r: Result<Seq<u8>, HexFault>)
    requires
        hex_outcome(text, r),
    ensures
        r == hex_decoded(text),
{
    match r {
        Err(HexFault::InvalidHexCharacter { c, index }) => {
            first_non_hex_is(text, index as int);
        },
        _ => {},
    }
}

/// `hex::encode`: every byte becomes two lower-case digits.
#[verifier::external_body]
pub(crate) fn encode_hex(bytes: &[u8]) -> (r: String)
    ensures
        r@ == hex_chars(bytes@),
{
    hex::encode(bytes)
}

/// `hex::decode`: the bytes that the text spells, digits of either case; an odd
/// number of digits is refused first, then the first byte that is no digit.
#[verifier::external_body]
fn decode_hex(text: &str) -> (r: Result<Vec<u8>, HexFault>)
    ensures
        hex_outcome(
            text.spec_bytes(),
            match r {
                Ok(v) => Ok(v@),
                Err(e) => Err(e),
            },
        ),
{
    match hex::decode(text) {
        Ok(v) => Ok(v),
        Err(hex::FromHexError::InvalidHexCharacter { c, index }) => {
            Err(HexFault::InvalidHexCharacter { c, index })
        },
        Err(hex::FromHexError::OddLength) => Err(HexFault::OddLength),
        Err(hex::FromHexError::InvalidStringLength) => Err(HexFault::InvalidStringLength),
    }
}

/// What a text in hexadecimal stands for.
pub open spec fn hex_read(text: Seq<char>) -> Result<Seq<u8>, HexFault> {
    hex_decoded(vstd::utf8::encode_utf8(text))
}

/// Reads a text in hexadecimal.
pub fn read_hex(text: &str) -> (r: Result<Vec<u8>, HexFault>)
    ensures
        match r {
            Ok(v) => hex_read(text@) == Ok::<Seq<u8>, HexFault>(v@),
            Err(h) => hex_read(text@) == Err::<Seq<u8>, HexFault>(h),
        },
{
    match decode_hex(text) {
        Ok(v) => {
            proof {
                hex_outcome_is_decoded(text.spec_bytes(), Ok(v@));
            }
            Ok(v)
        },
        Err(h) => {
            proof {
                hex_outcome_is_decoded(text.spec_bytes(), Err(h));
            }
            Err(h)
        },
    }
}

proof fn digit_decodes(v: int)
    requires
        0 <= v < 16,
    ensures
        hex_digit(v) as u32 <= 127,
        hex_value(hex_digit(v) as u8) == Some(v as u8),
{
}

/// Decoding what encoding wrote gives the bytes back.
pub proof fn hex_round_trip(bytes: Seq<u8>)
    ensures
        hex_read(hex_chars(bytes)) == Ok::<Seq<u8>, HexFault>(bytes),
{
    let chars = hex_chars(bytes);
    assert(vstd::utf8::is_ascii_chars(chars)) by {
        assert forall|i: int| 0 <= i < chars.len() implies 0 <= (#[trigger] chars[i] as u32) < 128 by {
            digit_decodes(bytes[i / 2] as int / 16);
            digit_decodes(bytes[i / 2] as int % 16);
        }
    }
    vstd::utf8::is_ascii_chars_encode_utf8(chars);
    let text = vstd::utf8::encode_utf8(chars);
    assert(text.len() == 2 * bytes.len());
    assert forall|i: int| 0 <= i < text.len() implies hex_value(#[trigger] text[i]) == Some(
        (if i % 2 == 0 {
            bytes[i / 2] as int / 16
        } else {
            bytes[i / 2] as int % 16
        }) as u8,
    ) by {
        digit_decodes(bytes[i / 2] as int / 16);
        digit_decodes(bytes[i / 2] as int % 16);
        assert(text[i] == chars[i] as u8);
    }
    assert(all_hex(text));
    assert(hex_bytes(text) =~= bytes) by {
        assert forall|i: int| 0 <= i < bytes.len() implies #[trigger] hex_bytes(text)[i] == bytes[i] by {
            let hi = text[2 * i];
            let lo = text[2 * i + 1];
            assert((2 * i) / 2 == i && (2 * i + 1) / 2 == i);
            assert(hex_value(hi) == Some((bytes[i] as int / 16) as u8));
            assert(hex_value(lo) == Some((bytes[i] as int % 16) as u8));
        }
    }
}

} // verus!
