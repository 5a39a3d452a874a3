//! Lowercase hex encoding and case-insensitive hex decoding, as the `hex`
//! crate performs them; challenges, public keys and signatures travel in
//! this form.

use vstd::prelude::*;
use vstd::string::StringSliceAdditionalSpecFns;
use vstd::utf8::{encode_utf8, is_ascii_chars, is_ascii_chars_encode_utf8};

verus! {

/// The character that stands for a nibble (`0..16`) in lowercase hex.
pub open spec fn hex_digit_char(n: int) -> char {
    if n < 10 {
        (48 + n) as char
    } else {
        (87 + n) as char
    }
}

/// Lowercase hex text of `data`: two digits per byte, high nibble first.
pub open spec fn hex_encode(data: Seq<u8>) -> Seq<char> {
    Seq::new(
        (2 * data.len()) as nat,
        |i: int|
            if i % 2 == 0 {
                hex_digit_char((data[i / 2] / 16) as int)
            } else {
                hex_digit_char((data[i / 2] % 16) as int)
            },
    )
}

/// The value of one hex digit byte, in either case.
pub open spec fn hex_value(b: u8) -> Option<int> {
    if 48 <= b <= 57 {
        Some(b - 48)
    } else if 65 <= b <= 70 {
        Some(b - 55)
    } else if 97 <= b <= 102 {
        Some(b - 87)
    } else {
        None
    }
}

/// Text that decodes: an even number of bytes, each a hex digit.
pub open spec fn is_hex_text(text: Seq<u8>) -> bool {
    &&& text.len() % 2 == 0
    &&& forall|i: int| 0 <= i < text.len() ==> (#[trigger] hex_value(text[i])) is Some
}

/// The bytes that hex text stands for, or `None` where it is not hex text.
pub open spec fn hex_decode(text: Seq<u8>) -> Option<Seq<u8>> {
    if is_hex_text(text) {
        Some(
            Seq::new(
                text.len() / 2,
                |i: int|
                    (hex_value(text[2 * i])->0 * 16 + hex_value(text[2 * i + 1])->0) as u8,
            ),
        )
    } else {
        None
    }
}

#[verifier::external_type_specification]
#[verifier::external_body]
pub struct ExFromHexError(hex::FromHexError);

/// `hex::encode`: the crate's documentation and source give lowercase
/// digits, two per byte, high nibble first; this is what the contract claims.
#[verifier::external_body]
pub(crate) fn encode_bytes(data: &[u8]) -> (text: String)
    ensures
        text@ == hex_encode(data@),
{
    hex::encode(data)
}

/// `hex::decode`: the crate accepts an even number of digits in either
/// case and fails on anything else (odd length, or a byte that is no digit);
/// the contract claims exactly that and the bytes it gives back.
#[verifier::external_body]
fn decode_bytes(text: &[u8]) -> (r: Result<Vec<u8>, hex::FromHexError>)
    ensures
        match r {
            Ok(bytes) => hex_decode(text@) == Some(bytes@),
            Err(_) => hex_decode(text@) is None,
        },
{
    hex::decode(text)
}

/// Hex text that does not decode.
#[derive(Debug, Clone, Copy, PartialEq, Eq, Structural)]
pub enum MalformedHex {
    /// An odd number of characters.
    OddLength,
    /// An even number of characters, one of which is no hex digit.
    InvalidCharacter,
}

/// The bytes of a hex string, as `hex::decode` reads the string's UTF-8 bytes.
pub fn decode_hex(text: &str) -> (r: Result<Vec<u8>, MalformedHex>)
    ensures
        match r {
            Ok(bytes) => hex_decode(text.spec_bytes()) == Some(bytes@),
            Err(e) => {
                &&& hex_decode(text.spec_bytes()) is None
                &&& (e == MalformedHex::OddLength <==> text.spec_bytes().len() % 2 == 1)
            },
        },
{
    let raw = text.as_bytes();
    match decode_bytes(raw) {
        Ok(bytes) => Ok(bytes),
        Err(_) => {
            if raw.len() % 2 == 1 {
                Err(MalformedHex::OddLength)
            } else {
                Err(MalformedHex::InvalidCharacter)
            }
        },
    }
}

/// Lowercase hex text of a byte string.
pub fn encode_hex(data: &[u8]) -> (text: String)
    ensures
        text@ == hex_encode(data@),
{
    encode_bytes(data)
}

/// Every character of hex text is ASCII.
pub proof fn lemma_hex_encode_is_ascii(data: Seq<u8>)
    ensures
        is_ascii_chars(hex_encode(data)),
{
    assert forall|i: int| 0 <= i < hex_encode(data).len() implies '\0' <= #[trigger] hex_encode(
        data,
    )[i] <= '\u{7f}' by {
        let b = data[i / 2];
        assert(b / 16 < 16 && b % 16 < 16);
    }
}

/// Decoding the hex text of any bytes gives those bytes back.
pub proof fn lemma_hex_roundtrip(data: Seq<u8>)
    ensures
        hex_decode(encode_utf8(hex_encode(data))) == Some(data),
{
    let chars = hex_encode(data);
    lemma_hex_encode_is_ascii(data);
    is_ascii_chars_encode_utf8(chars);
    let text = encode_utf8(chars);
    assert forall|i: int| 0 <= i < text.len() implies (#[trigger] hex_value(text[i])) is Some
        && hex_value(text[i])->0 == (if i % 2 == 0 {
        data[i / 2] / 16
    } else {
        data[i / 2] % 16
    }) by {
        assert(text[i] == chars[i] as u8);
    }
    let decoded = hex_decode(text)->0;
    assert forall|i: int| 0 <= i < data.len() implies #[trigger] decoded[i] == data[i] by {
        assert(hex_value(text[2 * i]) is Some);
        assert(hex_value(text[2 * i + 1]) is Some);
        assert((2 * i) / 2 == i);
        assert((2 * i + 1) / 2 == i);
    }
    assert(decoded =~= data);
}

} // verus!
