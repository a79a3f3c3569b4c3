//! Byte strings and digests: concatenation, comparison, BLAKE3 and hexadecimal.

use vstd::prelude::*;

verus! {

/// The BLAKE3 digest of a byte string.
pub uninterp spec fn blake3_digest(data: Seq<u8>) -> [u8; 32];

/// Whether a pair is two different byte strings with one BLAKE3 digest.
pub open spec fn collides(pair: (Seq<u8>, Seq<u8>)) -> bool {
    pair.0 != pair.1 && blake3_digest(pair.0) == blake3_digest(pair.1)
}

/// `blake3::hash`: the 32-byte digest of `data`, which depends on `data` alone.
#[verifier::external_body]
pub(crate) fn blake3_hash(data: &[u8]) -> (digest: [u8; 32])
    ensures
        digest == blake3_digest(data@),
{
    *blake3::hash(data).as_bytes()
}

/// Append `bytes` to `buf`.
pub(crate) fn append(buf: &mut Vec<u8>, bytes: &[u8])
    ensures
        final(buf)@ == old(buf)@ + bytes@,
{
    buf.extend_from_slice(bytes);
    assert(buf@ =~= old(buf)@ + bytes@);
}

/// Whether two digests hold the same bytes.
pub fn same_bytes32(a: &[u8; 32], b: &[u8; 32]) -> (same: bool)
    ensures
        same == (*a == *b),
{
    let mut i: usize = 0;
    while i < 32
        invariant
            i <= 32,
            forall|j: int| 0 <= j < i ==> a@[j] == b@[j],
        decreases 32 - i,
    {
        if a[i] != b[i] {
            return false;
        }
        i += 1;
    }
    assert(*a =~= *b);
    true
}

/// The character of a hexadecimal digit, in lower case.
pub open spec fn hex_char(digit: int) -> char {
    if digit < 10 {
        (48 + digit) as char
    } else {
        (87 + digit) as char
    }
}

/// Bytes as hexadecimal digits, two for each byte.
pub open spec fn hex_text(data: Seq<u8>) -> Seq<char> {
    Seq::new(
        2 * data.len(),
        |i: int|
            hex_char(
                if i % 2 == 0 {
                    data[i / 2] as int / 16
                } else {
                    data[i / 2] as int % 16
                },
            ),
    )
}

/// The value of a hexadecimal digit in either case; nothing for another byte.
pub open spec fn hex_value(byte: u8) -> Option<int> {
    if 48 <= byte <= 57 {
        Some(byte - 48)
    } else if 65 <= byte <= 70 {
        Some(byte - 55)
    } else if 97 <= byte <= 102 {
        Some(byte - 87)
    } else {
        None
    }
}

/// Why a text is not hexadecimal.
#[derive(Clone, Copy, Debug, PartialEq, Eq)]
pub enum HexError {
    /// It has an odd number of digits.
    OddLength,
    /// It holds something else than a digit.
    InvalidCharacter {
        /// What.
        c: char,
        /// Where.
        index: usize,
    },
    /// It is not as long as it should be.
    InvalidLength,
}

/// What reading hexadecimal digits gives: the bytes, or what is wrong first.
pub open spec fn hex_read(text: Seq<u8>, result: Result<Vec<u8>, HexError>) -> bool {
    match result {
        Ok(bytes) => {
            &&& text.len() == 2 * bytes.len()
            &&& forall|i: int|
                0 <= i < bytes.len() ==> hex_value(text[2 * i]) == Some(
                    #[trigger] bytes@[i] as int / 16,
                ) && hex_value(text[2 * i + 1]) == Some(bytes@[i] as int % 16)
        },
        Err(HexError::OddLength) => text.len() % 2 == 1,
        Err(HexError::InvalidCharacter { c, index }) => {
            &&& text.len() % 2 == 0
            &&& index < text.len()
            &&& c as int == text[index as int]
            &&& hex_value(text[index as int]) is None
            &&& forall|k: int| 0 <= k < index ==> hex_value(#[trigger] text[k]) is Some
        },
        Err(HexError::InvalidLength) => false,
    }
}

/// `hex::encode`: two lower-case digits for each byte.
#[verifier::external_body]
pub(crate) fn hex_encode(data: &[u8]) -> (text: String)
    ensures
        text@ == hex_text(data@),
{
    hex::encode(data)
}

/// `hex::decode`: a byte for each two digits of either case, or the first error. A text of odd
/// length is refused before its characters are looked at.
#[verifier::external_body]
pub(crate) fn hex_decode(text: &str) -> (bytes: Result<Vec<u8>, HexError>)
    ensures
        hex_read(vstd::utf8::encode_utf8(text@), bytes),
{
    hex::decode(text).map_err(|e| match e {
        hex::FromHexError::InvalidHexCharacter { c, index } => HexError::InvalidCharacter { c, index },
        hex::FromHexError::OddLength => HexError::OddLength,
        hex::FromHexError::InvalidStringLength => HexError::InvalidLength,
    })
}

} // verus!
