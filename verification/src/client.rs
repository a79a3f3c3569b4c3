//! Addresses and identities, as clients and nodes write them.

use crate::ant_protocol::XorName;
use crate::hashing::{blake3_hash, hex_decode, hex_read, HexError};
use crate::replication::types::PeerId;
use crate::text::{decimal, decimal_text};
use vstd::prelude::*;
use vstd::string::*;

verus! {

/// A peer's identity in the form that payments carry.
#[derive(Clone, Copy, Debug, PartialEq, Eq)]
pub struct EncodedPeerId {
    /// The identity.
    pub bytes: [u8; 32],
}

impl EncodedPeerId {
    /// The form of an identity.
    pub fn new(bytes: [u8; 32]) -> (id: Self)
        ensures
            id.bytes == bytes,
    {
        EncodedPeerId { bytes }
    }
}

/// Why a text is not the identity of a peer.
#[derive(Clone, Copy, Debug, PartialEq, Eq)]
pub enum PeerIdError {
    /// It is not hexadecimal.
    InvalidHex(HexError),
    /// It does not stand for 32 bytes.
    WrongLength {
        /// For how many it stands.
        len: usize,
    },
}

/// The text that a character is shown as, between quotes and escaped where it has to be.
pub uninterp spec fn char_text(c: char) -> Seq<char>;

/// The debug text of `char`. It depends on the character alone.
#[verifier::external_body]
fn show_char(c: char) -> (text: String)
    ensures
        text@ == char_text(c),
{
    format!("{:?}", c)
}

/// What is said of a text that is not hexadecimal.
pub open spec fn hex_error_message(e: HexError) -> Seq<char> {
    match e {
        HexError::OddLength => "Odd number of digits"@,
        HexError::InvalidCharacter { c, index } => "Invalid character "@ + char_text(c)
            + " at position "@ + decimal(index as nat),
        HexError::InvalidLength => "Invalid string length"@,
    }
}

/// What is said of a text that is not the identity of a peer.
pub open spec fn peer_id_message(hex_id: Seq<char>, e: PeerIdError) -> Seq<char> {
    match e {
        PeerIdError::InvalidHex(cause) => "Invalid hex peer ID '"@ + hex_id + "': "@
            + hex_error_message(cause),
        PeerIdError::WrongLength { len } => "Peer ID must be 32 bytes, got "@ + decimal(
            len as nat,
        ),
    }
}

impl PeerIdError {
    /// Say what is wrong with `hex_id`.
    pub fn message(&self, hex_id: &str) -> (text: String)
        ensures
            text@ == peer_id_message(hex_id@, *self),
    {
        match *self {
            PeerIdError::InvalidHex(cause) => {
                let mut text = "Invalid hex peer ID '".to_owned();
                text.append(hex_id);
                text.append("': ");
                let ghost before = text@;
                match cause {
                    HexError::OddLength => text.append("Odd number of digits"),
                    HexError::InvalidCharacter { c, index } => {
                        text.append("Invalid character ");
                        text.append(show_char(c).as_str());
                        text.append(" at position ");
                        text.append(decimal_text(index as u64).as_str());
                    },
                    HexError::InvalidLength => text.append("Invalid string length"),
                }
                assert(text@ =~= before + hex_error_message(cause));
                text
            },
            PeerIdError::WrongLength { len } => {
                let mut text = "Peer ID must be 32 bytes, got ".to_owned();
                text.append(decimal_text(len as u64).as_str());
                text
            },
        }
    }
}

/// The distance of two addresses: their bytes, combined by exclusive or.
pub open spec fn distance(a: XorName, b: XorName) -> Seq<u8> {
    Seq::new(32, |i: int| a[i] ^ b[i])
}

/// The distance of two addresses.
pub fn xor_distance(a: &XorName, b: &XorName) -> (d: XorName)
    ensures
        d@ == distance(*a, *b),
{
    let mut d: [u8; 32] = [0u8;32];
    let mut i: usize = 0;
    while i < 32
        invariant
            i <= 32,
            forall|j: int| 0 <= j < i ==> d[j] == a[j] ^ b[j],
        decreases 32 - i,
    {
        d[i] = a[i] ^ b[i];
        i += 1;
    }
    assert(d@ =~= distance(*a, *b));
    d
}

/// An address is as far from a second one as that is from it, and only itself is not away from it.
pub proof fn distance_is_symmetric(a: XorName, b: XorName)
    ensures
        distance(a, b) == distance(b, a),
        distance(a, b) == Seq::new(32, |i: int| 0u8) <==> a == b,
{
    assert forall|i: int| 0 <= i < 32 implies a[i] ^ b[i] == b[i] ^ a[i] by {
        let x = a[i];
        let y = b[i];
        assert(x ^ y == y ^ x) by (bit_vector);
    }
    assert(distance(a, b) =~= distance(b, a));
    let zero = Seq::new(32, |i: int| 0u8);
    if distance(a, b) == zero {
        assert forall|i: int| 0 <= i < 32 implies a[i] == b[i] by {
            let x = a[i];
            let y = b[i];
            assert(distance(a, b)[i] == x ^ y);
            assert(zero[i] == 0);
            assert(x ^ y == 0 ==> x == y) by (bit_vector);
        }
        assert(a =~= b);
    }
    if a == b {
        assert forall|i: int| 0 <= i < 32 implies distance(a, b)[i] == zero[i] by {
            let x = a[i];
            assert(x ^ x == 0) by (bit_vector);
        }
        assert(distance(a, b) =~= zero);
    }
}

/// The address of a content: its BLAKE3 digest.
pub fn compute_address(content: &[u8]) -> (address: XorName)
    ensures
        address == crate::hashing::blake3_digest(content@),
{
    blake3_hash(content)
}

/// The address at which a peer stands.
pub fn peer_id_to_xor_name(peer: &PeerId) -> (name: XorName)
    ensures
        name == *peer,
{
    *peer
}

/// Read the identity of a peer from 64 hexadecimal digits.
pub fn hex_node_id_to_encoded_peer_id(hex_id: &str) -> (id: Result<EncodedPeerId, PeerIdError>)
    ensures
        match id {
            Ok(id) => exists|bytes: Vec<u8>|
                hex_read(hex_id.spec_bytes(), Ok(bytes)) && #[trigger] bytes@ == id.bytes@,
            Err(PeerIdError::InvalidHex(e)) => hex_read(hex_id.spec_bytes(), Err(e)),
            Err(PeerIdError::WrongLength { len }) => len != 32 && hex_id.spec_bytes().len() == 2
                * len && exists|bytes: Vec<u8>| #[trigger]
                hex_read(hex_id.spec_bytes(), Ok(bytes)),
        },
{
    let raw_bytes = match hex_decode(hex_id) {
        Ok(bytes) => bytes,
        Err(e) => return Err(PeerIdError::InvalidHex(e)),
    };
    if raw_bytes.len() != 32 {
        return Err(PeerIdError::WrongLength { len: raw_bytes.len() });
    }
    let mut bytes: [u8; 32] = [0u8;32];
    let mut i: usize = 0;
    while i < 32
        invariant
            i <= 32,
            raw_bytes.len() == 32,
            forall|j: int| 0 <= j < i ==> bytes[j] == raw_bytes@[j],
        decreases 32 - i,
    {
        bytes[i] = raw_bytes[i];
        i += 1;
    }
    assert(raw_bytes@ =~= bytes@);
    Ok(EncodedPeerId::new(bytes))
}

} // verus!
