//! The outside crates that the ledger computes with: hashes, keys and encodings.
//!
//! The functions of this file are not proved. Each makes one call into an outside
//! crate, and its contract is what the rest of the library takes from that crate. The
//! one law is proved.

use crate::base58::{base58_bytes, base58_text, is_base58_text};
use base64::Engine;
use ed25519_dalek::Signer;
use hmac::Mac;
use sha2::Digest;
use vstd::prelude::*;

verus! {

/// The lowercase hexadecimal digit of a number below sixteen.
pub open spec fn hex_digit(n: int) -> char {
    if n < 10 {
        (n + 48) as char
    } else {
        (n + 87) as char
    }
}

/// Two lowercase hexadecimal digits for each byte, the high half first.
pub open spec fn hex_text(bytes: Seq<u8>) -> Seq<char> {
    Seq::new(
        2 * bytes.len(),
        |i: int|
            hex_digit(
                if i % 2 == 0 {
                    bytes[i / 2] as int / 16
                } else {
                    bytes[i / 2] as int % 16
                },
            ),
    )
}

/// Whether `c` is a hexadecimal digit of either case.
pub open spec fn is_hex_digit(c: char) -> bool {
    ||| '0' <= c <= '9'
    ||| 'a' <= c <= 'f'
    ||| 'A' <= c <= 'F'
}

/// The value of a hexadecimal digit.
pub open spec fn hex_value(c: char) -> int {
    if '0' <= c <= '9' {
        c as int - '0' as int
    } else if 'a' <= c <= 'f' {
        c as int - 'a' as int + 10
    } else {
        c as int - 'A' as int + 10
    }
}

/// Whether `s` is an even number of hexadecimal digits.
pub open spec fn is_hex_text(s: Seq<char>) -> bool {
    &&& s.len() % 2 == 0
    &&& forall|i: int| 0 <= i < s.len() ==> is_hex_digit(#[trigger] s[i])
}

/// The bytes that an even number of hexadecimal digits stands for.
pub open spec fn hex_bytes(s: Seq<char>) -> Seq<u8> {
    Seq::new(s.len() / 2, |i: int| (16 * hex_value(s[2 * i]) + hex_value(s[2 * i + 1])) as u8)
}

/// Calls `hex::encode`: two lowercase digits for each byte.
#[verifier::external_body]
pub(crate) fn hex_encode(bytes: &[u8]) -> (r: String)
    ensures
        r@ == hex_text(bytes@),
{
    hex::encode(bytes)
}

/// The message of the error with which `hex::decode` refuses a text.
pub uninterp spec fn hex_refusal(s: Seq<char>) -> Seq<char>;

/// Calls `hex::decode`: an even number of hexadecimal digits, of either case, gives
/// the bytes they stand for, and any other text an error, here its message.
#[verifier::external_body]
pub(crate) fn hex_decode(s: &str) -> (r: Result<Vec<u8>, String>)
    ensures
        match r {
            Ok(bytes) => is_hex_text(s@) && bytes@ == hex_bytes(s@),
            Err(message) => !is_hex_text(s@) && message@ == hex_refusal(s@),
        },
{
    hex::decode(s).map_err(|e| e.to_string())
}

/// The SHA-256 digest of a byte sequence.
pub uninterp spec fn sha256_digest(bytes: Seq<u8>) -> Seq<u8>;

/// Calls `sha2::Sha256` on one byte sequence. The digest has 32 bytes.
#[verifier::external_body]
pub(crate) fn sha256(bytes: &[u8]) -> (r: [u8; 32])
    ensures
        r@ == sha256_digest(bytes@),
{
    let mut h = sha2::Sha256::new();
    h.update(bytes);
    h.finalize().into()
}

/// The HMAC-SHA256 code of a message under a key.
pub uninterp spec fn hmac_sha256_code(key: Seq<u8>, message: Seq<u8>) -> Seq<u8>;

/// Calls `hmac::Hmac<sha2::Sha256>` on one message. A key of any length is accepted,
/// and the code has 32 bytes.
#[verifier::external_body]
pub(crate) fn hmac_sha256(key: &[u8], message: &[u8]) -> (r: [u8; 32])
    ensures
        r@ == hmac_sha256_code(key@, message@),
{
    let mut mac = hmac::Hmac::<sha2::Sha256>::new_from_slice(key).expect("hmac key");
    mac.update(message);
    mac.finalize().into_bytes().into()
}

/// Calls `getrandom::getrandom` for sixteen bytes. Which bytes come, and whether the
/// system can give any, is left open.
#[verifier::external_body]
pub(crate) fn random_bytes() -> (r: Option<[u8; 16]>) {
    let mut buf = [0u8; 16];
    match getrandom::getrandom(&mut buf) {
        Ok(()) => Some(buf),
        Err(_) => None,
    }
}

/// Calls `bs58::encode` with its default alphabet, Bitcoin's. Ids have 16 bytes and keys
/// 32; the room for the text of so few bytes is always enough.
#[verifier::external_body]
pub(crate) fn base58_encode(bytes: &[u8]) -> (r: String)
    requires
        bytes@.len() <= 32,
    ensures
        r@ == base58_text(bytes@),
{
    bs58::encode(bytes).into_string()
}

/// The message of the error with which `bs58::decode` refuses a text.
pub uninterp spec fn base58_refusal(s: Seq<char>) -> Seq<char>;

/// Calls `bs58::decode` with its default alphabet, Bitcoin's. It decodes every text in
/// that alphabet and refuses every other one, here with the message of its error.
#[verifier::external_body]
pub(crate) fn base58_decode(s: &str) -> (r: Result<Vec<u8>, String>)
    ensures
        match r {
            Ok(bytes) => is_base58_text(s@) && bytes@ == base58_bytes(s@),
            Err(message) => !is_base58_text(s@) && message@ == base58_refusal(s@),
        },
{
    bs58::decode(s).into_vec().map_err(|e| e.to_string())
}

/// The Ed25519 public key of a secret seed.
pub uninterp spec fn ed25519_public_key(seed: Seq<u8>) -> Seq<u8>;

/// Calls `ed25519_dalek::SigningKey::from_bytes` and takes the verifying key.
#[verifier::external_body]
pub(crate) fn public_key(seed: &[u8; 32]) -> (r: [u8; 32])
    ensures
        r@ == ed25519_public_key(seed@),
{
    ed25519_dalek::SigningKey::from_bytes(seed).verifying_key().to_bytes()
}

/// The Ed25519 signature of a message under a secret seed.
pub uninterp spec fn ed25519_signature(seed: Seq<u8>, message: Seq<u8>) -> Seq<u8>;

/// Calls `ed25519_dalek::SigningKey::sign`, which is deterministic. The signature has
/// 64 bytes.
#[verifier::external_body]
pub(crate) fn sign(seed: &[u8; 32], message: &[u8]) -> (r: [u8; 64])
    ensures
        r@ == ed25519_signature(seed@, message@),
{
    ed25519_dalek::SigningKey::from_bytes(seed).sign(message).to_bytes()
}

/// The base64 digit of a number below 64, in the standard alphabet.
pub open spec fn base64_digit(n: int) -> char {
    if n < 26 {
        (n + 65) as char
    } else if n < 52 {
        (n + 71) as char
    } else if n < 62 {
        (n - 4) as char
    } else if n == 62 {
        '+'
    } else {
        '/'
    }
}

/// The byte at position `i`, and zero behind the end.
pub open spec fn byte_or_zero(bytes: Seq<u8>, i: int) -> int {
    if i < bytes.len() {
        bytes[i] as int
    } else {
        0
    }
}

/// The character at position `i` of a padded base64 text. Four characters stand for
/// three bytes, six bits each, the highest first; `=` fills up the last four.
pub open spec fn base64_char(bytes: Seq<u8>, i: int) -> char {
    let k = 3 * (i / 4);
    let bits = 65536 * byte_or_zero(bytes, k) + 256 * byte_or_zero(bytes, k + 1) + byte_or_zero(
        bytes,
        k + 2,
    );
    if i % 4 == 0 {
        base64_digit(bits / 262144)
    } else if i % 4 == 1 {
        base64_digit(bits / 4096 % 64)
    } else if k + i % 4 > bytes.len() {
        '='
    } else if i % 4 == 2 {
        base64_digit(bits / 64 % 64)
    } else {
        base64_digit(bits % 64)
    }
}

/// The padded base64 text of a byte sequence, in the standard alphabet.
pub open spec fn base64_text(bytes: Seq<u8>) -> Seq<char> {
    Seq::new(4 * ((bytes.len() + 2) / 3), |i: int| base64_char(bytes, i))
}

/// Calls `base64`'s standard engine, which pads. It panics where the text is longer
/// than a buffer can be.
#[verifier::external_body]
pub(crate) fn base64_encode(bytes: &[u8]) -> (r: String)
    requires
        4 * (bytes@.len() / 3 + 1) <= isize::MAX,
    ensures
        r@ == base64_text(bytes@),
{
    base64::engine::general_purpose::STANDARD.encode(bytes)
}

/// Decoding the hexadecimal text of a byte sequence gives the bytes back.
pub proof fn law_hex_round_trip(bytes: Seq<u8>)
    ensures
        is_hex_text(hex_text(bytes)),
        hex_bytes(hex_text(bytes)) == bytes,
{
    let s = hex_text(bytes);
    assert forall|i: int| 0 <= i < s.len() implies is_hex_digit(#[trigger] s[i]) by {
        assert(0 <= bytes[i / 2] as int / 16 < 16);
    }
    assert forall|i: int| 0 <= i < bytes.len() implies hex_bytes(s)[i] == bytes[i] by {
        let b = bytes[i] as int;
        assert((2 * i) / 2 == i && (2 * i + 1) / 2 == i);
        assert(s[2 * i] == hex_digit(b / 16) && s[2 * i + 1] == hex_digit(b % 16));
        assert(hex_value(hex_digit(b / 16)) == b / 16);
        assert(hex_value(hex_digit(b % 16)) == b % 16);
    }
    assert(hex_bytes(s) =~= bytes);
}

} // verus!
