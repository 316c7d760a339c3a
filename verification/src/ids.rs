//! Identifiers, edit tokens and per-work signing keys.
//!
//! No private key is stored. The signing seed and the edit token of a work are
//! HMAC-SHA256 codes of its id under a secret of the server.

use crate::base58::{
    base58_bytes, base58_text, is_base58_text, law_base58_length, law_base58_round_trip,
};
use crate::outside::{
    base58_encode, hex_bytes, hex_encode, hex_text, hmac_sha256, hmac_sha256_code,
    law_hex_round_trip, random_bytes,
};
use crate::text::lemma_same_bytes;
use vstd::prelude::*;
use vstd::utf8::*;

verus! {

/// The HMAC-SHA256 code of a text under a secret text.
pub open spec fn text_code(secret: Seq<char>, message: Seq<char>) -> Seq<u8> {
    crate::outside::hmac_sha256_code(encode_utf8(secret), encode_utf8(message))
}

/// The edit token of a work: its id's code in hexadecimal.
pub open spec fn edit_token_text(edit_secret: Seq<char>, lid: Seq<char>) -> Seq<char> {
    crate::outside::hex_text(text_code(edit_secret, lid))
}

/// A work's Ed25519 identity, held as the seed that it is made from.
pub struct Identity {
    pub seed: [u8; 32],
}

/// HMAC-SHA256 of `msg` under `secret`.
pub fn hmac32(secret: &str, msg: &str) -> (r: [u8; 32])
    ensures
        r@ == text_code(secret@, msg@),
{
    hmac_sha256(secret.as_bytes(), msg.as_bytes())
}

/// Whether a text is the url-safe id made of sixteen bytes: their base58 text, 16 to 22
/// digits and letters, from which the bytes can be read again.
pub open spec fn is_id_of(id: Seq<char>, bytes: Seq<u8>) -> bool {
    &&& id == base58_text(bytes)
    &&& is_base58_text(id)
    &&& 16 <= id.len() <= 22
    &&& base58_bytes(id) == bytes
}

/// The url-safe id made of sixteen bytes. Different bytes give different ids.
pub fn id_from_bytes(bytes: &[u8; 16]) -> (r: String)
    ensures
        is_id_of(r@, bytes@),
{
    proof {
        law_base58_round_trip(bytes@);
        law_base58_length(bytes@);
    }
    base58_encode(bytes.as_slice())
}

/// A random url-safe id of sixteen bytes, or `None` when the system has no randomness
/// to give. Which id comes is left to chance.
pub fn random_id() -> (r: Option<String>)
    ensures
        r matches Some(id) ==> exists|bytes: Seq<u8>|
            bytes.len() == 16 && #[trigger] is_id_of(id@, bytes),
{
    let drawn = random_bytes();
    let r = drawn_id(drawn);
    assert(drawn matches Some(bytes) ==> bytes@.len() == 16);
    r
}

/// The id made of the bytes that were drawn, and none where none could be drawn.
pub fn drawn_id(drawn: Option<[u8; 16]>) -> (r: Option<String>)
    ensures
        match drawn {
            Some(bytes) => r matches Some(id) && is_id_of(id@, bytes@),
            None => r is None,
        },
{
    match drawn {
        Some(bytes) => Some(id_from_bytes(&bytes)),
        None => None,
    }
}

/// The identity of a work, derived from the master secret: the same secret and id
/// always give the same one.
pub fn work_identity(master_signing_secret: &str, lid: &str) -> (r: Identity)
    ensures
        r.seed@ == text_code(master_signing_secret@, lid@),
{
    Identity { seed: hmac32(master_signing_secret, lid) }
}

/// The token that lets its bearer add versions to a work.
pub fn edit_token(edit_secret: &str, lid: &str) -> (r: String)
    ensures
        r@ == edit_token_text(edit_secret@, lid@),
        r@.len() == 64,
{
    let code = hmac32(edit_secret, lid);
    hex_encode(code.as_slice())
}

/// Or-ing in the exclusive or of two bytes leaves zero only when it was zero and the
/// bytes are equal.
proof fn lemma_difference(diff: u8, a: u8, b: u8)
    ensures
        (diff | (a ^ b)) == 0 <==> diff == 0 && a == b,
{
    assert((diff | (a ^ b)) == 0 <==> diff == 0 && a == b) by (bit_vector);
}

/// Whether `presented` is the edit token of the work. Every byte is compared, whatever
/// the earlier ones were.
pub fn verify_edit_token(edit_secret: &str, lid: &str, presented: &str) -> (r: bool)
    ensures
        r == (presented@ == edit_token_text(edit_secret@, lid@)),
{
    let expected = edit_token(edit_secret, lid);
    let x = expected.as_str().as_bytes();
    let y = presented.as_bytes();
    proof {
        lemma_same_bytes(expected@, presented@);
    }
    if x.len() != y.len() {
        return false;
    }
    let mut diff: u8 = 0u8;
    let mut i: usize = 0;
    while i < x.len()
        invariant
            i <= x.len(),
            x@.len() == y@.len(),
            diff == 0 <==> (forall|j: int| 0 <= j < i ==> x@[j] == y@[j]),
        decreases x.len() - i,
    {
        proof {
            lemma_difference(diff, x@[i as int], y@[i as int]);
        }
        diff = diff | (x[i] ^ y[i]);
        i = i + 1;
    }
    proof {
        if diff == 0 {
            assert(x@ =~= y@);
        }
    }
    diff == 0
}

/// The token of a work is the code of its id under the secret: it can be read from the
/// token, so two works have the same token only if their codes are the same.
pub proof fn law_token_is_the_code(edit_secret: Seq<char>, lid: Seq<char>)
    ensures
        edit_token_text(edit_secret, lid).len() == 2 * hmac_sha256_code(
            encode_utf8(edit_secret),
            encode_utf8(lid),
        ).len(),
        hex_bytes(edit_token_text(edit_secret, lid)) == hmac_sha256_code(
            encode_utf8(edit_secret),
            encode_utf8(lid),
        ),
        text_code(edit_secret, lid) == hmac_sha256_code(
            encode_utf8(edit_secret),
            encode_utf8(lid),
        ),
        edit_token_text(edit_secret, lid) == hex_text(text_code(edit_secret, lid)),
{
    law_hex_round_trip(hmac_sha256_code(encode_utf8(edit_secret), encode_utf8(lid)));
}

/// An id is the base58 text of its bytes, and two ids are the same only if their bytes are.
pub proof fn law_ids_are_told_apart(a: Seq<char>, x: Seq<u8>, b: Seq<char>, y: Seq<u8>)
    requires
        is_id_of(a, x),
        is_id_of(b, y),
    ensures
        a == base58_text(x),
        a == b <==> x == y,
        16 <= a.len() <= 22,
        forall|i: int| 0 <= i < a.len() ==> #[trigger] crate::base58::is_base58_digit(a[i]),
{
    law_base58_round_trip(x);
    law_base58_round_trip(y);
}

} // verus!
