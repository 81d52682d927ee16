//! Signatures, hashes and base64, as the crates `sodiumoxide`, `sha2` and `base64` compute them.
//!
//! What these crates return takes pages to state, so each result has a name here: an
//! uninterpreted function of the bytes that go in. The wrappers below say that the calls return
//! what the names stand for, and add the few facts that the rest of the library rests on.

use sha2::Digest;
use vstd::prelude::*;

verus! {

/// Number of bytes in an Ed25519 public key.
pub const PUBLIC_KEY_BYTES: usize = 32;

/// Number of bytes in an Ed25519 secret key.
pub const SECRET_KEY_BYTES: usize = 64;

/// The signed message that `sodiumoxide::crypto::sign::sign` makes of `message`.
pub uninterp spec fn signed(message: Seq<u8>, secret_key: Seq<u8>) -> Seq<u8>;

/// The message that `sodiumoxide::crypto::sign::verify` finds in `signed_message`, if the
/// signature in it is that of `public_key`.
pub uninterp spec fn opened(signed_message: Seq<u8>, public_key: Seq<u8>) -> Option<Seq<u8>>;

/// The SHA-256 digest of `data`, as `sha2::Sha256::digest` computes it.
pub uninterp spec fn sha256(data: Seq<u8>) -> Seq<u8>;

/// The text that `base64::encode` makes of `bytes`.
pub uninterp spec fn base64_text(bytes: Seq<u8>) -> Seq<char>;

/// The bytes that `base64::decode` reads from `text`, if it is well formed.
pub uninterp spec fn base64_bytes(text: Seq<char>) -> Option<Seq<u8>>;

/// The view of bytes that may be missing.
pub open spec fn bytes_view(bytes: Option<Vec<u8>>) -> Option<Seq<u8>> {
    match bytes {
        Some(b) => Some(b@),
        None => None,
    }
}

/// The signature starts with the encoding of the curve's neutral element. Signing yields it only
/// where the secret scalar drawn from the message is zero, and the verifier turns it away.
pub open spec fn commits_to_neutral(signed_message: Seq<u8>) -> bool {
    &&& signed_message.len() >= 32
    &&& signed_message[0] == 1
    &&& forall|i: int| 1 <= i < 32 ==> #[trigger] signed_message[i] == 0
}

/// The two keys belong together: what one signs, the other opens.
pub open spec fn is_key_pair(public_key: Seq<u8>, secret_key: Seq<u8>) -> bool {
    forall|message: Seq<u8>|
        {
            ||| commits_to_neutral(signed(message, secret_key))
            ||| opened(#[trigger] signed(message, secret_key), public_key) == Some(message)
        }
}

/// The alphabet of base64, with the padding character.
pub open spec fn is_base64_char(c: char) -> bool {
    ||| 'A' <= c <= 'Z'
    ||| 'a' <= c <= 'z'
    ||| '0' <= c <= '9'
    ||| c == '+' || c == '/' || c == '='
}

/// `sodiumoxide::crypto::sign::sign`. Its result is named `signed`; nothing else is claimed.
#[verifier::external_body]
pub(crate) fn sign_message(message: &[u8], secret_key: &[u8; 64]) -> (signed_message: Vec<u8>)
    requires
        message@.len() + 64 <= isize::MAX,
    ensures
        signed_message@ == signed(message@, secret_key@),
{
    sodiumoxide::crypto::sign::sign(message, &sodiumoxide::crypto::sign::SecretKey(*secret_key))
}

/// `sodiumoxide::crypto::sign::verify`. Its result, without the empty error value, is named
/// `opened`; nothing else is claimed.
#[verifier::external_body]
pub(crate) fn open_signed(signed_message: &[u8], public_key: &[u8]) -> (message: Option<Vec<u8>>)
    requires
        public_key@.len() == PUBLIC_KEY_BYTES,
    ensures
        bytes_view(message) == opened(signed_message@, public_key@),
{
    let key = sodiumoxide::crypto::sign::PublicKey::from_slice(public_key).unwrap();
    sodiumoxide::crypto::sign::verify(signed_message, &key).ok()
}

/// `sodiumoxide::crypto::sign::gen_keypair`. Whatever keys it draws: they belong together, and
/// the secret key ends with the public key.
#[verifier::external_body]
pub fn generate_keypair() -> (keys: ([u8; 32], [u8; 64]))
    ensures
        is_key_pair(keys.0@, keys.1@),
        keys.1@.subrange(32, 64) == keys.0@,
{
    let (public_key, secret_key) = sodiumoxide::crypto::sign::gen_keypair();
    (public_key.0, secret_key.0)
}

/// `sha2::Sha256::digest`. Its result is named `sha256`, and is 32 bytes long.
#[verifier::external_body]
pub(crate) fn sha256_digest(data: &[u8]) -> (digest: Vec<u8>)
    ensures
        digest@ == sha256(data@),
        digest@.len() == 32,
{
    sha2::Sha256::digest(data).to_vec()
}

/// `base64::encode`. Its result is named `base64_text`; it holds four characters for every three
/// bytes that are begun, all of the base64 alphabet, and decoding it gives the bytes back.
#[verifier::external_body]
pub(crate) fn base64_encode(bytes: &[u8]) -> (text: String)
    requires
        bytes@.len() <= 0xffff,
    ensures
        text@ == base64_text(bytes@),
        text@.len() == (bytes@.len() + 2) / 3 * 4,
        forall|i: int| 0 <= i < text@.len() ==> is_base64_char(#[trigger] text@[i]),
        base64_bytes(text@) == Some(bytes@),
{
    base64::encode(bytes)
}

/// `base64::decode`. Its result, without the reason for a refusal, is named `base64_bytes`;
/// nothing else is claimed.
#[verifier::external_body]
pub(crate) fn base64_decode(text: &str) -> (bytes: Option<Vec<u8>>)
    ensures
        bytes_view(bytes) == base64_bytes(text@),
{
    base64::decode(text).ok()
}

/// The view of bytes that may be missing is that of the bytes.
pub proof fn law_view_of_bytes(bytes: Vec<u8>)
    ensures
        bytes_view(Some(bytes)) == Some(bytes@),
        bytes_view(None) is None,
{
}

} // verus!
