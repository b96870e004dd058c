//! Trusted boundary to the cryptographic crates the authenticator
//! relies on.  Each digest result is given a name: the same inputs
//! give the same bytes on every machine, and the SCRAM computation in
//! `auth` is stated over these names.

use vstd::prelude::*;
use base64::Engine;
use sha2::Digest;
use hmac::Mac;
use hmac::KeyInit;

verus! {

pub uninterp spec fn sha256_of(data: Seq<u8>) -> Seq<u8>;

pub uninterp spec fn hmac_sha256_of(key: Seq<u8>, msg: Seq<u8>) -> Seq<u8>;

pub uninterp spec fn pbkdf2_sha256_of(pw: Seq<u8>, salt: Seq<u8>, iters: u32) -> Seq<u8>;

pub uninterp spec fn b64_of(data: Seq<u8>) -> Seq<char>;

pub uninterp spec fn b64_decode_of(text: Seq<char>) -> Option<Seq<u8>>;

pub uninterp spec fn b64url_nopad_of(data: Seq<u8>) -> Seq<char>;

/// Relies on sha2's `Sha256::digest`: the SHA-256 digest of the
/// input, 32 bytes, a function of the input alone.
#[verifier::external_body]
pub fn sha256(data: &Vec<u8>) -> (r: Vec<u8>)
    ensures
        r@ == sha256_of(data@),
        r@.len() == 32,
{
    sha2::Sha256::digest(data.as_slice()).to_vec()
}

/// Relies on hmac's `Hmac<Sha256>`: the HMAC-SHA-256 tag of the
/// message under the key, 32 bytes, a function of its inputs alone;
/// HMAC accepts keys of any length.
#[verifier::external_body]
pub fn hmac_sha256(key: &Vec<u8>, msg: &Vec<u8>) -> (r: Vec<u8>)
    ensures
        r@ == hmac_sha256_of(key@, msg@),
        r@.len() == 32,
{
    let mut mac = <hmac::Hmac<sha2::Sha256> as hmac::KeyInit>::new_from_slice(key.as_slice())
        .expect("HMAC accepts keys of any length");
    mac.update(msg.as_slice());
    mac.finalize().into_bytes().to_vec()
}

/// Relies on pbkdf2's `pbkdf2_hmac::<Sha256>`: the 32-byte PBKDF2
/// derivation of the password under the salt and iteration count, a
/// function of its inputs alone.
#[verifier::external_body]
pub fn pbkdf2_sha256(pw: &Vec<u8>, salt: &Vec<u8>, iters: u32) -> (r: Vec<u8>)
    ensures
        r@ == pbkdf2_sha256_of(pw@, salt@, iters),
        r@.len() == 32,
{
    let mut out = [0u8; 32];
    pbkdf2::pbkdf2_hmac::<sha2::Sha256>(pw.as_slice(), salt.as_slice(), iters, &mut out);
    out.to_vec()
}

/// Relies on base64's standard engine: the padded standard-alphabet
/// encoding of the bytes, a function of the input alone.
#[verifier::external_body]
pub fn b64_encode(data: &Vec<u8>) -> (r: String)
    ensures
        r@ == b64_of(data@),
{
    base64::engine::general_purpose::STANDARD.encode(data.as_slice())
}

/// Relies on base64's standard engine: decoding of standard-alphabet
/// text, a function of the input alone; `None` exactly when the
/// engine rejects the text.
#[verifier::external_body]
pub fn b64_decode(text: &str) -> (r: Option<Vec<u8>>)
    ensures
        ({
            match r {
                Some(v) => b64_decode_of(text@) == Some(v@),
                None => b64_decode_of(text@) is None,
            }
        }),
{
    match base64::engine::general_purpose::STANDARD.decode(text.as_bytes()) {
        Ok(v) => Some(v),
        Err(_) => None,
    }
}

/// Relies on base64's URL-safe no-padding engine: the encoding used
/// for handshake tokens, a function of the input alone.
#[verifier::external_body]
pub fn b64url_nopad_encode(data: &Vec<u8>) -> (r: String)
    ensures
        r@ == b64url_nopad_of(data@),
{
    base64::engine::general_purpose::URL_SAFE_NO_PAD.encode(data.as_slice())
}

/// Relies on rand's `random`: sixteen bytes from the thread's
/// generator.  Nothing is promised of their values; callers state
/// what holds of every outcome.
#[verifier::external_body]
pub fn random_nonce_bytes() -> (r: Vec<u8>)
    ensures
        r@.len() == 16,
{
    let bytes: [u8; 16] = rand::random();
    bytes.to_vec()
}

} // verus!
