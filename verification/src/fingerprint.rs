//! Password fingerprinting via HMAC-SHA-256.
//!
//! Duplicate passwords are found by comparing tags, never plaintexts. The key
//! is random and per vault, so the same password has different tags in
//! different vaults.

use vstd::prelude::*;

verus! {

/// The HMAC-SHA-256 tag of a message under a key.
pub uninterp spec fn hmac_sha256(key: Seq<u8>, message: Seq<u8>) -> Seq<u8>;

/// Runs `hmac::Hmac::<sha2::Sha256>` (`new_from_slice`, `update`, `finalize`)
/// over one message. The tag is a function of key and message; a key of any
/// length is accepted.
#[verifier::external_body]
fn hmac_tag(key: &[u8; 32], message: &[u8]) -> (tag: [u8; 32])
    ensures
        tag@ == hmac_sha256(key@, message@),
{
    let mut mac: hmac::Hmac<sha2::Sha256> = hmac::Mac::new_from_slice(key).unwrap();
    hmac::Mac::update(&mut mac, message);
    hmac::Mac::finalize(mac).into_bytes().into()
}

/// Computes the HMAC-SHA-256 of `plaintext` under `key`. The 32 bytes are what
/// the `password_fingerprint` column holds.
pub fn fingerprint(key: &[u8; 32], plaintext: &[u8]) -> (tag: [u8; 32])
    ensures
        tag@ == hmac_sha256(key@, plaintext@),
{
    hmac_tag(key, plaintext)
}

} // verus!
