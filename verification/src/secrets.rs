//! The outside code that handles secrets: authenticated encryption of
//! account fields, wiping of plaintext strings and the random session key.
use rand::distributions::{Alphanumeric, DistString};
use vstd::prelude::*;
use zeroize::Zeroize;

verus! {

/// The error type of `simple_crypt`, carried through opaquely.
#[verifier::external_type_specification]
#[verifier::external_body]
pub struct ExAnyhowError(anyhow::Error);

/// What `simple_crypt::decrypt` gives back for `data` under `password`: the
/// plaintext, or `None` where it fails.
pub uninterp spec fn decryption(data: Seq<u8>, password: Seq<u8>) -> Option<Seq<u8>>;

/// An ASCII letter or digit, the alphabet of `rand`'s `Alphanumeric`.
pub open spec fn is_ascii_alphanumeric(c: char) -> bool {
    ||| ('A' <= c && c <= 'Z')
    ||| ('a' <= c && c <= 'z')
    ||| ('0' <= c && c <= '9')
}

/// Calls `simple_crypt::decrypt`. That function decodes the salt, nonce and
/// ciphertext that `encrypt` wrote, derives the key from `password` and the
/// salt with Argon2 under a fixed configuration and opens the ciphertext with
/// AES-256-GCM-SIV; all of it depends on `data` and `password` alone, so its
/// outcome is named `decryption(data, password)`.
#[verifier::external_body]
pub(crate) fn decrypt(data: &[u8], password: &[u8]) -> (r: Result<Vec<u8>, anyhow::Error>)
    ensures
        r is Ok <==> decryption(data@, password@) is Some,
        r matches Ok(v) ==> decryption(data@, password@) == Some(v@),
{
    simple_crypt::decrypt(data, password)
}

/// Calls `simple_crypt::encrypt`, which draws a fresh random salt and nonce
/// on every call, so the ciphertext itself is not determined by the
/// arguments. What holds of every successful outcome: the encoded record
/// (salt, nonce and ciphertext) is not empty, and `decrypt` under the same
/// password gives `data` back. The source fails in two places only, and
/// there always: Argon2 (default configuration, 32-byte salt and hash)
/// rejects a password longer than 2^32 - 1 bytes, and AES-256-GCM-SIV
/// rejects a plaintext longer than 2^36 bytes; within both limits the call
/// succeeds.
#[verifier::external_body]
pub(crate) fn encrypt(data: &[u8], password: &[u8]) -> (r: Result<Vec<u8>, anyhow::Error>)
    ensures
        r is Ok <==> (password@.len() <= 0xFFFF_FFFF && data@.len() <= 0x10_0000_0000),
        r matches Ok(c) ==> c@.len() > 0,
        r matches Ok(c) ==> decryption(c@, password@) == Some(data@),
{
    simple_crypt::encrypt(data, password)
}

/// Calls `zeroize::Zeroize::zeroize` on a string: its bytes are overwritten
/// with zeros and it is left empty.
#[verifier::external_body]
pub(crate) fn wipe(s: &mut String)
    ensures
        final(s)@ == Seq::<char>::empty(),
{
    s.zeroize();
}

/// Calls `rand`'s `Alphanumeric.sample_string` with the thread-local
/// generator: a random string of `len` ASCII letters and digits. Which ones
/// is left to chance.
#[verifier::external_body]
pub(crate) fn random_alphanumeric(len: usize) -> (s: String)
    ensures
        s@.len() == len,
        forall|i: int| 0 <= i < len ==> is_ascii_alphanumeric(#[trigger] s@[i]),
{
    Alphanumeric.sample_string(&mut rand::thread_rng(), len)
}

} // verus!
