//! Digests and keyed digests, computed by outside crates.
use hmac::Mac;
use sha2::Digest;
use vstd::prelude::*;

verus! {

/// What SHA-256 gives on `data`.
pub uninterp spec fn sha256_of(data: Seq<u8>) -> Seq<u8>;

/// What RIPEMD-160 gives on `data`.
pub uninterp spec fn ripemd160_of(data: Seq<u8>) -> Seq<u8>;

/// What HMAC-SHA512 keyed by `key` gives on `msg`.
pub uninterp spec fn hmac_sha512_of(key: Seq<u8>, msg: Seq<u8>) -> Seq<u8>;

/// Relies on sha2's `Sha256::digest`: a 32-byte digest that depends on `data` alone.
#[verifier::external_body]
pub fn sha256(data: &[u8]) -> (r: Vec<u8>)
    ensures
        r@ == sha256_of(data@),
        r@.len() == 32,
{
    sha2::Sha256::digest(data).to_vec()
}

/// Relies on bitcoin_hashes' `ripemd160::Hash::hash`: a 20-byte digest that depends on `data` alone.
#[verifier::external_body]
pub fn ripemd160(data: &[u8]) -> (r: Vec<u8>)
    ensures
        r@ == ripemd160_of(data@),
        r@.len() == 20,
{
    bitcoin_hashes::ripemd160::Hash::hash(data).to_byte_array().to_vec()
}

/// Relies on hmac's `Hmac<Sha512>` (`new_from_slice`, `update`, `finalize`): a 64-byte
/// code that depends on the key and the message alone. HMAC takes a key of any length.
#[verifier::external_body]
pub fn hmac_sha512(key: &[u8], msg: &[u8]) -> (r: Vec<u8>)
    ensures
        r@ == hmac_sha512_of(key@, msg@),
        r@.len() == 64,
{
    let mut mac = <hmac::Hmac<sha2::Sha512> as hmac::KeyInit>::new_from_slice(key).unwrap();
    mac.update(msg);
    mac.finalize().into_bytes().to_vec()
}

} // verus!
