//! secp256k1 secret scalars and public keys, and the seed stretching of a mnemonic.
use vstd::arithmetic::power2::pow2;
use vstd::prelude::*;

verus! {

/// The order of the secp256k1 group.
pub open spec fn curve_order() -> nat {
    0xFFFFFFFFFFFFFFFFFFFFFFFFFFFFFFFEBAAEDCE6AF48A03BBFD25E8CD0364141nat
}

/// The number whose big-endian bytes are `s`.
pub open spec fn be_value(s: Seq<u8>) -> nat
    decreases s.len(),
{
    if s.len() == 0 {
        0
    } else {
        256 * be_value(s.drop_last()) + s.last() as nat
    }
}

/// The 32 big-endian bytes of `v`, below 2^256.
pub open spec fn be32_of(v: nat) -> Seq<u8> {
    Seq::new(32, |k: int| ((v / pow2((8 * (31 - k)) as nat)) % 256) as u8)
}

/// Whether `s` is a secret key: 32 bytes naming a scalar in 1..n-1.
pub open spec fn valid_secret(s: Seq<u8>) -> bool {
    s.len() == 32 && 0 < be_value(s) < curve_order()
}

/// The compressed public key (33 bytes) of secret `s`.
pub uninterp spec fn compressed_pubkey_of(secret: Seq<u8>) -> Seq<u8>;

/// The uncompressed public key (65 bytes) of secret `s`.
pub uninterp spec fn uncompressed_pubkey_of(secret: Seq<u8>) -> Seq<u8>;

/// What PBKDF2 with HMAC-SHA512 gives, 64 bytes long.
pub uninterp spec fn pbkdf2_sha512_of(password: Seq<u8>, salt: Seq<u8>, rounds: u32) -> Seq<u8>;

/// Relies on libsecp256k1's `SecretKey::parse_slice`: it accepts 32 bytes whose
/// big-endian value is neither zero nor at least the group order.
#[verifier::external_body]
pub fn secret_is_valid(s: &[u8]) -> (r: bool)
    ensures
        r == valid_secret(s@),
{
    libsecp256k1::SecretKey::parse_slice(s).is_ok()
}

/// The sum of two scalars modulo the group order.
pub open spec fn scalar_sum(a: Seq<u8>, b: Seq<u8>) -> nat {
    (be_value(a) + be_value(b)) % curve_order()
}

/// Whether two secret keys add up to a secret key.
pub open spec fn tweak_accepted(a: Seq<u8>, b: Seq<u8>) -> bool {
    valid_secret(a) && valid_secret(b) && scalar_sum(a, b) != 0
}

/// Relies on libsecp256k1's `SecretKey::tweak_add_assign` (with `parse_slice` and
/// `serialize` to convert): the sum of the two scalars modulo the group order,
/// refused when a scalar is not a secret key or the sum is zero; a sum that is
/// kept is reduced, so it is a secret key itself.
#[verifier::external_body]
pub fn scalar_add(secret: &[u8], tweak: &[u8]) -> (r: Option<Vec<u8>>)
    ensures
        r is Some <==> tweak_accepted(secret@, tweak@),
        r matches Some(k) ==> k@ == be32_of(scalar_sum(secret@, tweak@)),
        r matches Some(k) ==> valid_secret(k@),
{
    let mut k = libsecp256k1::SecretKey::parse_slice(secret).ok()?;
    let t = libsecp256k1::SecretKey::parse_slice(tweak).ok()?;
    k.tweak_add_assign(&t).ok()?;
    Some(k.serialize().to_vec())
}

/// Relies on libsecp256k1's `PublicKey::from_secret_key` and `serialize_compressed`:
/// the 33-byte compressed point of a secret key, which depends on the key alone.
#[verifier::external_body]
pub fn compressed_public_key(secret: &[u8]) -> (r: Vec<u8>)
    requires
        valid_secret(secret@),
    ensures
        r@ == compressed_pubkey_of(secret@),
        r@.len() == 33,
{
    let k = libsecp256k1::SecretKey::parse_slice(secret).unwrap();
    libsecp256k1::PublicKey::from_secret_key(&k).serialize_compressed().to_vec()
}

/// Relies on libsecp256k1's `PublicKey::from_secret_key` and `serialize`: the
/// 65-byte uncompressed point of a secret key, which depends on the key alone.
#[verifier::external_body]
pub fn uncompressed_public_key(secret: &[u8]) -> (r: Vec<u8>)
    requires
        valid_secret(secret@),
    ensures
        r@ == uncompressed_pubkey_of(secret@),
        r@.len() == 65,
{
    let k = libsecp256k1::SecretKey::parse_slice(secret).unwrap();
    libsecp256k1::PublicKey::from_secret_key(&k).serialize().to_vec()
}

/// Relies on pbkdf2's `pbkdf2_hmac::<Sha512>`: 64 bytes that depend on the
/// password, the salt and the round count alone.
#[verifier::external_body]
pub fn pbkdf2_sha512(password: &[u8], salt: &[u8], rounds: u32) -> (r: Vec<u8>)
    requires
        rounds > 0,
    ensures
        r@ == pbkdf2_sha512_of(password@, salt@, rounds),
        r@.len() == 64,
{
    let mut out = vec![0u8; 64];
    pbkdf2::pbkdf2_hmac::<sha2::Sha512>(password, salt, rounds, &mut out);
    out
}

} // verus!
