//! Network addresses and pay-to-public-key-hash scripts.
use vstd::prelude::*;

verus! {

/// The chains a wallet can use.
#[derive(Debug, Clone, Copy, PartialEq, Eq, Structural)]
pub enum Network {
    Dogecoin,
    Litecoin,
    Bitcoin,
}

/// Why an address or a script was refused.
#[derive(Debug, Clone, Copy, PartialEq, Eq, Structural)]
pub enum AddressError {
    /// Not Base58Check, or not a version byte and a 20-byte hash.
    InvalidAddress,
    /// Not the pay-to-public-key-hash template.
    UnsupportedScript,
}

/// Length of a public-key hash.
pub const HASH_LEN: usize = 20;

pub const OP_DUP: u8 = 0x76;

pub const OP_HASH160: u8 = 0xA9;

pub const OP_EQUALVERIFY: u8 = 0x88;

pub const OP_CHECKSIG: u8 = 0xAC;

pub const OP_RETURN: u8 = 0x6A;

pub const OP_PUSHDATA1: u8 = 0x4C;

pub const OP_PUSHDATA2: u8 = 0x4D;

pub const OP_PUSHDATA4: u8 = 0x4E;

/// The version byte of a pay-to-public-key-hash address on each network.
pub open spec fn version_byte(n: Network) -> u8 {
    match n {
        Network::Dogecoin => 0x1E,
        Network::Litecoin => 0x30,
        Network::Bitcoin => 0x00,
    }
}

/// The Base58Check text of `data`: base 58 digits of `data` followed by the
/// first four bytes of its double SHA-256.
pub uninterp spec fn base58check_of(data: Seq<u8>) -> Seq<char>;

/// The address of public-key hash `h` on network `n`.
pub open spec fn address_of(h: Seq<u8>, n: Network) -> Seq<char> {
    base58check_of(seq![version_byte(n)] + h)
}

/// Whether `addr` is the Base58Check text of version byte `v` followed by the
/// 20-byte hash `h`, and of no other bytes.
pub open spec fn encodes(addr: Seq<char>, v: u8, h: Seq<u8>) -> bool {
    &&& h.len() == HASH_LEN
    &&& base58check_of(seq![v] + h) == addr
    &&& forall|e: Seq<u8>| base58check_of(e) == addr ==> e == seq![v] + h
}

/// Whether `addr` is the text of a version byte and a 20-byte hash.
pub open spec fn address_ok(addr: Seq<char>) -> bool {
    exists|v: u8, h: Seq<u8>| encodes(addr, v, h)
}

/// The pay-to-public-key-hash script of hash `h`.
pub open spec fn p2pkh_script(h: Seq<u8>) -> Seq<u8> {
    seq![OP_DUP, OP_HASH160, h.len() as u8] + h + seq![OP_EQUALVERIFY, OP_CHECKSIG]
}

/// Whether `s` is the pay-to-public-key-hash template around a 20-byte hash.
pub open spec fn is_p2pkh_spec(s: Seq<u8>) -> bool {
    s.len() == 25 && s[0] == OP_DUP && s[1] == OP_HASH160 && s[2] == 20 && s[23] == OP_EQUALVERIFY
        && s[24] == OP_CHECKSIG
}

/// Relies on base58ck's `encode_check` (re-exported by bitcoin): the text depends on
/// `data` alone.
#[verifier::external_body]
fn base58check_encode(data: &[u8]) -> (r: String)
    ensures
        r@ == base58check_of(data@),
{
    bitcoin::base58::encode_check(data)
}

/// Relies on base58ck's `decode_check` (re-exported by bitcoin): it returns the bytes
/// whose Base58Check text is `s` (one string of bytes has a given text), and fails
/// when no bytes have that text.
#[verifier::external_body]
pub(crate) fn base58check_decode(s: &str) -> (r: Option<Vec<u8>>)
    ensures
        r matches Some(d) ==> base58check_of(d@) == s@,
        r matches Some(d) ==> forall|e: Seq<u8>| base58check_of(e) == s@ ==> e == d@,
        r is None ==> forall|d: Seq<u8>| base58check_of(d) != s@,
{
    bitcoin::base58::decode_check(s).ok()
}

/// The version byte of a network.
pub fn version(n: Network) -> (r: u8)
    ensures
        r == version_byte(n),
{
    match n {
        Network::Dogecoin => 0x1E,
        Network::Litecoin => 0x30,
        Network::Bitcoin => 0x00,
    }
}

/// The address of a public-key hash on a network.
pub fn pubkey_hash_to_addr(hash: &[u8], network: Network) -> (r: String)
    ensures
        r@ == address_of(hash@, network),
{
    let mut data: Vec<u8> = Vec::new();
    data.push(version(network));
    let mut i: usize = 0;
    while i < hash.len()
        invariant
            i <= hash@.len(),
            data@ == seq![version_byte(network)] + hash@.subrange(0, i as int),
        decreases hash@.len() - i,
    {
        data.push(hash[i]);
        i = i + 1;
        assert(data@ =~= seq![version_byte(network)] + hash@.subrange(0, i as int));
    }
    assert(hash@.subrange(0, hash@.len() as int) =~= hash@);
    base58check_encode(data.as_slice())
}

/// The pay-to-public-key-hash script of a public-key hash.
pub fn hash_to_script(hash: &[u8]) -> (r: Vec<u8>)
    requires
        hash@.len() == HASH_LEN,
    ensures
        r@ == p2pkh_script(hash@),
        is_p2pkh_spec(r@),
{
    let mut s: Vec<u8> = Vec::new();
    s.push(OP_DUP);
    s.push(OP_HASH160);
    s.push(HASH_LEN as u8);
    let mut i: usize = 0;
    while i < hash.len()
        invariant
            i <= hash@.len() == HASH_LEN,
            s@ == seq![OP_DUP, OP_HASH160, HASH_LEN as u8] + hash@.subrange(0, i as int),
        decreases hash@.len() - i,
    {
        s.push(hash[i]);
        i = i + 1;
        assert(s@ =~= seq![OP_DUP, OP_HASH160, HASH_LEN as u8] + hash@.subrange(0, i as int));
    }
    s.push(OP_EQUALVERIFY);
    s.push(OP_CHECKSIG);
    assert(s@ =~= p2pkh_script(hash@));
    s
}

/// The script that pays an address: the hash it carries in the
/// pay-to-public-key-hash template.
pub fn addr_to_script(addr: &str) -> (r: Result<Vec<u8>, AddressError>)
    ensures
        match r {
            Ok(s) => exists|v: u8, h: Seq<u8>| encodes(addr@, v, h) && s@ == p2pkh_script(h),
            Err(e) => e == AddressError::InvalidAddress && !address_ok(addr@) && forall|v: u8, h: Seq<u8>|
                h.len() == HASH_LEN ==> base58check_of(seq![v] + h) != addr@,
        },
{
    match base58check_decode(addr) {
        None => Err(AddressError::InvalidAddress),
        Some(data) => {
            if data.len() != HASH_LEN + 1 {
                proof {
                    assert forall|v: u8, h: Seq<u8>| h.len() == HASH_LEN implies base58check_of(
                        seq![v] + h,
                    ) != addr@ by {
                        if base58check_of(seq![v] + h) == addr@ {
                            assert(seq![v] + h == data@);
                        }
                    }
                }
                return Err(AddressError::InvalidAddress);
            }
            let hash = vstd::slice::slice_subrange(data.as_slice(), 1, HASH_LEN + 1);
            proof {
                assert(data@ =~= seq![data@[0]] + hash@);
                assert(encodes(addr@, data@[0], hash@));
            }
            Ok(hash_to_script(hash))
        },
    }
}

/// Whether a script is the pay-to-public-key-hash template.
pub fn is_p2pkh(s: &[u8]) -> (r: bool)
    ensures
        r == is_p2pkh_spec(s@),
{
    s.len() == 25 && s[0] == OP_DUP && s[1] == OP_HASH160 && s[2] == 20 && s[23] == OP_EQUALVERIFY
        && s[24] == OP_CHECKSIG
}

/// The address that a pay-to-public-key-hash script pays, on a network.
pub fn script_to_addr(script: &[u8], network: Network) -> (r: Result<String, AddressError>)
    ensures
        match r {
            Ok(a) => is_p2pkh_spec(script@) && a@ == address_of(script@.subrange(3, 23), network),
            Err(e) => !is_p2pkh_spec(script@) && e == AddressError::UnsupportedScript,
        },
{
    if !is_p2pkh(script) {
        return Err(AddressError::UnsupportedScript);
    }
    let hash = vstd::slice::slice_subrange(script, 3, 23);
    Ok(pubkey_hash_to_addr(hash, network))
}

/// On every network, the bytes that an address encodes are the version byte of
/// that network and the hash; different networks encode different bytes for the
/// same hash.
pub proof fn lemma_network_payloads_distinct(h: Seq<u8>, a: Network, b: Network)
    requires
        a != b,
    ensures
        seq![version_byte(a)] + h != seq![version_byte(b)] + h,
{
    assert((seq![version_byte(a)] + h)[0] != (seq![version_byte(b)] + h)[0]);
}

} // verus!
