//! Messages as requested by a user: a kind and text fields, checked and
//! turned into a [`NewBork`].
use crate::address::{base58check_decode, base58check_of, version_byte, Network};
use crate::protocol::{BorkType, NewBork, ProtocolError, PROFILE_CONTENT_MAX, REFERENCE_MAX, TXID_LEN};
use vstd::prelude::*;
use vstd::utf8::encode_utf8;

verus! {

/// A message request: its kind, its text, and a reference id in hex.
#[derive(Debug)]
pub struct NewBorkData {
    pub bork_type: BorkType,
    pub content: Option<String>,
    pub reference_id: Option<String>,
}

/// The value of a hex digit of either case.
pub open spec fn hex_value(c: char) -> Option<u8> {
    if '0' <= c && c <= '9' {
        Some((c as u32 - '0' as u32) as u8)
    } else if 'a' <= c && c <= 'f' {
        Some((c as u32 - 'a' as u32 + 10) as u8)
    } else if 'A' <= c && c <= 'F' {
        Some((c as u32 - 'A' as u32 + 10) as u8)
    } else {
        None
    }
}

/// The bytes that hex text `s` spells: two digits per byte, high digit first;
/// none for an odd length or a character that is not a hex digit.
pub open spec fn hex_decoded(s: Seq<char>) -> Option<Seq<u8>> {
    if s.len() % 2 == 1 || exists|i: int| 0 <= i < s.len() && hex_value(#[trigger] s[i]) is None {
        None
    } else {
        Some(
            Seq::new(
                s.len() / 2,
                |i: int| (16 * hex_value(s[2 * i])->0 + hex_value(s[2 * i + 1])->0) as u8,
            ),
        )
    }
}

/// Relies on hex's `decode`: two digits of either case per byte; it fails on an
/// odd length or on a character that is not a hex digit.
#[verifier::external_body]
fn hex_decode(s: &str) -> (r: Option<Vec<u8>>)
    ensures
        match r {
            Some(d) => hex_decoded(s@) == Some(d@),
            None => hex_decoded(s@) is None,
        },
{
    hex::decode(s).ok()
}

/// Whether `v` is the version byte of a pay-to-public-key-hash address on some network.
pub open spec fn is_p2pkh_version(v: u8) -> bool {
    v == version_byte(Network::Dogecoin) || v == version_byte(Network::Litecoin) || v
        == version_byte(Network::Bitcoin)
}

/// The outcome of reading a reference id in hex, of at most 32 bytes.
pub open spec fn reference_of(r: Option<String>) -> Result<Seq<u8>, ProtocolError> {
    match r {
        None => Err(ProtocolError::InvalidMessage),
        Some(s) => match hex_decoded(s@) {
            None => Err(ProtocolError::InvalidMessage),
            Some(d) => if d.len() > REFERENCE_MAX {
                Err(ProtocolError::ReferenceTooLong)
            } else {
                Ok(d)
            },
        },
    }
}

/// The outcome of reading the address hash of a follow or a block: Base58Check
/// text of a pay-to-public-key-hash version byte and the hash.
pub open spec fn followed_of(c: Option<String>) -> Result<Seq<u8>, ProtocolError> {
    match c {
        None => Err(ProtocolError::InvalidMessage),
        Some(s) => if exists|d: Seq<u8>|
            d.len() > 0 && base58check_of(d) == s@ && is_p2pkh_version(d[0]) {
            Ok((choose|d: Seq<u8>| base58check_of(d) == s@).drop_first())
        } else {
            Err(ProtocolError::InvalidAddress)
        },
    }
}

fn read_reference(r: &Option<String>) -> (res: Result<Vec<u8>, ProtocolError>)
    ensures
        match res {
            Ok(d) => reference_of(*r) == Ok::<Seq<u8>, ProtocolError>(d@),
            Err(e) => reference_of(*r) == Err::<Seq<u8>, ProtocolError>(e),
        },
{
    match r {
        None => Err(ProtocolError::InvalidMessage),
        Some(s) => match hex_decode(s.as_str()) {
            None => Err(ProtocolError::InvalidMessage),
            Some(d) => {
                if d.len() > REFERENCE_MAX {
                    Err(ProtocolError::ReferenceTooLong)
                } else {
                    Ok(d)
                }
            },
        },
    }
}

fn read_followed(c: &Option<String>) -> (res: Result<Vec<u8>, ProtocolError>)
    ensures
        match res {
            Ok(d) => followed_of(*c) == Ok::<Seq<u8>, ProtocolError>(d@),
            Err(e) => followed_of(*c) == Err::<Seq<u8>, ProtocolError>(e),
        },
{
    match c {
        None => Err(ProtocolError::InvalidMessage),
        Some(s) => match base58check_decode(s.as_str()) {
            None => Err(ProtocolError::InvalidAddress),
            Some(d) => {
                proof {
                    let e = choose|e: Seq<u8>| base58check_of(e) == s@;
                    assert(base58check_of(d@) == s@);
                    assert(e == d@);
                }
                if d.len() == 0 {
                    return Err(ProtocolError::InvalidAddress);
                }
                let v = d[0];
                if !(v == 0x1E || v == 0x30 || v == 0x00) {
                    return Err(ProtocolError::InvalidAddress);
                }
                let rest = vstd::slice::slice_to_vec(vstd::slice::slice_subrange(d.as_slice(), 1, d.len()));
                proof {
                    assert(rest@ =~= d@.drop_first());
                }
                Ok(rest)
            },
        },
    }
}

fn read_profile(c: Option<String>) -> (res: Result<String, ProtocolError>)
    ensures
        match res {
            Ok(s) => c == Some(s) && encode_utf8(s@).len() <= PROFILE_CONTENT_MAX,
            Err(e) => (c is None && e == ProtocolError::InvalidMessage) || (c matches Some(s)
                && encode_utf8(s@).len() > PROFILE_CONTENT_MAX && e == ProtocolError::ContentTooLong),
        },
{
    match c {
        None => Err(ProtocolError::InvalidMessage),
        Some(s) => {
            if s.as_str().as_bytes().len() > PROFILE_CONTENT_MAX {
                Err(ProtocolError::ContentTooLong)
            } else {
                Ok(s)
            }
        },
    }
}

fn read_content(c: Option<String>) -> (res: Result<String, ProtocolError>)
    ensures
        match res {
            Ok(s) => c == Some(s),
            Err(e) => c is None && e == ProtocolError::InvalidMessage,
        },
{
    match c {
        None => Err(ProtocolError::InvalidMessage),
        Some(s) => Ok(s),
    }
}

/// Whether `b` is the message that request `data` asks for.
pub open spec fn requested(data: NewBorkData, b: NewBork) -> bool {
    match (data.bork_type, b) {
        (BorkType::SetName, NewBork::SetName { content }) => data.content == Some(content)
            && encode_utf8(content@).len() <= PROFILE_CONTENT_MAX,
        (BorkType::SetBio, NewBork::SetBio { content }) => data.content == Some(content)
            && encode_utf8(content@).len() <= PROFILE_CONTENT_MAX,
        (BorkType::SetAvatar, NewBork::SetAvatar { content }) => data.content == Some(
            content,
        ) && encode_utf8(content@).len() <= PROFILE_CONTENT_MAX,
        (BorkType::Bork, NewBork::Bork { content }) => data.content == Some(content),
        (BorkType::Comment, NewBork::Comment { reference_id, content }) => reference_of(
            data.reference_id,
        ) == Ok::<Seq<u8>, ProtocolError>(reference_id@) && data.content == Some(content),
        (BorkType::Rebork, NewBork::Rebork { reference_id, content }) => reference_of(
            data.reference_id,
        ) == Ok::<Seq<u8>, ProtocolError>(reference_id@) && data.content == Some(content),
        (BorkType::Like, NewBork::Like { reference_id }) => reference_of(data.reference_id)
            == Ok::<Seq<u8>, ProtocolError>(reference_id@),
        (BorkType::Delete, NewBork::Delete { reference_id }) => reference_of(
            data.reference_id,
        ) == Ok::<Seq<u8>, ProtocolError>(reference_id@),
        (BorkType::Flag, NewBork::Flag { txid }) => data.reference_id matches Some(s)
            && hex_decoded(s@) == Some(txid@) && txid@.len() == TXID_LEN,
        (BorkType::Follow, NewBork::Follow { address }) => followed_of(data.content)
            == Ok::<Seq<u8>, ProtocolError>(address@),
        (BorkType::Block, NewBork::Block { address }) => followed_of(data.content)
            == Ok::<Seq<u8>, ProtocolError>(address@),
        _ => false,
    }
}

impl NewBork {
    /// The message a request asks for. An extension cannot be asked for; a
    /// profile field needs content of at most 77 bytes; a post needs content; a
    /// reply or a repost needs a hex reference of at most 32 bytes and content;
    /// a like or a deletion such a reference; a flag a hex transaction id of 32
    /// bytes; a follow or a block a pay-to-public-key-hash address as content.
    pub fn try_from(data: NewBorkData) -> (r: Result<NewBork, ProtocolError>)
        ensures
            match r {
                Ok(b) => requested(data, b),
                Err(_) => forall|b: NewBork| !requested(data, b),
            },
            match r {
                Ok(_) => true,
                Err(e) => match data.bork_type {
                    BorkType::Extension => e == ProtocolError::InvalidMessage,
                    BorkType::SetName | BorkType::SetBio | BorkType::SetAvatar => (data.content is None
                        && e == ProtocolError::InvalidMessage) || (data.content matches Some(c)
                        && encode_utf8(c@).len() > PROFILE_CONTENT_MAX && e
                        == ProtocolError::ContentTooLong),
                    BorkType::Bork => data.content is None && e == ProtocolError::InvalidMessage,
                    BorkType::Comment | BorkType::Rebork => reference_of(data.reference_id) == Err::<
                        Seq<u8>,
                        ProtocolError,
                    >(e) || (reference_of(data.reference_id) is Ok && data.content is None && e
                        == ProtocolError::InvalidMessage),
                    BorkType::Like | BorkType::Delete => reference_of(data.reference_id) == Err::<
                        Seq<u8>,
                        ProtocolError,
                    >(e),
                    BorkType::Flag => match data.reference_id {
                        None => e == ProtocolError::InvalidMessage,
                        Some(s) => match hex_decoded(s@) {
                            None => e == ProtocolError::InvalidMessage,
                            Some(d) => d.len() != TXID_LEN && e == ProtocolError::InvalidTxidLength,
                        },
                    },
                    BorkType::Follow | BorkType::Block => followed_of(data.content) == Err::<
                        Seq<u8>,
                        ProtocolError,
                    >(e),
                },
            },
    {
        match data.bork_type {
            BorkType::Extension => Err(ProtocolError::InvalidMessage),
            BorkType::SetName => Ok(NewBork::SetName { content: read_profile(data.content)? }),
            BorkType::SetBio => Ok(NewBork::SetBio { content: read_profile(data.content)? }),
            BorkType::SetAvatar => Ok(NewBork::SetAvatar { content: read_profile(data.content)? }),
            BorkType::Bork => Ok(NewBork::Bork { content: read_content(data.content)? }),
            BorkType::Comment => {
                let reference_id = read_reference(&data.reference_id)?;
                Ok(NewBork::Comment { reference_id, content: read_content(data.content)? })
            },
            BorkType::Rebork => {
                let reference_id = read_reference(&data.reference_id)?;
                Ok(NewBork::Rebork { reference_id, content: read_content(data.content)? })
            },
            BorkType::Like => Ok(NewBork::Like { reference_id: read_reference(&data.reference_id)? }),
            BorkType::Delete => Ok(NewBork::Delete { reference_id: read_reference(&data.reference_id)? }),
            BorkType::Flag => {
                let txid = match &data.reference_id {
                    None => {
                        return Err(ProtocolError::InvalidMessage);
                    },
                    Some(s) => match hex_decode(s.as_str()) {
                        None => {
                            return Err(ProtocolError::InvalidMessage);
                        },
                        Some(d) => d,
                    },
                };
                if txid.len() != TXID_LEN {
                    return Err(ProtocolError::InvalidTxidLength);
                }
                Ok(NewBork::Flag { txid })
            },
            BorkType::Follow => Ok(NewBork::Follow { address: read_followed(&data.content)? }),
            BorkType::Block => Ok(NewBork::Block { address: read_followed(&data.content)? }),
        }
    }
}

} // verus!
