//! Messages read from transactions: a payload with its sender, recipients and tags.
use crate::address::{address_of, pubkey_hash_to_addr, Network};
use crate::protocol::{parse_payload, parse_spec, BorkType, Payload, PayloadModel, ProtocolError};
use crate::tags::{get_tags, tags_of};
use vstd::prelude::*;
use vstd::utf8::{decode_utf8, valid_utf8};

verus! {

/// A message found in a transaction.
#[derive(Debug)]
pub struct BorkTxData {
    /// The time of the block, in seconds since the Unix epoch.
    pub time: u32,
    pub txid: String,
    pub bork_type: BorkType,
    pub nonce: Option<u8>,
    pub position: Option<u8>,
    /// The reference id or transaction id, in lowercase hex.
    pub reference_id: Option<String>,
    /// The text, or for a follow or a block the address it names.
    pub content: Option<String>,
    pub sender_address: String,
    pub recipient_address: Option<String>,
    /// The other output addresses, less the sender, without duplicates.
    pub mentions: Vec<String>,
    pub tags: Vec<String>,
}

/// The lowercase hex digit of `d`, below 16.
pub open spec fn hex_digit(d: u8) -> char {
    if d == 0 {
        '0'
    } else if d == 1 {
        '1'
    } else if d == 2 {
        '2'
    } else if d == 3 {
        '3'
    } else if d == 4 {
        '4'
    } else if d == 5 {
        '5'
    } else if d == 6 {
        '6'
    } else if d == 7 {
        '7'
    } else if d == 8 {
        '8'
    } else if d == 9 {
        '9'
    } else if d == 10 {
        'a'
    } else if d == 11 {
        'b'
    } else if d == 12 {
        'c'
    } else if d == 13 {
        'd'
    } else if d == 14 {
        'e'
    } else {
        'f'
    }
}

/// Lowercase hex of `b`: two digits per byte, high digit first.
pub open spec fn hex_spec(b: Seq<u8>) -> Seq<char> {
    Seq::new(
        2 * b.len(),
        |i: int|
            if i % 2 == 0 {
                hex_digit(b[i / 2] >> 4u8)
            } else {
                hex_digit(b[i / 2] & 15u8)
            },
    )
}

/// Relies on hex's `encode`: two lowercase digits per byte, high digit first.
#[verifier::external_body]
pub(crate) fn to_hex(b: &[u8]) -> (r: String)
    ensures
        r@ == hex_spec(b@),
{
    hex::encode(b)
}

/// Relies on `String::from_utf8`: it fails exactly on bytes that are not UTF-8,
/// and otherwise holds the characters they encode.
#[verifier::external_body]
fn utf8_string(b: &[u8]) -> (r: Option<String>)
    ensures
        r is Some <==> valid_utf8(b@),
        r matches Some(s) ==> s@ == decode_utf8(b@),
{
    String::from_utf8(b.to_vec()).ok()
}

/// Kinds whose first output address is the one they answer or like.
pub open spec fn needs_recipient(k: BorkType) -> bool {
    k == BorkType::Comment || k == BorkType::Rebork || k == BorkType::Like
}

/// Kinds that mention the other output addresses.
pub open spec fn takes_mentions(k: BorkType) -> bool {
    k == BorkType::Bork || k == BorkType::Comment || k == BorkType::Rebork || k
        == BorkType::Extension
}

/// Kinds that name an address by its hash.
pub open spec fn names_address(k: BorkType) -> bool {
    k == BorkType::Follow || k == BorkType::Block
}

/// Why a payload read with output addresses `outs` yields no message, if it does not.
pub open spec fn decode_error(d: Seq<u8>, outs: Seq<Seq<char>>) -> Option<ProtocolError> {
    match parse_spec(d) {
        Err(e) => Some(e),
        Ok(m) => if needs_recipient(m.kind) && outs.len() == 0 {
            Some(ProtocolError::UnexpectedEndOfInput)
        } else if m.content is Some && !valid_utf8(m.content->0) {
            Some(ProtocolError::InvalidContent)
        } else {
            None
        },
    }
}

/// The text of a message read from payload model `m`.
pub open spec fn content_text(m: PayloadModel, network: Network) -> Option<Seq<char>> {
    if names_address(m.kind) {
        Some(address_of(m.reference->0, network))
    } else if m.content is Some {
        Some(decode_utf8(m.content->0))
    } else {
        None
    }
}

pub open spec fn string_views(v: Seq<String>) -> Seq<Seq<char>> {
    v.map_values(|s: String| s@)
}

pub open spec fn opt_string_view(o: Option<String>) -> Option<Seq<char>> {
    match o {
        Some(s) => Some(s@),
        None => None,
    }
}

/// The message that payload `d` carries in a transaction `txid` sent by `from`,
/// whose other pay-to-public-key-hash outputs pay `outs`.
pub open spec fn decoded_message(
    t: BorkTxData,
    d: Seq<u8>,
    outs: Seq<Seq<char>>,
    txid: Seq<char>,
    from: Seq<char>,
    network: Network,
    time: u32,
) -> bool {
    let m = parse_spec(d)->Ok_0;
    &&& t.time == time
    &&& t.txid@ == txid
    &&& t.sender_address@ == from
    &&& t.bork_type == m.kind
    &&& t.nonce == m.nonce
    &&& t.position == m.position
    &&& opt_string_view(t.reference_id) == if m.reference is Some && !names_address(m.kind) {
        Some(hex_spec(m.reference->0))
    } else {
        None
    }
    &&& opt_string_view(t.content) == content_text(m, network)
    &&& opt_string_view(t.recipient_address) == if needs_recipient(m.kind) {
        Some(outs[0])
    } else {
        None
    }
    &&& string_views(t.mentions@).no_duplicates()
    &&& string_views(t.mentions@).to_set() == if !takes_mentions(m.kind) {
        Set::empty()
    } else if needs_recipient(m.kind) {
        outs.drop_first().to_set().remove(from)
    } else {
        outs.to_set().remove(from)
    }
    &&& string_views(t.tags@).no_duplicates()
    &&& string_views(t.tags@).to_set() == match content_text(m, network) {
        Some(c) => tags_of(c),
        None => Set::empty(),
    }
}

/// Whether `s` is among `r`.
fn contains_string(r: &Vec<String>, s: &String) -> (found: bool)
    ensures
        found == string_views(r@).contains(s@),
{
    let mut j: usize = 0;
    while j < r.len()
        invariant
            j <= r@.len(),
            forall|x: int| 0 <= x < j ==> r@[x]@ != s@,
        decreases r@.len() - j,
    {
        if r[j] == *s {
            assert(string_views(r@)[j as int] == s@);
            return true;
        }
        j = j + 1;
    }
    assert(!string_views(r@).contains(s@)) by {
        if string_views(r@).contains(s@) {
            let x = choose|x: int| 0 <= x < string_views(r@).len() && string_views(r@)[x] == s@;
            assert(r@[x]@ == s@);
        }
    }
    false
}

/// The distinct strings of `v` from index `start` on, less `skip`, in order of
/// first appearance.
fn distinct_strings(v: &[String], start: usize, skip: &String) -> (r: Vec<String>)
    requires
        start <= v@.len(),
    ensures
        string_views(r@).no_duplicates(),
        string_views(r@).to_set() == string_views(v@).subrange(start as int, v@.len() as int).to_set().remove(
            skip@,
        ),
{
    let ghost sv = string_views(v@);
    let mut r: Vec<String> = Vec::new();
    let mut i = start;
    assert(string_views(r@).to_set() =~= sv.subrange(start as int, start as int).to_set().remove(skip@));
    while i < v.len()
        invariant
            sv == string_views(v@),
            start <= i <= v@.len(),
            string_views(r@).no_duplicates(),
            string_views(r@).to_set() == sv.subrange(start as int, i as int).to_set().remove(skip@),
        decreases v@.len() - i,
    {
        let ghost before = string_views(r@);
        let ghost x = sv[i as int];
        let ghost old_set = sv.subrange(start as int, i as int).to_set();
        proof {
            assert(sv.subrange(start as int, i + 1) =~= sv.subrange(start as int, i as int).push(x));
            sv.subrange(start as int, i as int).lemma_push_to_set_commute(x);
        }
        if v[i] == *skip {
            proof {
                assert(old_set.insert(x).remove(skip@) =~= old_set.remove(skip@));
            }
        } else if !contains_string(&r, &v[i]) {
            let c = v[i].clone();
            r.push(c);
            proof {
                assert(string_views(r@) =~= before.push(x));
                before.lemma_push_to_set_commute(x);
                assert(old_set.insert(x).remove(skip@) =~= old_set.remove(skip@).insert(x));
            }
        } else {
            proof {
                assert(before.to_set().contains(x));
                assert(old_set.insert(x).remove(skip@) =~= old_set.remove(skip@));
            }
        }
        i = i + 1;
    }
    r
}

/// Reads the message in an OP_RETURN payload.
pub fn decode(
    data: &[u8],
    out_addrs: &[String],
    txid: String,
    from: String,
    network: Network,
    time: u32,
) -> (r:
    Result<BorkTxData, ProtocolError>)
    ensures
        match r {
            Ok(t) => decode_error(data@, string_views(out_addrs@)) is None && decoded_message(
                t,
                data@,
                string_views(out_addrs@),
                txid@,
                from@,
                network,
                time,
            ),
            Err(e) => decode_error(data@, string_views(out_addrs@)) == Some(e),
        },
{
    let ghost outs = string_views(out_addrs@);
    let p: Payload = parse_payload(data)?;
    let ghost m = p@;
    let kind = p.kind;
    let needs = match kind {
        BorkType::Comment | BorkType::Rebork | BorkType::Like => true,
        _ => false,
    };
    if needs && out_addrs.len() == 0 {
        return Err(ProtocolError::UnexpectedEndOfInput);
    }
    let content: Option<String> = match &p.content {
        Some(c) => match utf8_string(c.as_slice()) {
            Some(s) => Some(s),
            None => {
                return Err(ProtocolError::InvalidContent);
            },
        },
        None => match kind {
            BorkType::Follow | BorkType::Block => match &p.reference {
                Some(h) => Some(pubkey_hash_to_addr(h.as_slice(), network)),
                None => None,
            },
            _ => None,
        },
    };
    let reference_id = match kind {
        BorkType::Follow | BorkType::Block => None,
        _ => match &p.reference {
            Some(h) => Some(to_hex(h.as_slice())),
            None => None,
        },
    };
    let recipient_address = if needs {
        Some(out_addrs[0].clone())
    } else {
        None
    };
    let mentions = match kind {
        BorkType::Bork | BorkType::Extension => distinct_strings(out_addrs, 0, &from),
        BorkType::Comment | BorkType::Rebork => distinct_strings(out_addrs, 1, &from),
        _ => {
            let v: Vec<String> = Vec::new();
            assert(string_views(v@) =~= Seq::<Seq<char>>::empty());
            v
        },
    };
    let tags = match &content {
        Some(c) => get_tags(c.as_str()),
        None => {
            let v: Vec<String> = Vec::new();
            assert(string_views(v@) =~= Seq::<Seq<char>>::empty());
            v
        },
    };
    proof {
        assert(outs.subrange(0, outs.len() as int) =~= outs);
        assert(outs.subrange(1, outs.len() as int) =~= outs.drop_first());
        assert(Seq::<Seq<char>>::empty().to_set() =~= Set::<Seq<char>>::empty());
    }
    Ok(
        BorkTxData {
            time,
            txid,
            bork_type: kind,
            nonce: p.nonce,
            position: p.position,
            reference_id,
            content,
            sender_address: from,
            recipient_address,
            mentions,
            tags,
        },
    )
}

} // verus!
