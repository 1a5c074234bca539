//! The Bork wire format: social messages carried in OP_RETURN payloads.
use crate::cursor::Cur;
use vstd::prelude::*;
use vstd::utf8::{
    decode_utf8, encode_utf8, encode_utf8_decode_utf8, encode_utf8_valid_utf8, is_ascii_chars,
    is_ascii_chars_encode_utf8, valid_utf8,
};

verus! {

/// First byte of every payload.
pub const MAGIC_0: u8 = 0xD0;

/// Second byte of every payload.
pub const MAGIC_1: u8 = 0x6E;

/// Largest payload, in bytes.
pub const PAYLOAD_MAX: usize = 80;

/// Largest piece of content that one extension payload carries.
pub const EXTENSION_CHUNK: usize = 75;

/// Largest content of a profile field, in bytes.
pub const PROFILE_CONTENT_MAX: usize = 77;

/// Largest reference id, in bytes.
pub const REFERENCE_MAX: usize = 32;

/// Length of a transaction id.
pub const TXID_LEN: usize = 32;

/// Length of a public-key hash.
pub const PUBKEY_HASH_LEN: usize = 20;

/// Most extension payloads one message may need: positions are one byte.
pub const EXTENSIONS_MAX: usize = 255;

/// The kinds of message.
#[derive(Debug, Clone, Copy, PartialEq, Eq, Structural)]
pub enum BorkType {
    SetName,
    SetBio,
    SetAvatar,
    Bork,
    Comment,
    Rebork,
    Extension,
    Delete,
    Like,
    Flag,
    Follow,
    Block,
}

/// Why a message could not be encoded or decoded.
#[derive(Debug, Clone, Copy, PartialEq, Eq, Structural)]
pub enum ProtocolError {
    /// Content over its limit: 77 bytes for a profile field, or more than
    /// 255 extension payloads for a post.
    ContentTooLong,
    /// A reference id over 32 bytes.
    ReferenceTooLong,
    /// A transaction id that is not 32 bytes.
    InvalidTxidLength,
    /// An address hash that is not 20 bytes.
    InvalidAddress,
    /// A payload that does not start with the magic bytes.
    InvalidMagic,
    /// A payload whose type byte names no message.
    InvalidMessageType,
    /// A payload that ends before a field it announces.
    UnexpectedEndOfInput,
    /// Content that is not UTF-8.
    InvalidContent,
    /// A message of a kind that cannot be made from the given fields.
    InvalidMessage,
}

/// A message to be sent.
#[derive(Debug)]
pub enum NewBork {
    SetName { content: String },
    SetBio { content: String },
    SetAvatar { content: String },
    Bork { content: String },
    Comment { reference_id: Vec<u8>, content: String },
    Rebork { reference_id: Vec<u8>, content: String },
    Delete { reference_id: Vec<u8> },
    Like { reference_id: Vec<u8> },
    Follow { address: Vec<u8> },
    Block { address: Vec<u8> },
    Flag { txid: Vec<u8> },
}

/// The type byte of each kind.
pub open spec fn type_byte(t: BorkType) -> u8 {
    match t {
        BorkType::SetName => 0x00,
        BorkType::SetBio => 0x01,
        BorkType::SetAvatar => 0x02,
        BorkType::Bork => 0x03,
        BorkType::Comment => 0x04,
        BorkType::Rebork => 0x05,
        BorkType::Extension => 0x06,
        BorkType::Like => 0x07,
        BorkType::Flag => 0x08,
        BorkType::Follow => 0x09,
        BorkType::Block => 0x0A,
        BorkType::Delete => 0x0B,
    }
}

/// The kind of each type byte.
pub open spec fn kind_of_byte(b: u8) -> Option<BorkType> {
    if b == 0x00 {
        Some(BorkType::SetName)
    } else if b == 0x01 {
        Some(BorkType::SetBio)
    } else if b == 0x02 {
        Some(BorkType::SetAvatar)
    } else if b == 0x03 {
        Some(BorkType::Bork)
    } else if b == 0x04 {
        Some(BorkType::Comment)
    } else if b == 0x05 {
        Some(BorkType::Rebork)
    } else if b == 0x06 {
        Some(BorkType::Extension)
    } else if b == 0x07 {
        Some(BorkType::Like)
    } else if b == 0x08 {
        Some(BorkType::Flag)
    } else if b == 0x09 {
        Some(BorkType::Follow)
    } else if b == 0x0A {
        Some(BorkType::Block)
    } else if b == 0x0B {
        Some(BorkType::Delete)
    } else {
        None
    }
}

/// The first bytes of a payload of kind `t`.
pub open spec fn prefix(t: BorkType) -> Seq<u8> {
    seq![MAGIC_0, MAGIC_1, type_byte(t)]
}

/// The header of the `k`-th extension payload (from 1) of a message sent with `nonce`.
pub open spec fn extension_header(nonce: u8, k: int) -> Seq<u8> {
    prefix(BorkType::Extension) + seq![nonce, k as u8]
}

/// How many content bytes the first payload carries after header `h`.
pub open spec fn first_take(h: Seq<u8>, c: Seq<u8>) -> int {
    if c.len() <= PAYLOAD_MAX - h.len() {
        c.len() as int
    } else {
        PAYLOAD_MAX - h.len()
    }
}

/// How many extension payloads carry what the first one could not.
pub open spec fn extension_count(h: Seq<u8>, c: Seq<u8>) -> int {
    let rest = c.len() - first_take(h, c);
    rest / EXTENSION_CHUNK as int + if rest % EXTENSION_CHUNK as int == 0 {
        0int
    } else {
        1int
    }
}

/// Where the `k`-th extension's content (from 0) ends.
pub open spec fn chunk_end(h: Seq<u8>, c: Seq<u8>, k: int) -> int {
    let e = first_take(h, c) + EXTENSION_CHUNK * (k + 1);
    if e <= c.len() {
        e
    } else {
        c.len() as int
    }
}

/// Content `c` after header `h`: the first payload takes what fits in 80 bytes,
/// then each extension payload takes up to 75 bytes, tagged with the nonce and
/// its own position from 1.
pub open spec fn chunked(h: Seq<u8>, c: Seq<u8>, nonce: u8) -> Result<Seq<Seq<u8>>, ProtocolError> {
    let t = first_take(h, c);
    if extension_count(h, c) > EXTENSIONS_MAX {
        Err(ProtocolError::ContentTooLong)
    } else {
        Ok(
            seq![h + c.subrange(0, t)] + Seq::new(
                extension_count(h, c) as nat,
                |k: int|
                    extension_header(nonce, k + 1) + c.subrange(
                        t + EXTENSION_CHUNK * k,
                        chunk_end(h, c, k),
                    ),
            ),
        )
    }
}

/// A single payload: `body` after the prefix of `t`.
pub open spec fn single(t: BorkType, body: Seq<u8>) -> Result<Seq<Seq<u8>>, ProtocolError> {
    Ok(seq![prefix(t) + body])
}

/// The payloads that encode `b`, sent with `nonce`.
pub open spec fn encode_spec(b: NewBork, nonce: u8) -> Result<Seq<Seq<u8>>, ProtocolError> {
    match b {
        NewBork::SetName { content } => profile(BorkType::SetName, encode_utf8(content@)),
        NewBork::SetBio { content } => profile(BorkType::SetBio, encode_utf8(content@)),
        NewBork::SetAvatar { content } => profile(BorkType::SetAvatar, encode_utf8(content@)),
        NewBork::Bork { content } => chunked(
            prefix(BorkType::Bork).push(nonce),
            encode_utf8(content@),
            nonce,
        ),
        NewBork::Comment { reference_id, content } => referring(
            BorkType::Comment,
            reference_id@,
            encode_utf8(content@),
            nonce,
        ),
        NewBork::Rebork { reference_id, content } => referring(
            BorkType::Rebork,
            reference_id@,
            encode_utf8(content@),
            nonce,
        ),
        NewBork::Like { reference_id } => reference_only(BorkType::Like, reference_id@),
        NewBork::Delete { reference_id } => reference_only(BorkType::Delete, reference_id@),
        NewBork::Flag { txid } => if txid@.len() == TXID_LEN {
            single(BorkType::Flag, txid@)
        } else {
            Err(ProtocolError::InvalidTxidLength)
        },
        NewBork::Follow { address } => if address@.len() == PUBKEY_HASH_LEN {
            single(BorkType::Follow, address@)
        } else {
            Err(ProtocolError::InvalidAddress)
        },
        NewBork::Block { address } => if address@.len() == PUBKEY_HASH_LEN {
            single(BorkType::Block, address@)
        } else {
            Err(ProtocolError::InvalidAddress)
        },
    }
}

/// A profile field: its content whole, in one payload.
pub open spec fn profile(t: BorkType, c: Seq<u8>) -> Result<Seq<Seq<u8>>, ProtocolError> {
    if c.len() <= PROFILE_CONTENT_MAX {
        single(t, c)
    } else {
        Err(ProtocolError::ContentTooLong)
    }
}

/// A reply or a repost: nonce, length-prefixed reference, then chunked content.
pub open spec fn referring(t: BorkType, r: Seq<u8>, c: Seq<u8>, nonce: u8) -> Result<
    Seq<Seq<u8>>,
    ProtocolError,
> {
    if r.len() <= REFERENCE_MAX {
        chunked(prefix(t) + seq![nonce, r.len() as u8] + r, c, nonce)
    } else {
        Err(ProtocolError::ReferenceTooLong)
    }
}

/// A like or a deletion: a length-prefixed reference.
pub open spec fn reference_only(t: BorkType, r: Seq<u8>) -> Result<Seq<Seq<u8>>, ProtocolError> {
    if r.len() <= REFERENCE_MAX {
        single(t, seq![r.len() as u8] + r)
    } else {
        Err(ProtocolError::ReferenceTooLong)
    }
}

/// The views of a list of byte vectors.
pub open spec fn views(v: Seq<Vec<u8>>) -> Seq<Seq<u8>> {
    v.map_values(|b: Vec<u8>| b@)
}

/// Appends `src[from..to]` to `buf`.
fn push_range(buf: &mut Vec<u8>, src: &[u8], from: usize, to: usize)
    requires
        from <= to <= src@.len(),
    ensures
        final(buf)@ == old(buf)@ + src@.subrange(from as int, to as int),
{
    let mut i = from;
    while i < to
        invariant
            from <= i <= to <= src@.len(),
            buf@ == old(buf)@ + src@.subrange(from as int, i as int),
        decreases to - i,
    {
        buf.push(src[i]);
        i = i + 1;
        assert(buf@ =~= old(buf)@ + src@.subrange(from as int, i as int));
    }
}

/// The three bytes that open a payload of kind `t`.
fn start_payload(t: u8) -> (r: Vec<u8>)
    ensures
        r@ == seq![MAGIC_0, MAGIC_1, t],
{
    let mut r: Vec<u8> = Vec::new();
    r.push(MAGIC_0);
    r.push(MAGIC_1);
    r.push(t);
    assert(r@ =~= seq![MAGIC_0, MAGIC_1, t]);
    r
}

/// Splits content `c` after header `h` into payloads.
fn chunk(h: Vec<u8>, c: &[u8], nonce: u8) -> (r: Result<Vec<Vec<u8>>, ProtocolError>)
    requires
        h@.len() <= PAYLOAD_MAX,
    ensures
        match r {
            Ok(v) => chunked(h@, c@, nonce) == Ok::<Seq<Seq<u8>>, ProtocolError>(views(v@)),
            Err(e) => chunked(h@, c@, nonce) == Err::<Seq<Seq<u8>>, ProtocolError>(e),
        },
{
    let ghost hs = h@;
    let room = PAYLOAD_MAX - h.len();
    let take = if c.len() <= room {
        c.len()
    } else {
        room
    };
    assert(take == first_take(hs, c@));
    let rest = c.len() - take;
    let count = rest / EXTENSION_CHUNK + if rest % EXTENSION_CHUNK == 0 {
        0
    } else {
        1
    };
    if count > EXTENSIONS_MAX {
        return Err(ProtocolError::ContentTooLong);
    }
    let ghost spec_out = chunked(hs, c@, nonce)->Ok_0;
    let mut first = h;
    push_range(&mut first, c, 0, take);
    let mut out: Vec<Vec<u8>> = Vec::new();
    out.push(first);
    let mut pos = take;
    let mut k: usize = 0;
    while pos < c.len()
        invariant
            take == first_take(hs, c@),
            count == extension_count(hs, c@),
            count <= EXTENSIONS_MAX,
            spec_out == chunked(hs, c@, nonce)->Ok_0,
            spec_out.len() == count + 1,
            take <= pos <= c@.len(),
            k <= count,
            pos == take + EXTENSION_CHUNK * k || (pos == c@.len() && k == count),
            pos < c@.len() ==> k < count,
            pos == c@.len() ==> k == count,
            out@.len() == k + 1,
            forall|i: int| 0 <= i <= k ==> (#[trigger] out@[i])@ == spec_out[i],
        decreases c@.len() - pos,
    {
        assert(pos == take + EXTENSION_CHUNK * k);
        let end = if c.len() - pos <= EXTENSION_CHUNK {
            c.len()
        } else {
            pos + EXTENSION_CHUNK
        };
        let mut ext = start_payload(0x06);
        ext.push(nonce);
        ext.push((k + 1) as u8);
        push_range(&mut ext, c, pos, end);
        proof {
            assert(end == chunk_end(hs, c@, k as int));
            assert(ext@ =~= spec_out[k + 1]);
        }
        out.push(ext);
        pos = end;
        k = k + 1;
        proof {
            let r = c@.len() - take;
            let kk = k as int;
            let q = r / 75;
            let m = r % 75;
            assert(r == 75 * q + m && 0 <= m < 75) by (nonlinear_arith)
                requires
                    r >= 0,
                    q == r / 75,
                    m == r % 75,
            ;
            if pos < c@.len() {
                assert(kk < count) by (nonlinear_arith)
                    requires
                        take + 75 * kk < c@.len(),
                        r == c@.len() - take,
                        r == 75 * q + m,
                        0 <= m < 75,
                        count == q + if m == 0 {
                            0int
                        } else {
                            1int
                        },
                ;
            } else {
                assert(kk == count) by (nonlinear_arith)
                    requires
                        take + 75 * (kk - 1) < c@.len(),
                        c@.len() <= take + 75 * kk,
                        r == c@.len() - take,
                        r == 75 * q + m,
                        0 <= m < 75,
                        count == q + if m == 0 {
                            0int
                        } else {
                            1int
                        },
                ;
            }
        }
    }
    assert(views(out@) =~= spec_out);
    Ok(out)
}

/// A header: the prefix of kind byte `t`, then `extra`.
fn header(t: u8, extra: &[u8]) -> (r: Vec<u8>)
    ensures
        r@ == seq![MAGIC_0, MAGIC_1, t] + extra@,
{
    let mut r = start_payload(t);
    push_range(&mut r, extra, 0, extra.len());
    assert(extra@.subrange(0, extra@.len() as int) =~= extra@);
    r
}

/// One payload: the prefix of kind byte `t`, then `body`.
fn one_payload(t: u8, body: &[u8]) -> (r: Vec<Vec<u8>>)
    ensures
        views(r@) == seq![seq![MAGIC_0, MAGIC_1, t] + body@],
{
    let mut r: Vec<Vec<u8>> = Vec::new();
    r.push(header(t, body));
    assert(views(r@) =~= seq![seq![MAGIC_0, MAGIC_1, t] + body@]);
    r
}

/// Encodes a message and its nonce into payloads.
pub fn encode(bork: NewBork, nonce: u8) -> (r: Result<Vec<Vec<u8>>, ProtocolError>)
    ensures
        match r {
            Ok(v) => encode_spec(bork, nonce) == Ok::<Seq<Seq<u8>>, ProtocolError>(views(v@)),
            Err(e) => encode_spec(bork, nonce) == Err::<Seq<Seq<u8>>, ProtocolError>(e),
        },
{
    match bork {
        NewBork::SetName { content } => encode_profile(0x00, content.as_str().as_bytes()),
        NewBork::SetBio { content } => encode_profile(0x01, content.as_str().as_bytes()),
        NewBork::SetAvatar { content } => encode_profile(0x02, content.as_str().as_bytes()),
        NewBork::Bork { content } => {
            let mut h = start_payload(0x03);
            h.push(nonce);
            proof {
                assert(h@ =~= prefix(BorkType::Bork).push(nonce));
            }
            chunk(h, content.as_str().as_bytes(), nonce)
        },
        NewBork::Comment { reference_id, content } => encode_referring(
            0x04,
            reference_id.as_slice(),
            content.as_str().as_bytes(),
            nonce,
        ),
        NewBork::Rebork { reference_id, content } => encode_referring(
            0x05,
            reference_id.as_slice(),
            content.as_str().as_bytes(),
            nonce,
        ),
        NewBork::Like { reference_id } => encode_reference(0x07, reference_id.as_slice()),
        NewBork::Delete { reference_id } => encode_reference(0x0B, reference_id.as_slice()),
        NewBork::Flag { txid } => {
            if txid.len() == TXID_LEN {
                Ok(one_payload(0x08, txid.as_slice()))
            } else {
                Err(ProtocolError::InvalidTxidLength)
            }
        },
        NewBork::Follow { address } => {
            if address.len() == PUBKEY_HASH_LEN {
                Ok(one_payload(0x09, address.as_slice()))
            } else {
                Err(ProtocolError::InvalidAddress)
            }
        },
        NewBork::Block { address } => {
            if address.len() == PUBKEY_HASH_LEN {
                Ok(one_payload(0x0A, address.as_slice()))
            } else {
                Err(ProtocolError::InvalidAddress)
            }
        },
    }
}

fn encode_profile(t: u8, c: &[u8]) -> (r: Result<Vec<Vec<u8>>, ProtocolError>)
    ensures
        match r {
            Ok(v) => c@.len() <= PROFILE_CONTENT_MAX && views(v@) == seq![
                seq![MAGIC_0, MAGIC_1, t] + c@,
            ],
            Err(e) => c@.len() > PROFILE_CONTENT_MAX && e == ProtocolError::ContentTooLong,
        },
{
    if c.len() <= PROFILE_CONTENT_MAX {
        Ok(one_payload(t, c))
    } else {
        Err(ProtocolError::ContentTooLong)
    }
}

fn encode_referring(t: u8, reference: &[u8], c: &[u8], nonce: u8) -> (r: Result<
    Vec<Vec<u8>>,
    ProtocolError,
>)
    ensures
        match r {
            Ok(v) => reference@.len() <= REFERENCE_MAX && chunked(
                seq![MAGIC_0, MAGIC_1, t] + seq![nonce, reference@.len() as u8] + reference@,
                c@,
                nonce,
            ) == Ok::<Seq<Seq<u8>>, ProtocolError>(views(v@)),
            Err(e) => (reference@.len() > REFERENCE_MAX && e == ProtocolError::ReferenceTooLong)
                || (reference@.len() <= REFERENCE_MAX && chunked(
                seq![MAGIC_0, MAGIC_1, t] + seq![nonce, reference@.len() as u8] + reference@,
                c@,
                nonce,
            ) == Err::<Seq<Seq<u8>>, ProtocolError>(e)),
        },
{
    if reference.len() > REFERENCE_MAX {
        return Err(ProtocolError::ReferenceTooLong);
    }
    let mut h = start_payload(t);
    h.push(nonce);
    h.push(reference.len() as u8);
    push_range(&mut h, reference, 0, reference.len());
    proof {
        assert(reference@.subrange(0, reference@.len() as int) =~= reference@);
        assert(h@ =~= seq![MAGIC_0, MAGIC_1, t] + seq![nonce, reference@.len() as u8]
            + reference@);
    }
    chunk(h, c, nonce)
}

fn encode_reference(t: u8, reference: &[u8]) -> (r: Result<Vec<Vec<u8>>, ProtocolError>)
    ensures
        match r {
            Ok(v) => reference@.len() <= REFERENCE_MAX && views(v@) == seq![
                seq![MAGIC_0, MAGIC_1, t] + (seq![reference@.len() as u8] + reference@),
            ],
            Err(e) => reference@.len() > REFERENCE_MAX && e == ProtocolError::ReferenceTooLong,
        },
{
    if reference.len() > REFERENCE_MAX {
        return Err(ProtocolError::ReferenceTooLong);
    }
    let mut body: Vec<u8> = Vec::new();
    body.push(reference.len() as u8);
    push_range(&mut body, reference, 0, reference.len());
    proof {
        assert(body@ =~= seq![reference@.len() as u8] + reference@);
    }
    Ok(one_payload(t, body.as_slice()))
}

/// The concatenation of byte strings, in order.
pub open spec fn joined(s: Seq<Seq<u8>>) -> Seq<u8>
    decreases s.len(),
{
    if s.len() == 0 {
        Seq::empty()
    } else {
        joined(s.drop_last()) + s.last()
    }
}

/// The content bytes of the `k`-th payload of content `c` after header `h`.
pub open spec fn piece(h: Seq<u8>, c: Seq<u8>, k: int) -> Seq<u8> {
    if k == 0 {
        c.subrange(0, first_take(h, c))
    } else {
        c.subrange(first_take(h, c) + EXTENSION_CHUNK * (k - 1), chunk_end(h, c, k - 1))
    }
}

/// How far into the content the first `j + 1` payloads reach.
pub open spec fn reach(h: Seq<u8>, c: Seq<u8>, j: int) -> int {
    if j == 0 {
        first_take(h, c)
    } else {
        chunk_end(h, c, j - 1)
    }
}

proof fn lemma_count_facts(h: Seq<u8>, c: Seq<u8>)
    requires
        h.len() <= PAYLOAD_MAX,
    ensures
        0 <= first_take(h, c) <= c.len(),
        extension_count(h, c) >= 0,
        first_take(h, c) + EXTENSION_CHUNK * extension_count(h, c) >= c.len(),
        extension_count(h, c) == 0 ==> first_take(h, c) == c.len(),
{
    let t = first_take(h, c);
    let r = c.len() - t;
    let q = r / 75;
    let m = r % 75;
    let n = extension_count(h, c);
    assert(r == 75 * q + m && 0 <= m < 75 && q >= 0) by (nonlinear_arith)
        requires
            r >= 0,
            q == r / 75,
            m == r % 75,
    ;
    assert(75 * n >= r) by (nonlinear_arith)
        requires
            r == 75 * q + m,
            0 <= m < 75,
            n == q + if m == 0 {
                0int
            } else {
                1int
            },
    ;
}

proof fn lemma_before_end(h: Seq<u8>, c: Seq<u8>, k: int)
    requires
        h.len() <= PAYLOAD_MAX,
        0 <= k < extension_count(h, c),
    ensures
        first_take(h, c) + EXTENSION_CHUNK * k < c.len(),
{
    let t = first_take(h, c);
    let r = c.len() - t;
    let q = r / 75;
    let m = r % 75;
    let n = extension_count(h, c);
    assert(r == 75 * q + m && 0 <= m < 75 && q >= 0) by (nonlinear_arith)
        requires
            r >= 0,
            q == r / 75,
            m == r % 75,
    ;
    assert(75 * k < r) by (nonlinear_arith)
        requires
            0 <= k < n,
            r == 75 * q + m,
            0 <= m < 75,
            n == q + if m == 0 {
                0int
            } else {
                1int
            },
    ;
}

proof fn lemma_joined_pieces(h: Seq<u8>, c: Seq<u8>, j: int)
    requires
        h.len() <= PAYLOAD_MAX,
        0 <= j <= extension_count(h, c),
    ensures
        joined(Seq::new((j + 1) as nat, |k: int| piece(h, c, k))) == c.subrange(0, reach(h, c, j)),
    decreases j,
{
    lemma_count_facts(h, c);
    let f = |k: int| piece(h, c, k);
    let s = Seq::new((j + 1) as nat, f);
    if j == 0 {
        assert(s.drop_last() =~= Seq::<Seq<u8>>::empty());
        assert(joined(s.drop_last()) =~= Seq::<u8>::empty());
        assert(s.last() == piece(h, c, 0));
        assert(joined(s) == joined(s.drop_last()) + s.last());
        assert(joined(s) =~= c.subrange(0, reach(h, c, j)));
    } else {
        lemma_joined_pieces(h, c, j - 1);
        lemma_before_end(h, c, j - 1);
        assert(s.drop_last() =~= Seq::new(j as nat, f));
        let t = first_take(h, c);
        assert(reach(h, c, j - 1) == t + EXTENSION_CHUNK * (j - 1));
        assert(s.last() == piece(h, c, j));
        assert(joined(s) == joined(s.drop_last()) + s.last());
        let e = chunk_end(h, c, j - 1);
        assert(t + EXTENSION_CHUNK * (j - 1) <= e <= c.len());
        assert(joined(s) =~= c.subrange(0, reach(h, c, j)));
    }
}

/// What one payload carries, as read.
#[derive(Debug)]
pub struct Payload {
    pub kind: BorkType,
    pub nonce: Option<u8>,
    pub position: Option<u8>,
    /// A reference id, a transaction id, or a public-key hash, by kind.
    pub reference: Option<Vec<u8>>,
    pub content: Option<Vec<u8>>,
}

/// The mathematical value of a [`Payload`].
pub struct PayloadModel {
    pub kind: BorkType,
    pub nonce: Option<u8>,
    pub position: Option<u8>,
    pub reference: Option<Seq<u8>>,
    pub content: Option<Seq<u8>>,
}

pub open spec fn bytes_view(o: Option<Vec<u8>>) -> Option<Seq<u8>> {
    match o {
        Some(v) => Some(v@),
        None => None,
    }
}

impl View for Payload {
    type V = PayloadModel;

    open spec fn view(&self) -> PayloadModel {
        PayloadModel {
            kind: self.kind,
            nonce: self.nonce,
            position: self.position,
            reference: bytes_view(self.reference),
            content: bytes_view(self.content),
        }
    }
}

pub open spec fn model(
    kind: BorkType,
    nonce: Option<u8>,
    position: Option<u8>,
    reference: Option<Seq<u8>>,
    content: Option<Seq<u8>>,
) -> PayloadModel {
    PayloadModel { kind, nonce, position, reference, content }
}

/// What a payload reads as: magic, type byte, then the fields of that kind.
pub open spec fn parse_spec(d: Seq<u8>) -> Result<PayloadModel, ProtocolError> {
    if d.len() == 0 {
        Err(ProtocolError::UnexpectedEndOfInput)
    } else if d[0] != MAGIC_0 {
        Err(ProtocolError::InvalidMagic)
    } else if d.len() == 1 {
        Err(ProtocolError::UnexpectedEndOfInput)
    } else if d[1] != MAGIC_1 {
        Err(ProtocolError::InvalidMagic)
    } else if d.len() == 2 {
        Err(ProtocolError::UnexpectedEndOfInput)
    } else {
        match kind_of_byte(d[2]) {
            None => Err(ProtocolError::InvalidMessageType),
            Some(t) => parse_body(t, d.subrange(3, d.len() as int)),
        }
    }
}

/// The fields of kind `t` in `b`, what follows the type byte.
pub open spec fn parse_body(t: BorkType, b: Seq<u8>) -> Result<PayloadModel, ProtocolError> {
    let eoi = Err(ProtocolError::UnexpectedEndOfInput);
    let n = b.len() as int;
    match t {
        BorkType::SetName | BorkType::SetBio | BorkType::SetAvatar => Ok(
            model(t, None, None, None, Some(b)),
        ),
        BorkType::Bork => if n < 1 {
            eoi
        } else {
            Ok(model(t, Some(b[0]), Some(0), None, Some(b.subrange(1, n))))
        },
        BorkType::Comment | BorkType::Rebork => if n < 2 || n < 2 + b[1] {
            eoi
        } else {
            Ok(
                model(
                    t,
                    Some(b[0]),
                    Some(0),
                    Some(b.subrange(2, 2 + b[1])),
                    Some(b.subrange(2 + b[1], n)),
                ),
            )
        },
        BorkType::Extension => if n < 2 {
            eoi
        } else {
            Ok(model(t, Some(b[0]), Some(b[1]), None, Some(b.subrange(2, n))))
        },
        BorkType::Like | BorkType::Delete => if n < 1 || n < 1 + b[0] {
            eoi
        } else {
            Ok(model(t, None, None, Some(b.subrange(1, 1 + b[0])), None))
        },
        BorkType::Flag => if n < TXID_LEN {
            eoi
        } else {
            Ok(model(t, None, None, Some(b.subrange(0, TXID_LEN as int)), None))
        },
        BorkType::Follow | BorkType::Block => if n < PUBKEY_HASH_LEN {
            eoi
        } else {
            Ok(model(t, None, None, Some(b.subrange(0, PUBKEY_HASH_LEN as int)), None))
        },
    }
}

/// The kind that a type byte names.
fn kind_from_byte(b: u8) -> (r: Option<BorkType>)
    ensures
        r == kind_of_byte(b),
{
    if b == 0x00 {
        Some(BorkType::SetName)
    } else if b == 0x01 {
        Some(BorkType::SetBio)
    } else if b == 0x02 {
        Some(BorkType::SetAvatar)
    } else if b == 0x03 {
        Some(BorkType::Bork)
    } else if b == 0x04 {
        Some(BorkType::Comment)
    } else if b == 0x05 {
        Some(BorkType::Rebork)
    } else if b == 0x06 {
        Some(BorkType::Extension)
    } else if b == 0x07 {
        Some(BorkType::Like)
    } else if b == 0x08 {
        Some(BorkType::Flag)
    } else if b == 0x09 {
        Some(BorkType::Follow)
    } else if b == 0x0A {
        Some(BorkType::Block)
    } else if b == 0x0B {
        Some(BorkType::Delete)
    } else {
        None
    }
}

fn to_vec(s: &[u8]) -> (r: Vec<u8>)
    ensures
        r@ == s@,
{
    vstd::slice::slice_to_vec(s)
}

/// Reads one payload.
pub fn parse_payload(data: &[u8]) -> (r: Result<Payload, ProtocolError>)
    ensures
        match r {
            Ok(p) => parse_spec(data@) == Ok::<PayloadModel, ProtocolError>(p@),
            Err(e) => parse_spec(data@) == Err::<PayloadModel, ProtocolError>(e),
        },
{
    let mut cur = Cur::new(data);
    if cur.next()? != MAGIC_0 {
        return Err(ProtocolError::InvalidMagic);
    }
    if cur.next()? != MAGIC_1 {
        return Err(ProtocolError::InvalidMagic);
    }
    let t = cur.next()?;
    let kind = match kind_from_byte(t) {
        Some(k) => k,
        None => {
            return Err(ProtocolError::InvalidMessageType);
        },
    };
    let ghost b = data@.subrange(3, data@.len() as int);
    assert(cur.pos() == 3);
    match kind {
        BorkType::SetName | BorkType::SetBio | BorkType::SetAvatar => {
            let content = to_vec(cur.rest());
            Ok(Payload { kind, nonce: None, position: None, reference: None, content: Some(content) })
        },
        BorkType::Bork => {
            let nonce = cur.next()?;
            let content = to_vec(cur.rest());
            proof {
                assert(content@ =~= b.subrange(1, b.len() as int));
            }
            Ok(
                Payload {
                    kind,
                    nonce: Some(nonce),
                    position: Some(0),
                    reference: None,
                    content: Some(content),
                },
            )
        },
        BorkType::Comment | BorkType::Rebork => {
            let nonce = cur.next()?;
            let reference = to_vec(cur.var_next()?);
            let content = to_vec(cur.rest());
            proof {
                assert(reference@ =~= b.subrange(2, 2 + b[1]));
                assert(content@ =~= b.subrange(2 + b[1], b.len() as int));
            }
            Ok(
                Payload {
                    kind,
                    nonce: Some(nonce),
                    position: Some(0),
                    reference: Some(reference),
                    content: Some(content),
                },
            )
        },
        BorkType::Extension => {
            let nonce = cur.next()?;
            let position = cur.next()?;
            let content = to_vec(cur.rest());
            proof {
                assert(content@ =~= b.subrange(2, b.len() as int));
            }
            Ok(
                Payload {
                    kind,
                    nonce: Some(nonce),
                    position: Some(position),
                    reference: None,
                    content: Some(content),
                },
            )
        },
        BorkType::Like | BorkType::Delete => {
            let reference = to_vec(cur.var_next()?);
            proof {
                assert(reference@ =~= b.subrange(1, 1 + b[0]));
            }
            Ok(Payload { kind, nonce: None, position: None, reference: Some(reference), content: None })
        },
        BorkType::Flag => {
            let reference = to_vec(cur.next_n(TXID_LEN)?);
            proof {
                assert(reference@ =~= b.subrange(0, TXID_LEN as int));
            }
            Ok(Payload { kind, nonce: None, position: None, reference: Some(reference), content: None })
        },
        BorkType::Follow | BorkType::Block => {
            let reference = to_vec(cur.next_n(PUBKEY_HASH_LEN)?);
            proof {
                assert(reference@ =~= b.subrange(0, PUBKEY_HASH_LEN as int));
            }
            Ok(Payload { kind, nonce: None, position: None, reference: Some(reference), content: None })
        },
    }
}

/// The content bytes of a post, a reply or a repost.
pub open spec fn posted_content(b: NewBork) -> Seq<u8> {
    match b {
        NewBork::Bork { content } => encode_utf8(content@),
        NewBork::Comment { content, .. } => encode_utf8(content@),
        NewBork::Rebork { content, .. } => encode_utf8(content@),
        _ => Seq::empty(),
    }
}

/// The kind of a post, a reply or a repost.
pub open spec fn posted_kind(b: NewBork) -> BorkType {
    match b {
        NewBork::Comment { .. } => BorkType::Comment,
        NewBork::Rebork { .. } => BorkType::Rebork,
        _ => BorkType::Bork,
    }
}

/// The reference of a reply or a repost.
pub open spec fn posted_reference(b: NewBork) -> Option<Seq<u8>> {
    match b {
        NewBork::Comment { reference_id, .. } => Some(reference_id@),
        NewBork::Rebork { reference_id, .. } => Some(reference_id@),
        _ => None,
    }
}

proof fn lemma_chunked_round_trip(t: BorkType, h: Seq<u8>, rest: Seq<u8>, c: Seq<u8>, nonce: u8)
    requires
        h == prefix(t) + rest,
        h.len() <= PAYLOAD_MAX,
        chunked(h, c, nonce) is Ok,
        parse_body(t, rest + c.subrange(0, first_take(h, c))) is Ok,
    ensures
        ({
            let ps = chunked(h, c, nonce)->Ok_0;
            &&& ps.len() == extension_count(h, c) + 1
            &&& parse_spec(ps[0]) == parse_body(t, rest + c.subrange(0, first_take(h, c)))
            &&& forall|k: int|
                1 <= k < ps.len() ==> parse_spec(#[trigger] ps[k]) == Ok::<
                    PayloadModel,
                    ProtocolError,
                >(model(BorkType::Extension, Some(nonce), Some(k as u8), None, Some(piece(h, c, k))))
            &&& joined(Seq::new(ps.len(), |k: int| piece(h, c, k))) == c
        }),
{
    let ps = chunked(h, c, nonce)->Ok_0;
    let ft = first_take(h, c);
    lemma_count_facts(h, c);
    let first = ps[0];
    assert(first =~= prefix(t) + (rest + c.subrange(0, ft)));
    assert(first.subrange(3, first.len() as int) =~= rest + c.subrange(0, ft));
    assert(kind_of_byte(type_byte(t)) == Some(t));
    assert forall|k: int| 1 <= k < ps.len() implies parse_spec(#[trigger] ps[k]) == Ok::<
        PayloadModel,
        ProtocolError,
    >(model(BorkType::Extension, Some(nonce), Some(k as u8), None, Some(piece(h, c, k)))) by {
        let p = ps[k];
        let body = p.subrange(3, p.len() as int);
        assert(body =~= seq![nonce, k as u8] + piece(h, c, k));
        assert(body.subrange(2, body.len() as int) =~= piece(h, c, k));
    }
    lemma_joined_pieces(h, c, extension_count(h, c));
    assert(Seq::new(ps.len(), |k: int| piece(h, c, k)) =~= Seq::new(
        (extension_count(h, c) + 1) as nat,
        |k: int| piece(h, c, k),
    ));
    assert(c.subrange(0, reach(h, c, extension_count(h, c))) =~= c);
}

/// Encoding a post, a reply or a repost and reading back its payloads gives its
/// kind, nonce and reference in the first payload, extension payloads with the
/// same nonce at positions 1, 2, ..., and content pieces that join to the
/// original content.
pub proof fn lemma_post_round_trip(b: NewBork, nonce: u8)
    requires
        b is Bork || b is Comment || b is Rebork,
        encode_spec(b, nonce) is Ok,
    ensures
        ({
            let ps = encode_spec(b, nonce)->Ok_0;
            &&& ps.len() >= 1
            &&& forall|k: int| 0 <= k < ps.len() ==> (#[trigger] parse_spec(ps[k])) is Ok
            &&& parse_spec(ps[0])->Ok_0.kind == posted_kind(b)
            &&& parse_spec(ps[0])->Ok_0.nonce == Some(nonce)
            &&& parse_spec(ps[0])->Ok_0.reference == posted_reference(b)
            &&& forall|k: int|
                1 <= k < ps.len() ==> (#[trigger] parse_spec(ps[k]))->Ok_0.kind
                    == BorkType::Extension && parse_spec(ps[k])->Ok_0.nonce == Some(nonce)
                    && parse_spec(ps[k])->Ok_0.position == Some(k as u8)
            &&& joined(
                Seq::new(ps.len(), |k: int| parse_spec(ps[k])->Ok_0.content->0),
            ) == posted_content(b)
        }),
{
    let c = posted_content(b);
    let t = posted_kind(b);
    let rest = match b {
        NewBork::Bork { .. } => seq![nonce],
        NewBork::Comment { reference_id, .. } => seq![nonce, reference_id@.len() as u8]
            + reference_id@,
        NewBork::Rebork { reference_id, .. } => seq![nonce, reference_id@.len() as u8]
            + reference_id@,
        _ => Seq::empty(),
    };
    let h = prefix(t) + rest;
    assert(h =~= match b {
        NewBork::Bork { .. } => prefix(BorkType::Bork).push(nonce),
        _ => prefix(t) + seq![nonce, rest[1]] + rest.subrange(2, rest.len() as int),
    });
    if !(b is Bork) {
        assert(rest.subrange(2, rest.len() as int) =~= posted_reference(b)->0);
    }
    assert(encode_spec(b, nonce) == chunked(h, c, nonce));
    let ft = first_take(h, c);
    let body = rest + c.subrange(0, ft);
    if !(b is Bork) {
        assert(body.subrange(2, 2 + body[1]) =~= posted_reference(b)->0);
        assert(body.subrange(2 + body[1], body.len() as int) =~= c.subrange(0, ft));
    } else {
        assert(body.subrange(1, body.len() as int) =~= c.subrange(0, ft));
    }
    lemma_chunked_round_trip(t, h, rest, c, nonce);
    let ps = encode_spec(b, nonce)->Ok_0;
    assert(Seq::new(ps.len(), |k: int| parse_spec(ps[k])->Ok_0.content->0) =~= Seq::new(
        ps.len(),
        |k: int| piece(h, c, k),
    ));
}

/// The header after which a post's content is chunked, and the content piece
/// that each of its payloads reads as.
proof fn lemma_post_pieces(b: NewBork, nonce: u8) -> (h: Seq<u8>)
    requires
        b is Bork || b is Comment || b is Rebork,
        encode_spec(b, nonce) is Ok,
    ensures
        h.len() <= PAYLOAD_MAX,
        encode_spec(b, nonce)->Ok_0.len() == extension_count(h, posted_content(b)) + 1,
        forall|k: int|
            0 <= k < encode_spec(b, nonce)->Ok_0.len() ==> (#[trigger] parse_spec(
                encode_spec(b, nonce)->Ok_0[k],
            )) is Ok && parse_spec(encode_spec(b, nonce)->Ok_0[k])->Ok_0.content == Some(
                piece(h, posted_content(b), k),
            ),
{
    let c = posted_content(b);
    let t = posted_kind(b);
    let rest = match b {
        NewBork::Bork { .. } => seq![nonce],
        NewBork::Comment { reference_id, .. } => seq![nonce, reference_id@.len() as u8]
            + reference_id@,
        NewBork::Rebork { reference_id, .. } => seq![nonce, reference_id@.len() as u8]
            + reference_id@,
        _ => Seq::empty(),
    };
    let h = prefix(t) + rest;
    assert(h =~= match b {
        NewBork::Bork { .. } => prefix(BorkType::Bork).push(nonce),
        _ => prefix(t) + seq![nonce, rest[1]] + rest.subrange(2, rest.len() as int),
    });
    if !(b is Bork) {
        assert(rest.subrange(2, rest.len() as int) =~= posted_reference(b)->0);
    }
    assert(encode_spec(b, nonce) == chunked(h, c, nonce));
    let ft = first_take(h, c);
    let body = rest + c.subrange(0, ft);
    if !(b is Bork) {
        assert(body.subrange(2, 2 + body[1]) =~= posted_reference(b)->0);
        assert(body.subrange(2 + body[1], body.len() as int) =~= c.subrange(0, ft));
    } else {
        assert(body.subrange(1, body.len() as int) =~= c.subrange(0, ft));
    }
    lemma_chunked_round_trip(t, h, rest, c, nonce);
    let ps = encode_spec(b, nonce)->Ok_0;
    assert(parse_spec(ps[0])->Ok_0.content == Some(piece(h, c, 0)));
    h
}

/// A run of texts joined in order.
pub open spec fn joined_text(s: Seq<Seq<char>>) -> Seq<char>
    decreases s.len(),
{
    if s.len() == 0 {
        Seq::empty()
    } else {
        joined_text(s.drop_last()) + s.last()
    }
}

/// The text of a post, a reply or a repost.
pub open spec fn posted_text(b: NewBork) -> Seq<char> {
    match b {
        NewBork::Bork { content } => content@,
        NewBork::Comment { content, .. } => content@,
        NewBork::Rebork { content, .. } => content@,
        _ => Seq::empty(),
    }
}

/// A piece of the encoding of ASCII text is the encoding of the matching piece
/// of the text, and decodes to it.
proof fn lemma_ascii_piece(c: Seq<char>, a: int, e: int)
    requires
        is_ascii_chars(c),
        0 <= a <= e <= c.len(),
    ensures
        encode_utf8(c).len() == c.len(),
        valid_utf8(encode_utf8(c).subrange(a, e)),
        decode_utf8(encode_utf8(c).subrange(a, e)) == c.subrange(a, e),
{
    let sub = c.subrange(a, e);
    assert(is_ascii_chars(sub)) by {
        assert forall|i: int| 0 <= i < sub.len() implies '\0' <= #[trigger] sub[i] <= '\u{7f}' by {
            assert(sub[i] == c[a + i]);
        }
    }
    is_ascii_chars_encode_utf8(c);
    is_ascii_chars_encode_utf8(sub);
    assert(encode_utf8(c).subrange(a, e) =~= encode_utf8(sub));
    encode_utf8_decode_utf8(sub);
    encode_utf8_valid_utf8(sub);
}

proof fn lemma_joined_text(h: Seq<u8>, c: Seq<char>, j: int)
    requires
        h.len() <= PAYLOAD_MAX,
        is_ascii_chars(c),
        0 <= j <= extension_count(h, encode_utf8(c)),
    ensures
        joined_text(Seq::new((j + 1) as nat, |k: int| decode_utf8(piece(h, encode_utf8(c), k))))
            == c.subrange(0, reach(h, encode_utf8(c), j)),
    decreases j,
{
    let e = encode_utf8(c);
    lemma_count_facts(h, e);
    lemma_ascii_piece(c, 0, 0);
    let f = |k: int| decode_utf8(piece(h, e, k));
    let s = Seq::new((j + 1) as nat, f);
    let t = first_take(h, e);
    if j == 0 {
        lemma_ascii_piece(c, 0, t);
        assert(s.drop_last() =~= Seq::<Seq<char>>::empty());
        assert(joined_text(s.drop_last()) =~= Seq::<char>::empty());
        assert(joined_text(s) == joined_text(s.drop_last()) + s.last());
        assert(joined_text(s) =~= c.subrange(0, reach(h, e, j)));
    } else {
        lemma_joined_text(h, c, j - 1);
        lemma_before_end(h, e, j - 1);
        assert(s.drop_last() =~= Seq::new(j as nat, f));
        assert(reach(h, e, j - 1) == t + EXTENSION_CHUNK * (j - 1));
        let x = chunk_end(h, e, j - 1);
        assert(t + EXTENSION_CHUNK * (j - 1) <= x <= c.len());
        lemma_ascii_piece(c, t + EXTENSION_CHUNK * (j - 1), x);
        assert(joined_text(s) == joined_text(s.drop_last()) + s.last());
        assert(joined_text(s) =~= c.subrange(0, reach(h, e, j)));
    }
}

/// Encoding a post, a reply or a repost of ASCII text and reading back its
/// payloads gives content that is valid UTF-8 in each payload, and whose texts
/// join to the original text.
pub proof fn lemma_post_text_round_trip(b: NewBork, nonce: u8)
    requires
        b is Bork || b is Comment || b is Rebork,
        encode_spec(b, nonce) is Ok,
        is_ascii_chars(posted_text(b)),
    ensures
        ({
            let ps = encode_spec(b, nonce)->Ok_0;
            &&& forall|k: int|
                0 <= k < ps.len() ==> (#[trigger] parse_spec(ps[k])) is Ok && parse_spec(ps[k])->Ok_0.content
                    is Some && valid_utf8(parse_spec(ps[k])->Ok_0.content->0)
            &&& joined_text(
                Seq::new(ps.len(), |k: int| decode_utf8(parse_spec(ps[k])->Ok_0.content->0)),
            ) == posted_text(b)
        }),
{
    let c = posted_text(b);
    let e = encode_utf8(c);
    assert(posted_content(b) == e);
    lemma_ascii_piece(c, 0, 0);
    let h = lemma_post_pieces(b, nonce);
    let ps = encode_spec(b, nonce)->Ok_0;
    lemma_count_facts(h, e);
    let n = extension_count(h, e);
    assert forall|k: int| 0 <= k < ps.len() implies (#[trigger] parse_spec(ps[k])) is Ok && parse_spec(
        ps[k],
    )->Ok_0.content is Some && valid_utf8(parse_spec(ps[k])->Ok_0.content->0) by {
        if k == 0 {
            lemma_ascii_piece(c, 0, first_take(h, e));
        } else {
            lemma_before_end(h, e, k - 1);
            lemma_ascii_piece(c, first_take(h, e) + EXTENSION_CHUNK * (k - 1), chunk_end(h, e, k - 1));
        }
    }
    lemma_joined_text(h, c, n);
    assert(Seq::new(ps.len(), |k: int| decode_utf8(parse_spec(ps[k])->Ok_0.content->0)) =~= Seq::new(
        (n + 1) as nat,
        |k: int| decode_utf8(piece(h, e, k)),
    ));
    lemma_ascii_piece(c, 0, c.len() as int);
    assert(c.subrange(0, reach(h, e, n)) =~= c);
}


} // verus!
