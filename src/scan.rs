//! Reading transactions of a block: coins spent and created, and the message a
//! verified sender put in an OP_RETURN output.
use crate::address::{address_of, is_p2pkh_spec, p2pkh_script, pubkey_hash_to_addr, Network, OP_PUSHDATA1, OP_PUSHDATA2, OP_PUSHDATA4, OP_RETURN};
use crate::hashes::{ripemd160, ripemd160_of, sha256, sha256_of};
use crate::message::{decode, decode_error, decoded_message, hex_spec, string_views, to_hex, BorkTxData};
use crate::tx::{SIGHASH_ALL, ids_well_sized, legacy_sighash, legacy_sighash_of, tx_id, txid_of, Tx, TxModel, TxOutModel};
use vstd::prelude::*;

verus! {

/// A coin spent: the transaction that made it (hex, display order) and its index.
#[derive(Debug)]
pub struct UtxoId {
    pub txid: String,
    pub position: u32,
}

/// A coin made by a pay-to-public-key-hash output.
#[derive(Debug)]
pub struct NewUtxo {
    pub block_height: u64,
    pub txid: String,
    pub position: u32,
    pub address: String,
    pub value: u64,
    /// The whole transaction, in hex.
    pub raw: String,
}

/// What one transaction holds.
#[derive(Debug)]
pub struct ScannedTx {
    pub message: Option<BorkTxData>,
    pub spent: Vec<UtxoId>,
    pub created: Vec<NewUtxo>,
}

/// Whether a DER signature over a digest verifies under a compressed public key.
pub uninterp spec fn signature_valid_of(pubkey: Seq<u8>, digest: Seq<u8>, der: Seq<u8>) -> bool;

/// Relies on libsecp256k1's `verify` (with `PublicKey::parse_slice` for a compressed
/// key, `Signature::parse_der_lax` and `Message::parse_slice` to convert): false when
/// a part does not parse.
#[verifier::external_body]
fn verify_signature(pubkey: &[u8], digest: &[u8], der: &[u8]) -> (r: bool)
    ensures
        r == signature_valid_of(pubkey@, digest@, der@),
{
    let key = libsecp256k1::PublicKey::parse_slice(pubkey, Some(libsecp256k1::PublicKeyFormat::Compressed));
    let sig = libsecp256k1::Signature::parse_der_lax(der);
    let msg = libsecp256k1::Message::parse_slice(digest);
    match (key, sig, msg) {
        (Ok(k), Ok(s), Ok(m)) => libsecp256k1::verify(&m, &s, &k),
        _ => false,
    }
}

/// The id of a transaction as text: hex of its bytes in reverse order.
pub open spec fn txid_text(id: Seq<u8>) -> Seq<char> {
    hex_spec(id.reverse())
}

/// The data of an OP_RETURN script: what follows the opcode and the push header.
pub open spec fn op_return_data_of(s: Seq<u8>) -> Option<Seq<u8>> {
    if s.len() == 0 || s[0] != OP_RETURN {
        None
    } else {
        let skip: int = if s.len() < 2 {
            2
        } else if s[1] == OP_PUSHDATA1 {
            3
        } else if s[1] == OP_PUSHDATA2 {
            4
        } else if s[1] == OP_PUSHDATA4 {
            6
        } else {
            2
        };
        if skip <= s.len() {
            Some(s.subrange(skip, s.len() as int))
        } else {
            None
        }
    }
}

/// The data that the last OP_RETURN output among the first `n` carries.
pub open spec fn last_op_return(outs: Seq<TxOutModel>, n: int) -> Option<Seq<u8>>
    decreases n,
{
    if n <= 0 {
        None
    } else if outs[n - 1].script.len() > 0 && outs[n - 1].script[0] == OP_RETURN {
        op_return_data_of(outs[n - 1].script)
    } else {
        last_op_return(outs, n - 1)
    }
}

/// The data of the first two instructions of a script, when both are pushes.
pub uninterp spec fn first_two_pushes_of(script: Seq<u8>) -> Option<(Seq<u8>, Seq<u8>)>;

/// Relies on bitcoin's `Script::instructions_minimal`: the data of the first two
/// instructions, when both decode as pushes.
#[verifier::external_body]
fn first_two_pushes(script: &[u8]) -> (r: Option<(Vec<u8>, Vec<u8>)>)
    ensures
        match r {
            Some((a, b)) => first_two_pushes_of(script@) == Some((a@, b@)),
            None => first_two_pushes_of(script@) is None,
        },
{
    let mut it = bitcoin::Script::from_bytes(script).instructions_minimal();
    let a = match it.next() {
        Some(Ok(bitcoin::script::Instruction::PushBytes(p))) => p.as_bytes().to_vec(),
        _ => return None,
    };
    let b = match it.next() {
        Some(Ok(bitcoin::script::Instruction::PushBytes(p))) => p.as_bytes().to_vec(),
        _ => return None,
    };
    Some((a, b))
}

/// The sender of a transaction: the address of the public key that the first
/// input pushes after its signature (its first two instructions), when the signature (less its hash type
/// byte) verifies over that input's signature hash for type SIGHASH_ALL (0x01).
pub open spec fn sender_of(t: TxModel, network: Network) -> Option<Seq<char>> {
    if t.inputs.len() == 0 {
        None
    } else {
        match first_two_pushes_of(t.inputs[0].script_sig) {
            None => None,
            Some((sig, pk)) => {
                let h = ripemd160_of(sha256_of(pk));
                let digest = legacy_sighash_of(t, 0, p2pkh_script(h), SIGHASH_ALL);
                if sig.len() > 0 && h.len() == 20 && signature_valid_of(pk, digest, sig.drop_last()) {
                    Some(address_of(h, network))
                } else {
                    None
                }
            },
        }
    }
}

/// The pay-to-public-key-hash outputs among the first `n`, as (index, output).
pub open spec fn p2pkh_outputs(outs: Seq<TxOutModel>, n: int) -> Seq<(int, TxOutModel)>
    decreases n,
{
    if n <= 0 {
        Seq::empty()
    } else if is_p2pkh_spec(outs[n - 1].script) {
        p2pkh_outputs(outs, n - 1).push((n - 1, outs[n - 1]))
    } else {
        p2pkh_outputs(outs, n - 1)
    }
}

/// The data of an OP_RETURN script.
pub fn op_return_data(s: &[u8]) -> (r: Option<Vec<u8>>)
    ensures
        match r {
            Some(d) => op_return_data_of(s@) == Some(d@),
            None => op_return_data_of(s@) is None,
        },
{
    if s.len() == 0 || s[0] != OP_RETURN {
        return None;
    }
    let skip: usize = if s.len() < 2 {
        2
    } else if s[1] == OP_PUSHDATA1 {
        3
    } else if s[1] == OP_PUSHDATA2 {
        4
    } else if s[1] == OP_PUSHDATA4 {
        6
    } else {
        2
    };
    if skip <= s.len() {
        Some(vstd::slice::slice_to_vec(vstd::slice::slice_subrange(s, skip, s.len())))
    } else {
        None
    }
}

/// The sender of a transaction, if its first input proves one.
pub fn sender(t: &Tx, network: Network) -> (r: Option<String>)
    requires
        ids_well_sized(t@),
    ensures
        match r {
            Some(a) => sender_of(t@, network) == Some(a@),
            None => sender_of(t@, network) is None,
        },
{
    if t.inputs.len() == 0 {
        return None;
    }
    assert(t@.inputs[0].script_sig == t.inputs@[0].script_sig@);
    let (sig_v, pk_v) = first_two_pushes(t.inputs[0].script_sig.as_slice())?;
    let sig = sig_v.as_slice();
    let pk = pk_v.as_slice();
    if sig.len() == 0 {
        return None;
    }
    let h = ripemd160(sha256(pk).as_slice());
    let script = crate::address::hash_to_script(h.as_slice());
    let digest = legacy_sighash(t, 0, script.as_slice(), SIGHASH_ALL);
    let der = vstd::slice::slice_subrange(sig, 0, sig.len() - 1);
    proof {
        assert(der@ =~= sig@.drop_last());
    }
    if verify_signature(pk, digest.as_slice(), der) {
        Some(pubkey_hash_to_addr(h.as_slice(), network))
    } else {
        None
    }
}

/// The id of a transaction as text.
pub fn txid_string(id: &[u8]) -> (r: String)
    ensures
        r@ == txid_text(id@),
{
    let mut rev: Vec<u8> = Vec::new();
    let mut i = id.len();
    while i > 0
        invariant
            i <= id@.len(),
            rev@ == id@.reverse().subrange(0, id@.len() - i),
        decreases i,
    {
        i = i - 1;
        rev.push(id[i]);
        assert(rev@ =~= id@.reverse().subrange(0, id@.len() - i));
    }
    assert(id@.reverse().subrange(0, id@.len() as int) =~= id@.reverse());
    to_hex(rev.as_slice())
}

/// A spent coin, as (transaction id text, index).
pub open spec fn spent_view(u: UtxoId) -> (Seq<char>, u32) {
    (u.txid@, u.position)
}

/// A created coin, as (height, id text, index, address, value, raw hex).
pub open spec fn created_view(u: NewUtxo) -> (u64, Seq<char>, u32, Seq<char>, u64, Seq<char>) {
    (u.block_height, u.txid@, u.position, u.address@, u.value, u.raw@)
}

/// The coins a transaction spends.
pub open spec fn spent_of(t: TxModel) -> Seq<(Seq<char>, u32)> {
    t.inputs.map_values(|i: crate::tx::TxInModel| (txid_text(i.prev_txid), i.vout))
}

/// The coins a transaction with bytes `raw` creates, found at `height`.
pub open spec fn created_of(t: TxModel, raw: Seq<u8>, height: u64, network: Network) -> Seq<
    (u64, Seq<char>, u32, Seq<char>, u64, Seq<char>),
> {
    p2pkh_outputs(t.outputs, t.outputs.len() as int).map_values(
        |p: (int, TxOutModel)|
            (
                height,
                txid_text(txid_of(t)),
                p.0 as u32,
                address_of(p.1.script.subrange(3, 23), network),
                p.1.value,
                hex_spec(raw),
            ),
    )
}

/// The addresses of created coins.
pub open spec fn addresses_of(cv: Seq<(u64, Seq<char>, u32, Seq<char>, u64, Seq<char>)>) -> Seq<Seq<char>> {
    cv.map_values(|c: (u64, Seq<char>, u32, Seq<char>, u64, Seq<char>)| c.3)
}

/// `s` without the entries equal to `x`, in order.
pub open spec fn without(s: Seq<Seq<char>>, x: Seq<char>) -> Seq<Seq<char>>
    decreases s.len(),
{
    if s.len() == 0 {
        s
    } else if s.last() != x {
        without(s.drop_last(), x).push(s.last())
    } else {
        without(s.drop_last(), x)
    }
}

/// The message of a transaction: none without a proved sender or an OP_RETURN
/// output; else the message its data decodes to, with the created addresses
/// other than the sender's as recipients, or none if it does not decode.
pub open spec fn message_found(
    m: Option<BorkTxData>,
    t: TxModel,
    raw: Seq<u8>,
    height: u64,
    network: Network,
    time: u32,
) -> bool {
    let addrs = addresses_of(created_of(t, raw, height, network));
    match sender_of(t, network) {
        None => m is None,
        Some(from) => match last_op_return(t.outputs, t.outputs.len() as int) {
            None => m is None,
            Some(d) => {
                let others = without(addrs, from);
                match m {
                    Some(msg) => decode_error(d, others) is None && decoded_message(
                        msg,
                        d,
                        others,
                        txid_text(txid_of(t)),
                        from,
                        network,
                        time,
                    ),
                    None => decode_error(d, others) is Some,
                }
            },
        },
    }
}

/// Reads one transaction of a block: the coins it spends and creates, and its
/// message, stamped with the block time, when a sender is proved, an OP_RETURN output is there and it decodes.
/// The other created addresses, less the sender's, are its recipients.
pub fn parse_tx(t: &Tx, raw: &[u8], block_height: u64, network: Network, time: u32) -> (r: ScannedTx)
    requires
        ids_well_sized(t@),
        t@.outputs.len() <= u32::MAX,
    ensures
        r.spent@.map_values(|u: UtxoId| spent_view(u)) == spent_of(t@),
        r.created@.map_values(|u: NewUtxo| created_view(u)) == created_of(
            t@,
            raw@,
            block_height,
            network,
        ),
        message_found(r.message, t@, raw@, block_height, network, time),
{
    let id = tx_id(t);
    let id_text = txid_string(id.as_slice());
    let raw_hex = to_hex(raw);
    let ghost outs = t@.outputs;
    let mut created: Vec<NewUtxo> = Vec::new();
    let mut op_ret: Option<Vec<u8>> = None;
    let mut k: usize = 0;
    while k < t.outputs.len()
        invariant
            outs == t@.outputs,
            outs.len() <= u32::MAX,
            k <= outs.len(),
            id_text@ == txid_text(txid_of(t@)),
            raw_hex@ == hex_spec(raw@),
            created@.map_values(|u: NewUtxo| created_view(u)) == p2pkh_outputs(outs, k as int).map_values(
                |p: (int, TxOutModel)|
                    (
                        block_height,
                        txid_text(txid_of(t@)),
                        p.0 as u32,
                        address_of(p.1.script.subrange(3, 23), network),
                        p.1.value,
                        hex_spec(raw@),
                    ),
            ),
            match op_ret {
                Some(d) => last_op_return(outs, k as int) == Some(d@),
                None => last_op_return(outs, k as int) is None,
            },
        decreases outs.len() - k,
    {
        let o = &t.outputs[k];
        assert(outs[k as int] == o@);
        let ghost before = created@.map_values(|u: NewUtxo| created_view(u));
        if crate::address::is_p2pkh(o.script.as_slice()) {
            let hash = vstd::slice::slice_subrange(o.script.as_slice(), 3, 23);
            let address = pubkey_hash_to_addr(hash, network);
            created.push(
                NewUtxo {
                    block_height,
                    txid: id_text.clone(),
                    position: k as u32,
                    address,
                    value: o.value,
                    raw: raw_hex.clone(),
                },
            );
            assert(created@.map_values(|u: NewUtxo| created_view(u)) =~= before.push(
                (
                    block_height,
                    txid_text(txid_of(t@)),
                    k as u32,
                    address_of(o@.script.subrange(3, 23), network),
                    o.value,
                    hex_spec(raw@),
                ),
            ));
        } else if o.script.len() > 0 && o.script[0] == OP_RETURN {
            op_ret = op_return_data(o.script.as_slice());
        }
        k = k + 1;
    }
    let mut spent: Vec<UtxoId> = Vec::new();
    let mut j: usize = 0;
    while j < t.inputs.len()
        invariant
            j <= t.inputs@.len(),
            spent@.len() == j,
            forall|x: int|
                0 <= x < j ==> spent_view(#[trigger] spent@[x]) == spent_of(t@)[x],
        decreases t.inputs@.len() - j,
    {
        let i = &t.inputs[j];
        spent.push(UtxoId { txid: txid_string(i.prev_txid.as_slice()), position: i.vout });
        j = j + 1;
    }
    assert(spent@.map_values(|u: UtxoId| spent_view(u)) =~= spent_of(t@));
    let message = match sender(t, network) {
        None => None,
        Some(from) => match op_ret {
            None => None,
            Some(d) => {
                let others = others_than(&created, &from);
                match decode(d.as_slice(), others.as_slice(), id_text, from, network, time) {
                    Ok(m) => Some(m),
                    Err(_) => None,
                }
            },
        },
    };
    ScannedTx { message, spent, created }
}

/// The addresses of created coins, less `from`, in order.
fn others_than(created: &Vec<NewUtxo>, from: &String) -> (r: Vec<String>)
    ensures
        string_views(r@) == without(addresses_of(created@.map_values(|u: NewUtxo| created_view(u))), from@),
{
    let ghost addrs = addresses_of(created@.map_values(|u: NewUtxo| created_view(u)));
    let mut r: Vec<String> = Vec::new();
    let mut k: usize = 0;
    assert(string_views(r@) =~= without(addrs.subrange(0, 0), from@));
    while k < created.len()
        invariant
            k <= created@.len(),
            addrs == addresses_of(created@.map_values(|u: NewUtxo| created_view(u))),
            string_views(r@) == without(addrs.subrange(0, k as int), from@),
        decreases created@.len() - k,
    {
        let ghost before = string_views(r@);
        proof {
            assert(addrs.subrange(0, k + 1).drop_last() =~= addrs.subrange(0, k as int));
            assert(addrs[k as int] == created@[k as int].address@);
        }
        if !same_text(&created[k].address, from) {
            r.push(created[k].address.clone());
            assert(string_views(r@) =~= before.push(created@[k as int].address@));
        }
        k = k + 1;
    }
    assert(addrs.subrange(0, k as int) =~= addrs);
    r
}

/// Whether two strings hold the same characters.
fn same_text(a: &String, b: &String) -> (r: bool)
    ensures
        r == (a@ == b@),
{
    *a == *b
}

} // verus!
