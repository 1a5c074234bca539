//! Transactions: their model, and building and signing a payment.
use crate::address::{addr_to_script, address_ok, encodes, p2pkh_script, OP_PUSHDATA1, OP_RETURN};
use crate::keys::{compressed_pubkey_of, valid_secret};
use crate::wallet::{pubkey_hash_of, secret_part, ChildWallet};
use vstd::prelude::*;

verus! {

/// Sequence number of every input built here.
pub const FINAL_SEQUENCE: u32 = 0xFFFF_FFFF;

/// Signature hash type: all inputs and outputs.
pub const SIGHASH_ALL: u32 = 1;

/// Length of a transaction id.
pub const TXID_LEN: usize = 32;

/// Largest OP_RETURN payload that one push carries.
pub const OP_RETURN_MAX: usize = 255;

/// Why a payment could not be built.
#[derive(Debug, Clone, Copy, PartialEq, Eq, Structural)]
pub enum TxError {
    /// An input transaction does not decode.
    InvalidTransaction,
    /// An output address is not a pay-to-public-key-hash address.
    InvalidAddress,
    /// The coins spent do not cover the outputs and the fee.
    InsufficientFunds,
    /// A sum of values does not fit in 64 bits.
    ValueOverflow,
    /// An OP_RETURN payload over 255 bytes.
    PayloadTooLong,
}

/// A transaction input.
#[derive(Debug)]
pub struct TxIn {
    pub prev_txid: Vec<u8>,
    pub vout: u32,
    pub script_sig: Vec<u8>,
    pub sequence: u32,
}

/// A transaction output.
#[derive(Debug)]
pub struct TxOut {
    pub value: u64,
    pub script: Vec<u8>,
}

/// A transaction without witness data.
#[derive(Debug)]
pub struct Tx {
    pub version: i32,
    pub lock_time: u32,
    pub inputs: Vec<TxIn>,
    pub outputs: Vec<TxOut>,
}

pub struct TxInModel {
    pub prev_txid: Seq<u8>,
    pub vout: u32,
    pub script_sig: Seq<u8>,
    pub sequence: u32,
}

pub struct TxOutModel {
    pub value: u64,
    pub script: Seq<u8>,
}

pub struct TxModel {
    pub version: i32,
    pub lock_time: u32,
    pub inputs: Seq<TxInModel>,
    pub outputs: Seq<TxOutModel>,
}

impl View for TxIn {
    type V = TxInModel;

    open spec fn view(&self) -> TxInModel {
        TxInModel {
            prev_txid: self.prev_txid@,
            vout: self.vout,
            script_sig: self.script_sig@,
            sequence: self.sequence,
        }
    }
}

impl View for TxOut {
    type V = TxOutModel;

    open spec fn view(&self) -> TxOutModel {
        TxOutModel { value: self.value, script: self.script@ }
    }
}

impl View for Tx {
    type V = TxModel;

    open spec fn view(&self) -> TxModel {
        TxModel {
            version: self.version,
            lock_time: self.lock_time,
            inputs: self.inputs@.map_values(|i: TxIn| i@),
            outputs: self.outputs@.map_values(|o: TxOut| o@),
        }
    }
}

/// Every input names its previous transaction by a 32-byte id.
pub open spec fn ids_well_sized(t: TxModel) -> bool {
    forall|k: int| 0 <= k < t.inputs.len() ==> (#[trigger] t.inputs[k]).prev_txid.len() == TXID_LEN
}

/// The consensus bytes of a transaction.
pub uninterp spec fn tx_bytes_of(t: TxModel) -> Seq<u8>;

/// The transaction that consensus bytes decode to, if any.
pub uninterp spec fn decoded_tx_of(raw: Seq<u8>) -> Option<TxModel>;

/// The legacy signature hash of input `index` against `script`.
pub uninterp spec fn legacy_sighash_of(t: TxModel, index: int, script: Seq<u8>, sighash_type: u32) -> Seq<u8>;

/// The DER signature of a 32-byte digest by a secret key (RFC 6979 nonce).
pub uninterp spec fn der_signature_of(secret: Seq<u8>, digest: Seq<u8>) -> Seq<u8>;

/// The outside transaction type, carried opaque.
#[verifier::external_type_specification]
#[verifier::external_body]
pub struct ExTransaction(bitcoin::Transaction);

/// Relies on bitcoin's `Transaction` constructors (`Txid::from_byte_array`, `Amount::from_sat`,
/// `ScriptBuf::from_bytes`): builds its transaction from the model, each field moved one for one.
#[verifier::external_body]
fn to_bitcoin(t: &Tx) -> bitcoin::Transaction
    requires
        ids_well_sized(t@),
{
    bitcoin::Transaction {
        version: bitcoin::transaction::Version(t.version),
        lock_time: bitcoin::absolute::LockTime::from_consensus(t.lock_time),
        input: t.inputs.iter().map(|i| bitcoin::TxIn {
            previous_output: bitcoin::OutPoint { txid: <bitcoin::Txid as bitcoin::hashes::Hash>::from_byte_array(i.prev_txid.as_slice().try_into().unwrap()), vout: i.vout },
            script_sig: bitcoin::ScriptBuf::from_bytes(i.script_sig.clone()),
            sequence: bitcoin::Sequence(i.sequence),
            witness: bitcoin::Witness::new(),
        }).collect(),
        output: t.outputs.iter().map(|o| bitcoin::TxOut { value: bitcoin::Amount::from_sat(o.value), script_pubkey: bitcoin::ScriptBuf::from_bytes(o.script.clone()) }).collect(),
    }
}

/// Relies on bitcoin's `consensus::serialize` of a transaction: bytes that depend on
/// the transaction alone.
#[verifier::external_body]
pub fn encode_tx(t: &Tx) -> (r: Vec<u8>)
    requires
        ids_well_sized(t@),
    ensures
        r@ == tx_bytes_of(t@),
{
    bitcoin::consensus::serialize(&to_bitcoin(t))
}

/// Relies on bitcoin's `consensus::deserialize::<Transaction>`: the transaction the
/// bytes hold, with ids of 32 bytes; witness data is dropped.
#[verifier::external_body]
pub fn decode_tx(raw: &[u8]) -> (r: Option<Tx>)
    ensures
        match r {
            Some(t) => decoded_tx_of(raw@) == Some(t@) && ids_well_sized(t@),
            None => decoded_tx_of(raw@) is None,
        },
{
    let t: bitcoin::Transaction = bitcoin::consensus::deserialize(raw).ok()?;
    Some(Tx {
        version: t.version.0,
        lock_time: t.lock_time.to_consensus_u32(),
        inputs: t.input.iter().map(|i| TxIn { prev_txid: bitcoin::hashes::Hash::to_byte_array(i.previous_output.txid).to_vec(), vout: i.previous_output.vout, script_sig: i.script_sig.to_bytes(), sequence: i.sequence.0 }).collect(),
        outputs: t.output.iter().map(|o| TxOut { value: o.value.to_sat(), script: o.script_pubkey.to_bytes() }).collect(),
    })
}

/// Relies on bitcoin's `SighashCache::legacy_signature_hash`: a 32-byte digest that
/// depends on its arguments alone; it fails only for an input index out of range.
#[verifier::external_body]
pub fn legacy_sighash(t: &Tx, index: usize, script: &[u8], sighash_type: u32) -> (r: Vec<u8>)
    requires
        ids_well_sized(t@),
        index < t@.inputs.len(),
    ensures
        r@ == legacy_sighash_of(t@, index as int, script@, sighash_type),
        r@.len() == 32,
{
    let tx = to_bitcoin(t);
    let cache = bitcoin::sighash::SighashCache::new(&tx);
    let script = bitcoin::Script::from_bytes(script);
    bitcoin::hashes::Hash::to_byte_array(cache.legacy_signature_hash(index, script, sighash_type).unwrap()).to_vec()
}

/// Relies on libsecp256k1's `sign` and `Signature::serialize_der`: a deterministic
/// signature, at most 72 bytes of DER.
#[verifier::external_body]
pub fn sign_digest(secret: &[u8], digest: &[u8]) -> (r: Vec<u8>)
    requires
        valid_secret(secret@),
        digest@.len() == 32,
    ensures
        r@ == der_signature_of(secret@, digest@),
        r@.len() <= 72,
{
    let key = libsecp256k1::SecretKey::parse_slice(secret).unwrap();
    let msg = libsecp256k1::Message::parse_slice(digest).unwrap();
    libsecp256k1::sign(&msg, &key).0.serialize_der().as_ref().to_vec()
}

/// The id of a transaction.
pub uninterp spec fn txid_of(t: TxModel) -> Seq<u8>;

/// Relies on bitcoin's `Transaction::compute_txid`: the 32-byte id of the
/// transaction without witness data, which depends on the transaction alone.
#[verifier::external_body]
pub fn tx_id(t: &Tx) -> (r: Vec<u8>)
    requires
        ids_well_sized(t@),
    ensures
        r@ == txid_of(t@),
        r@.len() == 32,
{
    bitcoin::hashes::Hash::to_byte_array(to_bitcoin(t).compute_txid()).to_vec()
}

/// A coin that an input may spend: where it is and what it is worth.
#[derive(Debug)]
pub struct Coin {
    pub txid: Vec<u8>,
    pub vout: u32,
    pub value: u64,
}

/// The coins among outputs `outs` (of transaction `id`) from index `from`
/// whose script is `script`, in order.
pub open spec fn coins_in(id: Seq<u8>, outs: Seq<TxOutModel>, script: Seq<u8>, from: int) -> Seq<(Seq<u8>, u32, u64)>
    decreases outs.len() - from,
{
    if from < 0 || from >= outs.len() {
        Seq::empty()
    } else {
        let rest = coins_in(id, outs, script, from + 1);
        if outs[from].script == script {
            seq![(id, from as u32, outs[from].value)] + rest
        } else {
            rest
        }
    }
}

/// The coins paying `script` in transactions `txs` with ids `ids`, in order.
pub open spec fn coins_of(txs: Seq<TxModel>, ids: Seq<Seq<u8>>, script: Seq<u8>) -> Seq<(Seq<u8>, u32, u64)>
    decreases txs.len(),
{
    if txs.len() == 0 {
        Seq::empty()
    } else {
        coins_of(txs.drop_last(), ids.drop_last(), script) + coins_in(ids.last(), txs.last().outputs, script, 0)
    }
}

/// The sum of the values of coins.
pub open spec fn total(coins: Seq<(Seq<u8>, u32, u64)>) -> int
    decreases coins.len(),
{
    if coins.len() == 0 {
        0
    } else {
        total(coins.drop_last()) + coins.last().2
    }
}

/// The sum of values.
pub open spec fn sum_values(vs: Seq<u64>) -> int
    decreases vs.len(),
{
    if vs.len() == 0 {
        0
    } else {
        sum_values(vs.drop_last()) + vs.last()
    }
}

pub open spec fn coin_views(v: Seq<Coin>) -> Seq<(Seq<u8>, u32, u64)> {
    v.map_values(|c: Coin| (c.txid@, c.vout, c.value))
}

/// The coins that outputs `from..` of one transaction hold for `script`.
fn coins_from(id: &Vec<u8>, outs: &Vec<TxOut>, script: &Vec<u8>, from: usize) -> (r: Vec<Coin>)
    requires
        from <= outs@.len(),
        outs@.len() <= u32::MAX,
    ensures
        coin_views(r@) == coins_in(id@, outs@.map_values(|o: TxOut| o@), script@, from as int),
    decreases outs@.len() - from,
{
    let ghost ov = outs@.map_values(|o: TxOut| o@);
    if from == outs.len() {
        let r: Vec<Coin> = Vec::new();
        assert(coin_views(r@) =~= Seq::<(Seq<u8>, u32, u64)>::empty());
        return r;
    }
    let rest = coins_from(id, outs, script, from + 1);
    if same_bytes(&outs[from].script, script) {
        let mut r: Vec<Coin> = Vec::new();
        r.push(Coin { txid: copy_bytes(id), vout: from as u32, value: outs[from].value });
        let mut rest = rest;
        let ghost tail = coin_views(rest@);
        r.append(&mut rest);
        assert(coin_views(r@) =~= seq![(id@, from as u32, outs@[from as int].value)] + tail);
        r
    } else {
        rest
    }
}

pub(crate) fn copy_bytes(v: &Vec<u8>) -> (r: Vec<u8>)
    ensures
        r@ == v@,
{
    vstd::slice::slice_to_vec(v.as_slice())
}

/// Whether two byte vectors are equal.
pub fn same_bytes(a: &Vec<u8>, b: &Vec<u8>) -> (r: bool)
    ensures
        r == (a@ == b@),
{
    if a.len() != b.len() {
        return false;
    }
    let mut i: usize = 0;
    while i < a.len()
        invariant
            a@.len() == b@.len(),
            i <= a@.len(),
            forall|j: int| 0 <= j < i ==> a@[j] == b@[j],
        decreases a@.len() - i,
    {
        if a[i] != b[i] {
            return false;
        }
        i = i + 1;
    }
    assert(a@ =~= b@);
    true
}

/// The coins paying `script` in transactions `txs` whose ids are `ids`.
pub fn select_coins(txs: &Vec<Tx>, ids: &Vec<Vec<u8>>, script: &Vec<u8>) -> (r: Vec<Coin>)
    requires
        ids@.len() == txs@.len(),
        forall|k: int| 0 <= k < txs@.len() ==> (#[trigger] txs@[k]).outputs@.len() <= u32::MAX,
    ensures
        coin_views(r@) == coins_of(
            txs@.map_values(|t: Tx| t@),
            ids@.map_values(|v: Vec<u8>| v@),
            script@,
        ),
{
    let mut r: Vec<Coin> = Vec::new();
    let mut k: usize = 0;
    while k < txs.len()
        invariant
            ids@.len() == txs@.len(),
            forall|j: int| 0 <= j < txs@.len() ==> (#[trigger] txs@[j]).outputs@.len() <= u32::MAX,
            k <= txs@.len(),
            coin_views(r@) == coins_of(
                txs@.map_values(|t: Tx| t@).subrange(0, k as int),
                ids@.map_values(|v: Vec<u8>| v@).subrange(0, k as int),
                script@,
            ),
        decreases txs@.len() - k,
    {
        let mut found = coins_from(&ids[k], &txs[k].outputs, script, 0);
        let ghost before = coin_views(r@);
        r.append(&mut found);
        proof {
            let tv = txs@.map_values(|t: Tx| t@);
            let iv = ids@.map_values(|v: Vec<u8>| v@);
            assert(tv.subrange(0, k + 1).drop_last() =~= tv.subrange(0, k as int));
            assert(iv.subrange(0, k + 1).drop_last() =~= iv.subrange(0, k as int));
            assert(tv[k as int].outputs =~= txs@[k as int].outputs@.map_values(|o: TxOut| o@));
            assert(coin_views(r@) =~= before + coins_in(iv[k as int], tv[k as int].outputs, script@, 0));
        }
        k = k + 1;
    }
    proof {
        assert(txs@.map_values(|t: Tx| t@).subrange(0, k as int) =~= txs@.map_values(|t: Tx| t@));
        assert(ids@.map_values(|v: Vec<u8>| v@).subrange(0, k as int) =~= ids@.map_values(|v: Vec<u8>| v@));
    }
    r
}

proof fn lemma_coins_in_id(id: Seq<u8>, outs: Seq<TxOutModel>, script: Seq<u8>, from: int)
    ensures
        forall|j: int|
            0 <= j < coins_in(id, outs, script, from).len() ==> (#[trigger] coins_in(
                id,
                outs,
                script,
                from,
            )[j]).0 == id,
    decreases outs.len() - from,
{
    if 0 <= from < outs.len() {
        lemma_coins_in_id(id, outs, script, from + 1);
        let rest = coins_in(id, outs, script, from + 1);
        if outs[from].script == script {
            let all = seq![(id, from as u32, outs[from].value)] + rest;
            assert forall|j: int| 0 <= j < all.len() implies (#[trigger] all[j]).0 == id by {
                if j > 0 {
                    assert(all[j] == rest[j - 1]);
                }
            }
        }
    }
}

proof fn lemma_coins_ids(txs: Seq<TxModel>, ids: Seq<Seq<u8>>, script: Seq<u8>)
    requires
        txs.len() == ids.len(),
        forall|k: int| 0 <= k < ids.len() ==> (#[trigger] ids[k]).len() == TXID_LEN,
    ensures
        forall|j: int|
            0 <= j < coins_of(txs, ids, script).len() ==> (#[trigger] coins_of(txs, ids, script)[j]).0.len()
                == TXID_LEN,
    decreases txs.len(),
{
    if txs.len() > 0 {
        lemma_coins_ids(txs.drop_last(), ids.drop_last(), script);
        lemma_coins_in_id(ids.last(), txs.last().outputs, script, 0);
        let a = coins_of(txs.drop_last(), ids.drop_last(), script);
        let b = coins_in(ids.last(), txs.last().outputs, script, 0);
        assert forall|j: int| 0 <= j < (a + b).len() implies (#[trigger] (a + b)[j]).0.len() == TXID_LEN by {
            if j >= a.len() {
                assert((a + b)[j] == b[j - a.len()]);
            }
        }
    }
}

/// The change left after paying `outputs_total` and `fee` from `input_total`.
pub fn plan_change(input_total: u64, outputs_total: u64, fee: u64) -> (r: Result<u64, TxError>)
    ensures
        match r {
            Ok(c) => input_total >= outputs_total + fee && c == input_total - outputs_total - fee,
            Err(e) => input_total < outputs_total + fee && e == TxError::InsufficientFunds,
        },
{
    if input_total < fee || input_total - fee < outputs_total {
        Err(TxError::InsufficientFunds)
    } else {
        Ok(input_total - fee - outputs_total)
    }
}

/// The OP_RETURN script carrying `data` in one OP_PUSHDATA1 push.
pub open spec fn op_return_script_of(data: Seq<u8>) -> Seq<u8> {
    seq![OP_RETURN, OP_PUSHDATA1, data.len() as u8] + data
}

/// The OP_RETURN script carrying `data`.
pub fn op_return_script(data: &[u8]) -> (r: Result<Vec<u8>, TxError>)
    ensures
        match r {
            Ok(s) => data@.len() <= OP_RETURN_MAX && s@ == op_return_script_of(data@),
            Err(e) => data@.len() > OP_RETURN_MAX && e == TxError::PayloadTooLong,
        },
{
    if data.len() > OP_RETURN_MAX {
        return Err(TxError::PayloadTooLong);
    }
    let mut s: Vec<u8> = Vec::new();
    s.push(OP_RETURN);
    s.push(OP_PUSHDATA1);
    s.push(data.len() as u8);
    let mut i: usize = 0;
    while i < data.len()
        invariant
            i <= data@.len() <= OP_RETURN_MAX,
            s@ == seq![OP_RETURN, OP_PUSHDATA1, data@.len() as u8] + data@.subrange(0, i as int),
        decreases data@.len() - i,
    {
        s.push(data[i]);
        i = i + 1;
        assert(s@ =~= seq![OP_RETURN, OP_PUSHDATA1, data@.len() as u8] + data@.subrange(0, i as int));
    }
    assert(data@.subrange(0, data@.len() as int) =~= data@);
    Ok(s)
}

/// The unlocking script of a pay-to-public-key-hash input: the signature with
/// its hash type byte, then the public key, each pushed with its length.
pub open spec fn sig_script_of(sig: Seq<u8>, pubkey: Seq<u8>) -> Seq<u8> {
    seq![(sig.len() + 1) as u8] + sig + seq![SIGHASH_ALL as u8, pubkey.len() as u8] + pubkey
}

/// The unlocking script of a pay-to-public-key-hash input.
pub fn sig_script(sig: &[u8], pubkey: &[u8]) -> (r: Vec<u8>)
    requires
        sig@.len() < 255,
        pubkey@.len() < 256,
    ensures
        r@ == sig_script_of(sig@, pubkey@),
{
    let mut s: Vec<u8> = Vec::new();
    s.push((sig.len() + 1) as u8);
    let mut i: usize = 0;
    while i < sig.len()
        invariant
            i <= sig@.len() < 255,
            s@ == seq![(sig@.len() + 1) as u8] + sig@.subrange(0, i as int),
        decreases sig@.len() - i,
    {
        s.push(sig[i]);
        i = i + 1;
        assert(s@ =~= seq![(sig@.len() + 1) as u8] + sig@.subrange(0, i as int));
    }
    s.push(SIGHASH_ALL as u8);
    s.push(pubkey.len() as u8);
    let mut j: usize = 0;
    while j < pubkey.len()
        invariant
            j <= pubkey@.len() < 256,
            sig@.len() < 255,
            s@ == seq![(sig@.len() + 1) as u8] + sig@ + seq![SIGHASH_ALL as u8, pubkey@.len() as u8]
                + pubkey@.subrange(0, j as int),
        decreases pubkey@.len() - j,
    {
        s.push(pubkey[j]);
        j = j + 1;
        assert(s@ =~= seq![(sig@.len() + 1) as u8] + sig@ + seq![SIGHASH_ALL as u8, pubkey@.len() as u8]
            + pubkey@.subrange(0, j as int));
    }
    assert(sig@.subrange(0, sig@.len() as int) =~= sig@);
    assert(pubkey@.subrange(0, pubkey@.len() as int) =~= pubkey@);
    s
}

/// Whether `script` pays the address `addr`: the pay-to-public-key-hash script
/// of the hash that the address carries.
pub open spec fn script_pays(script: Seq<u8>, addr: Seq<char>) -> bool {
    exists|v: u8, h: Seq<u8>| encodes(addr, v, h) && script == p2pkh_script(h)
}

/// The outputs of a payment: one per requested (address, value), then the
/// change to `own`, then the OP_RETURN script, if any.
pub open spec fn pays(
    out: Seq<TxOutModel>,
    requested: Seq<(String, u64)>,
    change: u64,
    own: Seq<u8>,
    op_return: Option<Seq<u8>>,
) -> bool {
    let n = requested.len() as int;
    &&& out.len() == n + 1 + if op_return is Some {
        1int
    } else {
        0int
    }
    &&& forall|k: int|
        0 <= k < n ==> (#[trigger] out[k]).value == requested[k].1 && script_pays(
            out[k].script,
            requested[k].0@,
        )
    &&& out[n] == (TxOutModel { value: change, script: own })
    &&& op_return matches Some(d) ==> out[n + 1] == (TxOutModel { value: 0, script: op_return_script_of(d) })
}

/// The unsigned transaction spending `coins` into `out`.
pub open spec fn unsigned_model(coins: Seq<(Seq<u8>, u32, u64)>, out: Seq<TxOutModel>) -> TxModel {
    TxModel {
        version: 1,
        lock_time: 0,
        inputs: coins.map_values(
            |c: (Seq<u8>, u32, u64)|
                TxInModel { prev_txid: c.0, vout: c.1, script_sig: Seq::empty(), sequence: FINAL_SEQUENCE },
        ),
        outputs: out,
    }
}

/// `u` with each input signed by `secret` against `script`.
pub open spec fn signed_model(u: TxModel, secret: Seq<u8>, script: Seq<u8>) -> TxModel {
    TxModel {
        inputs: Seq::new(
            u.inputs.len(),
            |i: int|
                TxInModel {
                    script_sig: sig_script_of(
                        der_signature_of(secret, legacy_sighash_of(u, i, script, SIGHASH_ALL)),
                        compressed_pubkey_of(secret),
                    ),
                    ..u.inputs[i]
                },
        ),
        ..u
    }
}

pub open spec fn raw_views(v: Seq<Vec<u8>>) -> Seq<Seq<u8>> {
    v.map_values(|b: Vec<u8>| b@)
}

/// Decodes transactions and computes their ids.
fn decode_all(inputs: &[Vec<u8>]) -> (r: Result<(Vec<Tx>, Vec<Vec<u8>>), TxError>)
    ensures
        match r {
            Ok((txs, ids)) => {
                &&& txs@.len() == inputs@.len()
                &&& ids@.len() == inputs@.len()
                &&& forall|k: int|
                    0 <= k < inputs@.len() ==> decoded_tx_of(#[trigger] inputs@[k]@) == Some(
                        txs@[k]@,
                    )
                &&& forall|k: int|
                    0 <= k < inputs@.len() ==> (#[trigger] txs@[k]).outputs@.len() <= u32::MAX
                        && ids_well_sized(txs@[k]@)
                &&& forall|k: int|
                    0 <= k < inputs@.len() ==> (#[trigger] ids@[k])@ == txid_of(txs@[k]@)
                        && ids@[k]@.len() == TXID_LEN
            },
            Err(e) => e == TxError::InvalidTransaction && ((exists|k: int|
                0 <= k < inputs@.len() && decoded_tx_of(#[trigger] inputs@[k]@) is None) || (
            exists|k: int|
                0 <= k < inputs@.len() && decoded_tx_of(#[trigger] inputs@[k]@)->0.outputs.len()
                    > u32::MAX)),
        },
{
    let mut txs: Vec<Tx> = Vec::new();
    let mut ids: Vec<Vec<u8>> = Vec::new();
    let mut k: usize = 0;
    while k < inputs.len()
        invariant
            k <= inputs@.len(),
            txs@.len() == k,
            ids@.len() == k,
            forall|j: int| 0 <= j < k ==> decoded_tx_of(#[trigger] inputs@[j]@) == Some(txs@[j]@),
            forall|j: int|
                0 <= j < k ==> (#[trigger] txs@[j]).outputs@.len() <= u32::MAX && ids_well_sized(
                    txs@[j]@,
                ),
            forall|j: int|
                0 <= j < k ==> (#[trigger] ids@[j])@ == txid_of(txs@[j]@) && ids@[j]@.len()
                    == TXID_LEN,
        decreases inputs@.len() - k,
    {
        match decode_tx(inputs[k].as_slice()) {
            Some(t) => {
                if t.outputs.len() > u32::MAX as usize {
                    proof {
                        assert(decoded_tx_of(inputs@[k as int]@)->0.outputs.len() > u32::MAX);
                    }
                    return Err(TxError::InvalidTransaction);
                }
                let id = tx_id(&t);
                txs.push(t);
                ids.push(id);
            },
            None => {
                return Err(TxError::InvalidTransaction);
            },
        }
        k = k + 1;
    }
    Ok((txs, ids))
}

fn sum_coins(coins: &Vec<Coin>) -> (r: Result<u64, TxError>)
    ensures
        match r {
            Ok(t) => t == total(coin_views(coins@)),
            Err(e) => e == TxError::ValueOverflow && total(coin_views(coins@)) > u64::MAX,
        },
{
    let mut t: u64 = 0;
    let mut k: usize = 0;
    while k < coins.len()
        invariant
            k <= coins@.len(),
            t == total(coin_views(coins@).subrange(0, k as int)),
        decreases coins@.len() - k,
    {
        proof {
            let cv = coin_views(coins@);
            assert(cv.subrange(0, k + 1).drop_last() =~= cv.subrange(0, k as int));
        }
        match t.checked_add(coins[k].value) {
            Some(n) => t = n,
            None => {
                proof {
                    lemma_total_grows(coin_views(coins@), k as int + 1);
                }
                return Err(TxError::ValueOverflow);
            },
        }
        k = k + 1;
    }
    assert(coin_views(coins@).subrange(0, k as int) =~= coin_views(coins@));
    Ok(t)
}

proof fn lemma_total_grows(c: Seq<(Seq<u8>, u32, u64)>, k: int)
    requires
        0 <= k <= c.len(),
    ensures
        total(c.subrange(0, k)) <= total(c),
    decreases c.len() - k,
{
    if k < c.len() {
        lemma_total_grows(c, k + 1);
        assert(c.subrange(0, k + 1).drop_last() =~= c.subrange(0, k));
    }
    if k == c.len() {
        assert(c.subrange(0, k) =~= c);
    }
}

fn sum_outputs(outputs: &[(String, u64)]) -> (r: Result<u64, TxError>)
    ensures
        match r {
            Ok(t) => t == sum_values(outputs@.map_values(|o: (String, u64)| o.1)),
            Err(e) => e == TxError::ValueOverflow && sum_values(
                outputs@.map_values(|o: (String, u64)| o.1),
            ) > u64::MAX,
        },
{
    let ghost vs = outputs@.map_values(|o: (String, u64)| o.1);
    let mut t: u64 = 0;
    let mut k: usize = 0;
    while k < outputs.len()
        invariant
            vs == outputs@.map_values(|o: (String, u64)| o.1),
            k <= outputs@.len(),
            t == sum_values(vs.subrange(0, k as int)),
        decreases outputs@.len() - k,
    {
        proof {
            assert(vs.subrange(0, k + 1).drop_last() =~= vs.subrange(0, k as int));
        }
        match t.checked_add(outputs[k].1) {
            Some(n) => t = n,
            None => {
                proof {
                    lemma_sum_grows(vs, k as int + 1);
                }
                return Err(TxError::ValueOverflow);
            },
        }
        k = k + 1;
    }
    assert(vs.subrange(0, k as int) =~= vs);
    Ok(t)
}

proof fn lemma_sum_grows(c: Seq<u64>, k: int)
    requires
        0 <= k <= c.len(),
    ensures
        sum_values(c.subrange(0, k)) <= sum_values(c),
    decreases c.len() - k,
{
    if k < c.len() {
        lemma_sum_grows(c, k + 1);
        assert(c.subrange(0, k + 1).drop_last() =~= c.subrange(0, k));
    }
    if k == c.len() {
        assert(c.subrange(0, k) =~= c);
    }
}

pub open spec fn out_views(v: Seq<TxOut>) -> Seq<TxOutModel> {
    v.map_values(|o: TxOut| o@)
}

/// Why the requested outputs cannot be paid: an address that is not a version
/// byte and a 20-byte hash, or an OP_RETURN payload over 255 bytes.
pub open spec fn outputs_error(outputs: Seq<(String, u64)>, op_return: Option<Seq<u8>>) -> Option<TxError> {
    if exists|k: int| 0 <= k < outputs.len() && !address_ok(#[trigger] outputs[k].0@) {
        Some(TxError::InvalidAddress)
    } else if op_return matches Some(d) && d.len() > OP_RETURN_MAX {
        Some(TxError::PayloadTooLong)
    } else {
        None
    }
}

/// The outputs of a payment.
fn payment_outputs(
    outputs: &[(String, u64)],
    change: u64,
    own: &Vec<u8>,
    op_return: Option<&[u8]>,
) -> (r: Result<Vec<TxOut>, TxError>)
    ensures
        match r {
            Ok(v) => pays(
                out_views(v@),
                outputs@,
                change,
                own@,
                match op_return {
                    Some(d) => Some(d@),
                    None => None,
                },
            ),
            Err(e) => outputs_error(
                outputs@,
                match op_return {
                    Some(d) => Some(d@),
                    None => None,
                },
            ) == Some(e),
        },
        r is Ok <==> outputs_error(
            outputs@,
            match op_return {
                Some(d) => Some(d@),
                None => None,
            },
        ) is None,
{
    let mut out: Vec<TxOut> = Vec::new();
    let mut k: usize = 0;
    while k < outputs.len()
        invariant
            k <= outputs@.len(),
            out@.len() == k,
            forall|j: int|
                0 <= j < k ==> (#[trigger] out@[j])@.value == outputs@[j].1 && script_pays(
                    out@[j]@.script,
                    outputs@[j].0@,
                ),
        decreases outputs@.len() - k,
    {
        let script = match addr_to_script(outputs[k].0.as_str()) {
            Ok(s) => s,
            Err(_) => {
                assert(!address_ok(outputs@[k as int].0@));
                return Err(TxError::InvalidAddress);
            },
        };
        out.push(TxOut { value: outputs[k].1, script });
        k = k + 1;
    }
    assert forall|j: int| 0 <= j < outputs@.len() implies address_ok(#[trigger] outputs@[j].0@) by {
        assert(out@[j]@.value == outputs@[j].1);
        let (v, h) = choose|v: u8, h: Seq<u8>| encodes(outputs@[j].0@, v, h) && out@[j]@.script == p2pkh_script(h);
        assert(encodes(outputs@[j].0@, v, h));
    }
    out.push(TxOut { value: change, script: copy_bytes(own) });
    match op_return {
        Some(d) => {
            let s = match op_return_script(d) {
                Ok(s) => s,
                Err(e) => {
                    return Err(e);
                },
            };
            out.push(TxOut { value: 0, script: s });
        },
        None => {},
    }
    Ok(out)
}

pub open spec fn raw_inputs(v: Seq<Vec<u8>>) -> Seq<Seq<u8>> {
    v.map_values(|b: Vec<u8>| b@)
}

/// Why a payment cannot be built, checked in this order: an input that does
/// not decode (or has more than 2^32-1 outputs), coin or output sums over 64
/// bits, coins short of outputs plus fee, then a bad output address or payload.
pub open spec fn payment_error(
    secret: Seq<u8>,
    inputs: Seq<Seq<u8>>,
    outputs: Seq<(String, u64)>,
    fee: u64,
    op_return: Option<Seq<u8>>,
) -> Option<TxError> {
    let own = p2pkh_script(pubkey_hash_of(secret));
    let txs = Seq::new(inputs.len(), |k: int| decoded_tx_of(inputs[k])->0);
    let ids = Seq::new(inputs.len(), |k: int| txid_of(decoded_tx_of(inputs[k])->0));
    let coins = coins_of(txs, ids, own);
    let wanted = sum_values(outputs.map_values(|o: (String, u64)| o.1));
    if exists|k: int| 0 <= k < inputs.len() && (#[trigger] decoded_tx_of(inputs[k])) is None {
        Some(TxError::InvalidTransaction)
    } else if exists|k: int| 0 <= k < inputs.len() && (#[trigger] decoded_tx_of(inputs[k]))->0.outputs.len() > u32::MAX {
        Some(TxError::InvalidTransaction)
    } else if total(coins) > u64::MAX || wanted > u64::MAX {
        Some(TxError::ValueOverflow)
    } else if total(coins) < wanted + fee {
        Some(TxError::InsufficientFunds)
    } else {
        outputs_error(outputs, op_return)
    }
}

/// What building a payment from the key with secret `secret` gives: the error
/// above if there is one; else a signed transaction spending every coin of
/// `inputs` that pays the key, paying `outputs`, the change and the OP_RETURN data.
#[verifier::opaque]
pub open spec fn payment_outcome(
    secret: Seq<u8>,
    inputs: Seq<Seq<u8>>,
    outputs: Seq<(String, u64)>,
    fee: u64,
    op_return: Option<Seq<u8>>,
    r: Result<Vec<u8>, TxError>,
) -> bool {
    let own = p2pkh_script(pubkey_hash_of(secret));
    let txs = Seq::new(inputs.len(), |k: int| decoded_tx_of(inputs[k])->0);
    let ids = Seq::new(inputs.len(), |k: int| txid_of(decoded_tx_of(inputs[k])->0));
    let coins = coins_of(txs, ids, own);
    let wanted = sum_values(outputs.map_values(|o: (String, u64)| o.1));
    match payment_error(secret, inputs, outputs, fee, op_return) {
        Some(e) => r == Err::<Vec<u8>, TxError>(e),
        None => r matches Ok(raw) && exists|out: Seq<TxOutModel>|
            pays(out, outputs, (total(coins) - wanted - fee) as u64, own, op_return) && raw@
                == tx_bytes_of(signed_model(unsigned_model(coins, out), secret, own)),
    }
}

impl ChildWallet {
    /// Builds and signs a payment: spends every output of `inputs` that pays this
    /// key, pays `outputs`, pays the rest less `fee` back to this key (a change
    /// output even when it is zero), then carries `op_return`, if any.
    pub fn construct_signed(
        &self,
        inputs: &[Vec<u8>],
        outputs: &[(String, u64)],
        fee: u64,
        op_return: Option<&[u8]>,
    ) -> (r: Result<Vec<u8>, TxError>)
        ensures
            payment_outcome(secret_part(self.seed_view()), raw_inputs(inputs@), outputs@, fee, match op_return {
                Some(d) => Some(d@),
                None => None,
            }, r),
    {
        reveal(payment_outcome);
        let ghost secret = secret_part(self.seed_view());
        let script = self.script();
        let (txs, ids) = match decode_all(inputs) {
            Ok(p) => p,
            Err(e) => {
                proof {
                    let raws = raw_inputs(inputs@);
                    if exists|k: int| 0 <= k < inputs@.len() && decoded_tx_of(#[trigger] inputs@[k]@) is None {
                        let k = choose|k: int| 0 <= k < inputs@.len() && decoded_tx_of(#[trigger] inputs@[k]@) is None;
                        assert(raws[k] == inputs@[k]@);
                        assert(decoded_tx_of(raws[k]) is None);
                    } else {
                        let k = choose|k: int|
                            0 <= k < inputs@.len() && decoded_tx_of(#[trigger] inputs@[k]@)->0.outputs.len() > u32::MAX;
                        assert(raws[k] == inputs@[k]@);
                        assert(decoded_tx_of(raws[k])->0.outputs.len() > u32::MAX);
                    }
                }
                return Err(e);
            },
        };
        proof {
            let tv = txs@.map_values(|t: Tx| t@);
            let iv = ids@.map_values(|v: Vec<u8>| v@);
            let raws = raw_inputs(inputs@);
            assert(tv =~= Seq::new(raws.len(), |k: int| decoded_tx_of(raws[k])->0));
            assert(iv =~= Seq::new(raws.len(), |k: int| txid_of(decoded_tx_of(raws[k])->0)));
            assert forall|k: int| 0 <= k < raws.len() implies (#[trigger] decoded_tx_of(raws[k])) is Some by {
                assert(raws[k] == inputs@[k]@);
            }
        }
        let coins = select_coins(&txs, &ids, &script);
        proof {
            let tv = txs@.map_values(|t: Tx| t@);
            let iv = ids@.map_values(|v: Vec<u8>| v@);
            assert forall|k: int| 0 <= k < iv.len() implies (#[trigger] iv[k]).len() == TXID_LEN by {
                assert(iv[k] == ids@[k]@);
            }
            lemma_coins_ids(tv, iv, script@);
            assert forall|k: int| 0 <= k < coins@.len() implies (#[trigger] coins@[k]).txid@.len() == TXID_LEN by {
                assert(coin_views(coins@)[k].0 == coins@[k].txid@);
            }
        }
        let input_total = sum_coins(&coins)?;
        let outputs_total = sum_outputs(outputs)?;
        let change = plan_change(input_total, outputs_total, fee)?;
        let out = payment_outputs(outputs, change, &script, op_return)?;
        let unsigned = unsigned_tx(&coins, out);
        let signed = self.sign_inputs(&unsigned, &script);
        Ok(encode_tx(&signed))
    }

    /// Signs every input of `u` against `script`.
    fn sign_inputs(&self, u: &Tx, script: &Vec<u8>) -> (r: Tx)
        requires
            ids_well_sized(u@),
        ensures
            r@ == signed_model(u@, secret_part(self.seed_view()), script@),
            ids_well_sized(r@),
    {
        let secret = self.mpriv_bits();
        let pubkey = self.mpub();
        let mut ins: Vec<TxIn> = Vec::new();
        let mut i: usize = 0;
        let ghost want = signed_model(u@, secret@, script@);
        while i < u.inputs.len()
            invariant
                i <= u.inputs@.len(),
                ids_well_sized(u@),
                want == signed_model(u@, secret@, script@),
                valid_secret(secret@),
                pubkey@ == compressed_pubkey_of(secret@),
                pubkey@.len() == 33,
                ins@.len() == i,
                forall|j: int| 0 <= j < i ==> (#[trigger] ins@[j])@ == want.inputs[j],
            decreases u.inputs@.len() - i,
        {
            let digest = legacy_sighash(u, i, script.as_slice(), SIGHASH_ALL);
            let sig = sign_digest(secret, digest.as_slice());
            let ss = sig_script(sig.as_slice(), pubkey);
            let prev = &u.inputs[i];
            ins.push(TxIn { prev_txid: copy_bytes(&prev.prev_txid), vout: prev.vout, script_sig: ss, sequence: prev.sequence });
            i = i + 1;
        }
        let mut outs: Vec<TxOut> = Vec::new();
        let mut k: usize = 0;
        while k < u.outputs.len()
            invariant
                k <= u.outputs@.len(),
                outs@.len() == k,
                forall|j: int| 0 <= j < k ==> (#[trigger] outs@[j])@ == u.outputs@[j]@,
            decreases u.outputs@.len() - k,
        {
            outs.push(TxOut { value: u.outputs[k].value, script: copy_bytes(&u.outputs[k].script) });
            k = k + 1;
        }
        let r = Tx { version: u.version, lock_time: u.lock_time, inputs: ins, outputs: outs };
        assert(r@.inputs =~= want.inputs);
        assert(r@.outputs =~= want.outputs);
        r
    }
}

/// The unsigned transaction spending `coins` into `out`.
fn unsigned_tx(coins: &Vec<Coin>, out: Vec<TxOut>) -> (r: Tx)
    requires
        forall|k: int| 0 <= k < coins@.len() ==> (#[trigger] coins@[k]).txid@.len() == TXID_LEN,
    ensures
        r@ == unsigned_model(coin_views(coins@), out_views(out@)),
        ids_well_sized(r@),
{
    let ghost ov = out_views(out@);
    let mut ins: Vec<TxIn> = Vec::new();
    let mut k: usize = 0;
    while k < coins.len()
        invariant
            k <= coins@.len(),
            ins@.len() == k,
            forall|j: int|
                0 <= j < k ==> (#[trigger] ins@[j])@ == (TxInModel {
                    prev_txid: coins@[j].txid@,
                    vout: coins@[j].vout,
                    script_sig: Seq::empty(),
                    sequence: FINAL_SEQUENCE,
                }),
        decreases coins@.len() - k,
    {
        let empty: Vec<u8> = Vec::new();
        ins.push(TxIn { prev_txid: copy_bytes(&coins[k].txid), vout: coins[k].vout, script_sig: empty, sequence: FINAL_SEQUENCE });
        proof {
            assert(ins@[k as int]@.script_sig =~= Seq::<u8>::empty());
        }
        k = k + 1;
    }
    let r = Tx { version: 1, lock_time: 0, inputs: ins, outputs: out };
    assert(r@.inputs =~= unsigned_model(coin_views(coins@), ov).inputs);
    assert(r@.outputs =~= ov);
    r
}

} // verus!
