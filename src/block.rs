//! Walking the transactions of a raw block.
use crate::address::Network;
use crate::scan::{created_of, created_view, message_found, parse_tx, spent_of, spent_view, NewUtxo, ScannedTx, UtxoId};
use crate::tx::{decode_tx, decoded_tx_of, ids_well_sized, Tx, TxModel};
use vstd::prelude::*;

verus! {

/// Length of a block header.
pub const HEADER_LEN: usize = 80;

/// The version bit of a header followed by a merged-mining record.
pub const AUXPOW_FLAG: u32 = 0x100;

/// Why a block could not be read.
#[derive(Debug, Clone, Copy, PartialEq, Eq, Structural)]
pub enum BlockError {
    /// The block ends before a part it announces.
    UnexpectedEndOfInput,
    /// A transaction does not decode.
    InvalidTransaction,
}

/// How many bytes the transaction at the start of `raw` takes, if one decodes there.
pub uninterp spec fn tx_prefix_len_of(raw: Seq<u8>) -> Option<nat>;

/// Relies on bitcoin's `consensus::encode::deserialize_partial::<Transaction>`: how
/// many bytes the transaction at the start took, at most all of them.
#[verifier::external_body]
fn tx_prefix_len(raw: &[u8]) -> (r: Option<usize>)
    ensures
        match r {
            Some(n) => tx_prefix_len_of(raw@) == Some(n as nat) && n <= raw@.len(),
            None => tx_prefix_len_of(raw@) is None,
        },
{
    let (_, n): (bitcoin::Transaction, usize) = bitcoin::consensus::encode::deserialize_partial(raw).ok()?;
    Some(n)
}

/// The little-endian value of `s`.
pub open spec fn le_value(s: Seq<u8>) -> nat
    decreases s.len(),
{
    if s.len() == 0 {
        0
    } else {
        s[0] as nat + 256 * le_value(s.drop_first())
    }
}

/// A compact size at `pos`: its value and its length in bytes.
pub open spec fn compact_size(b: Seq<u8>, pos: int) -> Option<(nat, int)> {
    if pos < 0 || pos >= b.len() {
        None
    } else {
        let w: int = if b[pos] < 0xfd {
            0
        } else if b[pos] == 0xfd {
            2
        } else if b[pos] == 0xfe {
            4
        } else {
            8
        };
        if pos + 1 + w > b.len() {
            None
        } else if w == 0 {
            Some((b[pos] as nat, 1))
        } else {
            Some((le_value(b.subrange(pos + 1, pos + 1 + w)), 1 + w))
        }
    }
}

/// Whether a block header on `network` is followed by a merged-mining record:
/// on Dogecoin and Litecoin, when bit 8 of the little-endian version is set.
pub open spec fn has_auxpow(b: Seq<u8>, network: Network) -> bool {
    network != Network::Bitcoin && b[1] & 1u8 == 1u8
}

/// Where the transaction count of a block starts: after the header and, when
/// there is one, the merged-mining record (a transaction, a 32-byte hash, a
/// branch, a 4-byte index, a second branch, a 4-byte index, a parent header).
pub open spec fn tx_count_start(b: Seq<u8>, network: Network) -> Option<int> {
    if b.len() < HEADER_LEN {
        None
    } else if !has_auxpow(b, network) {
        Some(HEADER_LEN as int)
    } else {
        match tx_prefix_len_of(b.subrange(HEADER_LEN as int, b.len() as int)) {
            None => None,
            Some(n) => {
                let branch_at = HEADER_LEN + n + 32;
                match compact_size(b, branch_at) {
                    None => None,
                    Some((c1, w1)) => {
                        let second_branch_at = branch_at + w1 + 32 * c1 + 4;
                        match compact_size(b, second_branch_at) {
                            None => None,
                            Some((c2, w2)) => {
                                let count_at = second_branch_at + w2 + 32 * c2 + 4 + HEADER_LEN;
                                if count_at <= b.len() {
                                    Some(count_at)
                                } else {
                                    None
                                }
                            },
                        }
                    },
                }
            },
        }
    }
}

/// The `n` transactions at `pos` and on, each with its bytes.
pub open spec fn txs_at(b: Seq<u8>, pos: int, n: nat) -> Option<Seq<(TxModel, Seq<u8>)>>
    decreases n,
{
    if n == 0 {
        Some(Seq::empty())
    } else if pos < 0 || pos > b.len() {
        None
    } else {
        match tx_prefix_len_of(b.subrange(pos, b.len() as int)) {
            None => None,
            Some(len) => match decoded_tx_of(b.subrange(pos, pos + len)) {
                None => None,
                Some(t) => match txs_at(b, pos + len, (n - 1) as nat) {
                    None => None,
                    Some(rest) => Some(seq![(t, b.subrange(pos, pos + len))] + rest),
                },
            },
        }
    }
}

/// The transactions of a block, each with its bytes.
pub open spec fn block_txs(b: Seq<u8>, network: Network) -> Option<Seq<(TxModel, Seq<u8>)>> {
    match tx_count_start(b, network) {
        None => None,
        Some(p) => match compact_size(b, p) {
            None => None,
            Some((c, w)) => txs_at(b, p + w, c),
        },
    }
}

pub open spec fn pair_views(v: Seq<(Tx, Vec<u8>)>) -> Seq<(TxModel, Seq<u8>)> {
    v.map_values(|p: (Tx, Vec<u8>)| (p.0@, p.1@))
}

/// Where the transaction count of a block starts.
fn count_start(b: &[u8], network: Network) -> (r: Option<usize>)
    ensures
        match r {
            Some(p) => tx_count_start(b@, network) == Some(p as int),
            None => tx_count_start(b@, network) is None,
        },
{
    if b.len() < HEADER_LEN {
        return None;
    }
    let aux = match network {
        Network::Bitcoin => false,
        _ => b[1] & 1u8 == 1u8,
    };
    if !aux {
        return Some(HEADER_LEN);
    }
    let n = tx_prefix_len(vstd::slice::slice_subrange(b, HEADER_LEN, b.len()))?;
    let branch_at = HEADER_LEN as u128 + n as u128 + 32;
    if branch_at > b.len() as u128 {
        proof {
            assert(compact_size(b@, branch_at as int) is None);
        }
        return None;
    }
    let (c1, w1) = read_compact_size(b, branch_at as usize)?;
    let second_branch_at = branch_at + w1 as u128 + 32 * (c1 as u128) + 4;
    if second_branch_at > b.len() as u128 {
        proof {
            assert(compact_size(b@, second_branch_at as int) is None);
        }
        return None;
    }
    let (c2, w2) = read_compact_size(b, second_branch_at as usize)?;
    let count_at = second_branch_at + w2 as u128 + 32 * (c2 as u128) + 4 + HEADER_LEN as u128;
    if count_at <= b.len() as u128 {
        Some(count_at as usize)
    } else {
        None
    }
}

/// The transactions of a block, each with its bytes.
pub fn split_block(b: &[u8], network: Network) -> (r: Result<Vec<(Tx, Vec<u8>)>, BlockError>)
    ensures
        match r {
            Ok(v) => block_txs(b@, network) == Some(pair_views(v@)) && forall|k: int|
                0 <= k < v@.len() ==> ids_well_sized((#[trigger] v@[k]).0@),
            Err(_) => block_txs(b@, network) is None,
        },
{
    let start = match count_start(b, network) {
        Some(p) => p,
        None => {
            return Err(BlockError::UnexpectedEndOfInput);
        },
    };
    let (count, w) = match read_compact_size(b, start) {
        Some(x) => x,
        None => {
            return Err(BlockError::UnexpectedEndOfInput);
        },
    };
    assert(compact_size(b@, start as int) == Some((count as nat, w as int)));
    let blen = b.len();
    assert(start + w <= blen);
    let mut pos: usize = start + w;
    let mut out: Vec<(Tx, Vec<u8>)> = Vec::new();
    let mut i: u64 = 0;
    while i < count
        invariant
            i <= count,
            pos <= b@.len(),
            block_txs(b@, network) == match txs_at(b@, pos as int, (count - i) as nat) {
                Some(rest) => Some(pair_views(out@) + rest),
                None => None,
            },
            forall|k: int| 0 <= k < out@.len() ==> ids_well_sized((#[trigger] out@[k]).0@),
        decreases count - i,
    {
        let rest = vstd::slice::slice_subrange(b, pos, b.len());
        let len = match tx_prefix_len(rest) {
            Some(n) => n,
            None => {
                return Err(BlockError::InvalidTransaction);
            },
        };
        let raw = vstd::slice::slice_subrange(b, pos, pos + len);
        let t = match decode_tx(raw) {
            Some(t) => t,
            None => {
                return Err(BlockError::InvalidTransaction);
            },
        };
        let ghost before = pair_views(out@);
        out.push((t, vstd::slice::slice_to_vec(raw)));
        proof {
            assert(pair_views(out@) =~= before.push((t@, raw@)));
            assert(before.push((t@, raw@)) + txs_at(b@, (pos + len) as int, (count - i - 1) as nat)->0
                =~= before + (seq![(t@, raw@)] + txs_at(b@, (pos + len) as int, (count - i - 1) as nat)->0));
        }
        pos = pos + len;
        i = i + 1;
    }
    assert(pair_views(out@) + Seq::<(TxModel, Seq<u8>)>::empty() =~= pair_views(out@));
    Ok(out)
}

/// The time a block header states: its little-endian `u32` at offset 68.
pub open spec fn block_time(b: Seq<u8>) -> u32 {
    (b[68] as nat + 256 * (b[69] as nat + 256 * (b[70] as nat + 256 * b[71] as nat))) as u32
}

/// The time a block header states.
fn header_time(b: &[u8]) -> (r: u32)
    requires
        b@.len() >= HEADER_LEN,
    ensures
        r == block_time(b@),
{
    b[68] as u32 + 256 * (b[69] as u32 + 256 * (b[70] as u32 + 256 * b[71] as u32))
}

/// What scanning transaction `t` with bytes `raw` at `height` gives.
pub open spec fn scanned(s: ScannedTx, t: TxModel, raw: Seq<u8>, height: u64, network: Network, time: u32) -> bool {
    &&& s.spent@.map_values(|u: UtxoId| spent_view(u)) == spent_of(t)
    &&& s.created@.map_values(|u: NewUtxo| created_view(u)) == created_of(t, raw, height, network)
    &&& message_found(s.message, t, raw, height, network, time)
}

/// Reads every transaction of a block at `block_height`. A transaction whose
/// sender is not proved, or whose message does not decode, still gives its
/// coins; only a block that does not parse is refused.
pub fn process_block(b: &[u8], block_height: u64, network: Network) -> (r: Result<
    Vec<ScannedTx>,
    BlockError,
>)
    ensures
        match r {
            Ok(v) => block_txs(b@, network) matches Some(txs) && v@.len() == txs.len() && forall|
                k: int,
            |
                0 <= k < v@.len() ==> scanned(
                    #[trigger] v@[k],
                    txs[k].0,
                    txs[k].1,
                    block_height,
                    network,
                    block_time(b@),
                ),
            Err(_) => block_txs(b@, network) is None || exists|k: int|
                0 <= k < block_txs(b@, network)->0.len() && (#[trigger] block_txs(
                    b@,
                    network,
                )->0[k]).0.outputs.len() > u32::MAX,
        },
{
    let txs = split_block(b, network)?;
    let time = header_time(b);
    let ghost tv = pair_views(txs@);
    let mut out: Vec<ScannedTx> = Vec::new();
    let mut k: usize = 0;
    while k < txs.len()
        invariant
            tv == pair_views(txs@),
            block_txs(b@, network) == Some(tv),
            forall|j: int| 0 <= j < txs@.len() ==> ids_well_sized((#[trigger] txs@[j]).0@),
            k <= txs@.len(),
            out@.len() == k,
            forall|j: int|
                0 <= j < k ==> scanned(#[trigger] out@[j], tv[j].0, tv[j].1, block_height, network, time),
            time == block_time(b@),
        decreases txs@.len() - k,
    {
        let pair = &txs[k];
        if pair.0.outputs.len() > u32::MAX as usize {
            proof {
                assert(tv[k as int].0 == txs@[k as int].0@);
                assert(tv[k as int].0.outputs.len() == txs@[k as int].0.outputs@.len());
                assert(block_txs(b@, network)->0[k as int].0.outputs.len() > u32::MAX);
            }
            return Err(BlockError::InvalidTransaction);
        }
        out.push(parse_tx(&pair.0, pair.1.as_slice(), block_height, network, time));
        k = k + 1;
    }
    Ok(out)
}

/// Reads a compact size.
fn read_compact_size(b: &[u8], pos: usize) -> (r: Option<(u64, usize)>)
    ensures
        match r {
            Some((v, w)) => compact_size(b@, pos as int) == Some((v as nat, w as int)),
            None => compact_size(b@, pos as int) is None,
        },
{
    if pos >= b.len() {
        return None;
    }
    let first = b[pos];
    let w: usize = if first < 0xfd {
        0
    } else if first == 0xfd {
        2
    } else if first == 0xfe {
        4
    } else {
        8
    };
    if b.len() - pos - 1 < w {
        return None;
    }
    if w == 0 {
        return Some((first as u64, 1));
    }
    let mut v: u64 = 0;
    let mut k: usize = w;
    let ghost s = b@.subrange(pos + 1, pos + 1 + w);
    proof {
        lemma_pow256_mono(0, 8);
    }
    while k > 0
        invariant
            k <= w <= 8,
            pos + 1 + w <= b@.len() <= usize::MAX,
            s == b@.subrange(pos + 1, pos + 1 + w),
            v == le_value(s.subrange(k as int, w as int)),
            v < pow256((w - k) as nat),
        decreases k,
    {
        k = k - 1;
        let byte = b[pos + 1 + k];
        proof {
            let t = s.subrange(k as int, w as int);
            assert(t.drop_first() =~= s.subrange(k + 1, w as int));
            assert(t[0] == byte);
            let m = pow256((w - k - 1) as nat);
            assert(pow256((w - k) as nat) == 256 * m);
            assert(byte + 256 * v < 256 * m) by (nonlinear_arith)
                requires
                    v < m,
                    byte < 256,
            ;
            lemma_pow256_mono((w - k) as nat, 8);
            reveal_with_fuel(pow256, 9);
        }
        v = byte as u64 + 256 * v;
    }
    assert(s.subrange(0, w as int) =~= s);
    Some((v, 1 + w))
}

/// 256 to the power `n`.
pub open spec fn pow256(n: nat) -> nat
    decreases n,
{
    if n == 0 {
        1
    } else {
        256 * pow256((n - 1) as nat)
    }
}

proof fn lemma_pow256_mono(a: nat, c: nat)
    requires
        a <= c,
    ensures
        1 <= pow256(a) <= pow256(c),
    decreases c,
{
    if a < c {
        lemma_pow256_mono(a, (c - 1) as nat);
    } else {
        lemma_pow256_pos(a);
    }
}

proof fn lemma_pow256_pos(n: nat)
    ensures
        1 <= pow256(n),
    decreases n,
{
    if n > 0 {
        lemma_pow256_pos((n - 1) as nat);
    }
}

} // verus!
