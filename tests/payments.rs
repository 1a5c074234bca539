use borker::address::Network;
use borker::block::process_block;
use borker::message::decode;
use borker::protocol::{encode, BorkType, NewBork};
use borker::request::NewBorkData;
use borker::scan::parse_tx;
use borker::tx::{decode_tx, encode_tx, plan_change, Tx, TxError, TxIn, TxOut};
use borker::wallet::{ChildWallet, Wallet};

fn key(n: u8) -> ChildWallet {
    Wallet::from_entropy([n; 16], 0).unwrap().parent().detached()
}

/// A transaction paying `value` to `script`, spending a made-up coin.
fn funding(script: Vec<u8>, value: u64) -> Vec<u8> {
    let t = Tx {
        version: 1,
        lock_time: 0,
        inputs: vec![TxIn { prev_txid: vec![0x11; 32], vout: 0, script_sig: vec![], sequence: 0xFFFF_FFFF }],
        outputs: vec![TxOut { value, script }],
    };
    encode_tx(&t)
}

#[test]
fn change_plan() {
    assert_eq!(plan_change(100, 60, 10), Ok(30));
    assert_eq!(plan_change(100, 90, 10), Ok(0));
    assert_eq!(plan_change(100, 91, 10), Err(TxError::InsufficientFunds));
    assert_eq!(plan_change(5, 0, 10), Err(TxError::InsufficientFunds));
}

#[test]
fn payment_spends_own_coins_and_returns_change() {
    let me = key(1);
    let them = key(2);
    let raw_in = funding(me.script(), 50_000);
    let dest = them.address(Network::Dogecoin);
    let raw = me.construct_signed(&[raw_in], &[(dest, 20_000)], 1_000, None).unwrap();
    let t = decode_tx(&raw).unwrap();
    assert_eq!(t.inputs.len(), 1);
    assert_eq!(t.inputs[0].sequence, 0xFFFF_FFFF);
    assert_eq!(t.outputs.len(), 2);
    assert_eq!(t.outputs[0].value, 20_000);
    assert_eq!(t.outputs[0].script, them.script());
    assert_eq!(t.outputs[1].value, 29_000);
    assert_eq!(t.outputs[1].script, me.script());
}

#[test]
fn exact_funds_leave_a_zero_change_output() {
    let me = key(1);
    let raw_in = funding(me.script(), 10_000);
    let dest = key(2).address(Network::Dogecoin);
    let raw = me.construct_signed(&[raw_in], &[(dest, 9_000)], 1_000, None).unwrap();
    let t = decode_tx(&raw).unwrap();
    assert_eq!(t.outputs.len(), 2);
    assert_eq!(t.outputs[1].value, 0);
}

#[test]
fn short_funds_are_refused() {
    let me = key(1);
    let raw_in = funding(me.script(), 500);
    let r = me.construct_signed(&[raw_in.clone()], &[], 1_000, None);
    assert_eq!(r.unwrap_err(), TxError::InsufficientFunds);
    let dest = key(2).address(Network::Dogecoin);
    let r = me.construct_signed(&[raw_in], &[(dest, 400)], 101, None);
    assert_eq!(r.unwrap_err(), TxError::InsufficientFunds);
    // Coins of someone else are not spent.
    let other = funding(key(3).script(), 1_000_000);
    let r = me.construct_signed(&[other], &[], 1, None);
    assert_eq!(r.unwrap_err(), TxError::InsufficientFunds);
}

#[test]
fn bad_inputs_are_refused() {
    let me = key(1);
    assert_eq!(me.construct_signed(&[vec![1, 2, 3]], &[], 0, None).unwrap_err(), TxError::InvalidTransaction);
    let raw_in = funding(me.script(), 500);
    let r = me.construct_signed(&[raw_in.clone()], &[("nope".to_string(), 1)], 0, None);
    assert_eq!(r.unwrap_err(), TxError::InvalidAddress);
    let r = me.construct_signed(&[raw_in], &[], 0, Some(&[0u8; 256]));
    assert_eq!(r.unwrap_err(), TxError::PayloadTooLong);
}

#[test]
fn signed_bork_is_read_back_with_its_sender() {
    let mut me = key(1);
    let friend = key(2);
    let raw_in = funding(me.script(), 100_000);
    let nonce = me.nonce();
    let payloads = encode(NewBork::Bork { content: "hi #Doge".to_string() }, nonce).unwrap();
    let mention = friend.address(Network::Dogecoin);
    let raw = me.construct_signed(&[raw_in], &[(mention.clone(), 1_000)], 1_000, Some(&payloads[0])).unwrap();
    let t = decode_tx(&raw).unwrap();
    assert_eq!(t.outputs.len(), 3);
    assert_eq!(t.outputs[2].value, 0);
    assert_eq!(&t.outputs[2].script[..3], &[0x6a, 0x4c, payloads[0].len() as u8]);
    let s = parse_tx(&t, &raw, 7, Network::Dogecoin, 1_600_000_000);
    let m = s.message.unwrap();
    assert_eq!(m.bork_type, BorkType::Bork);
    assert_eq!(m.sender_address, me.address(Network::Dogecoin));
    assert_eq!(m.content.unwrap(), "hi #Doge");
    assert_eq!(m.nonce, Some(nonce));
    assert_eq!(m.mentions, vec![mention]);
    assert_eq!(m.tags, vec!["doge".to_string()]);
    assert_eq!(m.time, 1_600_000_000);
    assert_eq!(s.spent.len(), 1);
    assert_eq!(s.created.len(), 2);
    assert_eq!(s.created[0].block_height, 7);
    assert_eq!(s.created[1].position, 1);
    assert_eq!(s.created[1].address, me.address(Network::Dogecoin));
}

#[test]
fn unverified_sender_drops_the_message_but_keeps_coins() {
    let me = key(1);
    let payload = encode(NewBork::SetName { content: "bob".to_string() }, 0).unwrap().remove(0);
    let mut op_ret = vec![0x6a, 0x4c, payload.len() as u8];
    op_ret.extend(payload);
    let mut script_sig = vec![71u8];
    script_sig.extend(vec![0x30; 70]);
    script_sig.push(0x01);
    script_sig.push(33);
    script_sig.extend(vec![0x02; 33]);
    let t = Tx {
        version: 1,
        lock_time: 0,
        inputs: vec![TxIn { prev_txid: vec![0x22; 32], vout: 3, script_sig, sequence: 0xFFFF_FFFF }],
        outputs: vec![TxOut { value: 5_000, script: me.script() }, TxOut { value: 0, script: op_ret }],
    };
    let raw = encode_tx(&t);
    let s = parse_tx(&t, &raw, 1, Network::Dogecoin, 0);
    assert!(s.message.is_none());
    assert_eq!(s.spent.len(), 1);
    assert_eq!(s.spent[0].txid, "22".repeat(32));
    assert_eq!(s.spent[0].position, 3);
    assert_eq!(s.created.len(), 1);
    assert_eq!(s.created[0].value, 5_000);
    assert_eq!(s.created[0].address, me.address(Network::Dogecoin));
    assert_eq!(s.created[0].raw, hex::encode(&raw));
}

#[test]
fn block_with_one_transaction() {
    let me = key(1);
    let raw_tx = funding(me.script(), 777);
    let mut block = vec![1u8, 0, 0, 0];
    block.extend(vec![0u8; 76]);
    block.push(1);
    block.extend(raw_tx.clone());
    let out = process_block(&block, 12, Network::Bitcoin).unwrap();
    assert_eq!(out.len(), 1);
    assert_eq!(out[0].created.len(), 1);
    assert_eq!(out[0].created[0].value, 777);
    // The id of the coin is the transaction id, in display order.
    let t = decode_tx(&raw_tx).unwrap();
    let mut id = borker::tx::tx_id(&t);
    id.reverse();
    assert_eq!(out[0].created[0].txid, hex::encode(id));
    assert!(out[0].message.is_none());
    assert!(process_block(&block[..50], 12, Network::Bitcoin).is_err());
}

#[test]
fn long_post_is_a_chain_of_transactions() {
    let mut me = key(1);
    let raw_in = funding(me.script(), 100_000);
    let body: String = std::iter::repeat("borks ").take(30).collect();
    let data = NewBorkData { bork_type: BorkType::Bork, content: Some(body.clone()), reference_id: None };
    let txs = me.new_bork(data, &[raw_in], &[], 1_000).unwrap();
    // 180 bytes: 76 in the first payload, then two extensions.
    assert_eq!(txs.len(), 3);
    let mut text = String::new();
    for (k, raw) in txs.iter().enumerate() {
        let t = decode_tx(raw).unwrap();
        assert_eq!(t.outputs.last().unwrap().value, 0);
        assert_eq!(t.outputs[0].value, 100_000 - 1_000 * (k as u64 + 1));
        let s = parse_tx(&t, raw, 1, Network::Dogecoin, 0);
        let m = s.message.unwrap();
        assert_eq!(m.sender_address, me.address(Network::Dogecoin));
        if k == 0 {
            assert_eq!(m.bork_type, BorkType::Bork);
        } else {
            assert_eq!(m.bork_type, BorkType::Extension);
            assert_eq!(m.position, Some(k as u8));
            let prev = decode_tx(&txs[k - 1]).unwrap();
            assert_eq!(s.spent[0].position, 0);
            assert_eq!(prev.outputs.len(), 2);
        }
        text.push_str(&m.content.unwrap());
    }
    assert_eq!(text, body);
}

#[test]
fn mentions_have_no_duplicates_nor_the_sender() {
    let payload = encode(NewBork::Bork { content: "x".to_string() }, 1).unwrap().remove(0);
    let outs = vec!["Da".to_string(), "Dme".to_string(), "Db".to_string(), "Da".to_string()];
    let m = decode(&payload, &outs, "id".to_string(), "Dme".to_string(), Network::Dogecoin, 5).unwrap();
    let mut mentions = m.mentions.clone();
    mentions.sort();
    assert_eq!(mentions, vec!["Da".to_string(), "Db".to_string()]);
    assert_eq!(m.time, 5);
}

#[test]
fn insufficient_funds_before_other_errors() {
    let me = key(1);
    let raw_in = funding(me.script(), 5);
    // Coins short of the fee: refused as insufficient even with a bad address.
    let r = me.construct_signed(&[raw_in], &[("nope".to_string(), 1)], 10, None);
    assert_eq!(r.unwrap_err(), TxError::InsufficientFunds);
}
