use borker::address::Network;
use borker::block::process_block;
use borker::protocol::{BorkType, NewBork, ProtocolError};
use borker::request::NewBorkData;
use borker::tx::{encode_tx, Tx, TxIn, TxOut};
use borker::vanity::count_match;
use borker::wallet::{ChildWallet, Wallet, WalletError};

fn data(t: BorkType, content: Option<&str>, reference: Option<&str>) -> NewBorkData {
    NewBorkData {
        bork_type: t,
        content: content.map(|s| s.to_string()),
        reference_id: reference.map(|s| s.to_string()),
    }
}

#[test]
fn requests_become_messages() {
    match NewBork::try_from(data(BorkType::Comment, Some("hey"), Some("ABcd01"))).unwrap() {
        NewBork::Comment { reference_id, content } => {
            assert_eq!(reference_id, vec![0xab, 0xcd, 0x01]);
            assert_eq!(content, "hey");
        }
        _ => panic!("wrong kind"),
    }
    match NewBork::try_from(data(BorkType::Flag, None, Some(&"0f".repeat(32)))).unwrap() {
        NewBork::Flag { txid } => assert_eq!(txid, vec![0x0f; 32]),
        _ => panic!("wrong kind"),
    }
}

#[test]
fn bad_requests_are_refused() {
    let e = |d| NewBork::try_from(d).err().unwrap();
    assert_eq!(e(data(BorkType::Extension, Some("x"), None)), ProtocolError::InvalidMessage);
    assert_eq!(e(data(BorkType::SetBio, None, None)), ProtocolError::InvalidMessage);
    assert_eq!(e(data(BorkType::SetBio, Some(&"b".repeat(78)), None)), ProtocolError::ContentTooLong);
    assert_eq!(e(data(BorkType::Like, None, Some("abc"))), ProtocolError::InvalidMessage);
    assert_eq!(e(data(BorkType::Like, None, Some("zz"))), ProtocolError::InvalidMessage);
    assert_eq!(e(data(BorkType::Delete, None, Some(&"00".repeat(33)))), ProtocolError::ReferenceTooLong);
    assert_eq!(e(data(BorkType::Flag, None, Some("00"))), ProtocolError::InvalidTxidLength);
    assert_eq!(e(data(BorkType::Follow, Some("nope"), None)), ProtocolError::InvalidAddress);
}

#[test]
fn follow_takes_the_address_hash() {
    let key = Wallet::from_entropy([6u8; 16], 0).unwrap().parent().detached();
    let addr = key.address(Network::Dogecoin);
    match NewBork::try_from(data(BorkType::Follow, Some(&addr), None)).unwrap() {
        NewBork::Follow { address } => assert_eq!(address, key.pubkey_hash()),
        _ => panic!("wrong kind"),
    }
}

#[test]
fn vanity_prefix_counts() {
    assert_eq!(count_match("DAbc", "DAbx", true), 3);
    assert_eq!(count_match("Dabc", "DABC", true), 1);
    assert_eq!(count_match("Dabc", "DABC", false), 4);
    assert_eq!(count_match("", "D", false), 0);
    assert_eq!(count_match("Dxyz", "Dx", true), 2);
}

#[test]
fn restore_checks_children() {
    let w = Wallet::from_entropy([8u8; 16], 0).unwrap();
    let mut root = w.parent().detached();
    root.load_child(1, false).unwrap();
    let child = root.get_child(1, false).unwrap().detached();
    let good = ChildWallet::restore(root.seed(), 5, vec![None, Some(child)], vec![]).unwrap();
    assert_eq!(good.current_nonce(), 5);
    assert_eq!(good.slot_count(false), 2);
    let wrong = root.get_child(1, false).unwrap().detached();
    let r = ChildWallet::restore(root.seed(), 5, vec![Some(wrong)], vec![]);
    assert_eq!(r.err().unwrap(), WalletError::SerializationCorrupt);
    assert_eq!(ChildWallet::restore(&[0u8; 64], 0, vec![], vec![]).err().unwrap(), WalletError::InvalidScalar);
    let again = Wallet::restore([8u8; 16], root).unwrap();
    assert_eq!(again.entropy(), &[8u8; 16][..]);
    let other = Wallet::from_entropy([9u8; 16], 0).unwrap().parent().detached();
    assert_eq!(Wallet::restore([8u8; 16], other).err().unwrap(), WalletError::SerializationCorrupt);
}

#[test]
fn merged_mining_record_is_skipped() {
    let coinbase = encode_tx(&Tx {
        version: 1,
        lock_time: 0,
        inputs: vec![TxIn { prev_txid: vec![0; 32], vout: 0xFFFF_FFFF, script_sig: vec![1, 2], sequence: 0 }],
        outputs: vec![TxOut { value: 1, script: vec![0x51] }],
    });
    let key = Wallet::from_entropy([3u8; 16], 0).unwrap().parent().detached();
    let payment = encode_tx(&Tx {
        version: 1,
        lock_time: 0,
        inputs: vec![TxIn { prev_txid: vec![0x33; 32], vout: 1, script_sig: vec![], sequence: 0 }],
        outputs: vec![TxOut { value: 99, script: key.script() }],
    });
    let mut block = vec![0x04u8, 0x01, 0x62, 0x00];
    block.extend(vec![0u8; 76]);
    block.extend(coinbase.clone());
    block.extend(vec![0u8; 32]);
    block.push(1);
    block.extend(vec![0u8; 32]);
    block.extend(vec![0u8; 4]);
    block.push(0);
    block.extend(vec![0u8; 4]);
    block.extend(vec![0u8; 80]);
    block.push(1);
    block.extend(payment);
    let out = process_block(&block, 3, Network::Dogecoin).unwrap();
    assert_eq!(out.len(), 1);
    assert_eq!(out[0].created[0].value, 99);
    assert_eq!(out[0].created[0].address, key.address(Network::Dogecoin));
    assert_eq!(out[0].spent[0].position, 1);
    // Without merged mining the same bytes do not read as a block.
    assert!(process_block(&block, 3, Network::Bitcoin).map(|v| v.len() == 1 && v[0].created.len() == 1).unwrap_or(false) == false);
}

#[test]
fn stored_keys_are_checked() {
    let key = Wallet::from_entropy([2u8; 16], 0).unwrap().parent().detached();
    let full = key.mpub_full();
    assert_eq!(full.len(), 65);
    assert_eq!(full[0], 4);
    assert!(key.stored_keys_match(Some(key.mpriv_bits()), Some(&full)));
    assert!(key.stored_keys_match(None, None));
    assert!(!key.stored_keys_match(Some(&[0u8; 32]), None));
    assert!(!key.stored_keys_match(None, Some(key.mpub())));
}
