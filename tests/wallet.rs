use borker::address::{addr_to_script, is_p2pkh, pubkey_hash_to_addr, script_to_addr, AddressError, Network};
use borker::wallet::{ChildWallet, Wallet};

fn abandon_words() -> Vec<String> {
    let mut w: Vec<String> = vec!["abandon".to_string(); 11];
    w.push("about".to_string());
    w
}

#[test]
fn bip44_first_bitcoin_address() {
    let mut w = Wallet::from_words(&abandon_words(), 0).unwrap();
    let path = [(44u32, true), (0, true), (0, true), (0, false), (0, false)];
    let child = w.child_at(&path).unwrap();
    assert_eq!(child.address(Network::Bitcoin), "1LqBGSKuX5yYUonjxT5qGfpUsXKYYWeabA");
}

#[test]
fn derivation_is_memoized() {
    let mut w = Wallet::from_entropy([7u8; 16], 0).unwrap();
    let first = w.child_at(&[(5, false), (2, true)]).unwrap();
    let second = w.child_at(&[(5, false), (2, true)]).unwrap();
    assert_eq!(first.mpriv_bits(), second.mpriv_bits());
    assert_eq!(first.chain_code(), second.chain_code());
    let root = w.parent();
    let cached = root.get_child(5, false).unwrap();
    assert!(root.get_child(4, false).is_none());
    assert!(root.get_child(5, true).is_none());
    assert_eq!(cached.get_child(2, true).unwrap().mpriv_bits(), first.mpriv_bits());
}

#[test]
fn load_child_twice_keeps_the_child() {
    let w = Wallet::from_entropy([1u8; 16], 3).unwrap();
    let mut root = w.parent().detached();
    root.load_child(0, false).unwrap();
    let a = root.get_child(0, false).unwrap().mpriv_bits().to_vec();
    root.load_child(0, false).unwrap();
    let b = root.get_child(0, false).unwrap().mpriv_bits().to_vec();
    assert_eq!(a, b);
    assert_eq!(root.next_child(false).unwrap(), 1);
    assert_eq!(root.next_child(true).unwrap(), 0);
    assert_ne!(root.get_child(0, true).unwrap().mpriv_bits(), &a[..]);
}

#[test]
fn nonce_wraps() {
    let w = Wallet::from_entropy([2u8; 16], 254).unwrap();
    let mut root = w.parent().detached();
    assert_eq!(root.nonce(), 255);
    assert_eq!(root.nonce(), 0);
    assert_eq!(root.nonce(), 1);
}

#[test]
fn addresses_differ_by_network() {
    let w = Wallet::from_entropy([9u8; 16], 0).unwrap();
    let key: &ChildWallet = w.parent();
    let d = key.address(Network::Dogecoin);
    let l = key.address(Network::Litecoin);
    let b = key.address(Network::Bitcoin);
    assert!(d.starts_with('D'));
    assert!(l.starts_with('L'));
    assert!(b.starts_with('1'));
    assert_ne!(d, l);
    assert_ne!(l, b);
    assert_eq!(d, key.address(Network::Dogecoin));
    assert_eq!(d, pubkey_hash_to_addr(&key.pubkey_hash(), Network::Dogecoin));
}

#[test]
fn script_and_address_convert() {
    let w = Wallet::from_entropy([4u8; 16], 0).unwrap();
    let key = w.parent();
    let addr = key.address(Network::Dogecoin);
    let script = addr_to_script(&addr).unwrap();
    assert_eq!(script, key.script());
    assert!(is_p2pkh(&script));
    assert_eq!(script_to_addr(&script, Network::Dogecoin).unwrap(), addr);
    assert_eq!(script_to_addr(&[0x6a, 1, 2], Network::Dogecoin).unwrap_err(), AddressError::UnsupportedScript);
    assert_eq!(addr_to_script("not-an-address").unwrap_err(), AddressError::InvalidAddress);
    let mut broken = addr.clone();
    broken.pop();
    broken.push(if addr.ends_with('z') { 'y' } else { 'z' });
    assert_eq!(addr_to_script(&broken).unwrap_err(), AddressError::InvalidAddress);
}

#[test]
fn words_give_back_the_wallet() {
    let w = Wallet::from_entropy([0x5a; 16], 0).unwrap();
    let words: Vec<String> = w.words().iter().map(|s| s.to_string()).collect();
    let again = Wallet::from_words(&words, 0).unwrap();
    assert_eq!(again.entropy(), w.entropy());
    assert_eq!(again.parent().mpriv_bits(), w.parent().mpriv_bits());
}

#[test]
fn address_script_round_trip() {
    let w = Wallet::from_entropy([12u8; 16], 0).unwrap();
    let key = w.parent();
    for n in [Network::Dogecoin, Network::Litecoin, Network::Bitcoin] {
        let a = key.address(n);
        let s = addr_to_script(&a).unwrap();
        assert_eq!(script_to_addr(&s, n).unwrap(), a);
        assert_eq!(s.len(), 25);
    }
}
