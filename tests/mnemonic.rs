use borker::mnemonic::{MnemonicError, Seed};

fn words_of(s: &str) -> Vec<String> {
    s.split(' ').map(|w| w.to_string()).collect()
}

#[test]
fn zero_entropy_golden_words() {
    let seed = Seed::new([0u8; 16]);
    let words = seed.words();
    assert_eq!(
        words.join(" "),
        "abandon abandon abandon abandon abandon abandon abandon abandon abandon abandon abandon about"
    );
    // "about" is word 3: the low four bits carry checksum 3.
    assert_eq!(seed.idxs()[11], 3);
    assert_eq!(seed.idxs()[11] & 0xF, 3);
}

#[test]
fn known_vectors_encode() {
    let cases: [([u8; 16], &str); 3] = [
        ([0x7f; 16], "legal winner thank year wave sausage worth useful legal winner thank yellow"),
        ([0x80; 16], "letter advice cage absurd amount doctor acoustic avoid letter advice cage above"),
        ([0xff; 16], "zoo zoo zoo zoo zoo zoo zoo zoo zoo zoo zoo wrong"),
    ];
    for (e, w) in cases.iter() {
        assert_eq!(Seed::new(*e).words().join(" "), *w);
    }
}

#[test]
fn words_round_trip() {
    let e: [u8; 16] = [3, 14, 15, 92, 65, 35, 89, 79, 32, 38, 46, 26, 43, 38, 32, 79];
    let seed = Seed::new(e);
    let words: Vec<String> = seed.words().iter().map(|w| w.to_string()).collect();
    let back = Seed::from_words(&words).unwrap();
    assert_eq!(back.0, e);
    let back = Seed::from_idxs(&seed.idxs()).unwrap();
    assert_eq!(back.0, e);
    assert_eq!(back.entropy(), &e[..]);
}

#[test]
fn bad_checksum_is_refused() {
    let words = words_of(
        "abandon abandon abandon abandon abandon abandon abandon abandon abandon abandon abandon abandon",
    );
    assert_eq!(Seed::from_words(&words).unwrap_err(), MnemonicError::ChecksumMismatch);
}

#[test]
fn unknown_word_is_refused() {
    let words = words_of(
        "abandon abandon abandon abandon abandon abandon abandon abandon abandon abandon abandon dogecoinz",
    );
    assert_eq!(Seed::from_words(&words).unwrap_err(), MnemonicError::UnknownWord);
}

#[test]
fn wrong_word_count_is_refused() {
    let words = words_of("abandon abandon about");
    assert_eq!(Seed::from_words(&words).unwrap_err(), MnemonicError::InvalidEntropyLength);
}
