//! Twelve-word mnemonics for 16 bytes of entropy, with a 4-bit checksum.
use crate::bits::{
    bits_value, bytes_bits, indices_bits, lemma_bits_of_index, lemma_bits_value_push,
};
use crate::hashes::{sha256, sha256_of};
use vstd::arithmetic::power2::{lemma2_to64, pow2};
use vstd::prelude::*;

verus! {

/// Number of words in a mnemonic.
pub const WORD_COUNT: usize = 12;

/// Number of entropy bytes a mnemonic carries.
pub const ENTROPY_LEN: usize = 16;

/// Number of words in the dictionary.
pub const DICT_LEN: u16 = 2048;

/// Why a mnemonic was refused.
#[derive(Debug, Clone, Copy, PartialEq, Eq, Structural)]
pub enum MnemonicError {
    /// The input does not carry exactly 16 bytes of entropy (twelve words).
    InvalidEntropyLength,
    /// A word is not in the dictionary.
    UnknownWord,
    /// The words decode to entropy whose checksum differs from the one they carry.
    ChecksumMismatch,
}

/// The dictionary word at `index` (0 to 2047) of the English BIP-39 list.
pub uninterp spec fn bip39_word(index: int) -> Seq<char>;

/// Relies on bip39's `Language::English.word_list()`: the word at `index` of the list.
#[verifier::external_body]
fn dictionary_word(index: u16) -> (r: &'static str)
    requires
        index < DICT_LEN,
    ensures
        r@ == bip39_word(index as int),
{
    bip39::Language::English.word_list()[index as usize]
}

/// Relies on bip39's `Language::English.find_word`: a binary search of the sorted list,
/// whose 2048 words are distinct, so a word found is found at its one index.
#[verifier::external_body]
fn dictionary_index(word: &str) -> (r: Option<u16>)
    ensures
        r matches Some(i) ==> i < DICT_LEN && bip39_word(i as int) == word@,
        r is None ==> forall|i: int| 0 <= i < DICT_LEN ==> bip39_word(i) != word@,
        forall|i: int| 0 <= i < DICT_LEN && bip39_word(i) == word@ ==> r == Some(i as u16),
{
    bip39::Language::English.find_word(word)
}

/// Whether `w` is a dictionary word.
pub open spec fn in_dictionary(w: Seq<char>) -> bool {
    exists|i: int| 0 <= i < DICT_LEN && bip39_word(i) == w
}

/// The index of a dictionary word.
pub open spec fn dictionary_index_of(w: Seq<char>) -> int {
    choose|i: int| 0 <= i < DICT_LEN && bip39_word(i) == w
}

/// The checksum of entropy `e`: the top four bits of its SHA-256 digest.
pub open spec fn checksum_of(e: Seq<u8>) -> u8 {
    sha256_of(e)[0] >> 4u8
}

/// Entropy followed by a byte whose high four bits are the checksum.
pub open spec fn extended(e: Seq<u8>) -> Seq<u8> {
    e.push(checksum_of(e) << 4u8)
}

/// The twelve 11-bit word indices of entropy `e`: the first 132 bits of
/// entropy and checksum, cut into groups of eleven.
pub open spec fn mnemonic_indices(e: Seq<u8>) -> Seq<u16> {
    Seq::new(
        WORD_COUNT as nat,
        |k: int| bits_value(bytes_bits(extended(e)).subrange(11 * k, 11 * k + 11)) as u16,
    )
}

/// The sixteen entropy bytes carried by twelve word indices.
pub open spec fn decoded_entropy(w: Seq<u16>) -> Seq<u8> {
    Seq::new(
        ENTROPY_LEN as nat,
        |m: int| bits_value(indices_bits(w).subrange(8 * m, 8 * m + 8)) as u8,
    )
}

/// The checksum carried by twelve word indices: their last four bits.
pub open spec fn decoded_checksum(w: Seq<u16>) -> u8 {
    bits_value(indices_bits(w).subrange(128, 132)) as u8
}

/// Whether every index names a dictionary word.
pub open spec fn valid_indices(w: Seq<u16>) -> bool {
    w.len() == WORD_COUNT && forall|k: int| 0 <= k < w.len() ==> w[k] < DICT_LEN
}

/// The outcome of decoding twelve valid word indices.
pub open spec fn decode_indices(w: Seq<u16>) -> Result<Seq<u8>, MnemonicError> {
    if decoded_checksum(w) == checksum_of(decoded_entropy(w)) {
        Ok(decoded_entropy(w))
    } else {
        Err(MnemonicError::ChecksumMismatch)
    }
}

/// The outcome of reading a mnemonic.
pub open spec fn decode_words(words: Seq<Seq<char>>) -> Result<Seq<u8>, MnemonicError> {
    if words.len() != WORD_COUNT {
        Err(MnemonicError::InvalidEntropyLength)
    } else if exists|k: int| 0 <= k < words.len() && !in_dictionary(#[trigger] words[k]) {
        Err(MnemonicError::UnknownWord)
    } else {
        decode_indices(words.map_values(|w: Seq<char>| dictionary_index_of(w) as u16))
    }
}

/// The words of entropy `e`.
pub open spec fn mnemonic_words(e: Seq<u8>) -> Seq<Seq<char>> {
    mnemonic_indices(e).map_values(|i: u16| bip39_word(i as int))
}

/// 16 bytes of entropy, the root of a wallet.
#[derive(Clone, Debug)]
pub struct Seed(pub [u8; 16]);

impl Seed {
    pub fn new(entropy: [u8; 16]) -> (r: Seed)
        ensures
            r.0@ == entropy@,
    {
        Seed(entropy)
    }

    pub fn entropy(&self) -> (r: &[u8])
        ensures
            r@ == self.0@,
    {
        self.0.as_slice()
    }

    fn sha256sum(&self) -> (r: u8)
        ensures
            r == checksum_of(self.0@),
    {
        let digest = sha256(self.0.as_slice());
        digest[0] >> 4u8
    }

    /// The twelve word indices of this entropy.
    pub fn idxs(&self) -> (r: Vec<u16>)
        ensures
            r@ == mnemonic_indices(self.0@),
            valid_indices(r@),
    {
        let ghost e = self.0@;
        let cs = self.sha256sum();
        let mut ext: Vec<u8> = Vec::new();
        for i in 0..ENTROPY_LEN
            invariant
                e == self.0@,
                e.len() == ENTROPY_LEN,
                ext@ == e.subrange(0, i as int),
        {
            ext.push(self.0[i]);
            assert(ext@ =~= e.subrange(0, i + 1));
        }
        ext.push(cs << 4u8);
        assert(ext@ =~= extended(e));
        let ghost bb = bytes_bits(ext@);
        let mut res: Vec<u16> = Vec::new();
        for k in 0..WORD_COUNT
            invariant
                ext@ == extended(e),
                ext@.len() == 17,
                bb == bytes_bits(ext@),
                res@.len() == k,
                forall|kk: int| 0 <= kk < k ==> res@[kk] == mnemonic_indices(e)[kk],
                forall|kk: int| 0 <= kk < k ==> res@[kk] < DICT_LEN,
        {
            let mut acc: u16 = 0;
            proof {
                lemma2_to64();
            }
            for j in 0..11usize
                invariant
                    0 <= k < 12,
                    ext@.len() == 17,
                    bb == bytes_bits(ext@),
                    acc == bits_value(bb.subrange(11 * k, 11 * k + j)),
                    acc < pow2(j as nat),
            {
                assert(11 * k + j < 132) by (nonlinear_arith)
                    requires
                        k < 12,
                        j < 11,
                ;
                let i = 11 * k + j;
                let byte = ext[i / 8];
                let bit: u16 = ((byte as u16) >> ((7 - i % 8) as u16)) & 1u16;
                proof {
                    lemma_bits_of_index(byte as u16, 8, (i % 8) as int);
                    assert(bit < 2) by (bit_vector)
                        requires
                            bit == ((byte as u16) >> ((7 - i % 8) as u16)) & 1u16,
                    ;
                    let s = bb.subrange(11 * k, 11 * k + j);
                    lemma_bits_value_push(s, bb[i as int]);
                    assert(bb.subrange(11 * k, 11 * k + j + 1) =~= s.push(bb[i as int]));
                    lemma2_to64();
                    vstd::arithmetic::power2::lemma_pow2_unfold((j + 1) as nat);
                    if j < 10 {
                        vstd::arithmetic::power2::lemma_pow2_strictly_increases(
                            (j + 1) as nat,
                            11,
                        );
                    }
                }
                acc = acc * 2 + bit;
            }
            proof {
                lemma2_to64();
            }
            res.push(acc);
        }
        assert(res@ =~= mnemonic_indices(e));
        res
    }

    /// The entropy carried by twelve word indices, if their checksum holds.
    pub fn from_idxs(idxs: &[u16]) -> (r: Result<Seed, MnemonicError>)
        requires
            valid_indices(idxs@),
        ensures
            match r {
                Ok(s) => decode_indices(idxs@) == Ok::<Seq<u8>, MnemonicError>(s.0@),
                Err(e) => decode_indices(idxs@) == Err::<Seq<u8>, MnemonicError>(e),
            },
    {
        let ghost w = idxs@;
        let ghost ib = indices_bits(w);
        let mut entropy: [u8; 16] = [0u8; 16];
        let mut m: usize = 0;
        while m < ENTROPY_LEN
            invariant
                w == idxs@,
                valid_indices(w),
                ib == indices_bits(w),
                m <= ENTROPY_LEN,
                forall|mm: int| 0 <= mm < m ==> entropy@[mm] == decoded_entropy(w)[mm],
            decreases ENTROPY_LEN - m,
        {
            let acc = Self::read_bits(idxs, 8 * m, 8);
            entropy[m] = acc as u8;
            m = m + 1;
        }
        assert(entropy@ =~= decoded_entropy(w));
        let carried = Self::read_bits(idxs, 128, 4) as u8;
        let s = Seed(entropy);
        if s.sha256sum() == carried {
            Ok(s)
        } else {
            Err(MnemonicError::ChecksumMismatch)
        }
    }

    /// The twelve words of this entropy.
    pub fn words(&self) -> (r: Vec<&'static str>)
        ensures
            r@.len() == WORD_COUNT,
            forall|k: int| 0 <= k < WORD_COUNT ==> (#[trigger] r@[k])@ == mnemonic_words(self.0@)[k],
    {
        let idxs = self.idxs();
        let mut res: Vec<&'static str> = Vec::new();
        for k in 0..WORD_COUNT
            invariant
                idxs@ == mnemonic_indices(self.0@),
                valid_indices(idxs@),
                res@.len() == k,
                forall|kk: int| 0 <= kk < k ==> (#[trigger] res@[kk])@ == mnemonic_words(self.0@)[kk],
        {
            res.push(dictionary_word(idxs[k]));
        }
        res
    }

    /// The entropy that twelve dictionary words carry.
    pub fn from_words(words: &[String]) -> (r: Result<Seed, MnemonicError>)
        ensures
            match r {
                Ok(s) => decode_words(words@.map_values(|w: String| w@)) == Ok::<
                    Seq<u8>,
                    MnemonicError,
                >(s.0@),
                Err(e) => decode_words(words@.map_values(|w: String| w@)) == Err::<
                    Seq<u8>,
                    MnemonicError,
                >(e),
            },
            forall|e: Seq<u8>|
                e.len() == ENTROPY_LEN && #[trigger] mnemonic_words(e) == words@.map_values(
                    |w: String| w@,
                ) ==> (r matches Ok(s) && s.0@ == e),
    {
        let ghost ws = words@.map_values(|w: String| w@);
        if words.len() != WORD_COUNT {
            proof {
                assert forall|e: Seq<u8>| e.len() == ENTROPY_LEN implies #[trigger] mnemonic_words(e) != ws by {
                    assert(mnemonic_words(e).len() == WORD_COUNT);
                }
            }
            return Err(MnemonicError::InvalidEntropyLength);
        }
        let mut idxs: Vec<u16> = Vec::new();
        let mut k: usize = 0;
        while k < WORD_COUNT
            invariant
                words@.len() == WORD_COUNT,
                ws == words@.map_values(|w: String| w@),
                k <= WORD_COUNT,
                idxs@.len() == k,
                forall|kk: int|
                    0 <= kk < k ==> in_dictionary(#[trigger] ws[kk]) && idxs@[kk] < DICT_LEN
                        && idxs@[kk] == dictionary_index_of(ws[kk]) as u16,
                forall|kk: int, i: int|
                    0 <= kk < k && 0 <= i < DICT_LEN && #[trigger] bip39_word(i) == #[trigger] ws[kk]
                        ==> idxs@[kk] == i,
            decreases WORD_COUNT - k,
        {
            match dictionary_index(words[k].as_str()) {
                Some(i) => {
                    let ghost old_idxs = idxs@;
                    proof {
                        assert(words[k as int]@ == ws[k as int]);
                        assert(bip39_word(i as int) == ws[k as int]);
                        assert(in_dictionary(ws[k as int]));
                        let j = dictionary_index_of(ws[k as int]);
                        assert(0 <= j < DICT_LEN && bip39_word(j) == ws[k as int]);
                        assert(j == i as int);
                    }
                    idxs.push(i);
                    assert(forall|kk: int| 0 <= kk < k ==> idxs@[kk] == old_idxs[kk]);
                    k = k + 1;
                },
                None => {
                    assert(!in_dictionary(ws[k as int]));
                    proof {
                        assert forall|e: Seq<u8>| e.len() == ENTROPY_LEN implies #[trigger] mnemonic_words(e)
                            != ws by {
                            lemma_mnemonic_round_trip(e);
                            if mnemonic_words(e) == ws {
                                let i = mnemonic_indices(e)[k as int];
                                assert(ws[k as int] == bip39_word(i as int));
                            }
                        }
                    }
                    return Err(MnemonicError::UnknownWord);
                },
            }
        }
        assert(idxs@ =~= ws.map_values(|w: Seq<char>| dictionary_index_of(w) as u16));
        let r = Self::from_idxs(idxs.as_slice());
        proof {
            assert forall|e: Seq<u8>| e.len() == ENTROPY_LEN && #[trigger] mnemonic_words(e) == ws implies (r matches Ok(s) && s.0@ == e) by {
                lemma_mnemonic_round_trip(e);
                let mi = mnemonic_indices(e);
                assert forall|kk: int| 0 <= kk < WORD_COUNT implies idxs@[kk] == mi[kk] by {
                    assert(ws[kk] == bip39_word(mi[kk] as int));
                }
                assert(idxs@ =~= mi);
            }
        }
        r
    }

    /// The value of `len` bits of the indices, starting at bit `start`.
    fn read_bits(idxs: &[u16], start: usize, len: usize) -> (r: u16)
        requires
            valid_indices(idxs@),
            start + len <= 132,
            len <= 8,
        ensures
            r == bits_value(indices_bits(idxs@).subrange(start as int, start + len)),
            r < 256,
    {
        let ghost ib = indices_bits(idxs@);
        let mut acc: u16 = 0;
        proof {
            lemma2_to64();
        }
        for j in 0..len
            invariant
                valid_indices(idxs@),
                ib == indices_bits(idxs@),
                start + len <= 132,
                len <= 8,
                acc == bits_value(ib.subrange(start as int, start + j)),
                acc < pow2(j as nat),
        {
            let i = start + j;
            let word = idxs[i / 11];
            let bit: u16 = (word >> ((10 - i % 11) as u16)) & 1u16;
            proof {
                lemma_bits_of_index(word, 11, (i % 11) as int);
                assert(bit < 2) by (bit_vector)
                    requires
                        bit == (word >> ((10 - i % 11) as u16)) & 1u16,
                ;
                let s = ib.subrange(start as int, start + j);
                lemma_bits_value_push(s, ib[i as int]);
                assert(ib.subrange(start as int, start + j + 1) =~= s.push(ib[i as int]));
                lemma2_to64();
                vstd::arithmetic::power2::lemma_pow2_unfold((j + 1) as nat);
                if j < 7 {
                    vstd::arithmetic::power2::lemma_pow2_strictly_increases((j + 1) as nat, 8);
                }
            }
            acc = acc * 2 + bit;
        }
        proof {
            lemma2_to64();
            if len < 8 {
                vstd::arithmetic::power2::lemma_pow2_strictly_increases(len as nat, 8);
            }
        }
        acc
    }
}

/// Decoding the word indices of any 16 bytes of entropy gives them back, and
/// their checksum holds; every index names a dictionary word.
pub proof fn lemma_mnemonic_round_trip(e: Seq<u8>)
    requires
        e.len() == ENTROPY_LEN,
    ensures
        valid_indices(mnemonic_indices(e)),
        decode_indices(mnemonic_indices(e)) == Ok::<Seq<u8>, MnemonicError>(e),
{
    let x = extended(e);
    let bb = bytes_bits(x);
    let w = mnemonic_indices(e);
    let ib = indices_bits(w);
    lemma2_to64();
    assert forall|k: int| 0 <= k < WORD_COUNT implies w[k] < DICT_LEN by {
        crate::bits::lemma_bits_value_bound(bb.subrange(11 * k, 11 * k + 11));
    }
    assert forall|i: int| 0 <= i < 132 implies ib[i] == bb[i] by {
        let k = i / 11;
        let j = i % 11;
        assert(0 <= k < 12 && 0 <= j < 11 && i == 11 * k + j) by (nonlinear_arith)
            requires
                0 <= i < 132,
                k == i / 11,
                j == i % 11,
        ;
        let sub = bb.subrange(11 * k, 11 * k + 11);
        crate::bits::lemma_bits_of_value(sub);
    }
    assert forall|m: int| 0 <= m < ENTROPY_LEN implies decoded_entropy(w)[m] == e[m] by {
        let sub = ib.subrange(8 * m, 8 * m + 8);
        crate::bits::lemma_bits_of_len(e[m] as u16, 8);
        assert forall|j: int| 0 <= j < 8 implies sub[j] == crate::bits::bits_of(
            e[m] as u16,
            8,
        )[j] by {
            assert((8 * m + j) / 8 == m && (8 * m + j) % 8 == j) by (nonlinear_arith)
                requires
                    0 <= j < 8,
                    0 <= m,
            ;
        }
        assert(sub =~= crate::bits::bits_of(e[m] as u16, 8));
        crate::bits::lemma_value_of_bits(e[m] as u16, 8);
    }
    assert(decoded_entropy(w) =~= e);
    let c = checksum_of(e);
    let top = x[16] as u16;
    let sub = ib.subrange(128, 132);
    crate::bits::lemma_bits_of_len(top, 8);
    assert forall|j: int| 0 <= j < 4 implies sub[j] == crate::bits::bits_of(top, 8)[j] by {
        assert((128 + j) / 8 == 16 && (128 + j) % 8 == j) by (nonlinear_arith)
            requires
                0 <= j < 4,
        ;
    }
    crate::bits::lemma_bits_prefix(top, 8, 4);
    assert(sub =~= crate::bits::bits_of(top >> 4u16, 4));
    let d = sha256_of(e)[0];
    assert(c == d >> 4u8);
    assert((((d >> 4u8) << 4u8) as u16) >> 4u16 == d >> 4u8) by (bit_vector);
    assert(top >> 4u16 == c);
    assert(c < 16) by (bit_vector)
        requires
            c == d >> 4u8,
    ;
    crate::bits::lemma_value_of_bits(top >> 4u16, 4);
}

} // verus!
