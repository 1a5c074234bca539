//! The key tree: a root derived from a mnemonic, and children derived on demand.
use crate::address::{
    address_of, hash_to_script, lemma_network_payloads_distinct, p2pkh_script, pubkey_hash_to_addr,
    version_byte, Network,
};
use crate::hashes::{hmac_sha512, hmac_sha512_of, ripemd160, ripemd160_of, sha256, sha256_of};
use crate::keys::{
    be32_of, compressed_public_key, compressed_pubkey_of, scalar_add, scalar_sum, secret_is_valid,
    tweak_accepted, valid_secret,
};
use crate::keys::{pbkdf2_sha512, pbkdf2_sha512_of, uncompressed_public_key, uncompressed_pubkey_of};
use crate::mnemonic::{mnemonic_words, MnemonicError, Seed};
use vstd::prelude::*;
use vstd::utf8::encode_utf8;

verus! {

/// Length of a node's seed: a secret key and a chain code.
pub const SEED_LEN: usize = 64;

/// Rounds of PBKDF2 that stretch a mnemonic into a seed.
pub const STRETCH_ROUNDS: u32 = 2048;

/// Why a key could not be made.
#[derive(Debug, Clone, Copy, PartialEq, Eq, Structural)]
pub enum WalletError {
    /// A derivation gave a scalar that is not a secret key.
    InvalidScalar,
    /// The words of a mnemonic were refused.
    Mnemonic(MnemonicError),
    /// Stored keys that do not agree: a child that is not derived from its
    /// parent, or a root that is not derived from the entropy.
    SerializationCorrupt,
}

/// The HMAC key that turns a stretched mnemonic into the root seed: "Bitcoin seed".
pub open spec fn root_key() -> Seq<u8> {
    seq![0x42u8, 0x69, 0x74, 0x63, 0x6f, 0x69, 0x6e, 0x20, 0x73, 0x65, 0x65, 0x64]
}

/// The PBKDF2 salt of a mnemonic without passphrase: "mnemonic".
pub open spec fn mnemonic_salt() -> Seq<u8> {
    seq![0x6du8, 0x6e, 0x65, 0x6d, 0x6f, 0x6e, 0x69, 0x63]
}

/// Words joined by single spaces.
pub open spec fn spaced(ws: Seq<Seq<char>>) -> Seq<char>
    decreases ws.len(),
{
    if ws.len() == 0 {
        Seq::empty()
    } else if ws.len() == 1 {
        ws[0]
    } else {
        spaced(ws.drop_last()) + seq![' '] + ws.last()
    }
}

/// The root seed of a wallet with entropy `e`: its mnemonic, stretched by
/// PBKDF2-HMAC-SHA512 with salt "mnemonic", then keyed by "Bitcoin seed".
pub open spec fn root_seed_of(e: Seq<u8>) -> Seq<u8> {
    hmac_sha512_of(
        root_key(),
        pbkdf2_sha512_of(encode_utf8(spaced(mnemonic_words(e))), mnemonic_salt(), STRETCH_ROUNDS),
    )
}

/// Relies on `[&str]::join`: the words with one space between each two.
#[verifier::external_body]
fn join_words(words: &[&str]) -> (r: String)
    ensures
        r@ == spaced(words@.map_values(|w: &str| w@)),
{
    words.join(" ")
}

/// The four big-endian bytes of `i`.
pub open spec fn be4(i: u32) -> Seq<u8> {
    seq![(i / 0x1000000) as u8, ((i / 0x10000) % 256) as u8, ((i / 0x100) % 256) as u8, (i % 256) as u8]
}

/// The secret key half of a seed.
pub open spec fn secret_part(seed: Seq<u8>) -> Seq<u8> {
    seed.subrange(0, 32)
}

/// The chain code half of a seed.
pub open spec fn chain_part(seed: Seq<u8>) -> Seq<u8> {
    seed.subrange(32, 64)
}

/// What the chain code is keyed over to derive child `i`: the compressed public
/// key and the index, or for a hardened child a zero byte, the secret key and the
/// index plus 2^31 (modulo 2^32).
pub open spec fn child_message(seed: Seq<u8>, i: u32, hardened: bool) -> Seq<u8> {
    if hardened {
        seq![0u8] + secret_part(seed) + be4(((i + 0x8000_0000) % 0x1_0000_0000) as u32)
    } else {
        compressed_pubkey_of(secret_part(seed)) + be4(i)
    }
}

/// The seed of child `i` of the node with seed `seed`: the HMAC-SHA512 of the
/// child message keyed by the chain code, whose left half is added to the
/// secret key and whose right half is the new chain code. None when the left
/// half or the sum is not a secret key.
pub open spec fn derived_seed(seed: Seq<u8>, i: u32, hardened: bool) -> Option<Seq<u8>> {
    let mac = hmac_sha512_of(chain_part(seed), child_message(seed, i, hardened));
    let left = mac.subrange(0, 32);
    if tweak_accepted(secret_part(seed), left) {
        Some(be32_of(scalar_sum(secret_part(seed), left)) + mac.subrange(32, 64))
    } else {
        None
    }
}

/// The seed reached from `seed` by deriving along `path`.
pub open spec fn path_seed(seed: Seq<u8>, path: Seq<(u32, bool)>) -> Option<Seq<u8>>
    decreases path.len(),
{
    if path.len() == 0 {
        Some(seed)
    } else {
        match derived_seed(seed, path[0].0, path[0].1) {
            Some(s) => path_seed(s, path.drop_first()),
            None => None,
        }
    }
}

/// The public-key hash of a secret key: RIPEMD-160 of SHA-256 of its compressed public key.
pub open spec fn pubkey_hash_of(secret: Seq<u8>) -> Seq<u8> {
    ripemd160_of(sha256_of(compressed_pubkey_of(secret)))
}

/// A node of the key tree: its seed, its public key, the children derived so
/// far (normal and hardened, by index), and the nonce of the messages it sends.
pub struct ChildWallet {
    seed: Vec<u8>,
    public: Vec<u8>,
    children: Vec<Option<ChildWallet>>,
    hardened_children: Vec<Option<ChildWallet>>,
    nonce: u8,
}

impl ChildWallet {
    /// The seed is 64 bytes whose first half is a secret key, the public key is
    /// its own, and each child holds the seed that derivation gives at its index.
    #[verifier::type_invariant]
    spec fn keys_match(&self) -> bool {
        &&& self.seed@.len() == SEED_LEN
        &&& valid_secret(secret_part(self.seed@))
        &&& self.public@ == compressed_pubkey_of(secret_part(self.seed@))
        &&& self.public@.len() == 33
        &&& slots_derived(self.seed@, self.children@, false)
        &&& slots_derived(self.seed@, self.hardened_children@, true)
    }

    pub closed spec fn seed_view(&self) -> Seq<u8> {
        self.seed@
    }

    pub closed spec fn nonce_view(&self) -> u8 {
        self.nonce
    }

    /// The children of one kind.
    pub closed spec fn slots(&self, hardened: bool) -> Seq<Option<ChildWallet>> {
        if hardened {
            self.hardened_children@
        } else {
            self.children@
        }
    }

    /// The child `i` of one kind, if derived.
    pub open spec fn child_at(&self, i: int, hardened: bool) -> Option<ChildWallet> {
        if 0 <= i < self.slots(hardened).len() {
            self.slots(hardened)[i]
        } else {
            None
        }
    }

    /// A node with a seed and no children, with nonce `nonce`.
    pub fn new(seed: &[u8], nonce: u8) -> (r: Result<ChildWallet, WalletError>)
        ensures
            match r {
                Ok(w) => seed@.len() == SEED_LEN && valid_secret(secret_part(seed@))
                    && w.seed_view() == seed@ && w.nonce_view() == nonce && w.slots(false).len()
                    == 0 && w.slots(true).len() == 0,
                Err(e) => e == WalletError::InvalidScalar && !(seed@.len() == SEED_LEN
                    && valid_secret(secret_part(seed@))),
            },
    {
        if seed.len() != SEED_LEN {
            return Err(WalletError::InvalidScalar);
        }
        let secret = vstd::slice::slice_subrange(seed, 0, 32);
        if !secret_is_valid(secret) {
            return Err(WalletError::InvalidScalar);
        }
        let public = compressed_public_key(secret);
        Ok(
            ChildWallet {
                seed: vstd::slice::slice_to_vec(seed),
                public,
                children: Vec::new(),
                hardened_children: Vec::new(),
                nonce,
            },
        )
    }

    /// The node of a seed, a nonce and children read back from storage; each
    /// child must hold the seed derived at its index.
    pub fn restore(
        seed: &[u8],
        nonce: u8,
        children: Vec<Option<ChildWallet>>,
        hardened_children: Vec<Option<ChildWallet>>,
    ) -> (r: Result<ChildWallet, WalletError>)
        ensures
            match r {
                Ok(w) => w.seed_view() == seed@ && w.nonce_view() == nonce && w.slots(false)
                    == children@ && w.slots(true) == hardened_children@,
                Err(e) => (e == WalletError::InvalidScalar && !(seed@.len() == SEED_LEN && valid_secret(
                    secret_part(seed@),
                ))) || (e == WalletError::SerializationCorrupt && seed@.len() == SEED_LEN
                    && valid_secret(secret_part(seed@)) && !(children@.len() <= u32::MAX && hardened_children@.len() <= u32::MAX
                    && slots_derived(seed@, children@, false) && slots_derived(
                    seed@,
                    hardened_children@,
                    true,
                ))),
            },
    {
        let mut node = ChildWallet::new(seed, nonce)?;
        if !node.check_slots(&children, false) || !node.check_slots(&hardened_children, true) {
            return Err(WalletError::SerializationCorrupt);
        }
        node.put_slots(false, children);
        node.put_slots(true, hardened_children);
        Ok(node)
    }

    /// Whether each child in `slots` holds the seed derived at its index.
    fn check_slots(&self, slots: &Vec<Option<ChildWallet>>, hardened: bool) -> (r: bool)
        ensures
            r == (slots@.len() <= u32::MAX && slots_derived(self.seed_view(), slots@, hardened)),
    {
        if slots.len() > u32::MAX as usize {
            return false;
        }
        let mut j: usize = 0;
        while j < slots.len()
            invariant
                j <= slots@.len() <= u32::MAX,
                forall|k: int|
                    0 <= k < j ==> (#[trigger] slots@[k] matches Some(c) ==> Some(c.seed_view())
                        == derived_seed(self.seed_view(), k as u32, hardened)),
            decreases slots@.len() - j,
        {
            match &slots[j] {
                None => {},
                Some(c) => {
                    let ok = match self.derive(j as u32, hardened) {
                        Ok(d) => same_seed(&d, &c.seed),
                        Err(_) => false,
                    };
                    if !ok {
                        return false;
                    }
                },
            }
            j = j + 1;
        }
        true
    }

    /// The seed: the secret key, then the chain code.
    pub fn seed(&self) -> (r: &[u8])
        ensures
            r@ == self.seed_view(),
    {
        self.seed.as_slice()
    }

    /// The nonce last used.
    pub fn current_nonce(&self) -> (r: u8)
        ensures
            r == self.nonce_view(),
    {
        self.nonce
    }

    /// How many children of one kind have a slot.
    pub fn slot_count(&self, hardened: bool) -> (r: usize)
        ensures
            r == self.slots(hardened).len(),
    {
        if hardened {
            self.hardened_children.len()
        } else {
            self.children.len()
        }
    }

    /// The uncompressed public key.
    pub fn mpub_full(&self) -> (r: Vec<u8>)
        ensures
            r@ == uncompressed_pubkey_of(secret_part(self.seed_view())),
    {
        uncompressed_public_key(self.mpriv_bits())
    }

    /// Whether stored keys, where present, are this node's own: its secret key
    /// and its uncompressed public key.
    pub fn stored_keys_match(&self, mpriv: Option<&[u8]>, mpub: Option<&[u8]>) -> (r: bool)
        ensures
            r == ((mpriv matches Some(p) ==> p@ == secret_part(self.seed_view())) && (mpub matches Some(
                q,
            ) ==> q@ == uncompressed_pubkey_of(secret_part(self.seed_view())))),
    {
        let priv_ok = match mpriv {
            Some(p) => same_seed_slices(p, self.mpriv_bits()),
            None => true,
        };
        let pub_ok = match mpub {
            Some(q) => same_seed_slices(q, self.mpub_full().as_slice()),
            None => true,
        };
        priv_ok && pub_ok
    }

    /// The secret key bytes.
    pub fn mpriv_bits(&self) -> (r: &[u8])
        ensures
            r@ == secret_part(self.seed_view()),
            valid_secret(r@),
    {
        proof {
            use_type_invariant(self);
        }
        vstd::slice::slice_subrange(self.seed.as_slice(), 0, 32)
    }

    /// The chain code.
    pub fn chain_code(&self) -> (r: &[u8])
        ensures
            r@ == chain_part(self.seed_view()),
    {
        proof {
            use_type_invariant(self);
        }
        vstd::slice::slice_subrange(self.seed.as_slice(), 32, 64)
    }

    /// The compressed public key.
    pub fn mpub(&self) -> (r: &[u8])
        ensures
            r@ == compressed_pubkey_of(secret_part(self.seed_view())),
            r@.len() == 33,
    {
        proof {
            use_type_invariant(self);
        }
        self.public.as_slice()
    }

    /// The next nonce: one more than the last, modulo 256.
    pub fn nonce(&mut self) -> (r: u8)
        ensures
            r == old(self).nonce_view().wrapping_add(1),
            final(self).nonce_view() == r,
            final(self).seed_view() == old(self).seed_view(),
            final(self).slots(false) == old(self).slots(false),
            final(self).slots(true) == old(self).slots(true),
    {
        proof {
            use_type_invariant(&*self);
        }
        self.nonce = self.nonce.wrapping_add(1);
        self.nonce
    }

    /// The seed of child `i`, derived.
    fn derive(&self, i: u32, hardened: bool) -> (r: Result<Vec<u8>, WalletError>)
        ensures
            match r {
                Ok(s) => derived_seed(self.seed_view(), i, hardened) == Some(s@) && s@.len()
                    == SEED_LEN && valid_secret(secret_part(s@)),
                Err(e) => e == WalletError::InvalidScalar && derived_seed(
                    self.seed_view(),
                    i,
                    hardened,
                ) is None,
            },
    {
        proof {
            use_type_invariant(self);
        }
        let mut msg: Vec<u8> = Vec::new();
        let index: u32 = if hardened {
            msg.push(0u8);
            let sk = self.mpriv_bits();
            push_all(&mut msg, sk);
            if i < 0x8000_0000 {
                i + 0x8000_0000
            } else {
                i - 0x8000_0000
            }
        } else {
            push_all(&mut msg, self.mpub());
            i
        };
        msg.push((index / 0x1000000) as u8);
        msg.push(((index / 0x10000) % 256) as u8);
        msg.push(((index / 0x100) % 256) as u8);
        msg.push((index % 256) as u8);
        proof {
            let sd = self.seed_view();
            if hardened {
                assert(index == ((i + 0x8000_0000) % 0x1_0000_0000) as u32);
                assert(msg@ =~= child_message(sd, i, hardened));
            } else {
                assert(msg@ =~= child_message(sd, i, hardened));
            }
        }
        let mac = hmac_sha512(self.chain_code(), msg.as_slice());
        let left = vstd::slice::slice_subrange(mac.as_slice(), 0, 32);
        match scalar_add(self.mpriv_bits(), left) {
            None => Err(WalletError::InvalidScalar),
            Some(mut child) => {
                let right = vstd::slice::slice_subrange(mac.as_slice(), 32, 64);
                let ghost key = child@;
                push_all(&mut child, right);
                assert(secret_part(child@) =~= key);
                Ok(child)
            },
        }
    }

    /// Derives child `i` of one kind unless it was derived before; a child once
    /// derived is kept and never derived again.
    pub fn load_child(&mut self, i: u32, hardened: bool) -> (r: Result<(), WalletError>)
        requires
            i < u32::MAX,
        ensures
            match r {
                Ok(()) => loaded(*old(self), *final(self), i, hardened),
                Err(e) => {
                    &&& e == WalletError::InvalidScalar
                    &&& old(self).child_at(i as int, hardened) is None
                    &&& derived_seed(old(self).seed_view(), i, hardened) is None
                    &&& *final(self) == *old(self)
                },
            },
    {
        proof {
            use_type_invariant(&*self);
        }
        let slots_len = if hardened {
            self.hardened_children.len()
        } else {
            self.children.len()
        };
        if (i as usize) < slots_len {
            let present = if hardened {
                self.hardened_children[i as usize].is_some()
            } else {
                self.children[i as usize].is_some()
            };
            if present {
                return Ok(());
            }
        }
        let seed = self.derive(i, hardened)?;
        let child = match ChildWallet::new(seed.as_slice(), self.nonce) {
            Ok(c) => c,
            Err(e) => {
                return Err(e);
            },
        };
        let mut slots: Vec<Option<ChildWallet>> = Vec::new();
        if hardened {
            std::mem::swap(&mut slots, &mut self.hardened_children);
        } else {
            std::mem::swap(&mut slots, &mut self.children);
        }
        fill_slots(&mut slots, i as usize + 1);
        slots.set(i as usize, Some(child));
        if hardened {
            self.hardened_children = slots;
        } else {
            self.children = slots;
        }
        Ok(())
    }

    /// Derives the next child of one kind: the one at the current count.
    pub fn next_child(&mut self, hardened: bool) -> (r: Result<u32, WalletError>)
        requires
            old(self).slots(hardened).len() < u32::MAX,
        ensures
            match r {
                Ok(i) => i == old(self).slots(hardened).len() && loaded(
                    *old(self),
                    *final(self),
                    i,
                    hardened,
                ),
                Err(e) => e == WalletError::InvalidScalar && *final(self) == *old(self) && derived_seed(
                    old(self).seed_view(),
                    old(self).slots(hardened).len() as u32,
                    hardened,
                ) is None,
            },
    {
        let i = if hardened {
            self.hardened_children.len()
        } else {
            self.children.len()
        } as u32;
        self.load_child(i, hardened)?;
        Ok(i)
    }

    /// Child `i` of one kind, if derived.
    pub fn get_child(&self, i: u32, hardened: bool) -> (r: Option<&ChildWallet>)
        ensures
            match r {
                Some(c) => self.child_at(i as int, hardened) == Some(*c),
                None => self.child_at(i as int, hardened) is None,
            },
    {
        let slots = if hardened {
            &self.hardened_children
        } else {
            &self.children
        };
        if (i as usize) < slots.len() {
            slots[i as usize].as_ref()
        } else {
            None
        }
    }

    /// RIPEMD-160 of SHA-256 of the compressed public key.
    pub fn pubkey_hash(&self) -> (r: Vec<u8>)
        ensures
            r@ == pubkey_hash_of(secret_part(self.seed_view())),
            r@.len() == 20,
    {
        let sha = sha256(self.mpub());
        ripemd160(sha.as_slice())
    }

    /// The address of this key on a network.
    pub fn address(&self, network: Network) -> (r: String)
        ensures
            r@ == address_of(pubkey_hash_of(secret_part(self.seed_view())), network),
    {
        pubkey_hash_to_addr(self.pubkey_hash().as_slice(), network)
    }

    /// The pay-to-public-key-hash script of this key.
    pub fn script(&self) -> (r: Vec<u8>)
        ensures
            r@ == p2pkh_script(pubkey_hash_of(secret_part(self.seed_view()))),
    {
        hash_to_script(self.pubkey_hash().as_slice())
    }

    /// Moves out the children of one kind, leaving none.
    fn take_slots(&mut self, hardened: bool) -> (r: Vec<Option<ChildWallet>>)
        ensures
            r@ == old(self).slots(hardened),
            slots_derived(old(self).seed_view(), r@, hardened),
            final(self).seed_view() == old(self).seed_view(),
            final(self).slots(hardened).len() == 0,
    {
        proof {
            use_type_invariant(&*self);
        }
        let mut slots: Vec<Option<ChildWallet>> = Vec::new();
        if hardened {
            std::mem::swap(&mut slots, &mut self.hardened_children);
        } else {
            std::mem::swap(&mut slots, &mut self.children);
        }
        slots
    }

    /// Puts back children of one kind.
    fn put_slots(&mut self, hardened: bool, slots: Vec<Option<ChildWallet>>)
        requires
            slots_derived(old(self).seed_view(), slots@, hardened),
        ensures
            final(self).seed_view() == old(self).seed_view(),
            final(self).nonce_view() == old(self).nonce_view(),
            final(self).slots(hardened) == slots@,
            final(self).slots(!hardened) == old(self).slots(!hardened),
    {
        proof {
            use_type_invariant(&*self);
        }
        if hardened {
            self.hardened_children = slots;
        } else {
            self.children = slots;
        }
    }

    /// Derives along `path` from this node, keeping what is derived, and returns
    /// the node reached, without its children.
    pub fn load_path(&mut self, path: &[(u32, bool)]) -> (r: Result<ChildWallet, WalletError>)
        requires
            forall|k: int| 0 <= k < path@.len() ==> (#[trigger] path@[k]).0 < u32::MAX,
        ensures
            match r {
                Ok(c) => path_seed(old(self).seed_view(), path@) == Some(c.seed_view()),
                Err(e) => e == WalletError::InvalidScalar && path_seed(
                    old(self).seed_view(),
                    path@,
                ) is None,
            },
            final(self).seed_view() == old(self).seed_view(),
            r is Ok ==> holds_path(*final(self), path@),
        decreases path@.len(),
    {
        if path.len() == 0 {
            return Ok(self.detached());
        }
        let (i, hardened) = path[0];
        let ghost seed0 = self.seed_view();
        self.load_child(i, hardened)?;
        let mut slots = self.take_slots(hardened);
        if i as usize >= slots.len() {
            self.put_slots(hardened, slots);
            return Err(WalletError::InvalidScalar);
        }
        let ghost full = slots@;
        let mut taken: Option<ChildWallet> = None;
        std::mem::swap(&mut taken, &mut slots[i as usize]);
        let mut child = match taken {
            Some(c) => c,
            None => {
                self.put_slots(hardened, slots);
                return Err(WalletError::InvalidScalar);
            },
        };
        proof {
            assert(Some(child.seed_view()) == derived_seed(seed0, i, hardened));
            assert(path@.drop_first() =~= path@.subrange(1, path@.len() as int));
        }
        let rest = vstd::slice::slice_subrange(path, 1, path.len());
        let r = child.load_path(rest);
        slots.set(i as usize, Some(child));
        proof {
            assert forall|j: int| 0 <= j < slots@.len() implies (#[trigger] slots@[j] matches Some(
                c,
            ) ==> Some(c.seed_view()) == derived_seed(seed0, j as u32, hardened)) by {
                if j != i {
                    assert(slots@[j] == full[j]);
                }
            }
        }
        self.put_slots(hardened, slots);
        r
    }

    /// The same key and nonce, without the children.
    pub fn detached(&self) -> (r: ChildWallet)
        ensures
            r.seed_view() == self.seed_view(),
            r.nonce_view() == self.nonce_view(),
            r.slots(false).len() == 0,
            r.slots(true).len() == 0,
    {
        proof {
            use_type_invariant(self);
        }
        ChildWallet {
            seed: vstd::slice::slice_to_vec(self.seed.as_slice()),
            public: vstd::slice::slice_to_vec(self.public.as_slice()),
            children: Vec::new(),
            hardened_children: Vec::new(),
            nonce: self.nonce,
        }
    }
}

/// A wallet: its entropy and the root of its key tree.
pub struct Wallet {
    entropy: [u8; 16],
    parent: ChildWallet,
}

impl Wallet {
    pub closed spec fn entropy_view(&self) -> Seq<u8> {
        self.entropy@
    }

    pub closed spec fn parent_view(&self) -> ChildWallet {
        self.parent
    }

    /// The wallet of some entropy; the root's nonce starts at `nonce`.
    pub fn from_entropy(entropy: [u8; 16], nonce: u8) -> (r: Result<Wallet, WalletError>)
        ensures
            match r {
                Ok(w) => w.entropy_view() == entropy@ && w.parent_view().seed_view()
                    == root_seed_of(entropy@) && w.parent_view().nonce_view() == nonce,
                Err(e) => e == WalletError::InvalidScalar && !valid_secret(
                    secret_part(root_seed_of(entropy@)),
                ),
            },
    {
        let seed = Seed::new(entropy);
        let words = seed.words();
        let phrase = join_words(words.as_slice());
        proof {
            assert(words@.map_values(|w: &str| w@) =~= mnemonic_words(entropy@));
        }
        let mut salt: Vec<u8> = Vec::new();
        salt.push(0x6d);
        salt.push(0x6e);
        salt.push(0x65);
        salt.push(0x6d);
        salt.push(0x6f);
        salt.push(0x6e);
        salt.push(0x69);
        salt.push(0x63);
        assert(salt@ =~= mnemonic_salt());
        let stretched = pbkdf2_sha512(phrase.as_str().as_bytes(), salt.as_slice(), STRETCH_ROUNDS);
        let mut key: Vec<u8> = Vec::new();
        key.push(0x42);
        key.push(0x69);
        key.push(0x74);
        key.push(0x63);
        key.push(0x6f);
        key.push(0x69);
        key.push(0x6e);
        key.push(0x20);
        key.push(0x73);
        key.push(0x65);
        key.push(0x65);
        key.push(0x64);
        assert(key@ =~= root_key());
        let root = hmac_sha512(key.as_slice(), stretched.as_slice());
        match ChildWallet::new(root.as_slice(), nonce) {
            Ok(parent) => Ok(Wallet { entropy, parent }),
            Err(e) => Err(e),
        }
    }

    /// The wallet whose mnemonic is `words`; the root's nonce starts at `nonce`.
    pub fn from_words(words: &[String], nonce: u8) -> (r: Result<Wallet, WalletError>)
        ensures
            match r {
                Ok(w) => crate::mnemonic::decode_words(words@.map_values(|s: String| s@))
                    == Ok::<Seq<u8>, MnemonicError>(w.entropy_view()) && w.parent_view().seed_view()
                    == root_seed_of(w.entropy_view()),
                Err(WalletError::Mnemonic(e)) => crate::mnemonic::decode_words(
                    words@.map_values(|s: String| s@),
                ) == Err::<Seq<u8>, MnemonicError>(e),
                Err(WalletError::InvalidScalar) => crate::mnemonic::decode_words(
                    words@.map_values(|s: String| s@),
                ) matches Ok(e) && !valid_secret(secret_part(root_seed_of(e))),
                Err(WalletError::SerializationCorrupt) => false,
            },
            forall|e: Seq<u8>|
                e.len() == crate::mnemonic::ENTROPY_LEN && #[trigger] mnemonic_words(e)
                    == words@.map_values(|s: String| s@) ==> ((r matches Ok(w) && w.entropy_view()
                    == e) || (r == Err::<Wallet, WalletError>(WalletError::InvalidScalar) && !valid_secret(
                    secret_part(root_seed_of(e)),
                ))),
    {
        match Seed::from_words(words) {
            Ok(seed) => Self::from_entropy(seed.0, nonce),
            Err(e) => Err(WalletError::Mnemonic(e)),
        }
    }

    /// The wallet of some entropy and a root read back from storage; the root
    /// must hold the seed that the entropy gives.
    pub fn restore(entropy: [u8; 16], parent: ChildWallet) -> (r: Result<Wallet, WalletError>)
        ensures
            match r {
                Ok(w) => w.entropy_view() == entropy@ && w.parent_view() == parent && parent.seed_view()
                    == root_seed_of(entropy@),
                Err(e) => (e == WalletError::InvalidScalar && !valid_secret(
                    secret_part(root_seed_of(entropy@)),
                )) || (e == WalletError::SerializationCorrupt && valid_secret(
                    secret_part(root_seed_of(entropy@)),
                ) && parent.seed_view() != root_seed_of(entropy@)),
            },
    {
        let fresh = Wallet::from_entropy(entropy, 0)?;
        proof {
            use_type_invariant(&fresh.parent);
        }
        if !same_seed_slices(fresh.parent.seed(), parent.seed()) {
            return Err(WalletError::SerializationCorrupt);
        }
        Ok(Wallet { entropy, parent })
    }

    /// The entropy.
    pub fn entropy(&self) -> (r: &[u8])
        ensures
            r@ == self.entropy_view(),
    {
        self.entropy.as_slice()
    }

    /// The twelve words of the mnemonic.
    pub fn words(&self) -> (r: Vec<&'static str>)
        ensures
            r@.len() == crate::mnemonic::WORD_COUNT,
            forall|k: int|
                0 <= k < crate::mnemonic::WORD_COUNT ==> (#[trigger] r@[k])@ == mnemonic_words(
                    self.entropy_view(),
                )[k],
    {
        Seed::new(self.entropy).words()
    }

    /// The root of the key tree.
    pub fn parent(&self) -> (r: &ChildWallet)
        ensures
            *r == self.parent_view(),
    {
        &self.parent
    }

    /// Derives along `path` from the root, keeping what is derived, and returns
    /// the node reached, without its children.
    pub fn child_at(&mut self, path: &[(u32, bool)]) -> (r: Result<ChildWallet, WalletError>)
        requires
            forall|k: int| 0 <= k < path@.len() ==> (#[trigger] path@[k]).0 < u32::MAX,
        ensures
            match r {
                Ok(c) => path_seed(old(self).parent_view().seed_view(), path@) == Some(
                    c.seed_view(),
                ),
                Err(e) => e == WalletError::InvalidScalar && path_seed(
                    old(self).parent_view().seed_view(),
                    path@,
                ) is None,
            },
            final(self).entropy_view() == old(self).entropy_view(),
            final(self).parent_view().seed_view() == old(self).parent_view().seed_view(),
            r is Ok ==> holds_path(final(self).parent_view(), path@),
    {
        self.parent.load_path(path)
    }
}

/// Whether the nodes along `path` from `w` are all stored in the tree.
pub open spec fn holds_path(w: ChildWallet, path: Seq<(u32, bool)>) -> bool
    decreases path.len(),
{
    if path.len() == 0 {
        true
    } else {
        w.child_at(path[0].0 as int, path[0].1) matches Some(c) && holds_path(c, path.drop_first())
    }
}

/// Each child in `slots` holds the seed derived from `seed` at its index.
pub open spec fn slots_derived(seed: Seq<u8>, slots: Seq<Option<ChildWallet>>, hardened: bool) -> bool {
    forall|j: int|
        0 <= j < slots.len() ==> (#[trigger] slots[j] matches Some(c) ==> Some(c.seed_view())
            == derived_seed(seed, j as u32, hardened))
}

/// `after` is `before` with child `i` of one kind derived: kept if it was
/// there, else added with the derived seed, nothing else changed.
pub open spec fn loaded(before: ChildWallet, after: ChildWallet, i: u32, hardened: bool) -> bool {
    if before.child_at(i as int, hardened) is Some {
        after == before
    } else {
        &&& after.seed_view() == before.seed_view()
        &&& after.nonce_view() == before.nonce_view()
        &&& after.slots(!hardened) == before.slots(!hardened)
        &&& after.child_at(i as int, hardened) matches Some(c) && Some(c.seed_view())
            == derived_seed(before.seed_view(), i, hardened) && c.slots(false).len() == 0
            && c.slots(true).len() == 0
        &&& after.slots(hardened).len() == if i as int + 1 > before.slots(hardened).len() {
            i as int + 1
        } else {
            before.slots(hardened).len() as int
        }
        &&& forall|j: int| 0 <= j < after.slots(hardened).len() && j != i ==> #[trigger] after.child_at(
            j,
            hardened,
        ) == before.child_at(j, hardened)
    }
}

/// Loading the same child twice changes nothing the second time, and both
/// loads leave the same child, with the seed that derivation gives.
pub proof fn lemma_load_child_idempotent(
    a: ChildWallet,
    b: ChildWallet,
    c: ChildWallet,
    i: u32,
    hardened: bool,
)
    requires
        loaded(a, b, i, hardened),
        loaded(b, c, i, hardened),
    ensures
        c == b,
        c.child_at(i as int, hardened) == b.child_at(i as int, hardened),
        a.child_at(i as int, hardened) is None ==> Some(
            c.child_at(i as int, hardened)->0.seed_view(),
        ) == derived_seed(a.seed_view(), i, hardened),
{
}

fn same_seed_slices(a: &[u8], b: &[u8]) -> (r: bool)
    ensures
        r == (a@ == b@),
{
    same_seed(&vstd::slice::slice_to_vec(a), &vstd::slice::slice_to_vec(b))
}

fn same_seed(a: &Vec<u8>, b: &Vec<u8>) -> (r: bool)
    ensures
        r == (a@ == b@),
{
    crate::tx::same_bytes(a, b)
}

/// Two keys with the same seed have the same address on a network, and on two
/// different networks the bytes that their address encodes differ.
pub proof fn lemma_address_per_network(a: ChildWallet, b: ChildWallet, n: Network, m: Network)
    requires
        a.seed_view() == b.seed_view(),
    ensures
        address_of(pubkey_hash_of(secret_part(a.seed_view())), n) == address_of(
            pubkey_hash_of(secret_part(b.seed_view())),
            n,
        ),
        n != m ==> seq![version_byte(n)] + pubkey_hash_of(secret_part(a.seed_view())) != seq![
            version_byte(m),
        ] + pubkey_hash_of(secret_part(a.seed_view())),
{
    if n != m {
        lemma_network_payloads_distinct(pubkey_hash_of(secret_part(a.seed_view())), n, m);
    }
}

/// Appends all of `src` to `buf`.
fn push_all(buf: &mut Vec<u8>, src: &[u8])
    ensures
        final(buf)@ == old(buf)@ + src@,
{
    let mut i: usize = 0;
    while i < src.len()
        invariant
            i <= src@.len(),
            buf@ == old(buf)@ + src@.subrange(0, i as int),
        decreases src@.len() - i,
    {
        buf.push(src[i]);
        i = i + 1;
        assert(buf@ =~= old(buf)@ + src@.subrange(0, i as int));
    }
    assert(src@.subrange(0, src@.len() as int) =~= src@);
}

/// Grows `slots` with empty slots to at least `n`.
fn fill_slots(slots: &mut Vec<Option<ChildWallet>>, n: usize)
    ensures
        final(slots)@.len() == if n > old(slots)@.len() {
            n as int
        } else {
            old(slots)@.len() as int
        },
        forall|j: int| 0 <= j < old(slots)@.len() ==> final(slots)@[j] == old(slots)@[j],
        forall|j: int| old(slots)@.len() <= j < final(slots)@.len() ==> final(slots)@[j] is None,
{
    while slots.len() < n
        invariant
            old(slots)@.len() <= slots@.len(),
            slots@.len() <= n || slots@.len() == old(slots)@.len(),
            forall|j: int| 0 <= j < old(slots)@.len() ==> slots@[j] == old(slots)@[j],
            forall|j: int| old(slots)@.len() <= j < slots@.len() ==> slots@[j] is None,
        decreases n - slots@.len(),
    {
        slots.push(None);
    }
}

} // verus!
