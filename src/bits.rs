//! Big-endian bit strings: the model under the mnemonic codec.
use vstd::arithmetic::power2::{lemma_pow2_unfold, pow2};
use vstd::prelude::*;

verus! {

/// The low `n` bits of `x`, most significant first.
pub open spec fn bits_of(x: u16, n: nat) -> Seq<bool>
    decreases n,
{
    if n == 0 {
        Seq::empty()
    } else {
        bits_of(x >> 1u16, (n - 1) as nat).push(x & 1u16 == 1u16)
    }
}

/// The number whose binary digits, most significant first, are `b`.
pub open spec fn bits_value(b: Seq<bool>) -> nat
    decreases b.len(),
{
    if b.len() == 0 {
        0
    } else {
        2 * bits_value(b.drop_last()) + if b.last() {
            1nat
        } else {
            0nat
        }
    }
}

/// The bits of a byte string, eight per byte, most significant first.
pub open spec fn bytes_bits(s: Seq<u8>) -> Seq<bool> {
    Seq::new(8 * s.len(), |i: int| bits_of(s[i / 8] as u16, 8)[i % 8])
}

/// The bits of a sequence of 11-bit word indices, most significant first.
pub open spec fn indices_bits(w: Seq<u16>) -> Seq<bool> {
    Seq::new(11 * w.len(), |i: int| bits_of(w[i / 11], 11)[i % 11])
}

pub proof fn lemma_bits_of_len(x: u16, n: nat)
    ensures
        bits_of(x, n).len() == n,
    decreases n,
{
    if n > 0 {
        lemma_bits_of_len(x >> 1u16, (n - 1) as nat);
    }
}

pub proof fn lemma_bits_value_bound(b: Seq<bool>)
    ensures
        bits_value(b) < pow2(b.len()),
    decreases b.len(),
{
    vstd::arithmetic::power2::lemma2_to64();
    if b.len() > 0 {
        lemma_bits_value_bound(b.drop_last());
        lemma_pow2_unfold(b.len());
    }
}

/// Appending one bit doubles the value and adds the bit.
pub proof fn lemma_bits_value_push(b: Seq<bool>, x: bool)
    ensures
        bits_value(b.push(x)) == 2 * bits_value(b) + if x {
            1nat
        } else {
            0nat
        },
{
    assert(b.push(x).drop_last() =~= b);
}

/// Reading back the bits of a number that fits in `n` bits gives the number.
pub proof fn lemma_value_of_bits(x: u16, n: nat)
    requires
        n <= 16,
        x < pow2(n),
    ensures
        bits_value(bits_of(x, n)) == x,
    decreases n,
{
    vstd::arithmetic::power2::lemma2_to64();
    if n == 0 {
    } else {
        lemma_pow2_unfold(n);
        let y = x >> 1u16;
        assert((x >> 1u16) == x / 2) by (bit_vector);
        assert(y < pow2((n - 1) as nat));
        lemma_value_of_bits(y, (n - 1) as nat);
        let b = bits_of(y, (n - 1) as nat).push(x & 1u16 == 1u16);
        assert(b.drop_last() =~= bits_of(y, (n - 1) as nat));
        assert(x == 2 * (x >> 1u16) + if x & 1u16 == 1u16 { 1u16 } else { 0u16 }) by (bit_vector);
    }
}

/// Taking the bits of a value gives back the bits it was made from.
pub proof fn lemma_bits_of_value(b: Seq<bool>)
    requires
        b.len() <= 16,
    ensures
        bits_of(bits_value(b) as u16, b.len()) =~= b,
    decreases b.len(),
{
    if b.len() > 0 {
        let p = b.drop_last();
        lemma_bits_of_value(p);
        lemma_bits_value_bound(p);
        lemma_pow2_unfold(b.len());
        vstd::arithmetic::power2::lemma2_to64();
        if p.len() < 15 {
            vstd::arithmetic::power2::lemma_pow2_strictly_increases(p.len(), 15);
        }
        let v = bits_value(p) as u16;
        let c: u16 = if b.last() {
            1
        } else {
            0
        };
        assert(v < 32768);
        let w = (2 * v + c) as u16;
        assert(w >> 1u16 == v && (w & 1u16 == 1u16) == (c == 1)) by (bit_vector)
            requires
                v < 32768,
                c < 2,
                w == 2 * v + c,
        ;
        assert(bits_value(b) == w);
        assert(b =~= p.push(b.last()));
    }
}

/// Dropping the last `k` bits of the bits of `x` gives the bits of `x >> k`.
pub proof fn lemma_bits_prefix(x: u16, n: nat, k: nat)
    requires
        k <= n,
        n <= 16,
    ensures
        bits_of(x, n).subrange(0, n - k) =~= bits_of(x >> (k as u16), (n - k) as nat),
    decreases k,
{
    lemma_bits_of_len(x, n);
    if k == 0 {
        assert(x >> 0u16 == x) by (bit_vector);
    } else {
        lemma_bits_prefix(x >> 1u16, (n - 1) as nat, (k - 1) as nat);
        let kk = k as u16;
        assert((x >> 1u16) >> ((kk - 1) as u16) == x >> kk) by (bit_vector)
            requires
                1 <= kk <= 16,
        ;
        lemma_bits_of_len(x >> 1u16, (n - 1) as nat);
        assert(bits_of(x, n).subrange(0, n - k) =~= bits_of(x >> 1u16, (n - 1) as nat).subrange(
            0,
            (n - 1) - (k - 1),
        ));
    }
}

/// The `j`-th bit of `bits_of(x, n)` as a shift and a mask.
pub proof fn lemma_bits_of_index(x: u16, n: nat, j: int)
    requires
        0 <= j < n,
        n <= 16,
    ensures
        bits_of(x, n)[j] == ((x >> ((n - 1 - j) as u16)) & 1u16 == 1u16),
    decreases n,
{
    lemma_bits_of_len(x, n);
    if j == n - 1 {
        assert(x >> 0u16 == x) by (bit_vector);
    } else {
        lemma_bits_of_index(x >> 1u16, (n - 1) as nat, j);
        let s = (n - 1 - j) as u16;
        assert((x >> 1u16) >> ((s - 1) as u16) == x >> s) by (bit_vector)
            requires
                1 <= s <= 16,
        ;
    }
}

} // verus!
