//! Perceptual hashes as fixed-size bit vectors, with Hamming distance.
//!
//! Two images are similar when the number of bits in which their hashes
//! differ is below a configured threshold.

use vstd::prelude::*;

verus! {

/// Byte length of every perceptual hash produced in a run. The hasher is
/// configured once (a 16x16 double-gradient hash, 144 bits), so all hashes
/// in a run are the same size and their distances are comparable.
pub const HASH_BYTES: usize = 18;

/// Number of set bits in a natural number's binary representation.
pub open spec fn pop_nat(n: nat) -> nat
    decreases n,
{
    if n == 0 {
        0
    } else {
        n % 2 + pop_nat(n / 2)
    }
}

/// Hamming distance between the first `n` bytes of `a` and `b`: the number
/// of bits in which they differ, summed byte by byte.
pub open spec fn hamming_prefix(a: Seq<u8>, b: Seq<u8>, n: int) -> nat
    decreases n,
{
    if n <= 0 {
        0
    } else {
        hamming_prefix(a, b, n - 1) + pop_nat((a[n - 1] ^ b[n - 1]) as nat)
    }
}

/// Hamming distance between two equal-length byte vectors: the count of
/// differing bits.
pub open spec fn hamming(a: Seq<u8>, b: Seq<u8>) -> nat {
    hamming_prefix(a, b, a.len() as int)
}

pub proof fn lemma_pop_nat_le(n: nat)
    ensures
        pop_nat(n) <= n,
    decreases n,
{
    if n > 0 {
        lemma_pop_nat_le(n / 2);
    }
}

pub proof fn lemma_hamming_prefix_symmetric(a: Seq<u8>, b: Seq<u8>, n: int)
    requires
        n <= a.len(),
        n <= b.len(),
    ensures
        hamming_prefix(a, b, n) == hamming_prefix(b, a, n),
    decreases n,
{
    if n > 0 {
        lemma_hamming_prefix_symmetric(a, b, n - 1);
        let x = a[n - 1];
        let y = b[n - 1];
        assert(x ^ y == y ^ x) by (bit_vector);
    }
}

/// The Hamming distance does not depend on the order of its arguments.
pub proof fn lemma_hamming_symmetric(a: Seq<u8>, b: Seq<u8>)
    requires
        a.len() == b.len(),
    ensures
        hamming(a, b) == hamming(b, a),
{
    lemma_hamming_prefix_symmetric(a, b, a.len() as int);
}

/// A perceptual hash: `HASH_BYTES` bytes, 8 bits each.
pub struct PHash {
    pub bits: Vec<u8>,
}

impl View for PHash {
    type V = Seq<u8>;

    open spec fn view(&self) -> Seq<u8> {
        self.bits@
    }
}

impl PHash {
    /// Every hash of a run has the same fixed size.
    pub open spec fn valid(&self) -> bool {
        self@.len() == HASH_BYTES
    }

    /// Builds a hash directly from its bytes.
    pub fn from_bytes(bits: Vec<u8>) -> (h: PHash)
        requires
            bits@.len() == HASH_BYTES,
        ensures
            h@ == bits@,
            h.valid(),
    {
        PHash { bits }
    }

    /// Hamming distance to another hash: the number of differing bits.
    pub fn dist(&self, other: &PHash) -> (d: u32)
        requires
            self.valid(),
            other.valid(),
        ensures
            d == hamming(self@, other@),
    {
        let n = self.bits.len();
        let mut d: u32 = 0;
        let mut i: usize = 0;
        while i < n
            invariant
                n == HASH_BYTES,
                self@.len() == n,
                other@.len() == n,
                i <= n,
                d <= 255 * i,
                d == hamming_prefix(self@, other@, i as int),
            decreases n - i,
        {
            let x = self.bits[i] ^ other.bits[i];
            let c = popcount8(x);
            d = d + c as u32;
            i = i + 1;
        }
        d
    }
}

/// Number of set bits in one byte.
fn popcount8(x: u8) -> (c: u8)
    ensures
        c == pop_nat(x as nat),
    decreases x,
{
    proof {
        lemma_pop_nat_le((x / 2) as nat);
    }
    if x == 0 {
        0
    } else {
        (x % 2) + popcount8(x / 2)
    }
}

} // verus!
