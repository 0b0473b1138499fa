use vstd::prelude::*;

use crate::transaction::Transaction;

verus! {

broadcast use vstd::array::group_array_axioms;

/// A 32-byte digest: identifies a block or a transaction output.
pub type Digest = [u8; 32];

/// The `prev_block_hash` that a genesis block carries: 32 zero bytes.
pub open spec fn zero_hash() -> Seq<u8> {
    Seq::new(32, |_i: int| 0u8)
}

/// The little-endian number that the bytes of `s` spell.
pub open spec fn le_value(s: Seq<u8>) -> nat
    decreases s.len(),
{
    if s.len() == 0 {
        0
    } else {
        s[0] as nat + 256 * le_value(s.drop_first())
    }
}

/// The work value of a hash: its upper sixteen bytes read as a little-endian number.
pub open spec fn hash_value(h: Seq<u8>) -> nat {
    le_value(h.subrange(16, 32))
}

/// A hash meets a difficulty target when its work value lies strictly below it.
pub open spec fn meets_difficulty(h: Seq<u8>, difficulty: u128) -> bool {
    hash_value(h) < difficulty
}

pub open spec fn pow256(n: nat) -> nat
    decreases n,
{
    if n == 0 {
        1
    } else {
        256 * pow256((n - 1) as nat)
    }
}

proof fn lemma_le_value_bound(s: Seq<u8>)
    ensures
        le_value(s) < pow256(s.len()),
    decreases s.len(),
{
    if s.len() > 0 {
        lemma_le_value_bound(s.drop_first());
        let rest = le_value(s.drop_first());
        let p = pow256(s.drop_first().len());
        assert(s[0] as nat + 256 * rest < 256 * p) by (nonlinear_arith)
            requires
                s[0] < 256,
                rest < p,
        ;
    }
}

/// Decides whether `hash` meets the `difficulty` target.
pub fn check_difficulty(hash: &Digest, difficulty: u128) -> (r: bool)
    ensures
        r == meets_difficulty(hash@, difficulty),
{
    let mut v: u128 = 0;
    let mut k: usize = 32;
    while k > 16
        invariant
            16 <= k <= 32,
            v as nat == le_value(hash@.subrange(k as int, 32)),
        decreases k,
    {
        let ghost tail = hash@.subrange(k as int, 32);
        let ghost next = hash@.subrange(k - 1, 32);
        assert(next.drop_first() =~= tail);
        proof {
            lemma_le_value_bound(next);
            reveal_with_fuel(pow256, 17);
            assert(pow256(16) == 0x1_0000_0000_0000_0000_0000_0000_0000_0000);
            assert(pow256(next.len()) <= pow256(16)) by {
                lemma_pow256_monotone(next.len(), 16);
            }
        }
        v = v * 256 + hash[k - 1] as u128;
        k = k - 1;
    }
    difficulty > v
}

proof fn lemma_pow256_monotone(a: nat, b: nat)
    requires
        a <= b,
    ensures
        pow256(a) <= pow256(b),
    decreases b,
{
    if a < b {
        lemma_pow256_monotone(a, (b - 1) as nat);
    }
}

/// Decides whether two hashes are the same.
pub fn hash_eq(a: &Digest, b: &Digest) -> (r: bool)
    ensures
        r == (*a == *b),
{
    let mut k: usize = 0;
    while k < 32
        invariant
            k <= 32,
            forall|j: int| 0 <= j < k ==> a@[j] == b@[j],
        decreases 32 - k,
    {
        if a[k] != b[k] {
            return false;
        }
        k = k + 1;
    }
    assert(*a =~= *b);
    true
}

/// Decides whether `h` is the genesis sentinel.
pub fn is_zero_hash(h: &Digest) -> (r: bool)
    ensures
        r == (h@ == zero_hash()),
{
    let mut k: usize = 0;
    while k < 32
        invariant
            k <= 32,
            forall|j: int| 0 <= j < k ==> h@[j] == 0u8,
        decreases 32 - k,
    {
        if h[k] != 0 {
            assert(h@[k as int] != zero_hash()[k as int]);
            return false;
        }
        k = k + 1;
    }
    assert(h@ =~= zero_hash());
    true
}

/// A candidate or accepted block, as handed over by whoever produced it.
#[derive(Clone, Debug)]
pub struct Block {
    /// Position the block claims in the chain.
    pub index: u32,
    pub timestamp: u128,
    /// The block's own hash, as reported by its producer.
    pub hash: Digest,
    /// Hash of the block that precedes it; the zero sentinel for a genesis block.
    pub prev_block_hash: Digest,
    /// The first transaction, if any, is the coinbase.
    pub transactions: Vec<Transaction>,
}

} // verus!
