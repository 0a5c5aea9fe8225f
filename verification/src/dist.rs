//! The XOR distance metric on node identifiers, and the bucket index a
//! distance falls in.

use vstd::prelude::*;
use vstd::arithmetic::power2::{pow2, lemma_pow2_unfold, lemma_pow2_strictly_increases, lemma2_to64,
    lemma2_to64_rest, lemma_pow2_pos};

verus! {

/// Number of bits in a node identifier; a routing table owns one bucket per
/// bit.
pub const ID_BITS: usize = 64;

/// XOR distance between two identifiers, interpreted as an unsigned integer;
/// smaller is closer.
pub open spec fn spec_distance(a: u64, b: u64) -> u64 {
    a ^ b
}

/// Computes the XOR distance between two identifiers.
pub fn distance(a: u64, b: u64) -> (d: u64)
    ensures
        d == spec_distance(a, b),
{
    a ^ b
}

/// An identifier is at distance zero exactly from itself.
pub proof fn lemma_distance_zero(a: u64, b: u64)
    ensures
        spec_distance(a, b) == 0 <==> a == b,
{
    assert((a ^ b) == 0 <==> a == b) by (bit_vector);
}

/// The identifier a record key occupies in the distance space: a
/// deterministic fold of the key's bytes, so that every node places the same
/// key at the same point.
pub open spec fn spec_key_id(s: Seq<u8>) -> u64
    decreases s.len(),
{
    if s.len() == 0 {
        0u64
    } else {
        spec_key_id(s.drop_last()).wrapping_mul(31).wrapping_add(s.last() as u64)
    }
}

/// Computes the identifier a record key occupies in the distance space.
pub fn key_id(key: &Vec<u8>) -> (id: u64)
    ensures
        id == spec_key_id(key@),
{
    let mut acc: u64 = 0;
    let mut i: usize = 0;
    while i < key.len()
        invariant
            i <= key@.len(),
            acc == spec_key_id(key@.take(i as int)),
        decreases key@.len() - i,
    {
        proof {
            assert(key@.take(i + 1).drop_last() =~= key@.take(i as int));
            assert(key@.take(i + 1).last() == key@[i as int]);
        }
        acc = acc.wrapping_mul(31).wrapping_add(key[i] as u64);
        i = i + 1;
    }
    proof {
        assert(key@.take(key@.len() as int) =~= key@);
    }
    acc
}

/// Index of the highest set bit: floor(log2(n)), with log2(0) taken as 0.
pub open spec fn spec_log2(n: nat) -> nat
    decreases n,
{
    if n < 2 {
        0
    } else {
        1 + spec_log2(n / 2)
    }
}

/// The bucket that holds contacts at distance `d` from the local identifier:
/// bucket `i` spans distances in `[2^i, 2^(i+1))`.
pub open spec fn spec_bucket_index(d: u64) -> nat {
    spec_log2(d as nat)
}

/// A distance that fits in an identifier falls in one of the `ID_BITS`
/// buckets.
pub proof fn lemma_bucket_index_in_range(d: u64)
    ensures
        spec_bucket_index(d) < ID_BITS,
{
    lemma2_to64();
    lemma2_to64_rest();
    lemma_log2_below(d as nat, ID_BITS as nat);
}

/// For positive `n` below `2^k`, floor(log2(n)) is below `k`.
proof fn lemma_log2_below(n: nat, k: nat)
    requires
        k >= 1,
        n < pow2(k),
    ensures
        spec_log2(n) < k,
    decreases k,
{
    if n < 2 {
    } else {
        lemma_pow2_unfold(k);
        assert(n / 2 < pow2((k - 1) as nat));
        if k - 1 == 0 {
            assert(pow2(0) == 1) by {
                lemma2_to64();
            }
        } else {
            lemma_log2_below(n / 2, (k - 1) as nat);
        }
    }
}

/// Computes the bucket index of a non-zero distance.
pub fn bucket_index(d: u64) -> (i: usize)
    requires
        d >= 1,
    ensures
        i as nat == spec_bucket_index(d),
        i < ID_BITS,
{
    let mut x: u64 = d;
    let mut i: usize = 0;
    proof {
        lemma2_to64();
        lemma2_to64_rest();
    }
    while x >= 2
        invariant
            1 <= x,
            spec_log2(d as nat) == i + spec_log2(x as nat),
            x as nat * pow2(i as nat) <= d as nat,
            (d as nat) < pow2(64),
        decreases x,
    {
        proof {
            lemma_pow2_pos(i as nat);
            assert((x as nat / 2) * pow2((i + 1) as nat) <= x as nat * pow2(i as nat)) by {
                lemma_pow2_unfold((i + 1) as nat);
                assert((x as nat / 2) * (2 * pow2(i as nat)) <= x as nat * pow2(i as nat))
                    by (nonlinear_arith)
                    requires
                        pow2(i as nat) > 0,
                        x >= 2,
                ;
            }
            assert(i + 1 < 64) by {
                if i + 1 >= 64 {
                    lemma_pow2_unfold((i + 1) as nat);
                    assert(2 * pow2(i as nat) <= x as nat * pow2(i as nat)) by (nonlinear_arith)
                        requires
                            pow2(i as nat) > 0,
                            x >= 2,
                    ;
                    if i + 1 > 64 {
                        lemma_pow2_strictly_increases(64, (i + 1) as nat);
                    }
                    lemma2_to64_rest();
                }
            }
        }
        x = x / 2;
        i = i + 1;
    }
    proof {
        assert(x == 1);
        lemma_pow2_pos(i as nat);
        assert(i < 64) by {
            if i >= 64 {
                if i > 64 {
                    lemma_pow2_strictly_increases(64, i as nat);
                }
                lemma2_to64_rest();
            }
        }
    }
    i
}

} // verus!
