use vstd::prelude::*;
use crate::error::HashError;
use crate::fingerprint::Fingerprint;

verus! {

/// Hamming distance: the number of positions at which two equal-length bit
/// sequences differ.
pub open spec fn hamming(a: Seq<bool>, b: Seq<bool>) -> nat
    recommends
        a.len() == b.len(),
    decreases a.len(),
{
    if a.len() == 0 {
        0
    } else {
        hamming(a.drop_last(), b.drop_last()) + if a.last() != b.last() {
            1nat
        } else {
            0nat
        }
    }
}

/// Compares two fingerprints: the Hamming distance between their bits.
/// Fingerprints of differing bit length come from differing configurations;
/// comparing them is a caller error, reported rather than computed best-effort.
pub fn distance(a: &Fingerprint, b: &Fingerprint) -> (r: Result<usize, HashError>)
    ensures
        a@.len() == b@.len() ==> r == Ok::<usize, HashError>(hamming(a@, b@) as usize),
        a@.len() != b@.len() ==> r == Err::<usize, HashError>(HashError::LengthMismatch),
{
    let n = a.bit_count();
    if n != b.bit_count() {
        return Err(HashError::LengthMismatch);
    }
    let mut count: usize = 0;
    let mut i: usize = 0;
    while i < n
        invariant
            i <= n,
            n == a@.len() && n == b@.len(),
            count == hamming(a@.subrange(0, i as int), b@.subrange(0, i as int)),
            count <= i,
        decreases n - i,
    {
        proof {
            lemma_hamming_bounds(a@.subrange(0, i as int + 1), b@.subrange(0, i as int + 1));
            assert(a@.subrange(0, i as int + 1).drop_last() =~= a@.subrange(0, i as int));
            assert(b@.subrange(0, i as int + 1).drop_last() =~= b@.subrange(0, i as int));
        }
        if a.bit(i) != b.bit(i) {
            count = count + 1;
        }
        i = i + 1;
    }
    proof {
        assert(a@.subrange(0, n as int) =~= a@);
        assert(b@.subrange(0, n as int) =~= b@);
    }
    Ok(count)
}

/// Range: the distance between equal-length bit sequences never exceeds
/// their length (and, being a count, is never negative).
pub proof fn lemma_hamming_bounds(a: Seq<bool>, b: Seq<bool>)
    requires
        a.len() == b.len(),
    ensures
        hamming(a, b) <= a.len(),
    decreases a.len(),
{
    if a.len() > 0 {
        lemma_hamming_bounds(a.drop_last(), b.drop_last());
    }
}

/// Identity: every bit sequence is at distance zero from itself.
pub proof fn lemma_hamming_identity(a: Seq<bool>)
    ensures
        hamming(a, a) == 0,
    decreases a.len(),
{
    if a.len() > 0 {
        lemma_hamming_identity(a.drop_last());
    }
}

/// Symmetry: the distance between two equal-length bit sequences does not
/// depend on their order.
pub proof fn lemma_hamming_symmetry(a: Seq<bool>, b: Seq<bool>)
    requires
        a.len() == b.len(),
    ensures
        hamming(a, b) == hamming(b, a),
    decreases a.len(),
{
    if a.len() > 0 {
        lemma_hamming_symmetry(a.drop_last(), b.drop_last());
    }
}

/// Triangle inequality: over equal-length bit sequences, Hamming distance
/// is a true metric, so a detour through `b` never shortens the way.
pub proof fn lemma_hamming_triangle(a: Seq<bool>, b: Seq<bool>, c: Seq<bool>)
    requires
        a.len() == b.len(),
        b.len() == c.len(),
    ensures
        hamming(a, c) <= hamming(a, b) + hamming(b, c),
    decreases a.len(),
{
    if a.len() > 0 {
        lemma_hamming_triangle(a.drop_last(), b.drop_last(), c.drop_last());
    }
}

} // verus!
