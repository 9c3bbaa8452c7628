//! The randomness the search algorithms draw on, behind trusted wrappers.
//!
//! Nothing can be promised about which values come out; the contracts state
//! only what holds of every outcome, and every caller is verified for every
//! admissible outcome.
use vstd::prelude::*;

use rand::seq::SliceRandom;
use rand::Rng;

verus! {

/// Relies on rand's `SliceRandom::shuffle` with `thread_rng`: the slice is
/// permuted in place, so it holds exactly the same elements afterwards.
#[verifier::external_body]
pub fn shuffle_indices(v: &mut Vec<usize>)
    ensures
        final(v)@.to_multiset() == old(v)@.to_multiset(),
{
    v.shuffle(&mut rand::thread_rng())
}

/// Relies on rand's `Rng::gen_range` with `thread_rng`: a value below `n`.
#[verifier::external_body]
pub fn random_below(n: usize) -> (r: usize)
    requires
        n > 0,
    ensures
        r < n,
{
    rand::thread_rng().gen_range(0..n)
}

/// `0, 1, ..., n - 1`.
pub open spec fn identity_seq(n: nat) -> Seq<usize> {
    Seq::new(n, |i: int| i as usize)
}

/// A sequence holding the same elements as `0..n` has length `n` and every
/// entry below `n`.
pub proof fn lemma_permutation_bounds(s: Seq<usize>, n: nat)
    requires
        s.to_multiset() == identity_seq(n).to_multiset(),
    ensures
        s.len() == n,
        forall|k: int| 0 <= k < s.len() ==> (#[trigger] s[k]) < n,
{
    broadcast use vstd::seq_lib::group_to_multiset_ensures;

    assert(identity_seq(n).len() == n);
    assert(s.len() == s.to_multiset().len());
    assert(identity_seq(n).len() == identity_seq(n).to_multiset().len());
    assert forall|k: int| 0 <= k < s.len() implies (#[trigger] s[k]) < n by {
        assert(s.contains(s[k]));
        assert(s.to_multiset().count(s[k]) > 0);
        assert(identity_seq(n).contains(s[k]));
        let t = choose|t: int| 0 <= t < n && identity_seq(n)[t] == s[k];
        assert(s[k] == t as usize);
    }
}

/// A uniformly shuffled copy of `0..n`: some order of exactly those indices.
pub fn random_permutation(n: usize) -> (r: Vec<usize>)
    ensures
        r@.len() == n,
        forall|k: int| 0 <= k < r@.len() ==> (#[trigger] r@[k]) < n,
        r@.to_multiset() == identity_seq(n as nat).to_multiset(),
{
    let mut v: Vec<usize> = Vec::new();
    let mut i: usize = 0;
    while i < n
        invariant
            i <= n,
            v@.len() == i,
            forall|k: int| 0 <= k < i ==> (#[trigger] v@[k]) == k as usize,
        decreases n - i,
    {
        v.push(i);
        i += 1;
    }
    proof {
        assert(v@ =~= identity_seq(n as nat));
    }
    shuffle_indices(&mut v);
    proof {
        lemma_permutation_bounds(v@, n as nat);
    }
    v
}

} // verus!
