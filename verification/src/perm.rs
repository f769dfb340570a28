//! Permutations of index ranges.
//!
//! Both the noise-lattice tables and the hierarchy builder shuffle or sort
//! vectors of indices in place; their contracts are phrased in terms of the
//! multiset of elements, which swapping never changes.

use vstd::prelude::*;

verus! {

broadcast use vstd::seq_lib::group_to_multiset_ensures;

/// The sequence `0, 1, ..., n - 1`.
pub open spec fn identity_seq(n: nat) -> Seq<usize> {
    Seq::new(n, |i: int| i as usize)
}

/// `s` holds each index below `n` exactly once.
pub open spec fn is_permutation_of(s: Seq<usize>, n: nat) -> bool {
    s.to_multiset() == identity_seq(n).to_multiset()
}

/// Swapping two elements of a sequence leaves its multiset unchanged.
pub proof fn lemma_swap_preserves_multiset(s: Seq<usize>, i: int, j: int)
    requires
        0 <= i < s.len(),
        0 <= j < s.len(),
    ensures
        s.update(i, s[j]).update(j, s[i]).to_multiset() == s.to_multiset(),
{
    broadcast use vstd::seq_lib::to_multiset_update;
    broadcast use vstd::multiset::group_multiset_axioms;

    if i == j {
        assert(s.update(i, s[j]).update(j, s[i]) =~= s);
    } else {
        let s1 = s.update(i, s[j]);
        assert(s1[j] == s[j]);
        assert(s1.update(j, s[i]).to_multiset() =~= s.to_multiset());
    }
}

/// A permutation of `0..n` has length `n`, holds only indices below `n`,
/// holds every index below `n`, and holds no index twice.
pub proof fn lemma_permutation_bounds(s: Seq<usize>, n: nat)
    requires
        is_permutation_of(s, n),
        n <= usize::MAX,
    ensures
        s.len() == n,
        forall|i: int| 0 <= i < s.len() ==> (#[trigger] s[i]) < n,
        forall|k: usize| k < n ==> #[trigger] s.contains(k),
        s.no_duplicates(),
{
    assert(identity_seq(n).to_multiset().len() == n);
    assert(identity_seq(n).no_duplicates());
    identity_seq(n).lemma_multiset_has_no_duplicates();
    s.lemma_multiset_has_no_duplicates_conv();
    assert forall|i: int| 0 <= i < s.len() implies (#[trigger] s[i]) < n by {
        assert(s.contains(s[i]));
        assert(s.to_multiset().count(s[i]) > 0);
        assert(identity_seq(n).contains(s[i]));
        let w = choose|w: int| 0 <= w < n && identity_seq(n)[w] == s[i];
        assert(s[i] == w as usize);
    }
    assert forall|k: usize| k < n implies #[trigger] s.contains(k) by {
        assert(identity_seq(n)[k as int] == k);
        assert(identity_seq(n).contains(k));
        assert(s.to_multiset().count(k) > 0);
    }
}

} // verus!
