//! The discrete part of the procedural noise texture: the shuffled lattice
//! permutation tables, and the table lookup that turns lattice coordinates
//! into an index for a gradient vector.
//!
//! The gradient vectors themselves and the trilinear interpolation are
//! floating-point work and live with the unverified front end; it feeds the
//! integer lattice coordinates in and takes the chosen index out.

use vstd::prelude::*;
use crate::perm::{identity_seq, is_permutation_of, lemma_permutation_bounds,
    lemma_swap_preserves_multiset};
use crate::rng::random_below;

verus! {

/// Number of entries in each lattice permutation table.
pub const POINT_COUNT: usize = 256;

/// Shuffle the first `n` entries of `p` in place: each entry from index 1
/// upward is swapped with a randomly drawn earlier entry.
pub fn permute(p: &mut Vec<usize>, n: usize)
    requires
        n <= old(p)@.len(),
    ensures
        final(p)@.len() == old(p)@.len(),
        final(p)@.to_multiset() == old(p)@.to_multiset(),
        forall|j: int| n <= j < old(p)@.len() ==> final(p)@[j] == old(p)@[j],
{
    let mut i: usize = 1;
    while i < n
        invariant
            1 <= i,
            n <= p@.len(),
            p@.len() == old(p)@.len(),
            p@.to_multiset() == old(p)@.to_multiset(),
            forall|j: int| n <= j < p@.len() ==> p@[j] == old(p)@[j],
        decreases n - i,
    {
        let target = random_below(i);
        let ghost prev = p@;
        let tmp = p[i];
        let at_target = p[target];
        p[i] = at_target;
        p[target] = tmp;
        proof {
            lemma_swap_preserves_multiset(prev, i as int, target as int);
            assert(p@ =~= prev.update(i as int, prev[target as int]).update(
                target as int, prev[i as int]));
        }
        i = i + 1;
    }
}

/// A freshly shuffled permutation of the indices `0..POINT_COUNT`.
pub fn perlin_generate_perm() -> (p: Vec<usize>)
    ensures
        p@.len() == POINT_COUNT,
        is_permutation_of(p@, POINT_COUNT as nat),
{
    let mut p: Vec<usize> = Vec::new();
    let mut i: usize = 0;
    while i < POINT_COUNT
        invariant
            i <= POINT_COUNT,
            p@.len() == i,
            p@ == identity_seq(i as nat),
        decreases POINT_COUNT - i,
    {
        p.push(i);
        proof {
            assert(p@ =~= identity_seq((i + 1) as nat));
        }
        i = i + 1;
    }
    permute(&mut p, POINT_COUNT);
    p
}

/// A lattice table: `POINT_COUNT` entries, each an index below `POINT_COUNT`.
pub open spec fn table_in_bounds(s: Seq<usize>) -> bool {
    &&& s.len() == POINT_COUNT
    &&& forall|i: int| 0 <= i < s.len() ==> (#[trigger] s[i]) < POINT_COUNT
}

/// The three shuffled index tables that drive the noise lattice, one per
/// coordinate axis.
#[derive(Clone, Debug)]
pub struct PerlinLattice {
    pub perm_x: Vec<usize>,
    pub perm_y: Vec<usize>,
    pub perm_z: Vec<usize>,
}

impl PerlinLattice {
    pub open spec fn wf(&self) -> bool {
        &&& table_in_bounds(self.perm_x@)
        &&& table_in_bounds(self.perm_y@)
        &&& table_in_bounds(self.perm_z@)
    }

    /// Three freshly shuffled permutation tables.
    pub fn new() -> (l: Self)
        ensures
            l.wf(),
            is_permutation_of(l.perm_x@, POINT_COUNT as nat),
            is_permutation_of(l.perm_y@, POINT_COUNT as nat),
            is_permutation_of(l.perm_z@, POINT_COUNT as nat),
    {
        let perm_x = perlin_generate_perm();
        let perm_y = perlin_generate_perm();
        let perm_z = perlin_generate_perm();
        proof {
            lemma_permutation_bounds(perm_x@, POINT_COUNT as nat);
            lemma_permutation_bounds(perm_y@, POINT_COUNT as nat);
            lemma_permutation_bounds(perm_z@, POINT_COUNT as nat);
        }
        PerlinLattice { perm_x, perm_y, perm_z }
    }

    /// Build a lattice from given tables, for reproducible seeding; rejects
    /// tables of the wrong length or with an entry out of range.
    pub fn from_tables(perm_x: Vec<usize>, perm_y: Vec<usize>, perm_z: Vec<usize>)
        -> (l: Option<Self>)
        ensures
            l is Some <==> (table_in_bounds(perm_x@) && table_in_bounds(perm_y@)
                && table_in_bounds(perm_z@)),
            l matches Some(lat) ==> lat.wf() && lat.perm_x@ == perm_x@
                && lat.perm_y@ == perm_y@ && lat.perm_z@ == perm_z@,
    {
        if check_table(&perm_x) && check_table(&perm_y) && check_table(&perm_z) {
            Some(PerlinLattice { perm_x, perm_y, perm_z })
        } else {
            None
        }
    }

    /// The index of the gradient vector for the lattice corner
    /// `(i + di, j + dj, k + dk)`: each coordinate is reduced to its
    /// remainder below `POINT_COUNT`, looked up in the table for its axis,
    /// and the three table entries are combined by exclusive or.
    pub fn gradient_index(&self, i: i64, j: i64, k: i64, di: i64, dj: i64, dk: i64)
        -> (r: usize)
        requires
            self.wf(),
            0 <= di <= 1,
            0 <= dj <= 1,
            0 <= dk <= 1,
            i < i64::MAX,
            j < i64::MAX,
            k < i64::MAX,
        ensures
            r < POINT_COUNT,
            r == (self.perm_x@[(i + di) % 256] ^ self.perm_y@[(j + dj) % 256]
                ^ self.perm_z@[(k + dk) % 256]),
    {
        let xi = wrap_index(i + di);
        let yi = wrap_index(j + dj);
        let zi = wrap_index(k + dk);
        let a = self.perm_x[xi];
        let b = self.perm_y[yi];
        let c = self.perm_z[zi];
        let r = a ^ b ^ c;
        proof {
            lemma_xor_below_256(a, b, c);
        }
        r
    }
}

/// The remainder of `x` below 256, as an index.
fn wrap_index(x: i64) -> (r: usize)
    ensures
        r < 256,
        r == x as int % 256,
{
    let rem = x % 256;
    if rem < 0 {
        (rem + 256) as usize
    } else {
        rem as usize
    }
}

proof fn lemma_xor_below_256(a: usize, b: usize, c: usize)
    requires
        a < 256,
        b < 256,
        c < 256,
    ensures
        (a ^ b ^ c) < 256,
{
    assert((a ^ b ^ c) < 256) by (bit_vector)
        requires
            a < 256,
            b < 256,
            c < 256,
    ;
}

fn check_table(t: &Vec<usize>) -> (r: bool)
    ensures
        r == table_in_bounds(t@),
{
    if t.len() != POINT_COUNT {
        return false;
    }
    let mut i: usize = 0;
    while i < t.len()
        invariant
            i <= t@.len(),
            t@.len() == POINT_COUNT,
            forall|j: int| 0 <= j < i ==> (#[trigger] t@[j]) < POINT_COUNT,
        decreases t@.len() - i,
    {
        if t[i] >= POINT_COUNT {
            return false;
        }
        i = i + 1;
    }
    true
}

} // verus!
