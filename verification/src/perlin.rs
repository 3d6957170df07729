use crate::utility::random_int_range;
use vstd::prelude::*;

verus! {

/// The number of entries of each permutation table.
pub const POINT_COUNT: usize = 256;

/// The tables of gradient noise: one permutation of `0..POINT_COUNT` for
/// each axis, by which a cell of the noise lattice is given its gradient.
pub struct Perlin {
    perm_x: Vec<u8>,
    perm_y: Vec<u8>,
    perm_z: Vec<u8>,
}

/// The table that maps every index to itself.
pub open spec fn identity_table() -> Seq<u8> {
    Seq::new(POINT_COUNT as nat, |i: int| i as u8)
}

/// `table` holds every value of `0..POINT_COUNT` once.
pub open spec fn is_permutation_table(table: Seq<u8>) -> bool {
    table.len() == POINT_COUNT && table.to_multiset() == identity_table().to_multiset()
}

/// The entry of a table that serves lattice coordinate `i`: coordinates
/// that differ by a multiple of `POINT_COUNT` share one.
pub open spec fn slot(i: int) -> int {
    i % (POINT_COUNT as int)
}

/// A permutation table holds each value exactly once.
pub proof fn lemma_each_value_once(table: Seq<u8>, v: u8)
    requires
        is_permutation_table(table),
    ensures
        table.to_multiset().count(v) == 1,
        table.contains(v),
{
    let id = identity_table();
    assert(id.no_duplicates());
    assert(id[v as int] == v);
    assert(id.contains(v));
    id.lemma_multiset_has_no_duplicates();
    vstd::seq_lib::to_multiset_contains(id, v);
    vstd::seq_lib::to_multiset_contains(table, v);
}

fn slot_of(i: i64) -> (r: usize)
    ensures
        r == slot(i as int),
        r < POINT_COUNT,
{
    let m: i64 = i % 256;
    if m < 0 {
        (m + 256) as usize
    } else {
        m as usize
    }
}

impl Perlin {
    #[verifier::type_invariant]
    spec fn well_formed(self) -> bool {
        &&& is_permutation_table(self.perm_x@)
        &&& is_permutation_table(self.perm_y@)
        &&& is_permutation_table(self.perm_z@)
    }

    pub closed spec fn table_x(self) -> Seq<u8> {
        self.perm_x@
    }

    pub closed spec fn table_y(self) -> Seq<u8> {
        self.perm_y@
    }

    pub closed spec fn table_z(self) -> Seq<u8> {
        self.perm_z@
    }

    /// The index of the gradient of lattice point `(i, j, k)`: the entries
    /// of the three tables for the three coordinates, combined bit by bit
    /// with exclusive or.
    pub open spec fn spec_noise_index(&self, i: i64, j: i64, k: i64) -> usize {
        (self.table_x()[slot(i as int)] ^ self.table_y()[slot(j as int)] ^ self.table_z()[slot(
            k as int,
        )]) as usize
    }

    /// Shuffles `p`: from the last position down, each entry changes places
    /// with one drawn at random from those up to it. Whatever is drawn, `p`
    /// keeps its entries.
    fn permute(p: &mut Vec<u8>)
        requires
            old(p)@.len() <= i32::MAX,
        ensures
            final(p)@.len() == old(p)@.len(),
            final(p)@.to_multiset() == old(p)@.to_multiset(),
    {
        let mut i: usize = p.len();
        while i > 0
            invariant
                i <= p@.len() <= i32::MAX,
                p@.len() == old(p)@.len(),
                p@.to_multiset() == old(p)@.to_multiset(),
            decreases i,
        {
            i -= 1;
            let target = random_int_range(0, i as i32) as usize;
            let a = p[i];
            let b = p[target];
            proof {
                broadcast use vstd::multiset::group_multiset_axioms;

                let s0 = p@;
                let s1 = s0.update(i as int, b);
                let s2 = s1.update(target as int, a);
                vstd::seq_lib::to_multiset_update(s0, i as int, b);
                vstd::seq_lib::to_multiset_update(s1, target as int, a);
                vstd::seq_lib::to_multiset_contains(s0, a);
                assert(s0.contains(a)) by {
                    assert(s0[i as int] == a);
                }
                assert(s1[target as int] == b);
                assert(s2.to_multiset() =~= s0.to_multiset());
            }
            p.set(i, b);
            p.set(target, a);
        }
    }

    /// A fresh permutation of `0..POINT_COUNT`.
    fn perlin_generate_perm() -> (p: Vec<u8>)
        ensures
            is_permutation_table(p@),
    {
        let mut p: Vec<u8> = Vec::new();
        let mut i: usize = 0;
        while i < POINT_COUNT
            invariant
                i <= POINT_COUNT,
                p@.len() == i,
                forall|k: int| 0 <= k < i ==> p@[k] == k as u8,
            decreases POINT_COUNT - i,
        {
            p.push(i as u8);
            i += 1;
        }
        proof {
            assert(p@ == identity_table());
        }
        Self::permute(&mut p);
        p
    }

    /// Tables that are shuffled afresh.
    pub fn new() -> (r: Perlin)
        ensures
            is_permutation_table(r.table_x()),
            is_permutation_table(r.table_y()),
            is_permutation_table(r.table_z()),
    {
        let perm_x = Self::perlin_generate_perm();
        let perm_y = Self::perlin_generate_perm();
        let perm_z = Self::perlin_generate_perm();
        Perlin { perm_x, perm_y, perm_z }
    }

    /// The index of the gradient of lattice point `(i, j, k)`. It is below
    /// `POINT_COUNT`, so that it names one of that many gradients.
    #[verifier::when_used_as_spec(spec_noise_index)]
    pub fn noise_index(&self, i: i64, j: i64, k: i64) -> (r: usize)
        ensures
            r == self.spec_noise_index(i, j, k),
            r < POINT_COUNT,
            is_permutation_table(self.table_x()),
            is_permutation_table(self.table_y()),
            is_permutation_table(self.table_z()),
    {
        proof {
            use_type_invariant(self);
        }
        let x = self.perm_x[slot_of(i)];
        let y = self.perm_y[slot_of(j)];
        let z = self.perm_z[slot_of(k)];
        (x ^ y ^ z) as usize
    }
}

} // verus!
