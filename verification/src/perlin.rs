//! The lattice of a noise texture: 256 samples, reached through three
//! shuffled permutations of the numbers below 256.

use rand::seq::SliceRandom;
use vstd::prelude::*;

verus! {

/// The number of lattice points, and of entries of each permutation.
pub const LATTICE: usize = 256;

/// The numbers below `n`, in order.
pub open spec fn identity(n: nat) -> Seq<u32> {
    Seq::new(n, |i: int| i as u32)
}

/// `p` holds each number below 256 exactly once.
pub open spec fn is_permutation(p: Seq<u32>) -> bool {
    p.to_multiset() == identity(LATTICE as nat).to_multiset()
}

/// The lattice point that the masked coordinates select: each coordinate is
/// reduced to its low eight bits and looked up in the permutation of its
/// axis, and the three entries are combined by exclusive or.
pub open spec fn spec_lattice_index(
    perm_x: Seq<u32>,
    perm_y: Seq<u32>,
    perm_z: Seq<u32>,
    i: usize,
    j: usize,
    k: usize,
) -> u32 {
    perm_x[(i & 255) as int] ^ perm_y[(j & 255) as int] ^ perm_z[(k & 255) as int]
}

/// The lattice of one noise texture. A sample is carried as the 32 bits of
/// its value and handed back untouched.
pub struct Perlin {
    samples: Vec<u32>,
    perm_x: Vec<u32>,
    perm_y: Vec<u32>,
    perm_z: Vec<u32>,
}

/// Shuffles `v` in place with `rand::seq::SliceRandom::shuffle` on the
/// thread's generator. The order that comes out is random; the contract
/// claims only that the entries are the same ones, each as often as before.
#[verifier::external_body]
fn shuffle(v: &mut Vec<u32>)
    ensures
        final(v)@.to_multiset() == old(v)@.to_multiset(),
        final(v)@.len() == old(v)@.len(),
{
    v.shuffle(&mut rand::thread_rng());
}

/// Every entry of a permutation is below 256.
pub proof fn lemma_permutation_entries(p: Seq<u32>, i: int)
    requires
        is_permutation(p),
        0 <= i < LATTICE,
    ensures
        p.len() == LATTICE,
        p[i] < LATTICE,
{
    let id = identity(LATTICE as nat);
    vstd::seq_lib::to_multiset_len(p);
    vstd::seq_lib::to_multiset_len(id);
    vstd::seq_lib::to_multiset_contains(p, p[i]);
    vstd::seq_lib::to_multiset_contains(id, p[i]);
    assert(p.contains(p[i]));
    let j = choose|j: int| 0 <= j < id.len() && id[j] == p[i];
    assert(id[j] == j as u32);
}

/// No number stands twice in a permutation, so with its 256 entries each
/// number below 256 stands in it exactly once.
pub proof fn lemma_permutation_distinct(p: Seq<u32>)
    requires
        is_permutation(p),
    ensures
        p.len() == LATTICE,
        p.no_duplicates(),
        forall|n: u32| n < LATTICE ==> p.contains(n),
{
    let id = identity(LATTICE as nat);
    vstd::seq_lib::to_multiset_len(p);
    vstd::seq_lib::to_multiset_len(id);
    assert(id.no_duplicates());
    id.lemma_multiset_has_no_duplicates();
    p.lemma_multiset_has_no_duplicates_conv();
    assert forall|n: u32| n < LATTICE implies p.contains(n) by {
        assert(id[n as int] == n);
        assert(id.contains(n));
        vstd::seq_lib::to_multiset_contains(id, n);
        vstd::seq_lib::to_multiset_contains(p, n);
    }
}

impl Perlin {
    /// The samples at the lattice points.
    pub closed spec fn samples(&self) -> Seq<u32> {
        self.samples@
    }

    /// The permutation of the x axis.
    pub closed spec fn perm_x(&self) -> Seq<u32> {
        self.perm_x@
    }

    /// The permutation of the y axis.
    pub closed spec fn perm_y(&self) -> Seq<u32> {
        self.perm_y@
    }

    /// The permutation of the z axis.
    pub closed spec fn perm_z(&self) -> Seq<u32> {
        self.perm_z@
    }

    /// There is a sample for each lattice point, and each axis has a
    /// permutation of the lattice.
    pub open spec fn wf(&self) -> bool {
        &&& self.samples().len() == LATTICE
        &&& is_permutation(self.perm_x())
        &&& is_permutation(self.perm_y())
        &&& is_permutation(self.perm_z())
    }

    /// A lattice over the given samples, with three freshly shuffled
    /// permutations. `None` unless there are exactly 256 samples.
    pub fn new(samples: Vec<u32>) -> (p: Option<Perlin>)
        ensures
            p is Some <==> samples@.len() == LATTICE,
            p matches Some(lattice) ==> lattice.wf() && lattice.samples() == samples@,
    {
        if samples.len() != LATTICE {
            return None;
        }
        Some(
            Perlin {
                samples,
                perm_x: Perlin::generate_perm(),
                perm_y: Perlin::generate_perm(),
                perm_z: Perlin::generate_perm(),
            },
        )
    }

    /// The numbers below 256 in a random order.
    pub fn generate_perm() -> (p: Vec<u32>)
        ensures
            is_permutation(p@),
    {
        let mut p: Vec<u32> = Vec::new();
        let mut n: u32 = 0;
        while n < 256
            invariant
                n <= 256,
                p@ =~= identity(n as nat),
            decreases 256 - n,
        {
            p.push(n);
            n = n + 1;
        }
        shuffle(&mut p);
        p
    }

    /// The index of the lattice point for three raw coordinates.
    pub fn lattice_index(&self, i: usize, j: usize, k: usize) -> (index: usize)
        requires
            self.wf(),
        ensures
            index == spec_lattice_index(self.perm_x(), self.perm_y(), self.perm_z(), i, j, k),
            index < LATTICE,
    {
        let a: usize = i & 255;
        let b: usize = j & 255;
        let c: usize = k & 255;
        proof {
            assert(i & 255 < 256) by (bit_vector);
            assert(j & 255 < 256) by (bit_vector);
            assert(k & 255 < 256) by (bit_vector);
            lemma_permutation_entries(self.perm_x@, a as int);
            lemma_permutation_entries(self.perm_y@, b as int);
            lemma_permutation_entries(self.perm_z@, c as int);
        }
        let x: u32 = self.perm_x[a];
        let y: u32 = self.perm_y[b];
        let z: u32 = self.perm_z[c];
        proof {
            assert(x < 256 && y < 256 && z < 256 ==> (x ^ y ^ z) < 256) by (bit_vector);
        }
        (x ^ y ^ z) as usize
    }

    /// The sample at the lattice point for three raw coordinates.
    pub fn noise(&self, i: usize, j: usize, k: usize) -> (sample: u32)
        requires
            self.wf(),
        ensures
            sample == self.samples()[spec_lattice_index(
                self.perm_x(),
                self.perm_y(),
                self.perm_z(),
                i,
                j,
                k,
            ) as int],
    {
        let index = self.lattice_index(i, j, k);
        self.samples[index]
    }
}

} // verus!
