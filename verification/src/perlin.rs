//! The lattice tables of the gradient noise field.
//!
//! A field is a table of 256 gradient vectors and three permutations of
//! `0..256`, one per axis. The gradient at a lattice point is found by
//! hashing the point's coordinates through the permutations. Interpolating
//! between the gradients of a cell's corners is rounding arithmetic and is
//! left to the caller.

use vstd::prelude::*;
use vstd::seq_lib::*;
use rand::Rng;
use crate::types::Vec3;

verus! {

/// Entries in each table.
pub const N: usize = 256;

/// Every entry of `s` is below `bound`.
pub open spec fn all_below(s: Seq<usize>, bound: int) -> bool {
    forall|i: int| 0 <= i < s.len() ==> #[trigger] s[i] < bound
}

/// `s` lists every number below 256 exactly once.
pub open spec fn is_permutation_table(s: Seq<usize>) -> bool {
    &&& s.len() == 256
    &&& all_below(s, 256)
    &&& s.no_duplicates()
}

/// The identity table `0, 1, .., n - 1`.
pub open spec fn identity_table(n: nat) -> Seq<usize> {
    Seq::new(n, |i: int| i as usize)
}

/// `s` with the entries at `i` and `j` exchanged.
pub open spec fn swapped(s: Seq<usize>, i: int, j: int) -> Seq<usize> {
    s.update(i, s[j]).update(j, s[i])
}

/// The table after the first `done` steps of the shuffle: step `k` exchanges
/// the entry at position `len - 1 - k` with the one at `draws[k]`.
pub open spec fn shuffled(s: Seq<usize>, draws: Seq<usize>, done: nat) -> Seq<usize>
    decreases done,
{
    if done == 0 {
        s
    } else {
        let k = (done - 1) as nat;
        swapped(shuffled(s, draws, k), s.len() - 1 - k, draws[k as int] as int)
    }
}

/// `draws` can drive a shuffle of `len` entries: one draw per step, each
/// below the position it is exchanged with.
pub open spec fn draws_fit(draws: Seq<usize>, len: nat) -> bool {
    &&& draws.len() + 1 == len || (len == 0 && draws.len() == 0)
    &&& forall|k: int| 0 <= k < draws.len() ==> #[trigger] draws[k] < len - 1 - k
}

/// The low eight bits of a lattice coordinate: its residue modulo 256.
pub open spec fn lattice_residue(c: int) -> int {
    c % 256
}

/// Exchanging two entries keeps length, content, range and distinctness.
pub proof fn lemma_swapped(s: Seq<usize>, i: int, j: int)
    requires
        0 <= i < s.len(),
        0 <= j < s.len(),
    ensures
        swapped(s, i, j).len() == s.len(),
        swapped(s, i, j).to_multiset() == s.to_multiset(),
        s.no_duplicates() ==> swapped(s, i, j).no_duplicates(),
        forall|bound: int| #[trigger] all_below(s, bound) ==> all_below(swapped(s, i, j), bound),
{
    broadcast use group_to_multiset_ensures;

    let mid = s.update(i, s[j]);
    to_multiset_update(s, i, s[j]);
    to_multiset_update(mid, j, s[i]);
    assert(mid[j] == s[j]);
    assert(swapped(s, i, j).to_multiset() =~= s.to_multiset());
    if s.no_duplicates() {
        let t = swapped(s, i, j);
        assert forall|a: int, b: int| 0 <= a < t.len() && 0 <= b < t.len() && a != b implies t[a]
            != t[b] by {
            let sa = if a == i { j } else if a == j { i } else { a };
            let sb = if b == i { j } else if b == j { i } else { b };
            assert(t[a] == s[sa]);
            assert(t[b] == s[sb]);
            assert(sa != sb);
        }
    }
}

/// Every prefix of a shuffle is a rearrangement of the table it started from.
pub proof fn lemma_shuffled(s: Seq<usize>, draws: Seq<usize>, done: nat)
    requires
        draws_fit(draws, s.len()),
        done <= draws.len(),
    ensures
        shuffled(s, draws, done).len() == s.len(),
        shuffled(s, draws, done).to_multiset() == s.to_multiset(),
        s.no_duplicates() ==> shuffled(s, draws, done).no_duplicates(),
        forall|bound: int|
            #[trigger] all_below(s, bound) ==> all_below(shuffled(s, draws, done), bound),
    decreases done,
{
    if done > 0 {
        let k = (done - 1) as nat;
        lemma_shuffled(s, draws, k);
        lemma_swapped(shuffled(s, draws, k), s.len() - 1 - k, draws[k as int] as int);
    }
}

/// A uniform draw from `0..bound`, made by `rand::Rng::gen_range(0, bound)` on
/// the thread's generator `rand::thread_rng()`. The contract claims only the
/// range; which number comes is chance.
#[verifier::external_body]
fn random_below(bound: usize) -> (r: usize)
    requires
        bound > 0,
    ensures
        r < bound,
{
    rand::thread_rng().gen_range(0, bound)
}

/// The residue modulo 256 of a lattice coordinate.
pub fn lattice_wrap(c: isize) -> (r: usize)
    ensures
        r == lattice_residue(c as int),
        r < 256,
{
    if c >= 0 {
        (c % 256) as usize
    } else {
        let m: isize = (-(c + 1)) % 256;
        (255 - m) as usize
    }
}

/// A gradient noise field.
#[derive(Debug)]
pub struct Perlin {
    ranfloat: Vec<Vec3>,
    perm_x: Vec<usize>,
    perm_y: Vec<usize>,
    perm_z: Vec<usize>,
}

impl Perlin {
    #[verifier::type_invariant]
    closed spec fn inv(self) -> bool {
        &&& self.ranfloat@.len() == 256
        &&& is_permutation_table(self.perm_x@)
        &&& is_permutation_table(self.perm_y@)
        &&& is_permutation_table(self.perm_z@)
    }

    /// The gradient table.
    pub closed spec fn gradients(self) -> Seq<Vec3> {
        self.ranfloat@
    }

    /// The permutation of the first axis.
    pub closed spec fn table_x(self) -> Seq<usize> {
        self.perm_x@
    }

    /// The permutation of the second axis.
    pub closed spec fn table_y(self) -> Seq<usize> {
        self.perm_y@
    }

    /// The permutation of the third axis.
    pub closed spec fn table_z(self) -> Seq<usize> {
        self.perm_z@
    }

    /// Position in the gradient table of the gradient at lattice point
    /// `(i, j, k)`.
    pub open spec fn hash(self, i: int, j: int, k: int) -> usize {
        self.table_x()[lattice_residue(i)] ^ self.table_y()[lattice_residue(j)]
            ^ self.table_z()[lattice_residue(k)]
    }

    /// The gradient at lattice point `(i, j, k)`.
    pub open spec fn gradient_spec(self, i: int, j: int, k: int) -> Vec3 {
        self.gradients()[self.hash(i, j, k) as int]
    }

    /// The gradient table: 256 vectors.
    pub fn ranfloat(&self) -> (table: &Vec<Vec3>)
        ensures
            table@ == self.gradients(),
            table@.len() == 256,
    {
        proof {
            use_type_invariant(self);
        }
        &self.ranfloat
    }

    /// The permutation of the first axis.
    pub fn perm_x(&self) -> (table: &Vec<usize>)
        ensures
            table@ == self.table_x(),
            is_permutation_table(table@),
    {
        proof {
            use_type_invariant(self);
        }
        &self.perm_x
    }

    /// The permutation of the second axis.
    pub fn perm_y(&self) -> (table: &Vec<usize>)
        ensures
            table@ == self.table_y(),
            is_permutation_table(table@),
    {
        proof {
            use_type_invariant(self);
        }
        &self.perm_y
    }

    /// The permutation of the third axis.
    pub fn perm_z(&self) -> (table: &Vec<usize>)
        ensures
            table@ == self.table_z(),
            is_permutation_table(table@),
    {
        proof {
            use_type_invariant(self);
        }
        &self.perm_z
    }

    /// A field over the given gradients, with freshly drawn permutations.
    pub fn new(ranfloat: [Vec3; 256]) -> (p: Perlin)
        ensures
            p.gradients() == ranfloat@,
            is_permutation_table(p.table_x()),
            is_permutation_table(p.table_y()),
            is_permutation_table(p.table_z()),
    {
        let mut table: Vec<Vec3> = Vec::new();
        let mut i: usize = 0;
        while i < 256
            invariant
                i <= 256,
                table@ == ranfloat@.take(i as int),
            decreases 256 - i,
        {
            table.push(ranfloat[i]);
            i += 1;
        }
        assert(table@ == ranfloat@);
        let perm_x = Self::generate_perm();
        let perm_y = Self::generate_perm();
        let perm_z = Self::generate_perm();
        Perlin { ranfloat: table, perm_x, perm_y, perm_z }
    }

    /// A field made of the given tables, or `None` unless there are 256
    /// gradients and each of the other tables is a permutation of `0..256`.
    pub fn from_tables(
        ranfloat: Vec<Vec3>,
        perm_x: Vec<usize>,
        perm_y: Vec<usize>,
        perm_z: Vec<usize>,
    ) -> (p: Option<Perlin>)
        ensures
            p is Some <==> ranfloat@.len() == 256 && is_permutation_table(perm_x@)
                && is_permutation_table(perm_y@) && is_permutation_table(perm_z@),
            p is Some ==> p->0.gradients() == ranfloat@ && p->0.table_x() == perm_x@
                && p->0.table_y() == perm_y@ && p->0.table_z() == perm_z@,
    {
        if ranfloat.len() == 256 && Self::check_table(&perm_x) && Self::check_table(&perm_y)
            && Self::check_table(&perm_z) {
            Some(Perlin { ranfloat, perm_x, perm_y, perm_z })
        } else {
            None
        }
    }

    /// Whether `table` lists every number below 256 exactly once.
    pub fn check_table(table: &Vec<usize>) -> (ok: bool)
        ensures
            ok == is_permutation_table(table@),
    {
        if table.len() != 256 {
            return false;
        }
        let mut seen: Vec<bool> = Vec::new();
        let mut n: usize = 0;
        while n < 256
            invariant
                n <= 256,
                seen@.len() == n,
                forall|v: int| 0 <= v < n ==> !#[trigger] seen@[v],
            decreases 256 - n,
        {
            seen.push(false);
            n += 1;
        }
        let mut i: usize = 0;
        while i < 256
            invariant
                i <= 256,
                table@.len() == 256,
                seen@.len() == 256,
                forall|k: int| 0 <= k < i ==> #[trigger] table@[k] < 256,
                forall|k: int| 0 <= k < i ==> seen@[#[trigger] table@[k] as int],
                forall|v: int|
                    0 <= v < 256 && #[trigger] seen@[v] ==> exists|k: int|
                        0 <= k < i && table@[k] == v,
                table@.take(i as int).no_duplicates(),
            decreases 256 - i,
        {
            let v: usize = table[i];
            if v >= 256 {
                return false;
            }
            if seen[v] {
                proof {
                    let k = choose|k: int| 0 <= k < i && table@[k] == v;
                    assert(table@[k] == table@[i as int]);
                }
                return false;
            }
            proof {
                let before = table@.take(i as int);
                let after = table@.take(i + 1);
                assert forall|a: int, b: int|
                    0 <= a < after.len() && 0 <= b < after.len() && a != b implies after[a]
                    != after[b] by {
                    if a < i && b < i {
                        assert(before[a] != before[b]);
                    } else if a < i {
                        assert(seen@[table@[a] as int]);
                    } else {
                        assert(seen@[table@[b] as int]);
                    }
                }
            }
            seen.set(v, true);
            i += 1;
        }
        assert(table@.take(256) == table@);
        true
    }

    /// A freshly drawn permutation of `0..256`: the identity table,
    /// shuffled.
    pub fn generate_perm() -> (table: Vec<usize>)
        ensures
            is_permutation_table(table@),
            exists|draws: Seq<usize>|
                draws_fit(draws, 256) && table@ == shuffled(
                    identity_table(256),
                    draws,
                    draws.len(),
                ),
    {
        let mut result: Vec<usize> = Vec::new();
        let mut i: usize = 0;
        while i < N
            invariant
                i <= N,
                result@ == identity_table(i as nat),
            decreases N - i,
        {
            result.push(i);
            assert(result@ =~= identity_table((i + 1) as nat));
            i += 1;
        }
        let ghost start = result@;
        assert(start.no_duplicates());
        assert(all_below(start, 256));
        Self::permute(&mut result);
        proof {
            let draws = choose|draws: Seq<usize>|
                draws_fit(draws, start.len()) && result@ == shuffled(
                    start,
                    draws,
                    draws.len(),
                );
            lemma_shuffled(start, draws, draws.len());
        }
        result
    }

    /// Shuffles `arr` in place: from the last position down to the second,
    /// each entry is exchanged with one drawn from the positions before it.
    pub fn permute(arr: &mut Vec<usize>)
        ensures
            final(arr)@.to_multiset() == old(arr)@.to_multiset(),
            exists|draws: Seq<usize>|
                draws_fit(draws, old(arr)@.len()) && final(arr)@ == shuffled(
                    old(arr)@,
                    draws,
                    draws.len(),
                ),
    {
        let len: usize = arr.len();
        let mut draws: Vec<usize> = Vec::new();
        if len > 0 {
            let mut i: usize = len - 1;
            while i > 0
                invariant
                    i < len,
                    draws@.len() == len - 1 - i,
                    forall|k: int| 0 <= k < draws@.len() ==> #[trigger] draws@[k] < len - 1 - k,
                decreases i,
            {
                let target: usize = random_below(i);
                draws.push(target);
                i -= 1;
            }
        }
        Self::permute_with(arr, &draws);
        proof {
            lemma_shuffled(old(arr)@, draws@, draws@.len());
            assert(draws_fit(draws@, old(arr)@.len()));
            assert(arr@ == shuffled(old(arr)@, draws@, draws@.len()));
        }
    }

    /// The shuffle of [`Perlin::permute`] with the draws given: step `k`
    /// exchanges the entry at position `len - 1 - k` with the one at
    /// `draws[k]`.
    pub fn permute_with(arr: &mut Vec<usize>, draws: &Vec<usize>)
        requires
            draws_fit(draws@, old(arr)@.len()),
        ensures
            final(arr)@ == shuffled(old(arr)@, draws@, draws@.len()),
    {
        let len: usize = arr.len();
        let mut k: usize = 0;
        while k < draws.len()
            invariant
                k <= draws@.len(),
                arr@.len() == len,
                len == old(arr)@.len(),
                draws_fit(draws@, len as nat),
                arr@ == shuffled(old(arr)@, draws@, k as nat),
            decreases draws@.len() - k,
        {
            let i: usize = len - 1 - k;
            let target: usize = draws[k];
            let at_i: usize = arr[i];
            let at_target: usize = arr[target];
            arr.set(i, at_target);
            arr.set(target, at_i);
            k += 1;
        }
    }

    /// The gradient at lattice point `(i, j, k)`: the three coordinates are
    /// reduced to their low eight bits, sent through the permutations, and
    /// combined by exclusive or.
    pub fn gradient(&self, i: isize, j: isize, k: isize) -> (g: Vec3)
        ensures
            g == self.gradient_spec(i as int, j as int, k as int),
    {
        proof {
            use_type_invariant(self);
        }
        let a: usize = self.perm_x[lattice_wrap(i)];
        let b: usize = self.perm_y[lattice_wrap(j)];
        let c: usize = self.perm_z[lattice_wrap(k)];
        assert((a ^ b ^ c) < 256) by (bit_vector)
            requires
                a < 256,
                b < 256,
                c < 256,
        ;
        self.ranfloat[a ^ b ^ c]
    }

    /// The gradients at the eight corners of a lattice cell, indexed by the
    /// choice of coordinate along each axis: entry `[a][b][c]` belongs to
    /// the lattice point `(i[a], j[b], k[c])`.
    pub fn noise(&self, i: [isize; 2], j: [isize; 2], k: [isize; 2]) -> (c: [[[Vec3; 2]; 2]; 2])
        ensures
            forall|a: int, b: int, d: int|
                0 <= a < 2 && 0 <= b < 2 && 0 <= d < 2 ==> #[trigger] c[a][b][d]
                    == self.gradient_spec(i[a] as int, j[b] as int, k[d] as int),
    {
        let c: [[[Vec3; 2]; 2]; 2] = [
            [
                [self.gradient(i[0], j[0], k[0]), self.gradient(i[0], j[0], k[1])],
                [self.gradient(i[0], j[1], k[0]), self.gradient(i[0], j[1], k[1])],
            ],
            [
                [self.gradient(i[1], j[0], k[0]), self.gradient(i[1], j[0], k[1])],
                [self.gradient(i[1], j[1], k[0]), self.gradient(i[1], j[1], k[1])],
            ],
        ];
        c
    }
}

impl Clone for Perlin {
    fn clone(&self) -> (p: Self)
        ensures
            p.gradients() == self.gradients(),
            p.table_x() == self.table_x(),
            p.table_y() == self.table_y(),
            p.table_z() == self.table_z(),
    {
        proof {
            use_type_invariant(self);
        }
        Perlin {
            ranfloat: copy_of(&self.ranfloat),
            perm_x: copy_of(&self.perm_x),
            perm_y: copy_of(&self.perm_y),
            perm_z: copy_of(&self.perm_z),
        }
    }
}

/// A vector with the same entries as `v`.
fn copy_of<T: Copy>(v: &Vec<T>) -> (r: Vec<T>)
    ensures
        r@ == v@,
{
    let mut r: Vec<T> = Vec::new();
    let mut i: usize = 0;
    while i < v.len()
        invariant
            i <= v@.len(),
            r@ == v@.take(i as int),
        decreases v@.len() - i,
    {
        r.push(v[i]);
        i += 1;
    }
    assert(v@.take(v@.len() as int) == v@);
    r
}

} // verus!
