//! A dense set of small unordered integer pairs with constant-time clear.
//!
//! Backed by a `max_objs x max_objs` matrix of version-stamped booleans: an
//! entry is a member only if its stamp matches the set's current version, so
//! clearing the whole set is a single counter increment. `put` records both
//! orientations of a pair, which is how collision testing deduplicates
//! unordered particle pairs.

use vstd::prelude::*;

verus! {

spec fn pair_idx(a: int, b: int, max_objs: int) -> int {
    a * max_objs + b
}

proof fn lemma_pair_idx_bounds(a: int, b: int, m: int)
    by (nonlinear_arith)
    requires
        0 <= a < m,
        0 <= b < m,
    ensures
        0 <= pair_idx(a, b, m) < m * m,
{
}

proof fn lemma_pair_idx_injective(a1: int, b1: int, a2: int, b2: int, m: int)
    by (nonlinear_arith)
    requires
        0 <= a1 < m,
        0 <= b1 < m,
        0 <= a2 < m,
        0 <= b2 < m,
        a1 != a2 || b1 != b2,
    ensures
        pair_idx(a1, b1, m) != pair_idx(a2, b2, m),
{
}

/// A set of pairs drawn from `[0, max_objs) x [0, max_objs)`, symmetric by
/// construction and clearable in constant time.
pub struct IntPairSet {
    matrix: Vec<(usize, bool)>,
    version: usize,
    max_objs: usize,
}

impl IntPairSet {
    /// The number of distinct values a pair may draw from.
    pub closed spec fn spec_max(&self) -> usize {
        self.max_objs
    }

    pub closed spec fn wf(&self) -> bool {
        &&& self.max_objs * self.max_objs <= usize::MAX
        &&& self.matrix@.len() == self.max_objs * self.max_objs
        &&& forall|k: int|
            0 <= k < self.matrix@.len() ==> (#[trigger] self.matrix@[k]).0 <= self.version
    }

    /// Whether the pair `(a, b)` is recorded, in this orientation.
    pub closed spec fn spec_contains(&self, a: int, b: int) -> bool {
        &&& self.matrix@[pair_idx(a, b, self.max_objs as int)].0 == self.version
        &&& self.matrix@[pair_idx(a, b, self.max_objs as int)].1
    }

    pub fn new(max_val: usize) -> (r: IntPairSet)
        requires
            max_val * max_val <= usize::MAX,
        ensures
            r.wf(),
            r.spec_max() == max_val,
            forall|a: int, b: int|
                0 <= a < max_val && 0 <= b < max_val ==> !r.spec_contains(a, b),
    {
        proof {
            assert(max_val <= max_val * max_val) by (nonlinear_arith)
                requires
                    0 <= max_val,
            ;
        }
        let count = max_val * max_val;
        let mut matrix: Vec<(usize, bool)> = Vec::new();
        for k in 0..count
            invariant
                matrix@.len() == k,
                forall|m: int| 0 <= m < k ==> (#[trigger] matrix@[m]) == (0usize, false),
        {
            matrix.push((0, false));
        }
        let r = IntPairSet { matrix, version: 0, max_objs: max_val };
        proof {
            assert forall|a: int, b: int|
                0 <= a < max_val && 0 <= b < max_val implies !r.spec_contains(a, b) by {
                lemma_pair_idx_bounds(a, b, max_val as int);
            }
        }
        r
    }

    /// Whether the pair `(a, b)` has been recorded since the last clear.
    pub fn contains(&self, a: usize, b: usize) -> (r: bool)
        requires
            self.wf(),
            a < self.spec_max(),
            b < self.spec_max(),
        ensures
            r == self.spec_contains(a as int, b as int),
    {
        proof {
            lemma_pair_idx_bounds(a as int, b as int, self.max_objs as int);
        }
        let (version, value) = self.matrix[a * self.max_objs + b];
        (version == self.version) && value
    }

    /// Records the pair `(a, b)` in both orientations; every other pair is
    /// untouched.
    pub fn put(&mut self, a: usize, b: usize)
        requires
            old(self).wf(),
            a < old(self).spec_max(),
            b < old(self).spec_max(),
        ensures
            final(self).wf(),
            final(self).spec_max() == old(self).spec_max(),
            final(self).spec_contains(a as int, b as int),
            final(self).spec_contains(b as int, a as int),
            forall|x: int, y: int|
                0 <= x < old(self).spec_max() && 0 <= y < old(self).spec_max() && !(x == a as int
                    && y == b as int) && !(x == b as int && y == a as int)
                    ==> final(self).spec_contains(x, y) == old(self).spec_contains(x, y),
    {
        proof {
            lemma_pair_idx_bounds(a as int, b as int, self.max_objs as int);
            lemma_pair_idx_bounds(b as int, a as int, self.max_objs as int);
        }
        let version = self.version;
        self.matrix[a * self.max_objs + b] = (version, true);
        self.matrix[b * self.max_objs + a] = (version, true);
        proof {
            let m = self.max_objs as int;
            assert forall|x: int, y: int|
                0 <= x < m && 0 <= y < m && !(x == a as int && y == b as int) && !(x == b as int
                    && y == a as int) implies final(self).spec_contains(x, y) == old(
                self,
            ).spec_contains(x, y) by {
                lemma_pair_idx_bounds(x, y, m);
                lemma_pair_idx_injective(x, y, a as int, b as int, m);
                lemma_pair_idx_injective(x, y, b as int, a as int, m);
            }
        }
    }

    /// Forgets every recorded pair at once by stepping the set's version.
    pub fn clear(&mut self)
        requires
            old(self).wf(),
            old(self).spec_version() < usize::MAX,
        ensures
            final(self).wf(),
            final(self).spec_max() == old(self).spec_max(),
            forall|a: int, b: int|
                0 <= a < old(self).spec_max() && 0 <= b < old(self).spec_max()
                    ==> !final(self).spec_contains(a, b),
    {
        self.version = self.version + 1;
        proof {
            let m = self.max_objs as int;
            assert forall|a: int, b: int| 0 <= a < m && 0 <= b < m implies !self.spec_contains(
                a,
                b,
            ) by {
                lemma_pair_idx_bounds(a, b, m);
            }
        }
    }

    /// The set's current version stamp.
    pub closed spec fn spec_version(&self) -> usize {
        self.version
    }
}

} // verus!
