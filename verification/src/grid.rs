//! A bounded, versioned 2D bucket grid.
//!
//! Each bucket holds the occupants actually located in its cell and a
//! precomputed neighbor list: every occupant located in the cell or in any of
//! its 8 surrounding cells. `put` inserts into one occupant list and nine
//! neighbor lists; `remove` undoes exactly that. Every bucket carries a
//! version stamp: a bucket whose stamp differs from the grid's current
//! version is treated as empty, which makes clearing the whole grid a single
//! counter increment.

use vstd::prelude::*;
use vstd::seq_lib::*;

verus! {

/// A value that grid buckets can store: copyable, with an equality test whose
/// result is exactly structural equality.
pub trait Occupant: Copy {
    /// Equality test used when removing an occupant from a bucket.
    fn eq_value(&self, other: &Self) -> (r: bool)
        ensures
            r == (*self == *other),
    ;
}

impl Occupant for u64 {
    fn eq_value(&self, other: &Self) -> (r: bool)
        ensures
            r == (*self == *other),
    {
        *self == *other
    }
}

impl Occupant for i32 {
    fn eq_value(&self, other: &Self) -> (r: bool)
        ensures
            r == (*self == *other),
    {
        *self == *other
    }
}

impl Occupant for char {
    fn eq_value(&self, other: &Self) -> (r: bool)
        ensures
            r == (*self == *other),
    {
        *self == *other
    }
}

/// A snapshot of one bucket: the occupants located in the cell, and the
/// occupants located in the cell or any of its 8 surrounding cells.
#[derive(Debug, Clone, PartialEq, Eq)]
pub struct GetResult<T> {
    pub value: Vec<T>,
    pub neighbors: Vec<T>,
}

/// Copies a vector of plain values element by element.
fn copy_values<T: Copy>(v: &Vec<T>) -> (r: Vec<T>)
    ensures
        r@ == v@,
{
    let mut r: Vec<T> = Vec::new();
    let n = v.len();
    for i in 0..n
        invariant
            r@ == v@.take(i as int),
            n == v@.len(),
    {
        r.push(v[i]);
        proof {
            assert(v@.take(i + 1) == v@.take(i as int).push(v@[i as int]));
        }
    }
    proof {
        assert(v@.take(n as int) == v@);
    }
    r
}

/// Filtering a sequence that does not contain `target` by `!= target` keeps it
/// unchanged; this is why removing a freshly inserted occupant restores the
/// bucket exactly.
pub proof fn lemma_filter_absent_id<T>(s: Seq<T>, target: T)
    requires
        !s.contains(target),
    ensures
        s.filter(|t: T| t != target) == s,
    decreases s.len(),
{
    reveal(Seq::filter);
    if s.len() > 0 {
        assert(s.drop_last().push(s.last()) == s);
        assert forall|i: int| 0 <= i < s.drop_last().len() implies s.drop_last()[i] == s[i] by {}
        assert(!s.drop_last().contains(target));
        lemma_filter_absent_id(s.drop_last(), target);
        assert(s.drop_last().filter(|t: T| t != target).push(s.last()) == s);
    } else {
        assert(s.filter(|t: T| t != target) =~= s);
    }
}

/// Unfolds one step of `filter`: filtering `s.push(e)` filters `s` and then
/// keeps or drops `e`.
pub(crate) proof fn lemma_filter_step<T>(s: Seq<T>, e: T, pred: spec_fn(T) -> bool)
    ensures
        s.push(e).filter(pred) == if pred(e) {
            s.filter(pred).push(e)
        } else {
            s.filter(pred)
        },
{
    reveal(Seq::filter);
    assert(s.push(e).drop_last() == s);
}

/// Removes every element equal to `target`, keeping the order of the rest.
fn retain_not_equal<T: Occupant>(v: &mut Vec<T>, target: &T)
    ensures
        final(v)@ == old(v)@.filter(|t: T| t != *target),
{
    let ghost pred = |t: T| t != *target;
    let mut out: Vec<T> = Vec::new();
    let n = v.len();
    for i in 0..n
        invariant
            pred == (|t: T| t != *target),
            out@ == v@.take(i as int).filter(pred),
            n == v@.len(),
    {
        proof {
            lemma_filter_step(v@.take(i as int), v@[i as int], pred);
            assert(v@.take(i + 1) == v@.take(i as int).push(v@[i as int]));
        }
        if !v[i].eq_value(target) {
            out.push(v[i]);
        }
    }
    proof {
        assert(v@.take(n as int) == v@);
    }
    *v = out;
}

/// Two successive filters are one filter by the conjunction.
pub(crate) proof fn lemma_filter_compose<T>(s: Seq<T>, p: spec_fn(T) -> bool, q: spec_fn(T) -> bool)
    ensures
        s.filter(p).filter(q) == s.filter(|t: T| p(t) && q(t)),
    decreases s.len(),
{
    reveal(Seq::filter);
    if s.len() > 0 {
        let rest = s.drop_last();
        let last = s.last();
        lemma_filter_compose(rest, p, q);
        if p(last) {
            lemma_filter_step(rest.filter(p), last, q);
            assert(rest.filter(p).push(last).drop_last() == rest.filter(p));
        }
        assert(s.filter(p).filter(q) =~= s.filter(|t: T| p(t) && q(t)));
    } else {
        assert(s.filter(p).filter(q) =~= s.filter(|t: T| p(t) && q(t)));
    }
}

/// Filtering by a predicate that rejects every element leaves nothing.
pub(crate) proof fn lemma_filter_none<T>(s: Seq<T>, p: spec_fn(T) -> bool)
    requires
        forall|i: int| 0 <= i < s.len() ==> !p(#[trigger] s[i]),
    ensures
        s.filter(p) == Seq::<T>::empty(),
    decreases s.len(),
{
    reveal(Seq::filter);
    if s.len() > 0 {
        assert(forall|i: int| 0 <= i < s.drop_last().len() ==> s.drop_last()[i] == s[i]);
        lemma_filter_none(s.drop_last(), p);
    } else {
        assert(s.filter(p) =~= Seq::<T>::empty());
    }
}

/// Filtering by a predicate that accepts every element changes nothing.
pub(crate) proof fn lemma_filter_all<T>(s: Seq<T>, p: spec_fn(T) -> bool)
    requires
        forall|i: int| 0 <= i < s.len() ==> p(#[trigger] s[i]),
    ensures
        s.filter(p) == s,
    decreases s.len(),
{
    reveal(Seq::filter);
    if s.len() > 0 {
        assert(forall|i: int| 0 <= i < s.drop_last().len() ==> s.drop_last()[i] == s[i]);
        lemma_filter_all(s.drop_last(), p);
        assert(s.filter(p) =~= s);
    } else {
        assert(s.filter(p) =~= s);
    }
}

/// One cell's storage record. The `version` stamp decides whether the stored
/// lists are current: a stale stamp means the bucket is logically empty.
#[derive(Debug, Clone)]
pub struct GridCell<T> {
    version: usize,
    value: Vec<T>,
    neighbors: Vec<T>,
}

impl<T: Occupant> GridCell<T> {
    /// The occupants this bucket reports when the grid's version is `version`.
    pub closed spec fn occupants(&self, version: usize) -> Seq<T> {
        if self.version == version {
            self.value@
        } else {
            Seq::empty()
        }
    }

    /// The neighbor list this bucket reports when the grid's version is
    /// `version`.
    pub closed spec fn neighbor_list(&self, version: usize) -> Seq<T> {
        if self.version == version {
            self.neighbors@
        } else {
            Seq::empty()
        }
    }

    /// The bucket's own version stamp.
    pub closed spec fn stamp(&self) -> usize {
        self.version
    }

    pub fn new() -> (r: GridCell<T>)
        ensures
            r.stamp() == 0,
            forall|version: usize| r.occupants(version) == Seq::<T>::empty(),
            forall|version: usize| r.neighbor_list(version) == Seq::<T>::empty(),
    {
        GridCell { version: 0, value: Vec::new(), neighbors: Vec::new() }
    }

    /// Reads the bucket as of the given grid version; a stale bucket reads as
    /// empty without its stored lists ever being inspected.
    pub fn get(&self, version: usize) -> (r: GetResult<T>)
        ensures
            r.value@ == self.occupants(version),
            r.neighbors@ == self.neighbor_list(version),
            self.stamp() != version ==> r.value@ == Seq::<T>::empty() && r.neighbors@ == Seq::<
                T,
            >::empty(),
    {
        if version == self.version {
            GetResult { value: copy_values(&self.value), neighbors: copy_values(&self.neighbors) }
        } else {
            GetResult { value: Vec::new(), neighbors: Vec::new() }
        }
    }

    /// Stamps the bucket with the given version, discarding stale contents.
    fn ensure_version(&mut self, version: usize)
        ensures
            final(self).stamp() == version,
            final(self).occupants(version) == old(self).occupants(version),
            final(self).neighbor_list(version) == old(self).neighbor_list(version),
    {
        if version != self.version {
            self.version = version;
            self.value = Vec::new();
            self.neighbors = Vec::new();
            proof {
                assert(final(self).occupants(version) =~= old(self).occupants(version));
                assert(final(self).neighbor_list(version) =~= old(self).neighbor_list(version));
            }
        }
    }

    /// Appends an occupant to the bucket's occupant list at the given version.
    pub fn set_value(&mut self, version: usize, value: T)
        ensures
            final(self).stamp() == version,
            final(self).occupants(version) == old(self).occupants(version).push(value),
            final(self).neighbor_list(version) == old(self).neighbor_list(version),
    {
        self.ensure_version(version);
        self.value.push(value);
    }

    /// Removes every occurrence of `value` from the occupant list, if the
    /// bucket is current; a stale bucket is left untouched.
    pub fn remove_value(&mut self, version: usize, value: &T)
        ensures
            final(self).stamp() == old(self).stamp(),
            final(self).occupants(version) == old(self).occupants(version).filter(
                |t: T| t != *value,
            ),
            final(self).neighbor_list(version) == old(self).neighbor_list(version),
            forall|v: usize|
                v != version ==> final(self).occupants(v) == old(self).occupants(v),
    {
        if version != self.version {
            proof {
                assert(Seq::<T>::empty().filter(|t: T| t != *value) =~= Seq::<T>::empty()) by {
                    reveal(Seq::filter);
                }
            }
            return;
        }
        retain_not_equal(&mut self.value, value);
    }

    /// Appends an occupant to the bucket's neighbor list at the given version.
    pub fn add_neighbor(&mut self, version: usize, neighbor: T)
        ensures
            final(self).stamp() == version,
            final(self).neighbor_list(version) == old(self).neighbor_list(version).push(neighbor),
            final(self).occupants(version) == old(self).occupants(version),
    {
        self.ensure_version(version);
        self.neighbors.push(neighbor);
    }

    /// Removes every occurrence of `neighbor` from the neighbor list, if the
    /// bucket is current; a stale bucket is left untouched.
    pub fn remove_neighbor(&mut self, version: usize, neighbor: &T)
        ensures
            final(self).stamp() == old(self).stamp(),
            final(self).neighbor_list(version) == old(self).neighbor_list(version).filter(
                |t: T| t != *neighbor,
            ),
            final(self).occupants(version) == old(self).occupants(version),
            forall|v: usize|
                v != version ==> final(self).neighbor_list(v) == old(self).neighbor_list(v),
    {
        if version != self.version {
            proof {
                assert(Seq::<T>::empty().filter(|t: T| t != *neighbor) =~= Seq::<T>::empty()) by {
                    reveal(Seq::filter);
                }
            }
            return;
        }
        retain_not_equal(&mut self.neighbors, neighbor);
    }
}

/// The raw backing index of the raw coordinate `(x, y)`; raw coordinates run
/// over `[0, width + 2) x [0, height + 2)`, one cell of border on every side,
/// and the logical cell `(x, y)` lives at raw `(x + 1, y + 1)`.
spec fn raw_idx(x: int, y: int, height: int) -> int {
    x * (height + 2) + y
}

proof fn lemma_raw_idx_bounds(x: int, y: int, w: int, h: int)
    by (nonlinear_arith)
    requires
        0 <= x < w + 2,
        0 <= y < h + 2,
        0 <= w,
        0 <= h,
    ensures
        0 <= raw_idx(x, y, h) < (w + 2) * (h + 2),
{
}

proof fn lemma_raw_idx_injective(x1: int, y1: int, x2: int, y2: int, h: int)
    by (nonlinear_arith)
    requires
        0 <= x1,
        0 <= x2,
        0 <= y1 < h + 2,
        0 <= y2 < h + 2,
        x1 != x2 || y1 != y2,
    ensures
        raw_idx(x1, y1, h) != raw_idx(x2, y2, h),
{
}

/// Computes the raw backing index of a raw coordinate.
fn grid_index(x: usize, y: usize, height: usize) -> (r: usize)
    requires
        height + 2 <= usize::MAX,
        raw_idx(x as int, y as int, height as int) <= usize::MAX,
    ensures
        r == raw_idx(x as int, y as int, height as int),
{
    x * (height + 2) + y
}

/// A bounded 2D grid of versioned buckets. Logical coordinates run over
/// `[0, width) x [0, height)`; one extra cell of border on every side absorbs
/// the neighbor fan-out of edge cells.
#[derive(Debug)]
pub struct Grid<T> {
    width: usize,
    height: usize,
    grid: Vec<GridCell<T>>,
    version: usize,
}

impl<T: Occupant> Grid<T> {
    pub closed spec fn spec_width(&self) -> usize {
        self.width
    }

    pub closed spec fn spec_height(&self) -> usize {
        self.height
    }

    /// The grid's current version; buckets stamped otherwise read as empty.
    pub closed spec fn spec_version(&self) -> usize {
        self.version
    }

    /// The backing store is fully allocated and no bucket carries a stamp
    /// from the future.
    pub closed spec fn wf(&self) -> bool {
        &&& self.width + 2 <= usize::MAX
        &&& self.height + 2 <= usize::MAX
        &&& (self.width + 2) * (self.height + 2) <= usize::MAX
        &&& self.grid@.len() == (self.width + 2) * (self.height + 2)
        &&& forall|k: int|
            0 <= k < self.grid@.len() ==> (#[trigger] self.grid@[k]).stamp() <= self.version
    }

    /// The occupants reported for logical cell `(x, y)`.
    pub closed spec fn occupants_at(&self, x: int, y: int) -> Seq<T> {
        self.grid@[raw_idx(x + 1, y + 1, self.height as int)].occupants(self.version)
    }

    /// The neighbor list reported for logical cell `(x, y)`: everything `put`
    /// at that cell or one of its 8 surrounding cells and not yet removed.
    pub closed spec fn neighbors_at(&self, x: int, y: int) -> Seq<T> {
        self.grid@[raw_idx(x + 1, y + 1, self.height as int)].neighbor_list(self.version)
    }

    /// Whether `(i, j)` lies in the 3x3 block centered on `(x, y)`.
    pub open spec fn near(i: int, j: int, x: int, y: int) -> bool {
        x - 1 <= i <= x + 1 && y - 1 <= j <= y + 1
    }


    /// The grid's current version stamp.
    pub fn version(&self) -> (r: usize)
        ensures
            r == self.spec_version(),
    {
        self.version
    }

    pub fn new(width: usize, height: usize) -> (r: Grid<T>)
        requires
            (width + 2) * (height + 2) <= usize::MAX,
        ensures
            r.wf(),
            r.spec_width() == width,
            r.spec_height() == height,
            r.spec_version() == 0,
            forall|i: int, j: int|
                0 <= i < width && 0 <= j < height ==> r.occupants_at(i, j) == Seq::<T>::empty(),
            forall|i: int, j: int|
                0 <= i < width && 0 <= j < height ==> r.neighbors_at(i, j) == Seq::<T>::empty(),
    {
        proof {
            assert(width + 2 <= (width + 2) * (height + 2) && height + 2 <= (width + 2) * (height
                + 2)) by (nonlinear_arith)
                requires
                    0 <= width,
                    0 <= height,
            ;
        }
        let count = (width + 2) * (height + 2);
        let mut grid: Vec<GridCell<T>> = Vec::new();
        for k in 0..count
            invariant
                grid@.len() == k,
                forall|m: int| 0 <= m < k ==> (#[trigger] grid@[m]).stamp() == 0,
                forall|m: int, version: usize|
                    0 <= m < k ==> (#[trigger] grid@[m].occupants(version)) == Seq::<T>::empty(),
                forall|m: int, version: usize|
                    0 <= m < k ==> (#[trigger] grid@[m].neighbor_list(version)) == Seq::<
                        T,
                    >::empty(),
        {
            grid.push(GridCell::new());
        }
        let r = Grid { width, height, grid, version: 0 };
        proof {
            assert forall|i: int, j: int| 0 <= i < width && 0 <= j < height implies r.occupants_at(
                i,
                j,
            ) == Seq::<T>::empty() && r.neighbors_at(i, j) == Seq::<T>::empty() by {
                lemma_raw_idx_bounds(i + 1, j + 1, width as int, height as int);
            }
        }
        r
    }

    /// Reads one bucket: its occupants and its precomputed neighbor list.
    pub fn get(&self, x: usize, y: usize) -> (r: GetResult<T>)
        requires
            self.wf(),
            x < self.spec_width(),
            y < self.spec_height(),
        ensures
            r.value@ == self.occupants_at(x as int, y as int),
            r.neighbors@ == self.neighbors_at(x as int, y as int),
    {
        proof {
            lemma_raw_idx_bounds(
                x + 1,
                y + 1,
                self.width as int,
                self.height as int,
            );
        }
        let i = grid_index(x + 1, y + 1, self.height);
        self.grid[i].get(self.version)
    }

    /// Inserts `value` as an occupant of `(x, y)` and as a neighbor of every
    /// cell in the 3x3 block centered on `(x, y)`.
    pub fn put(&mut self, x: usize, y: usize, value: T)
        requires
            old(self).wf(),
            x < old(self).spec_width(),
            y < old(self).spec_height(),
        ensures
            final(self).wf(),
            final(self).spec_width() == old(self).spec_width(),
            final(self).spec_height() == old(self).spec_height(),
            final(self).spec_version() == old(self).spec_version(),
            final(self).occupants_at(x as int, y as int) == old(self).occupants_at(
                x as int,
                y as int,
            ).push(value),
            forall|i: int, j: int|
                0 <= i < old(self).spec_width() && 0 <= j < old(self).spec_height() && !(i
                    == x as int && j == y as int)
                    ==> final(self).occupants_at(i, j) == old(self).occupants_at(i, j),
            forall|i: int, j: int|
                0 <= i < old(self).spec_width() && 0 <= j < old(self).spec_height() && Self::near(
                    i,
                    j,
                    x as int,
                    y as int,
                ) ==> final(self).neighbors_at(i, j) == old(self).neighbors_at(i, j).push(value),
            forall|i: int, j: int|
                0 <= i < old(self).spec_width() && 0 <= j < old(self).spec_height() && !Self::near(
                    i,
                    j,
                    x as int,
                    y as int,
                ) ==> final(self).neighbors_at(i, j) == old(self).neighbors_at(i, j),
    {
        let ghost w = self.width as int;
        let ghost h = self.height as int;
        proof {
            lemma_raw_idx_bounds(x as int, y as int, w, h);
            lemma_raw_idx_bounds(x as int, y as int + 1, w, h);
            lemma_raw_idx_bounds(x as int, y as int + 2, w, h);
            lemma_raw_idx_bounds(x as int + 1, y as int, w, h);
            lemma_raw_idx_bounds(x as int + 1, y as int + 1, w, h);
            lemma_raw_idx_bounds(x as int + 1, y as int + 2, w, h);
            lemma_raw_idx_bounds(x as int + 2, y as int, w, h);
            lemma_raw_idx_bounds(x as int + 2, y as int + 1, w, h);
            lemma_raw_idx_bounds(x as int + 2, y as int + 2, w, h);
            lemma_raw_idx_injective(x as int, y as int, x as int, y as int + 1, h);
            lemma_raw_idx_injective(x as int, y as int, x as int, y as int + 2, h);
            lemma_raw_idx_injective(x as int, y as int, x as int + 1, y as int, h);
            lemma_raw_idx_injective(x as int, y as int, x as int + 1, y as int + 1, h);
            lemma_raw_idx_injective(x as int, y as int, x as int + 1, y as int + 2, h);
            lemma_raw_idx_injective(x as int, y as int, x as int + 2, y as int, h);
            lemma_raw_idx_injective(x as int, y as int, x as int + 2, y as int + 1, h);
            lemma_raw_idx_injective(x as int, y as int, x as int + 2, y as int + 2, h);
            lemma_raw_idx_injective(x as int, y as int + 1, x as int, y as int + 2, h);
            lemma_raw_idx_injective(x as int, y as int + 1, x as int + 1, y as int, h);
            lemma_raw_idx_injective(x as int, y as int + 1, x as int + 1, y as int + 1, h);
            lemma_raw_idx_injective(x as int, y as int + 1, x as int + 1, y as int + 2, h);
            lemma_raw_idx_injective(x as int, y as int + 1, x as int + 2, y as int, h);
            lemma_raw_idx_injective(x as int, y as int + 1, x as int + 2, y as int + 1, h);
            lemma_raw_idx_injective(x as int, y as int + 1, x as int + 2, y as int + 2, h);
            lemma_raw_idx_injective(x as int, y as int + 2, x as int + 1, y as int, h);
            lemma_raw_idx_injective(x as int, y as int + 2, x as int + 1, y as int + 1, h);
            lemma_raw_idx_injective(x as int, y as int + 2, x as int + 1, y as int + 2, h);
            lemma_raw_idx_injective(x as int, y as int + 2, x as int + 2, y as int, h);
            lemma_raw_idx_injective(x as int, y as int + 2, x as int + 2, y as int + 1, h);
            lemma_raw_idx_injective(x as int, y as int + 2, x as int + 2, y as int + 2, h);
            lemma_raw_idx_injective(x as int + 1, y as int, x as int + 1, y as int + 1, h);
            lemma_raw_idx_injective(x as int + 1, y as int, x as int + 1, y as int + 2, h);
            lemma_raw_idx_injective(x as int + 1, y as int, x as int + 2, y as int, h);
            lemma_raw_idx_injective(x as int + 1, y as int, x as int + 2, y as int + 1, h);
            lemma_raw_idx_injective(x as int + 1, y as int, x as int + 2, y as int + 2, h);
            lemma_raw_idx_injective(x as int + 1, y as int + 1, x as int + 1, y as int + 2, h);
            lemma_raw_idx_injective(x as int + 1, y as int + 1, x as int + 2, y as int, h);
            lemma_raw_idx_injective(x as int + 1, y as int + 1, x as int + 2, y as int + 1, h);
            lemma_raw_idx_injective(x as int + 1, y as int + 1, x as int + 2, y as int + 2, h);
            lemma_raw_idx_injective(x as int + 1, y as int + 2, x as int + 2, y as int, h);
            lemma_raw_idx_injective(x as int + 1, y as int + 2, x as int + 2, y as int + 1, h);
            lemma_raw_idx_injective(x as int + 1, y as int + 2, x as int + 2, y as int + 2, h);
            lemma_raw_idx_injective(x as int + 2, y as int, x as int + 2, y as int + 1, h);
            lemma_raw_idx_injective(x as int + 2, y as int, x as int + 2, y as int + 2, h);
            lemma_raw_idx_injective(x as int + 2, y as int + 1, x as int + 2, y as int + 2, h);
        }
        let version = self.version;
        let height = self.height;
        let iv = grid_index(x + 1, y + 1, height);
        self.grid[iv].set_value(version, value);
        let i00 = grid_index(x, y, height);
        self.grid[i00].add_neighbor(version, value);
        let i01 = grid_index(x, y + 1, height);
        self.grid[i01].add_neighbor(version, value);
        let i02 = grid_index(x, y + 2, height);
        self.grid[i02].add_neighbor(version, value);
        let i10 = grid_index(x + 1, y, height);
        self.grid[i10].add_neighbor(version, value);
        let i11 = grid_index(x + 1, y + 1, height);
        self.grid[i11].add_neighbor(version, value);
        let i12 = grid_index(x + 1, y + 2, height);
        self.grid[i12].add_neighbor(version, value);
        let i20 = grid_index(x + 2, y, height);
        self.grid[i20].add_neighbor(version, value);
        let i21 = grid_index(x + 2, y + 1, height);
        self.grid[i21].add_neighbor(version, value);
        let i22 = grid_index(x + 2, y + 2, height);
        self.grid[i22].add_neighbor(version, value);
        proof {
            self.lemma_block_update(*old(self), x as int, y as int, h, value);
        }
    }

    /// Removes every copy of `value` from the occupant list of `(x, y)` and
    /// from the neighbor list of every cell in the 3x3 block centered there.
    pub fn remove(&mut self, x: usize, y: usize, value: &T)
        requires
            old(self).wf(),
            x < old(self).spec_width(),
            y < old(self).spec_height(),
        ensures
            final(self).wf(),
            final(self).spec_width() == old(self).spec_width(),
            final(self).spec_height() == old(self).spec_height(),
            final(self).spec_version() == old(self).spec_version(),
            final(self).occupants_at(x as int, y as int) == old(self).occupants_at(
                x as int,
                y as int,
            ).filter(|t: T| t != *value),
            forall|i: int, j: int|
                0 <= i < old(self).spec_width() && 0 <= j < old(self).spec_height() && !(i
                    == x as int && j == y as int)
                    ==> final(self).occupants_at(i, j) == old(self).occupants_at(i, j),
            forall|i: int, j: int|
                0 <= i < old(self).spec_width() && 0 <= j < old(self).spec_height() && Self::near(
                    i,
                    j,
                    x as int,
                    y as int,
                ) ==> final(self).neighbors_at(i, j) == old(self).neighbors_at(i, j).filter(
                    |t: T| t != *value,
                ),
            forall|i: int, j: int|
                0 <= i < old(self).spec_width() && 0 <= j < old(self).spec_height() && !Self::near(
                    i,
                    j,
                    x as int,
                    y as int,
                ) ==> final(self).neighbors_at(i, j) == old(self).neighbors_at(i, j),
    {
        let ghost w = self.width as int;
        let ghost h = self.height as int;
        proof {
            lemma_raw_idx_bounds(x as int, y as int, w, h);
            lemma_raw_idx_bounds(x as int, y as int + 1, w, h);
            lemma_raw_idx_bounds(x as int, y as int + 2, w, h);
            lemma_raw_idx_bounds(x as int + 1, y as int, w, h);
            lemma_raw_idx_bounds(x as int + 1, y as int + 1, w, h);
            lemma_raw_idx_bounds(x as int + 1, y as int + 2, w, h);
            lemma_raw_idx_bounds(x as int + 2, y as int, w, h);
            lemma_raw_idx_bounds(x as int + 2, y as int + 1, w, h);
            lemma_raw_idx_bounds(x as int + 2, y as int + 2, w, h);
            lemma_raw_idx_injective(x as int, y as int, x as int, y as int + 1, h);
            lemma_raw_idx_injective(x as int, y as int, x as int, y as int + 2, h);
            lemma_raw_idx_injective(x as int, y as int, x as int + 1, y as int, h);
            lemma_raw_idx_injective(x as int, y as int, x as int + 1, y as int + 1, h);
            lemma_raw_idx_injective(x as int, y as int, x as int + 1, y as int + 2, h);
            lemma_raw_idx_injective(x as int, y as int, x as int + 2, y as int, h);
            lemma_raw_idx_injective(x as int, y as int, x as int + 2, y as int + 1, h);
            lemma_raw_idx_injective(x as int, y as int, x as int + 2, y as int + 2, h);
            lemma_raw_idx_injective(x as int, y as int + 1, x as int, y as int + 2, h);
            lemma_raw_idx_injective(x as int, y as int + 1, x as int + 1, y as int, h);
            lemma_raw_idx_injective(x as int, y as int + 1, x as int + 1, y as int + 1, h);
            lemma_raw_idx_injective(x as int, y as int + 1, x as int + 1, y as int + 2, h);
            lemma_raw_idx_injective(x as int, y as int + 1, x as int + 2, y as int, h);
            lemma_raw_idx_injective(x as int, y as int + 1, x as int + 2, y as int + 1, h);
            lemma_raw_idx_injective(x as int, y as int + 1, x as int + 2, y as int + 2, h);
            lemma_raw_idx_injective(x as int, y as int + 2, x as int + 1, y as int, h);
            lemma_raw_idx_injective(x as int, y as int + 2, x as int + 1, y as int + 1, h);
            lemma_raw_idx_injective(x as int, y as int + 2, x as int + 1, y as int + 2, h);
            lemma_raw_idx_injective(x as int, y as int + 2, x as int + 2, y as int, h);
            lemma_raw_idx_injective(x as int, y as int + 2, x as int + 2, y as int + 1, h);
            lemma_raw_idx_injective(x as int, y as int + 2, x as int + 2, y as int + 2, h);
            lemma_raw_idx_injective(x as int + 1, y as int, x as int + 1, y as int + 1, h);
            lemma_raw_idx_injective(x as int + 1, y as int, x as int + 1, y as int + 2, h);
            lemma_raw_idx_injective(x as int + 1, y as int, x as int + 2, y as int, h);
            lemma_raw_idx_injective(x as int + 1, y as int, x as int + 2, y as int + 1, h);
            lemma_raw_idx_injective(x as int + 1, y as int, x as int + 2, y as int + 2, h);
            lemma_raw_idx_injective(x as int + 1, y as int + 1, x as int + 1, y as int + 2, h);
            lemma_raw_idx_injective(x as int + 1, y as int + 1, x as int + 2, y as int, h);
            lemma_raw_idx_injective(x as int + 1, y as int + 1, x as int + 2, y as int + 1, h);
            lemma_raw_idx_injective(x as int + 1, y as int + 1, x as int + 2, y as int + 2, h);
            lemma_raw_idx_injective(x as int + 1, y as int + 2, x as int + 2, y as int, h);
            lemma_raw_idx_injective(x as int + 1, y as int + 2, x as int + 2, y as int + 1, h);
            lemma_raw_idx_injective(x as int + 1, y as int + 2, x as int + 2, y as int + 2, h);
            lemma_raw_idx_injective(x as int + 2, y as int, x as int + 2, y as int + 1, h);
            lemma_raw_idx_injective(x as int + 2, y as int, x as int + 2, y as int + 2, h);
            lemma_raw_idx_injective(x as int + 2, y as int + 1, x as int + 2, y as int + 2, h);
        }
        let version = self.version;
        let height = self.height;
        let iv = grid_index(x + 1, y + 1, height);
        self.grid[iv].remove_value(version, value);
        let i00 = grid_index(x, y, height);
        self.grid[i00].remove_neighbor(version, value);
        let i01 = grid_index(x, y + 1, height);
        self.grid[i01].remove_neighbor(version, value);
        let i02 = grid_index(x, y + 2, height);
        self.grid[i02].remove_neighbor(version, value);
        let i10 = grid_index(x + 1, y, height);
        self.grid[i10].remove_neighbor(version, value);
        let i11 = grid_index(x + 1, y + 1, height);
        self.grid[i11].remove_neighbor(version, value);
        let i12 = grid_index(x + 1, y + 2, height);
        self.grid[i12].remove_neighbor(version, value);
        let i20 = grid_index(x + 2, y, height);
        self.grid[i20].remove_neighbor(version, value);
        let i21 = grid_index(x + 2, y + 1, height);
        self.grid[i21].remove_neighbor(version, value);
        let i22 = grid_index(x + 2, y + 2, height);
        self.grid[i22].remove_neighbor(version, value);
        proof {
            self.lemma_block_remove(*old(self), x as int, y as int, h, *value);
        }
    }

    /// Stamps the whole grid with a persisted version, at least its current
    /// one. Stepping to a new version makes every bucket read empty, exactly
    /// as `clear` does; keeping the version changes nothing.
    pub fn set_version(&mut self, version: usize)
        requires
            old(self).wf(),
            version >= old(self).spec_version(),
        ensures
            final(self).wf(),
            final(self).spec_width() == old(self).spec_width(),
            final(self).spec_height() == old(self).spec_height(),
            final(self).spec_version() == version,
            version != old(self).spec_version() ==> forall|i: int, j: int|
                0 <= i < old(self).spec_width() && 0 <= j < old(self).spec_height()
                    ==> final(self).occupants_at(i, j) == Seq::<T>::empty() && final(self).neighbors_at(i, j) == Seq::<T>::empty(),
            version == old(self).spec_version() ==> forall|i: int, j: int|
                0 <= i < old(self).spec_width() && 0 <= j < old(self).spec_height()
                    ==> final(self).occupants_at(i, j) == old(self).occupants_at(i, j) && final(self).neighbors_at(i, j) == old(self).neighbors_at(i, j),
    {
        self.version = version;
        proof {
            if version != old(self).spec_version() {
                assert forall|i: int, j: int|
                    0 <= i < self.width && 0 <= j < self.height implies self.occupants_at(i, j)
                    == Seq::<T>::empty() && self.neighbors_at(i, j) == Seq::<T>::empty() by {
                    lemma_raw_idx_bounds(i + 1, j + 1, self.width as int, self.height as int);
                }
            }
        }
    }

    /// Logically empties every bucket at once by stepping the grid's version.
    pub fn clear(&mut self)
        requires
            old(self).wf(),
            old(self).spec_version() < usize::MAX,
        ensures
            final(self).wf(),
            final(self).spec_width() == old(self).spec_width(),
            final(self).spec_height() == old(self).spec_height(),
            final(self).spec_version() == old(self).spec_version() + 1,
            forall|i: int, j: int|
                0 <= i < old(self).spec_width() && 0 <= j < old(self).spec_height()
                    ==> final(self).occupants_at(i, j) == Seq::<T>::empty(),
            forall|i: int, j: int|
                0 <= i < old(self).spec_width() && 0 <= j < old(self).spec_height()
                    ==> final(self).neighbors_at(i, j) == Seq::<T>::empty(),
    {
        self.version = self.version + 1;
        proof {
            assert forall|i: int, j: int|
                0 <= i < self.width && 0 <= j < self.height implies self.occupants_at(i, j)
                == Seq::<T>::empty() && self.neighbors_at(i, j) == Seq::<T>::empty() by {
                lemma_raw_idx_bounds(i + 1, j + 1, self.width as int, self.height as int);
            }
        }
    }

    /// Traces the ten bucket updates of `put` back to the logical view:
    /// one occupant list and nine neighbor lists grew by `value`, and every
    /// logical cell outside the 3x3 block kept its bucket.
    proof fn lemma_block_update(&self, prev: Self, x: int, y: int, h: int, value: T)
        requires
            prev.wf(),
            h == prev.height as int,
            0 <= x < prev.spec_width(),
            0 <= y < prev.spec_height(),
            self.width == prev.width,
            self.height == prev.height,
            self.version == prev.version,
            self.grid@.len() == prev.grid@.len(),
            forall|k: int|
                0 <= k < self.grid@.len() && k != raw_idx(x, y, h) && k != raw_idx(x, y + 1, h) && k != raw_idx(x, y + 2, h) && k != raw_idx(x + 1, y, h) && k != raw_idx(x + 1, y + 1, h) && k != raw_idx(x + 1, y + 2, h) && k != raw_idx(x + 2, y, h) && k != raw_idx(x + 2, y + 1, h) && k != raw_idx(x + 2, y + 2, h)
                    ==> #[trigger] self.grid@[k] == prev.grid@[k],
            self.grid@[raw_idx(x, y, h)].neighbor_list(self.version) == prev.grid@[raw_idx(x, y, h)].neighbor_list(
                self.version,
            ).push(value),
            self.grid@[raw_idx(x, y, h)].occupants(self.version) == prev.grid@[raw_idx(x, y, h)].occupants(self.version),
            self.grid@[raw_idx(x, y, h)].stamp() == self.version,
            self.grid@[raw_idx(x, y + 1, h)].neighbor_list(self.version) == prev.grid@[raw_idx(x, y + 1, h)].neighbor_list(
                self.version,
            ).push(value),
            self.grid@[raw_idx(x, y + 1, h)].occupants(self.version) == prev.grid@[raw_idx(x, y + 1, h)].occupants(self.version),
            self.grid@[raw_idx(x, y + 1, h)].stamp() == self.version,
            self.grid@[raw_idx(x, y + 2, h)].neighbor_list(self.version) == prev.grid@[raw_idx(x, y + 2, h)].neighbor_list(
                self.version,
            ).push(value),
            self.grid@[raw_idx(x, y + 2, h)].occupants(self.version) == prev.grid@[raw_idx(x, y + 2, h)].occupants(self.version),
            self.grid@[raw_idx(x, y + 2, h)].stamp() == self.version,
            self.grid@[raw_idx(x + 1, y, h)].neighbor_list(self.version) == prev.grid@[raw_idx(x + 1, y, h)].neighbor_list(
                self.version,
            ).push(value),
            self.grid@[raw_idx(x + 1, y, h)].occupants(self.version) == prev.grid@[raw_idx(x + 1, y, h)].occupants(self.version),
            self.grid@[raw_idx(x + 1, y, h)].stamp() == self.version,
            self.grid@[raw_idx(x + 1, y + 1, h)].neighbor_list(self.version) == prev.grid@[raw_idx(x + 1, y + 1, h)].neighbor_list(
                self.version,
            ).push(value),
            self.grid@[raw_idx(x + 1, y + 1, h)].occupants(self.version) == prev.grid@[raw_idx(x + 1, y + 1, h)].occupants(
                self.version,
            ).push(value),
            self.grid@[raw_idx(x + 1, y + 1, h)].stamp() == self.version,
            self.grid@[raw_idx(x + 1, y + 2, h)].neighbor_list(self.version) == prev.grid@[raw_idx(x + 1, y + 2, h)].neighbor_list(
                self.version,
            ).push(value),
            self.grid@[raw_idx(x + 1, y + 2, h)].occupants(self.version) == prev.grid@[raw_idx(x + 1, y + 2, h)].occupants(self.version),
            self.grid@[raw_idx(x + 1, y + 2, h)].stamp() == self.version,
            self.grid@[raw_idx(x + 2, y, h)].neighbor_list(self.version) == prev.grid@[raw_idx(x + 2, y, h)].neighbor_list(
                self.version,
            ).push(value),
            self.grid@[raw_idx(x + 2, y, h)].occupants(self.version) == prev.grid@[raw_idx(x + 2, y, h)].occupants(self.version),
            self.grid@[raw_idx(x + 2, y, h)].stamp() == self.version,
            self.grid@[raw_idx(x + 2, y + 1, h)].neighbor_list(self.version) == prev.grid@[raw_idx(x + 2, y + 1, h)].neighbor_list(
                self.version,
            ).push(value),
            self.grid@[raw_idx(x + 2, y + 1, h)].occupants(self.version) == prev.grid@[raw_idx(x + 2, y + 1, h)].occupants(self.version),
            self.grid@[raw_idx(x + 2, y + 1, h)].stamp() == self.version,
            self.grid@[raw_idx(x + 2, y + 2, h)].neighbor_list(self.version) == prev.grid@[raw_idx(x + 2, y + 2, h)].neighbor_list(
                self.version,
            ).push(value),
            self.grid@[raw_idx(x + 2, y + 2, h)].occupants(self.version) == prev.grid@[raw_idx(x + 2, y + 2, h)].occupants(self.version),
            self.grid@[raw_idx(x + 2, y + 2, h)].stamp() == self.version,
        ensures
            self.wf(),
            self.occupants_at(x, y) == prev.occupants_at(x, y).push(value),
            forall|i: int, j: int|
                0 <= i < prev.spec_width() && 0 <= j < prev.spec_height() && !(i == x && j == y)
                    ==> self.occupants_at(i, j) == prev.occupants_at(i, j),
            forall|i: int, j: int|
                0 <= i < prev.spec_width() && 0 <= j < prev.spec_height() && Self::near(i, j, x, y)
                    ==> self.neighbors_at(i, j) == prev.neighbors_at(i, j).push(value),
            forall|i: int, j: int|
                0 <= i < prev.spec_width() && 0 <= j < prev.spec_height() && !Self::near(i, j, x, y)
                    ==> self.neighbors_at(i, j) == prev.neighbors_at(i, j),
    {
        let w = self.width as int;
        assert forall|i: int, j: int|
            #![trigger raw_idx(i + 1, j + 1, h)]
            0 <= i < w && 0 <= j < prev.height implies {
            let k = raw_idx(i + 1, j + 1, h);
            &&& (Self::near(i, j, x, y) ==> self.grid@[k].neighbor_list(self.version)
                == prev.grid@[k].neighbor_list(self.version).push(value))
            &&& (Self::near(i, j, x, y) && !(i == x && j == y) ==> self.grid@[k].occupants(
                self.version,
            ) == prev.grid@[k].occupants(self.version))
            &&& (i == x && j == y ==> self.grid@[k].occupants(self.version) == prev.grid@[k]
                .occupants(self.version).push(value))
            &&& (!Self::near(i, j, x, y) ==> self.grid@[k] == prev.grid@[k])
        } by {
            lemma_raw_idx_bounds(i + 1, j + 1, w, h);
            if Self::near(i, j, x, y) {
                assert(x <= i + 1 <= x + 2 && y <= j + 1 <= y + 2);
            } else {
            lemma_raw_idx_injective(i + 1, j + 1, x, y, h);
            lemma_raw_idx_injective(i + 1, j + 1, x, y + 1, h);
            lemma_raw_idx_injective(i + 1, j + 1, x, y + 2, h);
            lemma_raw_idx_injective(i + 1, j + 1, x + 1, y, h);
            lemma_raw_idx_injective(i + 1, j + 1, x + 1, y + 1, h);
            lemma_raw_idx_injective(i + 1, j + 1, x + 1, y + 2, h);
            lemma_raw_idx_injective(i + 1, j + 1, x + 2, y, h);
            lemma_raw_idx_injective(i + 1, j + 1, x + 2, y + 1, h);
            lemma_raw_idx_injective(i + 1, j + 1, x + 2, y + 2, h);
            }
        }
        assert forall|k: int| 0 <= k < self.grid@.len() implies (#[trigger] self.grid@[k]).stamp()
            <= self.version by {}
    }

    /// Traces the ten bucket updates of `remove` back to the logical view:
    /// one occupant list and nine neighbor lists were filtered, and every
    /// logical cell outside the 3x3 block kept its bucket.
    proof fn lemma_block_remove(&self, prev: Self, x: int, y: int, h: int, value: T)
        requires
            prev.wf(),
            h == prev.height as int,
            0 <= x < prev.spec_width(),
            0 <= y < prev.spec_height(),
            self.width == prev.width,
            self.height == prev.height,
            self.version == prev.version,
            self.grid@.len() == prev.grid@.len(),
            forall|k: int|
                0 <= k < self.grid@.len() && k != raw_idx(x, y, h) && k != raw_idx(x, y + 1, h) && k != raw_idx(x, y + 2, h) && k != raw_idx(x + 1, y, h) && k != raw_idx(x + 1, y + 1, h) && k != raw_idx(x + 1, y + 2, h) && k != raw_idx(x + 2, y, h) && k != raw_idx(x + 2, y + 1, h) && k != raw_idx(x + 2, y + 2, h)
                    ==> #[trigger] self.grid@[k] == prev.grid@[k],
            self.grid@[raw_idx(x, y, h)].neighbor_list(self.version) == prev.grid@[raw_idx(x, y, h)].neighbor_list(
                self.version,
            ).filter(|t: T| t != value),
            self.grid@[raw_idx(x, y, h)].occupants(self.version) == prev.grid@[raw_idx(x, y, h)].occupants(self.version),
            self.grid@[raw_idx(x, y, h)].stamp() == prev.grid@[raw_idx(x, y, h)].stamp(),
            self.grid@[raw_idx(x, y + 1, h)].neighbor_list(self.version) == prev.grid@[raw_idx(x, y + 1, h)].neighbor_list(
                self.version,
            ).filter(|t: T| t != value),
            self.grid@[raw_idx(x, y + 1, h)].occupants(self.version) == prev.grid@[raw_idx(x, y + 1, h)].occupants(self.version),
            self.grid@[raw_idx(x, y + 1, h)].stamp() == prev.grid@[raw_idx(x, y + 1, h)].stamp(),
            self.grid@[raw_idx(x, y + 2, h)].neighbor_list(self.version) == prev.grid@[raw_idx(x, y + 2, h)].neighbor_list(
                self.version,
            ).filter(|t: T| t != value),
            self.grid@[raw_idx(x, y + 2, h)].occupants(self.version) == prev.grid@[raw_idx(x, y + 2, h)].occupants(self.version),
            self.grid@[raw_idx(x, y + 2, h)].stamp() == prev.grid@[raw_idx(x, y + 2, h)].stamp(),
            self.grid@[raw_idx(x + 1, y, h)].neighbor_list(self.version) == prev.grid@[raw_idx(x + 1, y, h)].neighbor_list(
                self.version,
            ).filter(|t: T| t != value),
            self.grid@[raw_idx(x + 1, y, h)].occupants(self.version) == prev.grid@[raw_idx(x + 1, y, h)].occupants(self.version),
            self.grid@[raw_idx(x + 1, y, h)].stamp() == prev.grid@[raw_idx(x + 1, y, h)].stamp(),
            self.grid@[raw_idx(x + 1, y + 1, h)].neighbor_list(self.version) == prev.grid@[raw_idx(x + 1, y + 1, h)].neighbor_list(
                self.version,
            ).filter(|t: T| t != value),
            self.grid@[raw_idx(x + 1, y + 1, h)].occupants(self.version) == prev.grid@[raw_idx(x + 1, y + 1, h)].occupants(
                self.version,
            ).filter(|t: T| t != value),
            self.grid@[raw_idx(x + 1, y + 1, h)].stamp() == prev.grid@[raw_idx(x + 1, y + 1, h)].stamp(),
            self.grid@[raw_idx(x + 1, y + 2, h)].neighbor_list(self.version) == prev.grid@[raw_idx(x + 1, y + 2, h)].neighbor_list(
                self.version,
            ).filter(|t: T| t != value),
            self.grid@[raw_idx(x + 1, y + 2, h)].occupants(self.version) == prev.grid@[raw_idx(x + 1, y + 2, h)].occupants(self.version),
            self.grid@[raw_idx(x + 1, y + 2, h)].stamp() == prev.grid@[raw_idx(x + 1, y + 2, h)].stamp(),
            self.grid@[raw_idx(x + 2, y, h)].neighbor_list(self.version) == prev.grid@[raw_idx(x + 2, y, h)].neighbor_list(
                self.version,
            ).filter(|t: T| t != value),
            self.grid@[raw_idx(x + 2, y, h)].occupants(self.version) == prev.grid@[raw_idx(x + 2, y, h)].occupants(self.version),
            self.grid@[raw_idx(x + 2, y, h)].stamp() == prev.grid@[raw_idx(x + 2, y, h)].stamp(),
            self.grid@[raw_idx(x + 2, y + 1, h)].neighbor_list(self.version) == prev.grid@[raw_idx(x + 2, y + 1, h)].neighbor_list(
                self.version,
            ).filter(|t: T| t != value),
            self.grid@[raw_idx(x + 2, y + 1, h)].occupants(self.version) == prev.grid@[raw_idx(x + 2, y + 1, h)].occupants(self.version),
            self.grid@[raw_idx(x + 2, y + 1, h)].stamp() == prev.grid@[raw_idx(x + 2, y + 1, h)].stamp(),
            self.grid@[raw_idx(x + 2, y + 2, h)].neighbor_list(self.version) == prev.grid@[raw_idx(x + 2, y + 2, h)].neighbor_list(
                self.version,
            ).filter(|t: T| t != value),
            self.grid@[raw_idx(x + 2, y + 2, h)].occupants(self.version) == prev.grid@[raw_idx(x + 2, y + 2, h)].occupants(self.version),
            self.grid@[raw_idx(x + 2, y + 2, h)].stamp() == prev.grid@[raw_idx(x + 2, y + 2, h)].stamp(),
        ensures
            self.wf(),
            self.occupants_at(x, y) == prev.occupants_at(x, y).filter(|t: T| t != value),
            forall|i: int, j: int|
                0 <= i < prev.spec_width() && 0 <= j < prev.spec_height() && !(i == x && j == y)
                    ==> self.occupants_at(i, j) == prev.occupants_at(i, j),
            forall|i: int, j: int|
                0 <= i < prev.spec_width() && 0 <= j < prev.spec_height() && Self::near(i, j, x, y)
                    ==> self.neighbors_at(i, j) == prev.neighbors_at(i, j).filter(
                    |t: T| t != value,
                ),
            forall|i: int, j: int|
                0 <= i < prev.spec_width() && 0 <= j < prev.spec_height() && !Self::near(i, j, x, y)
                    ==> self.neighbors_at(i, j) == prev.neighbors_at(i, j),
    {
        let w = self.width as int;
        assert forall|i: int, j: int|
            #![trigger raw_idx(i + 1, j + 1, h)]
            0 <= i < w && 0 <= j < prev.height implies {
            let k = raw_idx(i + 1, j + 1, h);
            &&& (Self::near(i, j, x, y) ==> self.grid@[k].neighbor_list(self.version)
                == prev.grid@[k].neighbor_list(self.version).filter(|t: T| t != value))
            &&& (Self::near(i, j, x, y) && !(i == x && j == y) ==> self.grid@[k].occupants(
                self.version,
            ) == prev.grid@[k].occupants(self.version))
            &&& (i == x && j == y ==> self.grid@[k].occupants(self.version) == prev.grid@[k]
                .occupants(self.version).filter(|t: T| t != value))
            &&& (!Self::near(i, j, x, y) ==> self.grid@[k] == prev.grid@[k])
        } by {
            lemma_raw_idx_bounds(i + 1, j + 1, w, h);
            if Self::near(i, j, x, y) {
                assert(x <= i + 1 <= x + 2 && y <= j + 1 <= y + 2);
            } else {
            lemma_raw_idx_injective(i + 1, j + 1, x, y, h);
            lemma_raw_idx_injective(i + 1, j + 1, x, y + 1, h);
            lemma_raw_idx_injective(i + 1, j + 1, x, y + 2, h);
            lemma_raw_idx_injective(i + 1, j + 1, x + 1, y, h);
            lemma_raw_idx_injective(i + 1, j + 1, x + 1, y + 1, h);
            lemma_raw_idx_injective(i + 1, j + 1, x + 1, y + 2, h);
            lemma_raw_idx_injective(i + 1, j + 1, x + 2, y, h);
            lemma_raw_idx_injective(i + 1, j + 1, x + 2, y + 1, h);
            lemma_raw_idx_injective(i + 1, j + 1, x + 2, y + 2, h);
            }
        }
        assert forall|k: int| 0 <= k < self.grid@.len() implies (#[trigger] self.grid@[k]).stamp()
            <= self.version by {}
    }
}

/// Grid idempotence: if a grid `g1` relates to `g0` as `Grid::put` of a value
/// `v` at `(x, y)` promises, and `g2` relates to `g1` as `Grid::remove` of
/// the same value at the same cell promises, and `v` did not occur in any
/// bucket of `g0` touched by the fan-out, then every bucket of `g2` reads
/// exactly as it did in `g0`: putting and then removing a fresh value leaves
/// the grid as it was.
pub proof fn lemma_put_then_remove_restores<T: Occupant>(
    g0: Grid<T>,
    g1: Grid<T>,
    g2: Grid<T>,
    x: int,
    y: int,
    v: T,
)
    requires
        0 <= x < g0.spec_width(),
        0 <= y < g0.spec_height(),
        g1.spec_width() == g0.spec_width(),
        g1.spec_height() == g0.spec_height(),
        g2.spec_width() == g1.spec_width(),
        g2.spec_height() == g1.spec_height(),
        // how put left g1, stated as Grid::put ensures it
        g1.occupants_at(x, y) == g0.occupants_at(x, y).push(v),
        forall|i: int, j: int|
            0 <= i < g0.spec_width() && 0 <= j < g0.spec_height() && !(i == x && j == y)
                ==> g1.occupants_at(i, j) == g0.occupants_at(i, j),
        forall|i: int, j: int|
            0 <= i < g0.spec_width() && 0 <= j < g0.spec_height() && Grid::<T>::near(i, j, x, y)
                ==> g1.neighbors_at(i, j) == g0.neighbors_at(i, j).push(v),
        forall|i: int, j: int|
            0 <= i < g0.spec_width() && 0 <= j < g0.spec_height() && !Grid::<T>::near(i, j, x, y)
                ==> g1.neighbors_at(i, j) == g0.neighbors_at(i, j),
        // how remove left g2, stated as Grid::remove ensures it
        g2.occupants_at(x, y) == g1.occupants_at(x, y).filter(|t: T| t != v),
        forall|i: int, j: int|
            0 <= i < g1.spec_width() && 0 <= j < g1.spec_height() && !(i == x && j == y)
                ==> g2.occupants_at(i, j) == g1.occupants_at(i, j),
        forall|i: int, j: int|
            0 <= i < g1.spec_width() && 0 <= j < g1.spec_height() && Grid::<T>::near(i, j, x, y)
                ==> g2.neighbors_at(i, j) == g1.neighbors_at(i, j).filter(|t: T| t != v),
        forall|i: int, j: int|
            0 <= i < g1.spec_width() && 0 <= j < g1.spec_height() && !Grid::<T>::near(i, j, x, y)
                ==> g2.neighbors_at(i, j) == g1.neighbors_at(i, j),
        // the value was fresh in every bucket the fan-out touches
        !g0.occupants_at(x, y).contains(v),
        forall|i: int, j: int|
            0 <= i < g0.spec_width() && 0 <= j < g0.spec_height() && Grid::<T>::near(i, j, x, y)
                ==> !(#[trigger] g0.neighbors_at(i, j)).contains(v),
    ensures
        forall|i: int, j: int|
            0 <= i < g0.spec_width() && 0 <= j < g0.spec_height()
                ==> g2.occupants_at(i, j) == g0.occupants_at(i, j),
        forall|i: int, j: int|
            0 <= i < g0.spec_width() && 0 <= j < g0.spec_height()
                ==> g2.neighbors_at(i, j) == g0.neighbors_at(i, j),
{
    let pred = |t: T| t != v;
    assert(!g0.occupants_at(x, y).push(v).drop_last().contains(v));
    lemma_filter_step(g0.occupants_at(x, y), v, pred);
    lemma_filter_absent_id(g0.occupants_at(x, y), v);
    assert(g2.occupants_at(x, y) == g0.occupants_at(x, y));
    assert forall|i: int, j: int|
        0 <= i < g0.spec_width() && 0 <= j < g0.spec_height() && Grid::<T>::near(i, j, x, y)
        implies g2.neighbors_at(i, j) == g0.neighbors_at(i, j) by {
        lemma_filter_step(g0.neighbors_at(i, j), v, pred);
        lemma_filter_absent_id(g0.neighbors_at(i, j), v);
    }
}

} // verus!
