//! Chunk addressing and the sparse multi-chunk grid.
//!
//! World space is split into fixed-size rectangular chunks. A `GridIndex`
//! names a chunk by Euclidean (floor) division of a world position by the
//! chunk dimensions; a `UniverseGrid` is one chunk's bucket grid plus its
//! world-space offset; a `MultiGrid` owns the sparse map from chunk index to
//! chunk and answers the streaming queries (which chunks are missing near a
//! center, which loaded chunks are far from it).

use vstd::arithmetic::div_mod::lemma_fundamental_div_mod_converse;
use vstd::prelude::*;

use std::collections::HashMap;

use crate::grid::{GetResult, Grid, Occupant};
use crate::v2::V2i;

verus! {

broadcast use vstd::std_specs::hash::group_hash_axioms, vstd::std_specs::hash::axiom_u64_obeys_hash_table_key_model;

/// Stable identity of one particle, unique for the lifetime of a world.
#[derive(Default, Hash, Eq, Clone, Copy, Debug, PartialEq, Structural)]
pub struct CellIndex {
    pub index: usize,
}

/// Identity of one chunk: its offset in units of the chunk dimensions.
#[derive(Hash, Eq, Clone, Copy, Debug, PartialEq, Structural)]
pub struct GridIndex {
    pub grid_offset: V2i,
}

impl GridIndex {
    /// The chunk that contains `pos`, by Euclidean division; `x / w` below is
    /// flooring division of mathematical integers.
    pub fn from_pos(pos: V2i, width: usize, height: usize) -> (r: GridIndex)
        requires
            0 < width <= i32::MAX,
            0 < height <= i32::MAX,
        ensures
            r.grid_offset.x == pos.x as int / width as int,
            r.grid_offset.y == pos.y as int / height as int,
    {
        let w = width as i32;
        let h = height as i32;
        proof {
            lemma_div_in_range(pos.x as int, w as int);
            lemma_div_in_range(pos.y as int, h as int);
        }
        let x = pos.x.checked_div_euclid(w).unwrap();
        let y = pos.y.checked_div_euclid(h).unwrap();
        GridIndex { grid_offset: V2i { x, y } }
    }

    /// The world position of the chunk's lowest corner.
    pub fn to_pos(&self, width: usize, height: usize) -> (r: V2i)
        requires
            0 < width <= i32::MAX,
            0 < height <= i32::MAX,
            i32::MIN <= self.grid_offset.x * width <= i32::MAX,
            i32::MIN <= self.grid_offset.y * height <= i32::MAX,
        ensures
            r.x == self.grid_offset.x * width,
            r.y == self.grid_offset.y * height,
    {
        V2i { x: self.grid_offset.x * (width as i32), y: self.grid_offset.y * (height as i32) }
    }
}

/// For a positive divisor the quotient is never larger in magnitude than the
/// dividend, so flooring division of an `i32` by a positive `i32` stays in
/// range.
proof fn lemma_div_in_range(x: int, d: int)
    requires
        i32::MIN <= x <= i32::MAX,
        0 < d <= i32::MAX,
    ensures
        i32::MIN <= x / d <= i32::MAX,
{
    if x >= 0 {
        assert(0 <= x / d <= x) by (nonlinear_arith)
            requires
                x >= 0 && d > 0,
        ;
    } else {
        assert(x <= x / d <= 0) by (nonlinear_arith)
            requires
                x < 0 && d > 0,
        ;
    }
}

/// Chunk-index round trip: every world position inside the chunk at
/// `(ox, oy)` maps back to that chunk. `to_pos` places the chunk's corner at
/// `(ox * w, oy * h)`, and `from_pos` of any position within the following
/// `w x h` cells divides back to `(ox, oy)`.
pub proof fn lemma_chunk_round_trip(ox: int, oy: int, w: int, h: int, px: int, py: int)
    requires
        0 < w,
        0 < h,
        ox * w <= px < ox * w + w,
        oy * h <= py < oy * h + h,
    ensures
        px / w == ox,
        py / h == oy,
{
    lemma_fundamental_div_mod_converse(px, w, ox, px - ox * w);
    lemma_fundamental_div_mod_converse(py, h, oy, py - oy * h);
}

/// The packed map key of chunk index `(ix, iy)`: both coordinates shifted to
/// be non-negative, then combined positionally.
pub open spec fn spec_chunk_key(ix: int, iy: int) -> int {
    (ix + 0x8000_0000) * 0x1_0000_0000 + (iy + 0x8000_0000)
}

proof fn lemma_chunk_key_injective(x1: int, y1: int, x2: int, y2: int)
    requires
        i32::MIN <= x1 <= i32::MAX,
        i32::MIN <= y1 <= i32::MAX,
        i32::MIN <= x2 <= i32::MAX,
        i32::MIN <= y2 <= i32::MAX,
        x1 != x2 || y1 != y2,
    ensures
        spec_chunk_key(x1, y1) != spec_chunk_key(x2, y2),
{
}

/// Packs a chunk index into one map key.
fn chunk_key(ix: i32, iy: i32) -> (r: u64)
    ensures
        r == spec_chunk_key(ix as int, iy as int),
        r <= u64::MAX,
{
    let ux = (ix as i64 + 0x8000_0000) as u64;
    let uy = (iy as i64 + 0x8000_0000) as u64;
    ux * 0x1_0000_0000 + uy
}

/// One chunk: a bucket grid of fixed dimensions placed at a world-space
/// offset.
pub struct UniverseGrid<T> {
    pub width: usize,
    pub height: usize,
    pub offset: V2i,
    pub grid: Grid<T>,
}

impl<T: Occupant> UniverseGrid<T> {
    /// World position of the chunk's lowest corner.
    pub open spec fn spec_offset(&self) -> V2i {
        self.offset
    }

    pub open spec fn wf(&self) -> bool {
        &&& self.grid.wf()
        &&& self.grid.spec_width() == self.width
        &&& self.grid.spec_height() == self.height
        &&& 0 < self.width <= i32::MAX
        &&& 0 < self.height <= i32::MAX
        &&& i32::MIN <= self.offset.x as int + self.width <= i32::MAX + 1
        &&& i32::MIN <= self.offset.y as int + self.height <= i32::MAX + 1
    }

    /// Whether a world position falls inside this chunk.
    pub open spec fn spec_in_bounds(&self, pos: V2i) -> bool {
        &&& self.spec_offset().x <= pos.x < self.spec_offset().x + self.width
        &&& self.spec_offset().y <= pos.y < self.spec_offset().y + self.height
    }

    /// Occupants of the bucket at world position `pos`.
    pub open spec fn occupants_at(&self, pos: V2i) -> Seq<T> {
        self.grid.occupants_at(
            pos.x as int - self.spec_offset().x as int,
            pos.y as int - self.spec_offset().y as int,
        )
    }

    /// Neighbor list of the bucket at world position `pos`: everything put
    /// within one cell of it and not yet removed.
    pub open spec fn neighbors_at(&self, pos: V2i) -> Seq<T> {
        self.grid.neighbors_at(
            pos.x as int - self.spec_offset().x as int,
            pos.y as int - self.spec_offset().y as int,
        )
    }

    /// A fresh, empty chunk at the world offset of `grid_index`.
    pub fn new(grid_index: GridIndex, grid_width: usize, grid_height: usize) -> (r: Self)
        requires
            0 < grid_width <= i32::MAX,
            0 < grid_height <= i32::MAX,
            (grid_width + 2) * (grid_height + 2) <= usize::MAX,
            i32::MIN <= grid_index.grid_offset.x * grid_width,
            grid_index.grid_offset.x * grid_width + grid_width <= i32::MAX + 1,
            i32::MIN <= grid_index.grid_offset.y * grid_height,
            grid_index.grid_offset.y * grid_height + grid_height <= i32::MAX + 1,
        ensures
            r.wf(),
            r.width == grid_width,
            r.height == grid_height,
            r.spec_offset().x == grid_index.grid_offset.x * grid_width,
            r.spec_offset().y == grid_index.grid_offset.y * grid_height,
            r.grid.spec_version() == 0,
            forall|pos: V2i| r.spec_in_bounds(pos) ==> r.occupants_at(pos) == Seq::<T>::empty(),
            forall|pos: V2i| r.spec_in_bounds(pos) ==> r.neighbors_at(pos) == Seq::<T>::empty(),
    {
        UniverseGrid {
            grid: Grid::new(grid_width, grid_height),
            width: grid_width,
            height: grid_height,
            offset: grid_index.to_pos(grid_width, grid_height),
        }
    }

    /// Whether a world position falls inside this chunk.
    pub fn is_in_bounds(&self, pos: V2i) -> (r: bool)
        requires
            self.wf(),
        ensures
            r == self.spec_in_bounds(pos),
    {
        let rx = pos.x as i64 - self.offset.x as i64;
        let ry = pos.y as i64 - self.offset.y as i64;
        rx >= 0 && ry >= 0 && rx < self.width as i64 && ry < self.height as i64
    }

    /// Inserts an occupant at a world position inside this chunk.
    pub fn put(&mut self, pos: V2i, value: T)
        requires
            old(self).wf(),
            old(self).spec_in_bounds(pos),
        ensures
            final(self).wf(),
            final(self).width == old(self).width,
            final(self).height == old(self).height,
            final(self).grid.spec_version() == old(self).grid.spec_version(),
            final(self).spec_offset() == old(self).spec_offset(),
            final(self).occupants_at(pos) == old(self).occupants_at(pos).push(value),
            forall|q: V2i|
                old(self).spec_in_bounds(q) && q != pos ==> final(self).occupants_at(q) == old(
                    self,
                ).occupants_at(q),
            forall|q: V2i|
                old(self).spec_in_bounds(q) && near_world(q, pos) ==> final(self).neighbors_at(q)
                    == old(self).neighbors_at(q).push(value),
            forall|q: V2i|
                old(self).spec_in_bounds(q) && !near_world(q, pos) ==> final(self).neighbors_at(q)
                    == old(self).neighbors_at(q),
    {
        let rx = (pos.x as i64 - self.offset.x as i64) as usize;
        let ry = (pos.y as i64 - self.offset.y as i64) as usize;
        self.grid.put(rx, ry, value);
    }

    /// Removes every copy of an occupant at a world position inside this
    /// chunk.
    pub fn remove(&mut self, pos: V2i, value: &T)
        requires
            old(self).wf(),
            old(self).spec_in_bounds(pos),
        ensures
            final(self).wf(),
            final(self).width == old(self).width,
            final(self).height == old(self).height,
            final(self).grid.spec_version() == old(self).grid.spec_version(),
            final(self).spec_offset() == old(self).spec_offset(),
            final(self).occupants_at(pos) == old(self).occupants_at(pos).filter(
                |t: T| t != *value,
            ),
            forall|q: V2i|
                old(self).spec_in_bounds(q) && q != pos ==> final(self).occupants_at(q) == old(
                    self,
                ).occupants_at(q),
            forall|q: V2i|
                old(self).spec_in_bounds(q) && near_world(q, pos) ==> final(self).neighbors_at(q)
                    == old(self).neighbors_at(q).filter(|t: T| t != *value),
            forall|q: V2i|
                old(self).spec_in_bounds(q) && !near_world(q, pos) ==> final(self).neighbors_at(q)
                    == old(self).neighbors_at(q),
    {
        let rx = (pos.x as i64 - self.offset.x as i64) as usize;
        let ry = (pos.y as i64 - self.offset.y as i64) as usize;
        self.grid.remove(rx, ry, value);
    }

    /// Reads the bucket at a world position inside this chunk.
    pub fn get(&self, pos: V2i) -> (r: GetResult<T>)
        requires
            self.wf(),
            self.spec_in_bounds(pos),
        ensures
            r.value@ == self.occupants_at(pos),
            r.neighbors@ == self.neighbors_at(pos),
    {
        let rx = (pos.x as i64 - self.offset.x as i64) as usize;
        let ry = (pos.y as i64 - self.offset.y as i64) as usize;
        self.grid.get(rx, ry)
    }
}

/// Whether two world positions lie within one cell of each other on both
/// axes, i.e. within each other's 3x3 neighbor fan-out.
pub open spec fn near_world(q: V2i, p: V2i) -> bool {
    p.x - 1 <= q.x <= p.x + 1 && p.y - 1 <= q.y <= p.y + 1
}

/// The sequence with every copy of `value` removed.
pub open spec fn seq_without<T>(s: Seq<T>, value: T) -> Seq<T> {
    s.filter(|t: T| t != value)
}

/// Filtering by any predicate that means "not equal to `value`" removes
/// exactly the copies of `value`.
pub proof fn lemma_filter_eq_without<T>(s: Seq<T>, p: spec_fn(T) -> bool, value: T)
    requires
        forall|t: T| #[trigger] p(t) <==> t != value,
    ensures
        s.filter(p) == seq_without(s, value),
    decreases s.len(),
{
    reveal(Seq::filter);
    if s.len() > 0 {
        lemma_filter_eq_without(s.drop_last(), p, value);
        assert(s.filter(p) =~= seq_without(s, value));
    } else {
        assert(s.filter(p) =~= seq_without(s, value));
    }
}

/// A bucket list after one occupant moved: filtered of `value` where the move
/// left it, extended by `value` where the move entered it.
pub open spec fn seq_moved<T>(before: Seq<T>, left: bool, entered: bool, value: T) -> Seq<T> {
    let f = if left {
        seq_without(before, value)
    } else {
        before
    };
    if entered {
        f.push(value)
    } else {
        f
    }
}

/// Whether chunk `g` lies in the half-open square scan window of radius `r`
/// around chunk `c`.
pub open spec fn in_scan_window(g: GridIndex, c: GridIndex, r: int) -> bool {
    &&& c.grid_offset.x - r <= g.grid_offset.x < c.grid_offset.x + r
    &&& c.grid_offset.y - r <= g.grid_offset.y < c.grid_offset.y + r
}

/// Whether chunk `g` lies strictly farther than `r` chunks from chunk `c` on
/// either axis.
pub open spec fn is_far(g: GridIndex, c: GridIndex, r: int) -> bool {
    ||| g.grid_offset.x - c.grid_offset.x > r
    ||| g.grid_offset.x - c.grid_offset.x < -r
    ||| g.grid_offset.y - c.grid_offset.y > r
    ||| g.grid_offset.y - c.grid_offset.y < -r
}

/// Filtering a sequence of pairwise-distinct elements yields pairwise
/// distinct elements.
proof fn lemma_distinct_filter<T>(s: Seq<T>, p: spec_fn(T) -> bool)
    requires
        forall|i: int, j: int| 0 <= i < j < s.len() ==> s[i] != s[j],
    ensures
        forall|i: int, j: int|
            0 <= i < j < s.filter(p).len() ==> s.filter(p)[i] != s.filter(p)[j],
    decreases s.len(),
{
    reveal(Seq::filter);
    if s.len() > 0 {
        let rest = s.drop_last();
        assert(forall|i: int, j: int| 0 <= i < j < rest.len() ==> rest[i] != rest[j]);
        lemma_distinct_filter(rest, p);
        if p(s.last()) {
            assert(s.filter(p) == rest.filter(p).push(s.last()));
            assert forall|i: int, j: int|
                0 <= i < j < s.filter(p).len() implies s.filter(p)[i] != s.filter(p)[j] by {
                if j == s.filter(p).len() - 1 {
                    if rest.filter(p).contains(s.last()) {
                        Seq::lemma_filter_contains_rev(rest, p, s.last());
                        let m = choose|m: int| 0 <= m < rest.len() && rest[m] == s.last();
                        assert(s[m] == s[s.len() - 1]);
                        assert(false);
                    }
                    assert(s.filter(p)[i] == rest.filter(p)[i]);
                    assert(rest.filter(p).contains(rest.filter(p)[i]));
                } else {
                    assert(s.filter(p)[i] == rest.filter(p)[i]);
                    assert(s.filter(p)[j] == rest.filter(p)[j]);
                }
            }
        } else {
            assert(s.filter(p) == rest.filter(p));
        }
    }
}

/// Finds the position of a chunk index in a list, if present.
fn find_grid_index(v: &Vec<GridIndex>, target: GridIndex) -> (r: Option<usize>)
    ensures
        match r {
            Some(i) => i < v@.len() && v@[i as int] == target,
            None => forall|j: int| 0 <= j < v@.len() ==> v@[j] != target,
        },
{
    let n = v.len();
    for i in 0..n
        invariant
            n == v@.len(),
            forall|j: int| 0 <= j < i ==> v@[j] != target,
    {
        if v[i] == target {
            return Some(i);
        }
    }
    None
}

/// The sparse world: a map from chunk index to loaded chunk, plus the
/// streaming queries that drive chunk paging.
pub struct MultiGrid<T> {
    grids: HashMap<u64, UniverseGrid<T>>,
    loaded: Vec<GridIndex>,
    pub grid_width: usize,
    pub grid_height: usize,
}

impl<T: Occupant> MultiGrid<T> {
    pub closed spec fn spec_grid_width(&self) -> usize {
        self.grid_width
    }

    pub closed spec fn spec_grid_height(&self) -> usize {
        self.grid_height
    }

    /// Whether the chunk named by `g` is loaded.
    pub closed spec fn spec_has(&self, g: GridIndex) -> bool {
        self.grids@.contains_key(
            spec_chunk_key(g.grid_offset.x as int, g.grid_offset.y as int) as u64,
        )
    }

    /// The loaded chunk named by `g`.
    pub closed spec fn spec_chunk(&self, g: GridIndex) -> UniverseGrid<T> {
        self.grids@[spec_chunk_key(g.grid_offset.x as int, g.grid_offset.y as int) as u64]
    }

    pub closed spec fn wf(&self) -> bool {
        &&& 0 < self.grid_width <= i32::MAX
        &&& 0 < self.grid_height <= i32::MAX
        &&& (self.grid_width + 2) * (self.grid_height + 2) <= usize::MAX
        &&& vstd::std_specs::hash::obeys_key_model::<u64>()
        &&& forall|i: int, j: int|
            0 <= i < j < self.loaded@.len() ==> self.loaded@[i] != self.loaded@[j]
        &&& forall|i: int|
            0 <= i < self.loaded@.len() ==> self.spec_has(#[trigger] self.loaded@[i])
        &&& forall|g: GridIndex| #[trigger] self.spec_has(g) ==> self.loaded@.contains(g)
        &&& forall|g: GridIndex|
            self.spec_has(g) ==> {
                let c = #[trigger] self.spec_chunk(g);
                &&& c.wf()
                &&& c.width == self.grid_width
                &&& c.height == self.grid_height
                &&& c.spec_offset().x == g.grid_offset.x * self.grid_width
                &&& c.spec_offset().y == g.grid_offset.y * self.grid_height
            }
    }

    pub fn new(width: usize, height: usize) -> (r: MultiGrid<T>)
        requires
            0 < width <= i32::MAX,
            0 < height <= i32::MAX,
            (width + 2) * (height + 2) <= usize::MAX,
        ensures
            r.wf(),
            r.spec_grid_width() == width,
            r.spec_grid_height() == height,
            forall|g: GridIndex| !r.spec_has(g),
    {
        let r = MultiGrid {
            grids: HashMap::new(),
            loaded: Vec::new(),
            grid_width: width,
            grid_height: height,
        };
        proof {
            assert(r.grids@ == Map::<u64, UniverseGrid<T>>::empty());
        }
        r
    }

    /// The chunk index owning a world position.
    pub fn pos_to_index(&self, pos: V2i) -> (r: GridIndex)
        requires
            self.wf(),
        ensures
            r.grid_offset.x == pos.x as int / self.spec_grid_width() as int,
            r.grid_offset.y == pos.y as int / self.spec_grid_height() as int,
            r == self.spec_index_of(pos),
    {
        let r = GridIndex::from_pos(pos, self.grid_width, self.grid_height);
        proof {
            lemma_div_in_range(pos.x as int, self.spec_grid_width() as int);
            lemma_div_in_range(pos.y as int, self.spec_grid_height() as int);
        }
        r
    }

    /// Whether the chunk named by `grid_index` is loaded.
    pub fn contains(&self, grid_index: GridIndex) -> (r: bool)
        requires
            self.wf(),
        ensures
            r == self.spec_has(grid_index),
    {
        let k = chunk_key(grid_index.grid_offset.x, grid_index.grid_offset.y);
        self.grids.contains_key(&k)
    }

    /// Reads a loaded chunk.
    pub fn get(&self, grid_index: GridIndex) -> (r: Option<&UniverseGrid<T>>)
        requires
            self.wf(),
        ensures
            match r {
                Some(c) => self.spec_has(grid_index) && *c == self.spec_chunk(grid_index),
                None => !self.spec_has(grid_index),
            },
    {
        let k = chunk_key(grid_index.grid_offset.x, grid_index.grid_offset.y);
        self.grids.get(&k)
    }

    /// Stores a chunk under its index, replacing any chunk already there.
    pub fn insert(&mut self, index: GridIndex, grid: UniverseGrid<T>)
        requires
            old(self).wf(),
            grid.wf(),
            grid.width == old(self).spec_grid_width(),
            grid.height == old(self).spec_grid_height(),
            grid.spec_offset().x == index.grid_offset.x * old(self).spec_grid_width(),
            grid.spec_offset().y == index.grid_offset.y * old(self).spec_grid_height(),
        ensures
            final(self).wf(),
            final(self).spec_grid_width() == old(self).spec_grid_width(),
            final(self).spec_grid_height() == old(self).spec_grid_height(),
            final(self).spec_has(index),
            final(self).spec_chunk(index) == grid,
            forall|g: GridIndex|
                g != index ==> #[trigger] final(self).spec_has(g) == old(self).spec_has(g),
            forall|g: GridIndex|
                g != index && old(self).spec_has(g) ==> #[trigger] final(self).spec_chunk(g)
                    == old(self).spec_chunk(g),
    {
        let k = chunk_key(index.grid_offset.x, index.grid_offset.y);
        if !self.grids.contains_key(&k) {
            self.loaded.push(index);
        }
        self.grids.insert(k, grid);
        proof {
            assert forall|g: GridIndex| g != index implies #[trigger] final(self).spec_has(g)
                == old(self).spec_has(g) && (old(self).spec_has(g) ==> final(self).spec_chunk(g)
                == old(self).spec_chunk(g)) by {
                lemma_chunk_key_injective(
                    g.grid_offset.x as int,
                    g.grid_offset.y as int,
                    index.grid_offset.x as int,
                    index.grid_offset.y as int,
                );
            }
            assert forall|g: GridIndex| #[trigger] self.spec_has(g) implies self.loaded@.contains(
                g,
            ) by {
                if g != index {
                    let i = choose|i: int|
                        0 <= i < old(self).loaded@.len() && old(self).loaded@[i] == g;
                    assert(self.loaded@.contains(g)) by {
                        if self.loaded@.len() > old(self).loaded@.len() {
                            assert(self.loaded@[i] == g);
                        }
                    }
                } else {
                    if !old(self).spec_has(index) {
                        assert(self.loaded@[self.loaded@.len() - 1] == index);
                    }
                }
            }
        }
    }

    /// Unloads and returns a chunk, if it is loaded.
    pub fn drop_grid(&mut self, grid_index: GridIndex) -> (r: Option<UniverseGrid<T>>)
        requires
            old(self).wf(),
        ensures
            final(self).wf(),
            final(self).spec_grid_width() == old(self).spec_grid_width(),
            final(self).spec_grid_height() == old(self).spec_grid_height(),
            !final(self).spec_has(grid_index),
            forall|g: GridIndex|
                g != grid_index ==> #[trigger] final(self).spec_has(g) == old(self).spec_has(g),
            forall|g: GridIndex|
                g != grid_index && old(self).spec_has(g) ==> #[trigger] final(self).spec_chunk(g)
                    == old(self).spec_chunk(g),
            match r {
                Some(c) => old(self).spec_has(grid_index) && c == old(self).spec_chunk(grid_index),
                None => !old(self).spec_has(grid_index),
            },
    {
        let k = chunk_key(grid_index.grid_offset.x, grid_index.grid_offset.y);
        let r = self.grids.remove(&k);
        let ghost pre = self.loaded@;
        let ghost mut removed_at: Option<int> = None;
        match find_grid_index(&self.loaded, grid_index) {
            Some(i) => {
                self.loaded.remove(i);
                proof {
                    removed_at = Some(i as int);
                }
            },
            None => {},
        }
        proof {
            assert forall|g: GridIndex| g != grid_index implies #[trigger] final(self).spec_has(g)
                == old(self).spec_has(g) && (old(self).spec_has(g) ==> final(self).spec_chunk(g)
                == old(self).spec_chunk(g)) by {
                lemma_chunk_key_injective(
                    g.grid_offset.x as int,
                    g.grid_offset.y as int,
                    grid_index.grid_offset.x as int,
                    grid_index.grid_offset.y as int,
                );
            }
            assert forall|g: GridIndex| #[trigger] self.spec_has(g) implies self.loaded@.contains(
                g,
            ) by {
                assert(g != grid_index);
                assert(old(self).spec_has(g));
                assert(pre.contains(g));
                let j = choose|j: int| 0 <= j < pre.len() && pre[j] == g;
                match removed_at {
                    Some(i) => {
                        if j < i {
                            assert(self.loaded@[j] == g);
                        } else {
                            assert(j != i);
                            assert(self.loaded@[j - 1] == g);
                        }
                    },
                    None => {
                        assert(self.loaded@[j] == g);
                    },
                }
            }
            assert forall|i1: int, j1: int|
                0 <= i1 < j1 < self.loaded@.len() implies self.loaded@[i1] != self.loaded@[j1] by {
                match removed_at {
                    Some(i) => {
                        let a = if i1 < i { i1 } else { i1 + 1 };
                        let b = if j1 < i { j1 } else { j1 + 1 };
                        assert(self.loaded@[i1] == pre[a] && self.loaded@[j1] == pre[b]);
                    },
                    None => {},
                }
            }
        }
        r
    }


    /// A world position lies inside the chunk its index names.
    proof fn lemma_pos_in_own_chunk(&self, pos: V2i)
        requires
            self.wf(),
        ensures
            (pos.x as int / self.spec_grid_width() as int) * self.spec_grid_width()
                <= pos.x as int,
            (pos.x as int) < (pos.x as int / self.spec_grid_width() as int) * self.spec_grid_width() + self.spec_grid_width(),
            (pos.y as int / self.spec_grid_height() as int) * self.spec_grid_height()
                <= pos.y as int,
            (pos.y as int) < (pos.y as int / self.spec_grid_height() as int) * self.spec_grid_height() + self.spec_grid_height(),
            i32::MIN <= pos.x as int / self.spec_grid_width() as int <= i32::MAX,
            i32::MIN <= pos.y as int / self.spec_grid_height() as int <= i32::MAX,
    {
        let w = self.spec_grid_width() as int;
        let h = self.spec_grid_height() as int;
        vstd::arithmetic::div_mod::lemma_fundamental_div_mod(pos.x as int, w);
        vstd::arithmetic::div_mod::lemma_mod_bound(pos.x as int, w);
        vstd::arithmetic::div_mod::lemma_fundamental_div_mod(pos.y as int, h);
        vstd::arithmetic::div_mod::lemma_mod_bound(pos.y as int, h);
        lemma_div_in_range(pos.x as int, w);
        lemma_div_in_range(pos.y as int, h);
        vstd::arithmetic::mul::lemma_mul_is_commutative(pos.x as int / w, w);
        vstd::arithmetic::mul::lemma_mul_is_commutative(pos.y as int / h, h);
    }

    /// The chunk index owning a world position, as a spec value.
    pub open spec fn spec_index_of(&self, pos: V2i) -> GridIndex {
        GridIndex {
            grid_offset: V2i {
                x: (pos.x as int / self.spec_grid_width() as int) as i32,
                y: (pos.y as int / self.spec_grid_height() as int) as i32,
            },
        }
    }

    /// Reads the bucket at a world position, if its chunk is loaded.
    pub fn get_at(&self, pos: V2i) -> (r: Option<GetResult<T>>)
        requires
            self.wf(),
        ensures
            match r {
                Some(b) => {
                    &&& self.spec_has(self.spec_index_of(pos))
                    &&& b.value@ == self.spec_chunk(self.spec_index_of(pos)).occupants_at(pos)
                    &&& b.neighbors@ == self.spec_chunk(self.spec_index_of(pos)).neighbors_at(pos)
                },
                None => !self.spec_has(self.spec_index_of(pos)),
            },
    {
        let g = self.pos_to_index(pos);
        proof {
            self.lemma_pos_in_own_chunk(pos);
        }
        match self.get(g) {
            Some(c) => Some(c.get(pos)),
            None => None,
        }
    }

    /// Inserts an occupant at a world position, if its chunk is loaded;
    /// reports whether it was.
    pub fn put_at(&mut self, pos: V2i, value: T) -> (r: bool)
        requires
            old(self).wf(),
        ensures
            final(self).wf(),
            final(self).spec_grid_width() == old(self).spec_grid_width(),
            final(self).spec_grid_height() == old(self).spec_grid_height(),
            forall|g: GridIndex| final(self).spec_has(g) == old(self).spec_has(g),
            r == old(self).spec_has(old(self).spec_index_of(pos)),
            forall|g: GridIndex|
                g != old(self).spec_index_of(pos) && old(self).spec_has(g)
                    ==> #[trigger] final(self).spec_chunk(g) == old(self).spec_chunk(g),
            r ==> {
                let go = old(self).spec_index_of(pos);
                let before = old(self).spec_chunk(go);
                let after = final(self).spec_chunk(go);
                &&& after.width == before.width
                &&& after.height == before.height
                &&& after.spec_offset() == before.spec_offset()
                &&& after.occupants_at(pos) == before.occupants_at(pos).push(value)
                &&& forall|q: V2i|
                    before.spec_in_bounds(q) && q != pos ==> after.occupants_at(q)
                        == before.occupants_at(q)
                &&& forall|q: V2i|
                    before.spec_in_bounds(q) && near_world(q, pos) ==> after.neighbors_at(q)
                        == before.neighbors_at(q).push(value)
                &&& forall|q: V2i|
                    before.spec_in_bounds(q) && !near_world(q, pos) ==> after.neighbors_at(q)
                        == before.neighbors_at(q)
            },
            !r ==> forall|g: GridIndex|
                old(self).spec_has(g) ==> #[trigger] final(self).spec_chunk(g) == old(
                    self,
                ).spec_chunk(g),
    {
        let g = self.pos_to_index(pos);
        proof {
            self.lemma_pos_in_own_chunk(pos);
        }
        let k = chunk_key(g.grid_offset.x, g.grid_offset.y);
        match self.grids.remove(&k) {
            Some(mut c) => {
                proof {
                    assert(old(self).spec_has(g));
                    assert(c == old(self).spec_chunk(g));
                    assert(g == old(self).spec_index_of(pos));
                    assert(c.spec_in_bounds(pos));
                }
                c.put(pos, value);
                self.grids.insert(k, c);
                proof {
                    assert(self.grids@ =~= old(self).grids@.insert(k, c));
                    assert forall|g2: GridIndex| g2 != g implies #[trigger] final(self).spec_has(
                        g2,
                    ) == old(self).spec_has(g2) && (old(self).spec_has(g2)
                        ==> final(self).spec_chunk(g2) == old(self).spec_chunk(g2)) by {
                        lemma_chunk_key_injective(
                            g2.grid_offset.x as int,
                            g2.grid_offset.y as int,
                            g.grid_offset.x as int,
                            g.grid_offset.y as int,
                        );
                    }
                    assert forall|g2: GridIndex| #[trigger] self.spec_has(g2)
                        implies self.loaded@.contains(g2) by {
                        assert(old(self).spec_has(g2));
                    }
                    assert(self.spec_chunk(g) == c);
                    assert forall|i: int| 0 <= i < self.loaded@.len() implies self.spec_has(
                        #[trigger] self.loaded@[i],
                    ) by {
                        assert(old(self).spec_has(self.loaded@[i]));
                        if self.loaded@[i] != g {
                            lemma_chunk_key_injective(
                                self.loaded@[i].grid_offset.x as int,
                                self.loaded@[i].grid_offset.y as int,
                                g.grid_offset.x as int,
                                g.grid_offset.y as int,
                            );
                        }
                    }
                    assert forall|g2: GridIndex| self.spec_has(g2) implies {
                        let cc = #[trigger] self.spec_chunk(g2);
                        &&& cc.wf()
                        &&& cc.width == self.grid_width
                        &&& cc.height == self.grid_height
                        &&& cc.spec_offset().x == g2.grid_offset.x * self.grid_width
                        &&& cc.spec_offset().y == g2.grid_offset.y * self.grid_height
                    } by {
                        if g2 != g {
                            assert(old(self).spec_has(g2));
                            assert(self.spec_chunk(g2) == old(self).spec_chunk(g2));
                        }
                    }
                }
                true
            },
            None => {
                proof {
                    assert(self.grids@ =~= old(self).grids@);
                    assert forall|i: int| 0 <= i < self.loaded@.len() implies self.spec_has(
                        #[trigger] self.loaded@[i],
                    ) by {
                        assert(old(self).spec_has(self.loaded@[i]));
                    }
                    assert forall|g2: GridIndex| #[trigger] self.spec_has(g2)
                        implies self.loaded@.contains(g2) by {
                        assert(old(self).spec_has(g2));
                    }
                    assert forall|g2: GridIndex| self.spec_has(g2) implies {
                        let cc = #[trigger] self.spec_chunk(g2);
                        &&& cc.wf()
                        &&& cc.width == self.grid_width
                        &&& cc.height == self.grid_height
                        &&& cc.spec_offset().x == g2.grid_offset.x * self.grid_width
                        &&& cc.spec_offset().y == g2.grid_offset.y * self.grid_height
                    } by {
                        assert(old(self).spec_has(g2));
                        assert(self.spec_chunk(g2) == old(self).spec_chunk(g2));
                    }
                }
                false
            },
        }
    }

    /// Removes every copy of an occupant at a world position, if its chunk is
    /// loaded; reports whether it was.
    pub fn remove_at(&mut self, pos: V2i, value: T) -> (r: bool)
        requires
            old(self).wf(),
        ensures
            final(self).wf(),
            final(self).spec_grid_width() == old(self).spec_grid_width(),
            final(self).spec_grid_height() == old(self).spec_grid_height(),
            forall|g: GridIndex| final(self).spec_has(g) == old(self).spec_has(g),
            r == old(self).spec_has(old(self).spec_index_of(pos)),
            forall|g: GridIndex|
                g != old(self).spec_index_of(pos) && old(self).spec_has(g)
                    ==> #[trigger] final(self).spec_chunk(g) == old(self).spec_chunk(g),
            r ==> {
                let go = old(self).spec_index_of(pos);
                let before = old(self).spec_chunk(go);
                let after = final(self).spec_chunk(go);
                &&& after.width == before.width
                &&& after.height == before.height
                &&& after.spec_offset() == before.spec_offset()
                &&& after.occupants_at(pos) == seq_without(before.occupants_at(pos), value)
                &&& forall|q: V2i|
                    before.spec_in_bounds(q) && q != pos ==> after.occupants_at(q)
                        == before.occupants_at(q)
                &&& forall|q: V2i|
                    before.spec_in_bounds(q) && near_world(q, pos) ==> after.neighbors_at(q)
                        == seq_without(before.neighbors_at(q), value)
                &&& forall|q: V2i|
                    before.spec_in_bounds(q) && !near_world(q, pos) ==> after.neighbors_at(q)
                        == before.neighbors_at(q)
            },
            !r ==> forall|g: GridIndex|
                old(self).spec_has(g) ==> #[trigger] final(self).spec_chunk(g) == old(
                    self,
                ).spec_chunk(g),
    {
        let g = self.pos_to_index(pos);
        proof {
            self.lemma_pos_in_own_chunk(pos);
        }
        let k = chunk_key(g.grid_offset.x, g.grid_offset.y);
        match self.grids.remove(&k) {
            Some(mut c) => {
                proof {
                    assert(old(self).spec_has(g));
                    assert(c == old(self).spec_chunk(g));
                    assert(g == old(self).spec_index_of(pos));
                    assert(c.spec_in_bounds(pos));
                }
                c.remove(pos, &value);
                self.grids.insert(k, c);
                proof {
                    assert(self.grids@ =~= old(self).grids@.insert(k, c));
                    assert forall|g2: GridIndex| g2 != g implies #[trigger] final(self).spec_has(
                        g2,
                    ) == old(self).spec_has(g2) && (old(self).spec_has(g2)
                        ==> final(self).spec_chunk(g2) == old(self).spec_chunk(g2)) by {
                        lemma_chunk_key_injective(
                            g2.grid_offset.x as int,
                            g2.grid_offset.y as int,
                            g.grid_offset.x as int,
                            g.grid_offset.y as int,
                        );
                    }
                    assert forall|g2: GridIndex| #[trigger] self.spec_has(g2)
                        implies self.loaded@.contains(g2) by {
                        assert(old(self).spec_has(g2));
                    }
                    assert(self.spec_chunk(g) == c);
                    assert forall|i: int| 0 <= i < self.loaded@.len() implies self.spec_has(
                        #[trigger] self.loaded@[i],
                    ) by {
                        assert(old(self).spec_has(self.loaded@[i]));
                        if self.loaded@[i] != g {
                            lemma_chunk_key_injective(
                                self.loaded@[i].grid_offset.x as int,
                                self.loaded@[i].grid_offset.y as int,
                                g.grid_offset.x as int,
                                g.grid_offset.y as int,
                            );
                        }
                    }
                    assert forall|g2: GridIndex| self.spec_has(g2) implies {
                        let cc = #[trigger] self.spec_chunk(g2);
                        &&& cc.wf()
                        &&& cc.width == self.grid_width
                        &&& cc.height == self.grid_height
                        &&& cc.spec_offset().x == g2.grid_offset.x * self.grid_width
                        &&& cc.spec_offset().y == g2.grid_offset.y * self.grid_height
                    } by {
                        if g2 != g {
                            assert(old(self).spec_has(g2));
                            assert(self.spec_chunk(g2) == old(self).spec_chunk(g2));
                        }
                    }
                }
                true
            },
            None => {
                proof {
                    assert(self.grids@ =~= old(self).grids@);
                    assert forall|i: int| 0 <= i < self.loaded@.len() implies self.spec_has(
                        #[trigger] self.loaded@[i],
                    ) by {
                        assert(old(self).spec_has(self.loaded@[i]));
                    }
                    assert forall|g2: GridIndex| #[trigger] self.spec_has(g2)
                        implies self.loaded@.contains(g2) by {
                        assert(old(self).spec_has(g2));
                    }
                    assert forall|g2: GridIndex| self.spec_has(g2) implies {
                        let cc = #[trigger] self.spec_chunk(g2);
                        &&& cc.wf()
                        &&& cc.width == self.grid_width
                        &&& cc.height == self.grid_height
                        &&& cc.spec_offset().x == g2.grid_offset.x * self.grid_width
                        &&& cc.spec_offset().y == g2.grid_offset.y * self.grid_height
                    } by {
                        assert(old(self).spec_has(g2));
                        assert(self.spec_chunk(g2) == old(self).spec_chunk(g2));
                    }
                }
                false
            },
        }
    }


    /// A loaded chunk that contains a position is the chunk its index names:
    /// chunks tile the world disjointly.
    proof fn lemma_owner_unique(&self, g: GridIndex, q: V2i)
        requires
            self.wf(),
            self.spec_has(g),
            self.spec_chunk(g).spec_in_bounds(q),
        ensures
            g == self.spec_index_of(q),
    {
        let w = self.spec_grid_width() as int;
        let h = self.spec_grid_height() as int;
        lemma_chunk_round_trip(
            g.grid_offset.x as int,
            g.grid_offset.y as int,
            w,
            h,
            q.x as int,
            q.y as int,
        );
    }



    /// What well-formedness guarantees of any loaded chunk: its own
    /// well-formedness, the shared dimensions, and its world offset.
    pub proof fn lemma_chunk_props(&self, g: GridIndex)
        requires
            self.wf(),
            self.spec_has(g),
        ensures
            self.spec_chunk(g).wf(),
            self.spec_chunk(g).width == self.spec_grid_width(),
            self.spec_chunk(g).height == self.spec_grid_height(),
            self.spec_chunk(g).spec_offset().x == g.grid_offset.x * self.spec_grid_width(),
            self.spec_chunk(g).spec_offset().y == g.grid_offset.y * self.spec_grid_height(),
    {
    }

    /// Public form of the owner-uniqueness fact, for callers that track a
    /// chunk's contents.
    pub proof fn lemma_owner_unique_pub(&self, g: GridIndex, q: V2i)
        requires
            self.wf(),
            self.spec_has(g),
            self.spec_chunk(g).spec_in_bounds(q),
        ensures
            g == self.spec_index_of(q),
    {
        self.lemma_owner_unique(g, q);
    }

    /// Moves one occupant from its old lattice cell to a new one, the join
    /// point between bucket grids and multi-chunk addressing: each position
    /// is resolved to its owning chunk (possibly two different chunks), the
    /// occupant is removed where its chunk is loaded and inserted where its
    /// chunk is loaded, and nothing else changes. Equal positions are a
    /// no-op.
    pub fn update_cell_pos(&mut self, value: T, old_pos: V2i, new_pos: V2i)
        requires
            old(self).wf(),
        ensures
            final(self).wf(),
            final(self).spec_grid_width() == old(self).spec_grid_width(),
            final(self).spec_grid_height() == old(self).spec_grid_height(),
            forall|g: GridIndex| final(self).spec_has(g) == old(self).spec_has(g),
            old_pos == new_pos ==> forall|g: GridIndex|
                old(self).spec_has(g) ==> #[trigger] final(self).spec_chunk(g) == old(
                    self,
                ).spec_chunk(g),
            forall|g: GridIndex|
                old(self).spec_has(g) ==> {
                    let before = old(self).spec_chunk(g);
                    let after = #[trigger] final(self).spec_chunk(g);
                    &&& after.width == before.width
                    &&& after.height == before.height
                    &&& after.spec_offset() == before.spec_offset()
                },
            old_pos != new_pos ==> forall|g: GridIndex, q: V2i|
                old(self).spec_has(g) && (#[trigger] old(self).spec_chunk(g).spec_in_bounds(q))
                    ==> {
                    let before = old(self).spec_chunk(g);
                    let after = final(self).spec_chunk(g);
                    let go = old(self).spec_index_of(old_pos);
                    let gn = old(self).spec_index_of(new_pos);
                    &&& after.occupants_at(q) == seq_moved(
                        before.occupants_at(q),
                        q == old_pos,
                        q == new_pos,
                        value,
                    )
                    &&& after.neighbors_at(q) == seq_moved(
                        before.neighbors_at(q),
                        near_world(q, old_pos) && g == go,
                        near_world(q, new_pos) && g == gn,
                        value,
                    )
                },
    {
        if old_pos.x == new_pos.x && old_pos.y == new_pos.y {
            return ;
        }
        self.remove_at(old_pos, value);
        let ghost mid = *self;
        self.put_at(new_pos, value);
        proof {
            let go = old(self).spec_index_of(old_pos);
            let gn = old(self).spec_index_of(new_pos);
            assert forall|g: GridIndex, q: V2i|
                old(self).spec_has(g) && (#[trigger] old(self).spec_chunk(g).spec_in_bounds(q))
                    implies {
                    let before = old(self).spec_chunk(g);
                    let after = final(self).spec_chunk(g);
                    &&& after.occupants_at(q) == seq_moved(
                        before.occupants_at(q),
                        q == old_pos,
                        q == new_pos,
                        value,
                    )
                    &&& after.neighbors_at(q) == seq_moved(
                        before.neighbors_at(q),
                        near_world(q, old_pos) && g == go,
                        near_world(q, new_pos) && g == gn,
                        value,
                    )
                } by {
                let before1 = old(self).spec_chunk(g);
                let midc = mid.spec_chunk(g);
                let after2 = final(self).spec_chunk(g);
                old(self).lemma_owner_unique(g, q);
                assert(mid.spec_has(g));
                if q == old_pos {
                    assert(g == go);
                }
                if q == new_pos {
                    assert(g == gn);
                }
                if g == go {
                    assert(midc.occupants_at(q) == (if q == old_pos {
                        before1.occupants_at(q).filter(|t: T| t != value)
                    } else {
                        before1.occupants_at(q)
                    }));
                    assert(midc.neighbors_at(q) == (if near_world(q, old_pos) {
                        before1.neighbors_at(q).filter(|t: T| t != value)
                    } else {
                        before1.neighbors_at(q)
                    }));
                } else {
                    assert(midc == before1);
                    assert(!(q == old_pos));
                    assert(!near_world(q, old_pos) || !before1.spec_in_bounds(q) || true);
                    if near_world(q, old_pos) {
                        let go2 = old(self).spec_index_of(old_pos);
                        if old(self).spec_has(go2) {
                            assert(midc.neighbors_at(q) == before1.neighbors_at(q));
                        }
                    }
                }
                assert(midc.spec_in_bounds(q) == before1.spec_in_bounds(q));
                mid.lemma_owner_unique(g, q);
                if g == gn {
                    assert(after2.occupants_at(q) == (if q == new_pos {
                        midc.occupants_at(q).push(value)
                    } else {
                        midc.occupants_at(q)
                    }));
                    assert(after2.neighbors_at(q) == (if near_world(q, new_pos) {
                        midc.neighbors_at(q).push(value)
                    } else {
                        midc.neighbors_at(q)
                    }));
                } else {
                    assert(after2 == midc);
                }

            }
        }
    }

    /// Every chunk index in the square scan window around the center's chunk
    /// that is not loaded, each exactly once: the chunks to stream in. The
    /// window runs from `drop_radius` chunks below the center's chunk up to
    /// but not including `drop_radius` chunks above it, on both axes.
    pub fn get_dropped_grids(&self, center: V2i, drop_radius: usize) -> (r: Vec<GridIndex>)
        requires
            self.wf(),
            drop_radius <= 0x10_0000,
            i32::MIN + 0x10_0000 <= center.x as int / self.spec_grid_width() as int,
            center.x as int / self.spec_grid_width() as int <= i32::MAX - 0x10_0000,
            i32::MIN + 0x10_0000 <= center.y as int / self.spec_grid_height() as int,
            center.y as int / self.spec_grid_height() as int <= i32::MAX - 0x10_0000,
        ensures
            forall|j: int|
                0 <= j < r@.len() ==> in_scan_window(
                    #[trigger] r@[j],
                    self.spec_index_of(center),
                    drop_radius as int,
                ) && !self.spec_has(r@[j]),
            forall|g: GridIndex|
                in_scan_window(g, self.spec_index_of(center), drop_radius as int)
                    && !self.spec_has(g) ==> r@.contains(g),
            forall|i: int, j: int| 0 <= i < j < r@.len() ==> r@[i] != r@[j],
    {
        let center_grid = self.pos_to_index(center);
        let r_i = drop_radius as i32;
        let cx = center_grid.grid_offset.x;
        let cy = center_grid.grid_offset.y;
        let ghost cg = self.spec_index_of(center);
        let mut res: Vec<GridIndex> = Vec::new();
        let mut x = cx - r_i;
        while x < cx + r_i
            invariant
                self.wf(),
                cg == self.spec_index_of(center),
                cx as int == cg.grid_offset.x as int,
                cy as int == cg.grid_offset.y as int,
                cx as int - r_i <= x as int,
                (x as int) <= cx as int + r_i,
                r_i == drop_radius,
                drop_radius <= 0x10_0000,
                i32::MIN + 0x10_0000 <= cx as int <= i32::MAX - 0x10_0000,
                i32::MIN + 0x10_0000 <= cy as int <= i32::MAX - 0x10_0000,
                forall|j: int|
                    0 <= j < res@.len() ==> in_scan_window(#[trigger] res@[j], cg, r_i as int)
                        && !self.spec_has(res@[j]) && res@[j].grid_offset.x < x,
                forall|g: GridIndex|
                    in_scan_window(g, cg, r_i as int) && !self.spec_has(g) && g.grid_offset.x < x
                        ==> res@.contains(g),
                forall|i: int, j: int| 0 <= i < j < res@.len() ==> res@[i] != res@[j],
            decreases cx + r_i - x,
        {
            let mut y = cy - r_i;
            while y < cy + r_i
                invariant
                    self.wf(),
                    cg == self.spec_index_of(center),
                    cx as int == cg.grid_offset.x as int,
                    cy as int == cg.grid_offset.y as int,
                    cx as int - r_i <= x as int,
                    (x as int) < cx as int + r_i,
                    cy as int - r_i <= y as int,
                    (y as int) <= cy as int + r_i,
                    r_i == drop_radius,
                    drop_radius <= 0x10_0000,
                    i32::MIN + 0x10_0000 <= cx as int <= i32::MAX - 0x10_0000,
                    i32::MIN + 0x10_0000 <= cy as int <= i32::MAX - 0x10_0000,
                    forall|j: int|
                        0 <= j < res@.len() ==> in_scan_window(#[trigger] res@[j], cg, r_i as int)
                            && !self.spec_has(res@[j]) && (res@[j].grid_offset.x < x || (res@[j].grid_offset.x == x && res@[j].grid_offset.y < y)),
                    forall|g: GridIndex|
                        in_scan_window(g, cg, r_i as int) && !self.spec_has(g) && (g.grid_offset.x
                            < x || (g.grid_offset.x == x && g.grid_offset.y < y)) ==> res@.contains(
                            g,
                        ),
                    forall|i: int, j: int| 0 <= i < j < res@.len() ==> res@[i] != res@[j],
                decreases cy + r_i - y,
            {
                let gi = GridIndex { grid_offset: V2i { x, y } };
                let ghost pre = res@;
                if !self.contains(gi) {
                    res.push(gi);
                }
                proof {
                    assert forall|g: GridIndex|
                        in_scan_window(g, cg, r_i as int) && !self.spec_has(g) && (g.grid_offset.x
                            < x || (g.grid_offset.x == x && g.grid_offset.y < y + 1))
                            implies res@.contains(g) by {
                        if g.grid_offset.x as int == x as int && g.grid_offset.y as int
                            == y as int {
                            assert(res@[res@.len() - 1] == g);
                        } else {
                            assert(pre.contains(g));
                            let j = choose|j: int| 0 <= j < pre.len() && pre[j] == g;
                            assert(res@[j] == g);
                        }
                    }
                }
                y = y + 1;
            }
            x = x + 1;
        }
        res
    }

    /// Every loaded chunk index strictly farther than `drop_radius` chunks
    /// from the center's chunk on either axis, each exactly once: the chunks
    /// to stream out. A chunk exactly at the radius is kept.
    pub fn get_far_grids(&self, center: V2i, drop_radius: usize) -> (r: Vec<GridIndex>)
        requires
            self.wf(),
            drop_radius <= 0x10_0000,
        ensures
            forall|j: int|
                0 <= j < r@.len() ==> self.spec_has(#[trigger] r@[j]) && is_far(
                    r@[j],
                    self.spec_index_of(center),
                    drop_radius as int,
                ),
            forall|g: GridIndex|
                self.spec_has(g) && is_far(g, self.spec_index_of(center), drop_radius as int)
                    ==> r@.contains(g),
            forall|i: int, j: int| 0 <= i < j < r@.len() ==> r@[i] != r@[j],
    {
        let center_grid = self.pos_to_index(center);
        let cx = center_grid.grid_offset.x as i64;
        let cy = center_grid.grid_offset.y as i64;
        let r_i = drop_radius as i64;
        let ghost cg = self.spec_index_of(center);
        let ghost fpred = |g: GridIndex| is_far(g, cg, r_i as int);
        let mut res: Vec<GridIndex> = Vec::new();
        let n = self.loaded.len();
        for i in 0..n
            invariant
                self.wf(),
                n == self.loaded@.len(),
                cg == self.spec_index_of(center),
                cx as int == cg.grid_offset.x as int,
                cy as int == cg.grid_offset.y as int,
                r_i == drop_radius,
                fpred == (|g: GridIndex| is_far(g, cg, r_i as int)),
                res@ == self.loaded@.take(i as int).filter(fpred),
        {
            proof {
                crate::grid::lemma_filter_step(
                    self.loaded@.take(i as int),
                    self.loaded@[i as int],
                    fpred,
                );
                assert(self.loaded@.take(i + 1) == self.loaded@.take(i as int).push(
                    self.loaded@[i as int],
                ));
            }
            let gi = self.loaded[i];
            let dx = gi.grid_offset.x as i64 - cx;
            let dy = gi.grid_offset.y as i64 - cy;
            if dx > r_i || dx < -r_i || dy > r_i || dy < -r_i {
                res.push(gi);
            }
        }
        proof {
            assert(self.loaded@.take(n as int) == self.loaded@);
            self.loaded@.filter_lemma(fpred);
            lemma_distinct_filter(self.loaded@, fpred);
            assert forall|j: int|
                0 <= j < res@.len() implies self.spec_has(#[trigger] res@[j]) && is_far(
                res@[j],
                cg,
                r_i as int,
            ) by {
                Seq::lemma_filter_contains_rev(self.loaded@, fpred, res@[j]);
                assert(self.loaded@.contains(res@[j]));
                let m = choose|m: int| 0 <= m < self.loaded@.len() && self.loaded@[m] == res@[j];
                assert(self.spec_has(self.loaded@[m]));
            }
            assert forall|g: GridIndex|
                self.spec_has(g) && is_far(g, cg, r_i as int) implies res@.contains(g) by {
                assert(self.loaded@.contains(g));
                let m = choose|m: int| 0 <= m < self.loaded@.len() && self.loaded@[m] == g;
                assert(fpred(self.loaded@[m]));
            }
        }
        res
    }

    /// Every loaded chunk index, each exactly once.
    pub fn get_loaded_grids(&self) -> (r: Vec<GridIndex>)
        requires
            self.wf(),
        ensures
            forall|j: int| 0 <= j < r@.len() ==> self.spec_has(#[trigger] r@[j]),
            forall|g: GridIndex| #[trigger] self.spec_has(g) ==> r@.contains(g),
            forall|i: int, j: int| 0 <= i < j < r@.len() ==> r@[i] != r@[j],
    {
        let mut r: Vec<GridIndex> = Vec::new();
        let n = self.loaded.len();
        for i in 0..n
            invariant
                n == self.loaded@.len(),
                r@ == self.loaded@.take(i as int),
                self.wf(),
        {
            r.push(self.loaded[i]);
            proof {
                assert(self.loaded@.take(i + 1) == self.loaded@.take(i as int).push(
                    self.loaded@[i as int],
                ));
            }
        }
        proof {
            assert(r@ == self.loaded@);
            assert forall|g: GridIndex| #[trigger] self.spec_has(g) implies r@.contains(g) by {
                assert(self.loaded@.contains(g));
            }
        }
        r
    }
}

} // verus!
