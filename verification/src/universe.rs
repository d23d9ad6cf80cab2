//! The particle store: the lattice-side bookkeeping of the world.
//!
//! Every particle's discrete state — stable index, color, mass, lattice
//! position — lives in an arena keyed by the index; chunked bucket grids
//! hold indices, never owning references. The continuous state (positions
//! between lattice points, velocities, forces) lives with the caller, which
//! drives the per-sub-step pipeline and reports each lattice crossing and
//! each settling decision back here. Mass zero marks a static particle:
//! settled matter that the moving set never contains.

use std::collections::{HashMap, HashSet};
use vstd::prelude::*;

use crate::codec::{decode_chunk, encode_chunk, CellRecord, ChunkEntry, MAX_CHUNK_ENTRIES};
use crate::color::Color;
use crate::grid::GetResult;
use crate::multigrid::{GridIndex, MultiGrid, UniverseGrid};
use crate::v2::V2i;
use crate::CHUNK_SIZE;

verus! {

broadcast use vstd::std_specs::hash::group_hash_axioms, vstd::std_specs::hash::axiom_u64_obeys_hash_table_key_model, vstd::seq_lib::group_seq_properties;

/// The largest mass a particle may carry; the sentinel mass substituted for
/// an immovable particle stays below it.
pub const MAX_MASS: i32 = 10_000_000;

/// Replaces the static-particle sentinel mass by a large finite mass, for
/// collision arithmetic. A negative mass is a programming error and is
/// excluded outright.
pub fn fixup_mass(mass: i32) -> (r: i32)
    requires
        mass >= 0,
    ensures
        r == if mass == 0 {
            MAX_MASS as int
        } else {
            mass as int
        },
{
    if mass == 0 {
        return MAX_MASS;
    }
    mass
}

/// Tick diagnostics, reset when read.
#[derive(Clone, Copy, Debug, PartialEq, Eq, Structural)]
pub struct Stats {
    ticks: usize,
    cells_count: usize,
    collisions_count: usize,
    collision_pairs_tested: usize,
}

impl Stats {
    /// All four counters are zero.
    pub open spec fn spec_is_zero(&self) -> bool {
        &&& self.spec_ticks() == 0
        &&& self.spec_cells_count() == 0
        &&& self.spec_collisions_count() == 0
        &&& self.spec_collision_pairs_tested() == 0
    }

    pub closed spec fn spec_ticks(&self) -> usize {
        self.ticks
    }

    pub closed spec fn spec_cells_count(&self) -> usize {
        self.cells_count
    }

    pub closed spec fn spec_collisions_count(&self) -> usize {
        self.collisions_count
    }

    pub closed spec fn spec_collision_pairs_tested(&self) -> usize {
        self.collision_pairs_tested
    }

    pub fn zero() -> (r: Stats)
        ensures
            r.spec_ticks() == 0,
            r.spec_cells_count() == 0,
            r.spec_collisions_count() == 0,
            r.spec_collision_pairs_tested() == 0,
    {
        Stats { ticks: 0, cells_count: 0, collisions_count: 0, collision_pairs_tested: 0 }
    }

    /// Returns the counters and resets them in the same step.
    pub fn get_and_reset(&mut self) -> (r: Stats)
        ensures
            r == *old(self),
            final(self).spec_ticks() == 0,
            final(self).spec_cells_count() == 0,
            final(self).spec_collisions_count() == 0,
            final(self).spec_collision_pairs_tested() == 0,
    {
        let res = *self;
        *self = Stats::zero();
        res
    }

    pub fn ticks(&self) -> (r: usize)
        ensures
            r == self.spec_ticks(),
    {
        self.ticks
    }

    pub fn cells_count(&self) -> (r: usize)
        ensures
            r == self.spec_cells_count(),
    {
        self.cells_count
    }

    pub fn collisions_count(&self) -> (r: usize)
        ensures
            r == self.spec_collisions_count(),
    {
        self.collisions_count
    }

    pub fn collision_pairs_tested(&self) -> (r: usize)
        ensures
            r == self.spec_collision_pairs_tested(),
    {
        self.collision_pairs_tested
    }
}


/// The smaller of two particle indices.
pub open spec fn min64(a: u64, b: u64) -> u64 {
    if a < b {
        a
    } else {
        b
    }
}

/// The larger of two particle indices.
pub open spec fn max64(a: u64, b: u64) -> u64 {
    if a < b {
        b
    } else {
        a
    }
}

/// The packed dedup key of an ordered pair.
pub open spec fn spec_pair_key(lo: u64, hi: u64) -> u128 {
    (lo * 0x1_0000_0000_0000_0000 + hi) as u128
}

proof fn lemma_pair_key_injective(a1: u64, b1: u64, a2: u64, b2: u64)
    requires
        a1 != a2 || b1 != b2,
    ensures
        spec_pair_key(a1, b1) != spec_pair_key(a2, b2),
{
}

/// Packs an ordered pair into one dedup key.
fn pair_key(lo: u64, hi: u64) -> (r: u128)
    ensures
        r == spec_pair_key(lo, hi),
{
    (lo as u128) * 0x1_0000_0000_0000_0000 + (hi as u128)
}

/// The lattice-side state of one particle.
#[derive(Clone, Copy, Debug, PartialEq, Eq, Structural)]
pub struct CellState {
    pub color: Color,
    pub mass: i32,
    pub pos: V2i,
}

/// A bucket already reporting this many neighbors refuses new particles.
pub const DENSITY_CAP: usize = 6;

/// The chunk streaming radius, in chunks, around the player's chunk.
pub const DROP_RADIUS: usize = 2;

/// Why restoring a chunk from bytes was refused; a refused chunk stays
/// absent and can be regenerated instead.
#[derive(Clone, Copy, Debug, PartialEq, Eq, Structural)]
pub enum LoadError {
    Malformed,
    WrongDimensions,
    IndexExhausted,
}

/// The particle store: the arena of lattice cell states, the chunked bucket
/// grids over their indices, and the set of currently moving particles.
pub struct UniverseCells {
    cells: HashMap<u64, CellState>,
    moving_cells: Vec<u64>,
    grids: MultiGrid<u64>,
    next_cell_index: u64,
    stats: Stats,
}

impl UniverseCells {
    /// The arena: each live particle's lattice state, by stable index.
    pub closed spec fn spec_cells(&self) -> Map<u64, CellState> {
        self.cells@
    }

    /// The indices of the currently moving particles, in insertion order.
    pub closed spec fn spec_moving(&self) -> Seq<u64> {
        self.moving_cells@
    }

    /// The next index to be handed out.
    pub closed spec fn spec_next_index(&self) -> u64 {
        self.next_cell_index
    }

    pub closed spec fn spec_stats(&self) -> Stats {
        self.stats
    }

    /// The whole sparse chunk map, as one value.
    pub closed spec fn spec_grids(&self) -> MultiGrid<u64> {
        self.grids
    }

    /// Whether the chunk named by `g` is loaded.
    pub closed spec fn spec_has_grid(&self, g: GridIndex) -> bool {
        self.grids.spec_has(g)
    }

    /// The loaded chunk named by `g`.
    pub closed spec fn spec_chunk(&self, g: GridIndex) -> UniverseGrid<u64> {
        self.grids.spec_chunk(g)
    }

    /// The chunk index owning a world position.
    pub closed spec fn spec_index_of(&self, pos: V2i) -> GridIndex {
        self.grids.spec_index_of(pos)
    }

    pub closed spec fn wf(&self) -> bool {
        &&& self.grids.wf()
        &&& self.grids.spec_grid_width() == CHUNK_SIZE
        &&& self.grids.spec_grid_height() == CHUNK_SIZE
        &&& forall|i: int, j: int|
            0 <= i < j < self.moving_cells@.len() ==> self.moving_cells@[i]
                != self.moving_cells@[j]
        &&& forall|i: int|
            0 <= i < self.moving_cells@.len() ==> self.cells@.contains_key(
                #[trigger] self.moving_cells@[i],
            ) && self.cells@[self.moving_cells@[i]].mass > 0
        &&& forall|id: u64| #[trigger]
            self.cells@.contains_key(id) ==> id < self.next_cell_index
                && self.cells@[id].mass >= 0
    }

    /// The arena and moving-set clauses of `wf` carry over unchanged fields.
    proof fn lemma_wf_carry(self, prev: Self)
        requires
            prev.wf(),
            self.grids.wf(),
            self.grids.spec_grid_width() == CHUNK_SIZE,
            self.grids.spec_grid_height() == CHUNK_SIZE,
            self.cells@ == prev.cells@,
            self.moving_cells@ == prev.moving_cells@,
            self.next_cell_index == prev.next_cell_index,
        ensures
            self.wf(),
    {
        assert forall|id: u64| self.cells@.contains_key(id) implies id < self.next_cell_index && (
        #[trigger] self.cells@[id]).mass >= 0 by {
            assert(prev.cells@.contains_key(id));
            assert(prev.cells@[id] == self.cells@[id]);
        }
        assert forall|i: int| 0 <= i < self.moving_cells@.len() implies self.cells@.contains_key(
            #[trigger] self.moving_cells@[i],
        ) && self.cells@[self.moving_cells@[i]].mass > 0 by {
            assert(prev.moving_cells@[i] == self.moving_cells@[i]);
            assert(prev.cells@.contains_key(prev.moving_cells@[i]));
        }
    }

    pub fn new() -> (r: UniverseCells)
        ensures
            r.wf(),
            r.spec_cells() == Map::<u64, CellState>::empty(),
            r.spec_moving() == Seq::<u64>::empty(),
            r.spec_next_index() == 0,
            r.spec_stats().spec_is_zero(),
            forall|g: GridIndex| !r.spec_has_grid(g),
    {
        UniverseCells {
            cells: HashMap::new(),
            moving_cells: Vec::new(),
            grids: MultiGrid::new(CHUNK_SIZE, CHUNK_SIZE),
            next_cell_index: 0,
            stats: Stats::zero(),
        }
    }

    /// Whether the chunk named by `grid_index` is loaded.
    pub fn has_grid(&self, grid_index: GridIndex) -> (r: bool)
        requires
            self.wf(),
        ensures
            r == self.spec_has_grid(grid_index),
    {
        self.grids.contains(grid_index)
    }

    /// The chunk index owning a world position.
    pub fn pos_to_index(&self, pos: V2i) -> (r: GridIndex)
        requires
            self.wf(),
        ensures
            r == self.spec_index_of(pos),
    {
        self.grids.pos_to_index(pos)
    }

    /// Installs a fresh, empty chunk at `grid_index`; a no-op if one is
    /// already loaded.
    pub fn create_empty_grid(&mut self, grid_index: GridIndex)
        requires
            old(self).wf(),
            i32::MIN <= grid_index.grid_offset.x * CHUNK_SIZE,
            grid_index.grid_offset.x * CHUNK_SIZE + CHUNK_SIZE <= i32::MAX + 1,
            i32::MIN <= grid_index.grid_offset.y * CHUNK_SIZE,
            grid_index.grid_offset.y * CHUNK_SIZE + CHUNK_SIZE <= i32::MAX + 1,
        ensures
            final(self).wf(),
            final(self).spec_has_grid(grid_index),
            old(self).spec_has_grid(grid_index) ==> final(self).spec_chunk(grid_index) == old(self).spec_chunk(grid_index),
            !old(self).spec_has_grid(grid_index) ==> forall|pos: V2i|
                final(self).spec_chunk(grid_index).spec_in_bounds(pos)
                    ==> (#[trigger] final(self).spec_chunk(grid_index).occupants_at(pos))
                    == Seq::<u64>::empty() && final(self).spec_chunk(grid_index).neighbors_at(pos)
                    == Seq::<u64>::empty(),
            forall|g: GridIndex|
                g != grid_index ==> #[trigger] final(self).spec_has_grid(g) == old(self).spec_has_grid(g),
            forall|g: GridIndex|
                g != grid_index && old(self).spec_has_grid(g) ==> #[trigger] final(self).spec_chunk(g) == old(self).spec_chunk(g),
            final(self).spec_cells() == old(self).spec_cells(),
            final(self).spec_moving() == old(self).spec_moving(),
            final(self).spec_next_index() == old(self).spec_next_index(),
            final(self).spec_stats() == old(self).spec_stats(),
    {
        if self.grids.contains(grid_index) {
            return ;
        }
        let grid = UniverseGrid::new(grid_index, CHUNK_SIZE, CHUNK_SIZE);
        self.grids.insert(grid_index, grid);
        proof {
            self.lemma_wf_carry(*old(self));
        }
    }

    /// Adds one immovable wall particle at `pos`, as terrain generation
    /// does: no density cap applies and the particle never joins the moving
    /// set. The chunk owning `pos` must be loaded and the index space not
    /// exhausted.
    pub fn add_wall(&mut self, pos: V2i, color: Color) -> (r: u64)
        requires
            old(self).wf(),
            old(self).spec_has_grid(old(self).spec_index_of(pos)),
            old(self).spec_next_index() < u64::MAX,
        ensures
            final(self).wf(),
            r == old(self).spec_next_index(),
            final(self).spec_next_index() == old(self).spec_next_index() + 1,
            final(self).spec_cells() == old(self).spec_cells().insert(
                r,
                CellState { color, mass: 0, pos },
            ),
            final(self).spec_moving() == old(self).spec_moving(),
            final(self).spec_stats() == old(self).spec_stats(),
            forall|g: GridIndex| final(self).spec_has_grid(g) == old(self).spec_has_grid(g),
            forall|g: GridIndex|
                g != old(self).spec_index_of(pos) && old(self).spec_has_grid(g)
                    ==> #[trigger] final(self).spec_chunk(g) == old(self).spec_chunk(g),
            final(self).spec_chunk(old(self).spec_index_of(pos)).occupants_at(pos) == old(self).spec_chunk(old(self).spec_index_of(pos)).occupants_at(pos).push(r),
    {
        let id = self.next_cell_index;
        self.next_cell_index = self.next_cell_index + 1;
        self.cells.insert(id, CellState { color, mass: 0, pos });
        let placed = self.grids.put_at(pos, id);
        proof {
            assert(placed);
        }
        id
    }

    /// Adds one moving particle at `pos`, if the world accepts it: the
    /// particle is refused when the target bucket already reports
    /// `DENSITY_CAP` neighbors or more, and when the index space is
    /// exhausted. On
    /// success the new particle enters the arena, the bucket grid and the
    /// moving set.
    pub fn add_cell(&mut self, pos: V2i, color: Color, mass: i32) -> (r: Option<u64>)
        requires
            old(self).wf(),
            old(self).spec_has_grid(old(self).spec_index_of(pos)),
            mass > 0,
        ensures
            final(self).wf(),
            r is Some <==> (old(self).spec_chunk(old(self).spec_index_of(pos)).neighbors_at(
                pos,
            ).len() < DENSITY_CAP && old(self).spec_next_index() < u64::MAX),
            r is None ==> *final(self) == *old(self),
            r matches Some(id) ==> {
                &&& id == old(self).spec_next_index()
                &&& final(self).spec_next_index() == old(self).spec_next_index() + 1
                &&& final(self).spec_cells() == old(self).spec_cells().insert(
                    id,
                    CellState { color, mass, pos },
                )
                &&& final(self).spec_moving() == old(self).spec_moving().push(id)
                &&& final(self).spec_stats().spec_cells_count() == old(self).spec_stats().spec_cells_count() + if old(self).spec_stats().spec_cells_count()
                    < usize::MAX {
                    1int
                } else {
                    0int
                }
                &&& final(self).spec_chunk(old(self).spec_index_of(pos)).occupants_at(pos) == old(self).spec_chunk(old(self).spec_index_of(pos)).occupants_at(pos).push(id)
                &&& forall|g: GridIndex|
                    final(self).spec_has_grid(g) == old(self).spec_has_grid(g)
                &&& forall|g: GridIndex|
                    g != old(self).spec_index_of(pos) && old(self).spec_has_grid(g)
                        ==> #[trigger] final(self).spec_chunk(g) == old(self).spec_chunk(g)
            },
    {
        let bucket = match self.grids.get_at(pos) {
            Some(b) => b,
            None => {
                proof {
                    assert(false);
                }
                return None;
            },
        };
        if bucket.neighbors.len() >= DENSITY_CAP {
            return None;
        }
        if self.next_cell_index == u64::MAX {
            return None;
        }
        let id = self.next_cell_index;
        self.next_cell_index = self.next_cell_index + 1;
        self.cells.insert(id, CellState { color, mass, pos });
        let ghost pre_moving = self.moving_cells@;
        self.moving_cells.push(id);
        self.stats.bump_cells_count();
        let placed = self.grids.put_at(pos, id);
        proof {
            assert(placed);
            assert forall|i: int, j: int|
                0 <= i < j < self.moving_cells@.len() implies self.moving_cells@[i]
                != self.moving_cells@[j] by {
                if j == self.moving_cells@.len() - 1 {
                    assert(old(self).cells@.contains_key(pre_moving[i]));
                }
            }
        }
        Some(id)
    }


    /// Finds the position of an index in the moving list, if present.
    fn find_moving(&self, id: u64) -> (r: Option<usize>)
        ensures
            match r {
                Some(i) => i < self.spec_moving().len() && self.spec_moving()[i as int] == id,
                None => !self.spec_moving().contains(id),
            },
    {
        let n = self.moving_cells.len();
        for i in 0..n
            invariant
                n == self.moving_cells@.len(),
                forall|j: int| 0 <= j < i ==> self.moving_cells@[j] != id,
        {
            if self.moving_cells[i] == id {
                return Some(i);
            }
        }
        None
    }

    /// Snaps a particle to the permanent terrain: its mass becomes the
    /// static sentinel zero and it leaves the moving set. Its lattice
    /// position and color are kept; the caller zeroes the continuous state.
    pub fn set_static(&mut self, id: u64)
        requires
            old(self).wf(),
            old(self).spec_cells().contains_key(id),
        ensures
            final(self).wf(),
            final(self).spec_cells() == old(self).spec_cells().insert(
                id,
                CellState {
                    color: old(self).spec_cells()[id].color,
                    mass: 0,
                    pos: old(self).spec_cells()[id].pos,
                },
            ),
            final(self).spec_moving().to_set() == old(self).spec_moving().to_set().remove(id),
            !final(self).spec_moving().contains(id),
            final(self).spec_next_index() == old(self).spec_next_index(),
            final(self).spec_stats() == old(self).spec_stats(),
            final(self).spec_grids() == old(self).spec_grids(),
            forall|g: GridIndex| final(self).spec_has_grid(g) == old(self).spec_has_grid(g),
            forall|g: GridIndex|
                old(self).spec_has_grid(g) ==> #[trigger] final(self).spec_chunk(g) == old(self).spec_chunk(g),
    {
        let state = *self.cells.get(&id).unwrap();
        self.cells.insert(id, CellState { color: state.color, mass: 0, pos: state.pos });
        let ghost pre = self.moving_cells@;
        match self.find_moving(id) {
            Some(i) => {
                self.moving_cells.remove(i);
                proof {
                    assert forall|m: u64| #[trigger] self.moving_cells@.contains(m) implies pre.contains(
                        m,
                    ) && m != id by {
                        let j = choose|j: int|
                            0 <= j < self.moving_cells@.len() && self.moving_cells@[j] == m;
                        if j < i {
                            assert(pre[j] == m);
                        } else {
                            assert(pre[j + 1] == m);
                        }
                    }
                    assert forall|m: u64|
                        pre.contains(m) && m != id implies self.moving_cells@.contains(m) by {
                        let j = choose|j: int| 0 <= j < pre.len() && pre[j] == m;
                        if j < i {
                            assert(self.moving_cells@[j] == m);
                        } else {
                            assert(j != i);
                            assert(self.moving_cells@[j - 1] == m);
                        }
                    }
                    assert forall|i1: int, j1: int|
                        0 <= i1 < j1 < self.moving_cells@.len() implies self.moving_cells@[i1]
                        != self.moving_cells@[j1] by {
                        let a = if i1 < i { i1 } else { i1 + 1 };
                        let b = if j1 < i { j1 } else { j1 + 1 };
                        assert(self.moving_cells@[i1] == pre[a] && self.moving_cells@[j1]
                            == pre[b]);
                    }
                    assert(self.moving_cells@.to_set() =~= pre.to_set().remove(id));
                }
            },
            None => {
                proof {
                    assert(self.moving_cells@.to_set() =~= pre.to_set().remove(id));
                }
            },
        }
        proof {
            assert forall|i: int|
                0 <= i < self.moving_cells@.len() implies self.cells@.contains_key(
                #[trigger] self.moving_cells@[i],
            ) && self.cells@[self.moving_cells@[i]].mass > 0 by {
                assert(self.moving_cells@.contains(self.moving_cells@[i]));
                assert(pre.contains(self.moving_cells@[i]));
                let j = choose|j: int| 0 <= j < pre.len() && pre[j] == self.moving_cells@[i];
                assert(old(self).cells@.contains_key(pre[j]));
            }
        }
    }

    /// Restores a settled particle to the simulation with unit mass; the
    /// caller gives it a velocity. The particle must currently be static.
    pub fn unset_static(&mut self, id: u64)
        requires
            old(self).wf(),
            old(self).spec_cells().contains_key(id),
            old(self).spec_cells()[id].mass == 0,
        ensures
            final(self).wf(),
            final(self).spec_cells() == old(self).spec_cells().insert(
                id,
                CellState {
                    color: old(self).spec_cells()[id].color,
                    mass: 1,
                    pos: old(self).spec_cells()[id].pos,
                },
            ),
            final(self).spec_moving() == old(self).spec_moving().push(id),
            final(self).spec_next_index() == old(self).spec_next_index(),
            final(self).spec_stats() == old(self).spec_stats(),
            final(self).spec_grids() == old(self).spec_grids(),
            forall|g: GridIndex| final(self).spec_has_grid(g) == old(self).spec_has_grid(g),
            forall|g: GridIndex|
                old(self).spec_has_grid(g) ==> #[trigger] final(self).spec_chunk(g) == old(self).spec_chunk(g),
    {
        let state = *self.cells.get(&id).unwrap();
        self.cells.insert(id, CellState { color: state.color, mass: 1, pos: state.pos });
        let ghost pre = self.moving_cells@;
        self.moving_cells.push(id);
        proof {
            assert forall|i1: int, j1: int|
                0 <= i1 < j1 < self.moving_cells@.len() implies self.moving_cells@[i1]
                != self.moving_cells@[j1] by {
                if j1 == self.moving_cells@.len() - 1 {
                    assert(old(self).cells@.contains_key(pre[i1]));
                    assert(old(self).cells@[pre[i1]].mass > 0);
                }
            }
            assert forall|i: int|
                0 <= i < self.moving_cells@.len() implies self.cells@.contains_key(
                #[trigger] self.moving_cells@[i],
            ) && self.cells@[self.moving_cells@[i]].mass > 0 by {
                if i < pre.len() {
                    assert(old(self).cells@.contains_key(pre[i]));
                }
            }
        }
    }

    /// Records a particle's move from one lattice cell to another: its
    /// arena position is updated and, where the owning chunks are loaded,
    /// its bucket membership follows. Equal positions are a no-op for the
    /// grids.
    pub fn update_cell_pos(&mut self, id: u64, old_pos: V2i, new_pos: V2i)
        requires
            old(self).wf(),
            old(self).spec_cells().contains_key(id),
            old(self).spec_cells()[id].pos == old_pos,
        ensures
            final(self).wf(),
            final(self).spec_cells() == old(self).spec_cells().insert(
                id,
                CellState {
                    color: old(self).spec_cells()[id].color,
                    mass: old(self).spec_cells()[id].mass,
                    pos: new_pos,
                },
            ),
            final(self).spec_moving() == old(self).spec_moving(),
            final(self).spec_next_index() == old(self).spec_next_index(),
            final(self).spec_stats() == old(self).spec_stats(),
            forall|g: GridIndex| final(self).spec_has_grid(g) == old(self).spec_has_grid(g),
            old_pos == new_pos ==> forall|g: GridIndex|
                old(self).spec_has_grid(g) ==> #[trigger] final(self).spec_chunk(g) == old(self).spec_chunk(g),
            forall|g: GridIndex|
                old(self).spec_has_grid(g) ==> {
                    let before = old(self).spec_chunk(g);
                    let after = #[trigger] final(self).spec_chunk(g);
                    &&& after.width == before.width
                    &&& after.height == before.height
                    &&& after.spec_offset() == before.spec_offset()
                },
            old_pos != new_pos ==> forall|g: GridIndex, q: V2i|
                old(self).spec_has_grid(g) && (#[trigger] old(self).spec_chunk(g).spec_in_bounds(
                    q,
                )) ==> {
                    let before = old(self).spec_chunk(g);
                    let after = final(self).spec_chunk(g);
                    let go = old(self).spec_index_of(old_pos);
                    let gn = old(self).spec_index_of(new_pos);
                    &&& after.occupants_at(q) == crate::multigrid::seq_moved(
                        before.occupants_at(q),
                        q == old_pos,
                        q == new_pos,
                        id,
                    )
                    &&& after.neighbors_at(q) == crate::multigrid::seq_moved(
                        before.neighbors_at(q),
                        crate::multigrid::near_world(q, old_pos) && g == go,
                        crate::multigrid::near_world(q, new_pos) && g == gn,
                        id,
                    )
                },
    {
        let state = *self.cells.get(&id).unwrap();
        self.cells.insert(id, CellState { color: state.color, mass: state.mass, pos: new_pos });
        self.grids.update_cell_pos(id, old_pos, new_pos);
        proof {
            if old_pos == new_pos {
                assert(self.cells@ =~= old(self).cells@.insert(
                    id,
                    CellState { color: state.color, mass: state.mass, pos: new_pos },
                ));
            }
            assert forall|i: int|
                0 <= i < self.moving_cells@.len() implies self.cells@.contains_key(
                #[trigger] self.moving_cells@[i],
            ) && self.cells@[self.moving_cells@[i]].mass > 0 by {
                assert(old(self).cells@.contains_key(old(self).moving_cells@[i]));
            }
        }
    }


    /// Removes an index from the moving list, if present.
    fn remove_from_moving(&mut self, id: u64)
        requires
            forall|i: int, j: int|
                0 <= i < j < old(self).spec_moving().len() ==> old(self).spec_moving()[i] != old(self).spec_moving()[j],
        ensures
            final(self).spec_moving().to_set() == old(self).spec_moving().to_set().remove(id),
            !final(self).spec_moving().contains(id),
            forall|i: int, j: int|
                0 <= i < j < final(self).spec_moving().len() ==> final(self).spec_moving()[i]
                    != final(self).spec_moving()[j],
            forall|m: u64|
                #[trigger] final(self).spec_moving().contains(m) ==> old(self).spec_moving().contains(m),
            final(self).spec_cells() == old(self).spec_cells(),
            final(self).spec_next_index() == old(self).spec_next_index(),
            final(self).spec_stats() == old(self).spec_stats(),
            final(self).grids == old(self).grids,
    {
        let ghost pre = self.moving_cells@;
        match self.find_moving(id) {
            Some(i) => {
                self.moving_cells.remove(i);
                proof {
                    assert forall|m: u64| #[trigger] self.moving_cells@.contains(m) implies pre.contains(
                        m,
                    ) && m != id by {
                        let j = choose|j: int|
                            0 <= j < self.moving_cells@.len() && self.moving_cells@[j] == m;
                        if j < i {
                            assert(pre[j] == m);
                        } else {
                            assert(pre[j + 1] == m);
                        }
                    }
                    assert forall|m: u64|
                        pre.contains(m) && m != id implies self.moving_cells@.contains(m) by {
                        let j = choose|j: int| 0 <= j < pre.len() && pre[j] == m;
                        if j < i {
                            assert(self.moving_cells@[j] == m);
                        } else {
                            assert(j != i);
                            assert(self.moving_cells@[j - 1] == m);
                        }
                    }
                    assert forall|i1: int, j1: int|
                        0 <= i1 < j1 < self.moving_cells@.len() implies self.moving_cells@[i1]
                        != self.moving_cells@[j1] by {
                        let a = if i1 < i { i1 } else { i1 + 1 };
                        let b = if j1 < i { j1 } else { j1 + 1 };
                        assert(self.moving_cells@[i1] == pre[a] && self.moving_cells@[j1]
                            == pre[b]);
                    }
                    assert(self.moving_cells@.to_set() =~= pre.to_set().remove(id));
                }
            },
            None => {
                proof {
                    assert(self.moving_cells@.to_set() =~= pre.to_set().remove(id));
                }
            },
        }
    }

    /// Deletes every particle occupying the lattice cell `ppos`: each leaves
    /// the arena, the moving set, and the chunk's buckets. A cell in an
    /// unloaded chunk holds nothing, so nothing changes there.
    #[verifier::rlimit(100)]
    pub fn remove_cell(&mut self, ppos: V2i)
        requires
            old(self).wf(),
        ensures
            final(self).wf(),
            final(self).spec_next_index() == old(self).spec_next_index(),
            final(self).spec_stats() == old(self).spec_stats(),
            forall|g: GridIndex| final(self).spec_has_grid(g) == old(self).spec_has_grid(g),
            !old(self).spec_has_grid(old(self).spec_index_of(ppos)) ==> final(self).spec_cells()
                == old(self).spec_cells() && final(self).spec_moving() == old(self).spec_moving()
                && (forall|g: GridIndex|
                old(self).spec_has_grid(g) ==> #[trigger] final(self).spec_chunk(g) == old(self).spec_chunk(g)),
            old(self).spec_has_grid(old(self).spec_index_of(ppos)) ==> {
                let go = old(self).spec_index_of(ppos);
                let removed = old(self).spec_chunk(go).occupants_at(ppos);
                let before = old(self).spec_chunk(go);
                let after = final(self).spec_chunk(go);
                &&& forall|id: u64|
                    final(self).spec_cells().contains_key(id) <==> old(self).spec_cells().contains_key(id) && !removed.contains(id)
                &&& forall|id: u64|
                    #[trigger] final(self).spec_cells().contains_key(id) ==> final(self).spec_cells()[id] == old(self).spec_cells()[id]
                &&& forall|id: u64|
                    #[trigger] final(self).spec_moving().contains(id) <==> old(self).spec_moving().contains(id) && !removed.contains(id)
                &&& after.occupants_at(ppos) == Seq::<u64>::empty()
                &&& forall|q: V2i|
                    before.spec_in_bounds(q) && q != ppos ==> after.occupants_at(q)
                        == before.occupants_at(q)
                &&& forall|q: V2i|
                    before.spec_in_bounds(q) && crate::multigrid::near_world(q, ppos)
                        ==> after.neighbors_at(q) == before.neighbors_at(q).filter(
                        |t: u64| !removed.contains(t),
                    )
                &&& forall|q: V2i|
                    before.spec_in_bounds(q) && !crate::multigrid::near_world(q, ppos)
                        ==> after.neighbors_at(q) == before.neighbors_at(q)
                &&& forall|g: GridIndex|
                    g != go && old(self).spec_has_grid(g) ==> #[trigger] final(self).spec_chunk(g)
                        == old(self).spec_chunk(g)
            },
    {
        let bucket = match self.grids.get_at(ppos) {
            Some(b) => b,
            None => {
                return ;
            },
        };
        let ids = bucket.value;
        let ghost removed = ids@;
        let ghost go = old(self).spec_index_of(ppos);
        let ghost before = old(self).spec_chunk(go);
        proof {
            let p0 = |t: u64| !removed.take(0).contains(t);
            crate::grid::lemma_filter_all(before.occupants_at(ppos), p0);
            assert forall|q: V2i|
                before.spec_in_bounds(q) && crate::multigrid::near_world(q, ppos)
                    implies before.neighbors_at(q).filter(p0) == before.neighbors_at(q) by {
                crate::grid::lemma_filter_all(before.neighbors_at(q), p0);
            }
        }
        let n = ids.len();
        for k in 0..n
            invariant
                n == removed.len(),
                ids@ == removed,
                self.wf(),
                self.spec_next_index() == old(self).spec_next_index(),
                self.spec_stats() == old(self).spec_stats(),
                go == old(self).spec_index_of(ppos),
                go == self.spec_index_of(ppos),
                before == old(self).spec_chunk(go),
                old(self).spec_has_grid(go),
                forall|g: GridIndex| self.spec_has_grid(g) == old(self).spec_has_grid(g),
                forall|id: u64|
                    self.spec_cells().contains_key(id) <==> old(self).spec_cells().contains_key(id)
                        && !removed.take(k as int).contains(id),
                forall|id: u64|
                    #[trigger] self.spec_cells().contains_key(id) ==> self.spec_cells()[id] == old(self).spec_cells()[id],
                forall|id: u64|
                    #[trigger] self.spec_moving().contains(id) <==> old(self).spec_moving().contains(id) && !removed.take(k as int).contains(id),
                self.spec_chunk(go).width == before.width,
                self.spec_chunk(go).height == before.height,
                self.spec_chunk(go).spec_offset() == before.spec_offset(),
                self.spec_chunk(go).occupants_at(ppos) == before.occupants_at(ppos).filter(
                    |t: u64| !removed.take(k as int).contains(t),
                ),
                forall|q: V2i|
                    before.spec_in_bounds(q) && q != ppos ==> self.spec_chunk(go).occupants_at(q)
                        == before.occupants_at(q),
                forall|q: V2i|
                    before.spec_in_bounds(q) && crate::multigrid::near_world(q, ppos)
                        ==> self.spec_chunk(go).neighbors_at(q) == before.neighbors_at(q).filter(
                        |t: u64| !removed.take(k as int).contains(t),
                    ),
                forall|q: V2i|
                    before.spec_in_bounds(q) && !crate::multigrid::near_world(q, ppos)
                        ==> self.spec_chunk(go).neighbors_at(q) == before.neighbors_at(q),
                forall|g: GridIndex|
                    g != go && old(self).spec_has_grid(g) ==> #[trigger] self.spec_chunk(g) == old(self).spec_chunk(g),
                removed == before.occupants_at(ppos),
        {
            let id = ids[k];
            let ghost mid = *self;
            let was_present = self.grids.remove_at(ppos, id);
            proof {
                assert(was_present);
            }
            self.cells.remove(&id);
            self.remove_from_moving(id);
            proof {
                let p_old = |t: u64| !removed.take(k as int).contains(t);
                let p_id = |t: u64| t != id;
                let p_new = |t: u64| !removed.take(k + 1).contains(t);
                assert(removed.take(k + 1) == removed.take(k as int).push(id));
                assert forall|t: u64|
                    #![trigger removed.take(k + 1).contains(t)]
                    p_new(t) == (p_old(t) && p_id(t)) by {
                    if removed.take(k + 1).contains(t) {
                        let j = choose|j: int|
                            0 <= j < removed.take(k + 1).len() && (#[trigger] removed.take(
                                k + 1,
                            )[j]) == t;
                        if j < k {
                            assert(removed.take(k as int)[j] == t);
                        }
                    } else {
                        assert(!removed.take(k as int).contains(t)) by {
                            if removed.take(k as int).contains(t) {
                                let j = choose|j: int|
                                    0 <= j < k && (#[trigger] removed.take(k as int)[j]) == t;
                                assert(removed.take(k + 1)[j] == t);
                            }
                        }
                        assert(removed.take(k + 1)[k as int] == id);
                    }
                }
                assert(p_new =~= (|t: u64| p_old(t) && p_id(t)));
                assert(go == mid.grids.spec_index_of(ppos));
                assert(mid.spec_chunk(go).occupants_at(ppos) == before.occupants_at(ppos).filter(
                    p_old,
                ));
                assert(self.spec_chunk(go).occupants_at(ppos) == crate::multigrid::seq_without(
                    mid.spec_chunk(go).occupants_at(ppos),
                    id,
                ));
                crate::multigrid::lemma_filter_eq_without(
                    mid.spec_chunk(go).occupants_at(ppos),
                    p_id,
                    id,
                );
                crate::grid::lemma_filter_compose(before.occupants_at(ppos), p_old, p_id);
                assert(self.spec_chunk(go).occupants_at(ppos) == before.occupants_at(ppos).filter(
                    p_new,
                ));
                assert forall|q: V2i|
                    before.spec_in_bounds(q) && crate::multigrid::near_world(q, ppos)
                        implies self.spec_chunk(go).neighbors_at(q) == before.neighbors_at(
                    q,
                ).filter(p_new) by {
                    assert(mid.spec_chunk(go).spec_in_bounds(q));
                    assert(mid.spec_chunk(go).neighbors_at(q) == before.neighbors_at(q).filter(
                        p_old,
                    ));
                    assert(self.spec_chunk(go).neighbors_at(q) == crate::multigrid::seq_without(
                        mid.spec_chunk(go).neighbors_at(q),
                        id,
                    ));
                    crate::multigrid::lemma_filter_eq_without(
                        mid.spec_chunk(go).neighbors_at(q),
                        p_id,
                        id,
                    );
                    crate::grid::lemma_filter_compose(before.neighbors_at(q), p_old, p_id);
                }
                assert forall|i: int|
                    0 <= i < self.moving_cells@.len() implies self.cells@.contains_key(
                    #[trigger] self.moving_cells@[i],
                ) && self.cells@[self.moving_cells@[i]].mass > 0 by {
                    assert(self.spec_moving().contains(self.moving_cells@[i]));
                    assert(mid.spec_moving().contains(self.moving_cells@[i]));
                    assert(old(self).spec_moving().contains(self.moving_cells@[i]));
                    assert(self.moving_cells@[i] != id);
                }
                assert forall|id2: u64|
                    self.spec_cells().contains_key(id2) <==> (old(self).spec_cells().contains_key(id2) && !removed.take(k + 1).contains(id2)) by {
                    assert(p_new(id2) == (p_old(id2) && p_id(id2)));
                    if self.spec_cells().contains_key(id2) {
                        assert(mid.spec_cells().contains_key(id2));
                        assert(id2 != id);
                    }
                    if old(self).spec_cells().contains_key(id2) && !removed.take(k + 1).contains(
                        id2,
                    ) {
                        assert(mid.spec_cells().contains_key(id2));
                        assert(id2 != id);
                    }
                }
                assert forall|id2: u64|
                    #[trigger] self.spec_cells().contains_key(id2) implies self.spec_cells()[id2]
                    == old(self).spec_cells()[id2] by {
                    assert(mid.spec_cells().contains_key(id2));
                    assert(self.spec_cells()[id2] == mid.spec_cells()[id2]);
                }
                assert forall|m2: u64|
                    self.spec_moving().contains(m2) <==> (old(self).spec_moving().contains(m2)
                        && !removed.take(k + 1).contains(m2)) by {
                    assert(p_new(m2) == (p_old(m2) && p_id(m2)));
                    if self.spec_moving().contains(m2) {
                        assert(self.spec_moving().to_set().contains(m2));
                        assert(mid.spec_moving().to_set().contains(m2) && m2 != id);
                        assert(mid.spec_moving().contains(m2));
                    }
                    if old(self).spec_moving().contains(m2) && !removed.take(k + 1).contains(m2) {
                        assert(mid.spec_moving().contains(m2));
                        assert(mid.spec_moving().to_set().contains(m2));
                        assert(m2 != id);
                        assert(self.spec_moving().to_set().contains(m2));
                    }
                }
                assert forall|g: GridIndex|
                    g != go && old(self).spec_has_grid(g) implies #[trigger] self.spec_chunk(g)
                    == old(self).spec_chunk(g) by {
                    assert(mid.spec_index_of(ppos) == go);
                    assert(mid.spec_chunk(g) == old(self).spec_chunk(g));
                }
            }
        }
        proof {
            assert(removed.take(n as int) == removed);
            let p_all = |t: u64| !removed.contains(t);
            assert forall|i: int| 0 <= i < removed.len() implies !p_all(#[trigger] removed[i]) by {
                assert(removed.contains(removed[i]));
            }
            crate::grid::lemma_filter_none(removed, p_all);
        }
    }

    /// Whether `id` is a settled particle the unstick scan must revive:
    /// `q` lies in the square scan window around `center`, its chunk is
    /// loaded, the bucket at `q` reports `id` in its neighbor list, and the
    /// arena holds `id` with the static sentinel mass.
    pub open spec fn spec_scanned_static(
        &self,
        center: V2i,
        radius: int,
        q: V2i,
        id: u64,
    ) -> bool {
        &&& center.x - radius <= q.x
        &&& (q.x as int) < center.x + radius
        &&& center.y - radius <= q.y
        &&& (q.y as int) < center.y + radius
        &&& self.spec_has_grid(self.spec_index_of(q))
        &&& self.spec_chunk(self.spec_index_of(q)).neighbors_at(q).contains(id)
        &&& self.spec_cells().contains_key(id)
        &&& self.spec_cells()[id].mass == 0
    }

    /// Whether some scanned bucket of the unstick window reaches `id`.
    pub open spec fn spec_from_scan(&self, center: V2i, radius: int, id: u64) -> bool {
        exists|q: V2i| self.spec_scanned_static(center, radius, q, id)
    }

    /// Clears the static flag of every settled particle within a square
    /// radius of `center` whose chunk is loaded: each regains unit mass and
    /// re-enters the moving set; the caller gives each a velocity biased
    /// away from the center. Returns exactly the indices revived, each once:
    /// every settled particle the scan window reaches is in the result, and
    /// nothing else is.
    pub fn unstick_cells(&mut self, center: V2i, radius: usize) -> (r: Vec<u64>)
        requires
            old(self).wf(),
            radius <= 0x1000,
            i32::MIN + 0x1000 <= center.x as int,
            center.x as int <= i32::MAX - 0x1000,
            i32::MIN + 0x1000 <= center.y as int,
            center.y as int <= i32::MAX - 0x1000,
        ensures
            final(self).wf(),
            forall|i: int, j: int| 0 <= i < j < r@.len() ==> r@[i] != r@[j],
            forall|k: int|
                0 <= k < r@.len() ==> old(self).spec_cells().contains_key(#[trigger] r@[k]) && old(self).spec_cells()[r@[k]].mass == 0,
            forall|k: int|
                0 <= k < r@.len() ==> old(self).spec_from_scan(
                    center,
                    radius as int,
                    #[trigger] r@[k],
                ),
            forall|q: V2i, id: u64|
                old(self).spec_scanned_static(center, radius as int, q, id) ==> r@.contains(id),
            forall|id: u64|
                final(self).spec_cells().contains_key(id) == old(self).spec_cells().contains_key(
                    id,
                ),
            forall|id: u64|
                old(self).spec_cells().contains_key(id) && !r@.contains(id)
                    ==> #[trigger] final(self).spec_cells()[id] == old(self).spec_cells()[id],
            forall|k: int|
                0 <= k < r@.len() ==> #[trigger] final(self).spec_cells()[r@[k]] == (CellState {
                    color: old(self).spec_cells()[r@[k]].color,
                    mass: 1,
                    pos: old(self).spec_cells()[r@[k]].pos,
                }),
            final(self).spec_moving() == old(self).spec_moving() + r@,
            final(self).spec_next_index() == old(self).spec_next_index(),
            final(self).spec_stats() == old(self).spec_stats(),
            forall|g: GridIndex| final(self).spec_has_grid(g) == old(self).spec_has_grid(g),
            forall|g: GridIndex|
                old(self).spec_has_grid(g) ==> #[trigger] final(self).spec_chunk(g) == old(self).spec_chunk(g),
    {
        let mut res: Vec<u64> = Vec::new();
        let r_i = radius as i32;
        let mut i = -r_i;
        while i < r_i
            invariant
                -r_i <= i <= r_i,
                r_i == radius,
                radius <= 0x1000,
                i32::MIN + 0x1000 <= center.x as int,
                center.x as int <= i32::MAX - 0x1000,
                i32::MIN + 0x1000 <= center.y as int,
                center.y as int <= i32::MAX - 0x1000,
                self.wf(),
                self.grids == old(self).grids,
                forall|i1: int, j1: int| 0 <= i1 < j1 < res@.len() ==> res@[i1] != res@[j1],
                forall|k: int|
                    0 <= k < res@.len() ==> old(self).spec_cells().contains_key(#[trigger] res@[k])
                        && old(self).spec_cells()[res@[k]].mass == 0,
                forall|k: int|
                    0 <= k < res@.len() ==> old(self).spec_from_scan(
                        center,
                        radius as int,
                        #[trigger] res@[k],
                    ),
                forall|q: V2i, id: u64|
                    old(self).spec_scanned_static(center, radius as int, q, id) && (q.x as int)
                        < center.x + i ==> res@.contains(id),
                forall|id: u64|
                    self.spec_cells().contains_key(id) == old(self).spec_cells().contains_key(id),
                forall|id: u64|
                    old(self).spec_cells().contains_key(id) && !res@.contains(id)
                        ==> #[trigger] self.spec_cells()[id] == old(self).spec_cells()[id],
                forall|k: int|
                    0 <= k < res@.len() ==> #[trigger] self.spec_cells()[res@[k]] == (CellState {
                        color: old(self).spec_cells()[res@[k]].color,
                        mass: 1,
                        pos: old(self).spec_cells()[res@[k]].pos,
                    }),
                self.spec_moving() == old(self).spec_moving() + res@,
                self.spec_next_index() == old(self).spec_next_index(),
                self.spec_stats() == old(self).spec_stats(),
                forall|g: GridIndex| self.spec_has_grid(g) == old(self).spec_has_grid(g),
                forall|g: GridIndex|
                    old(self).spec_has_grid(g) ==> #[trigger] self.spec_chunk(g) == old(self).spec_chunk(g),
            decreases r_i - i,
        {
            let mut j = -r_i;
            while j < r_i
                invariant
                    -r_i <= i < r_i,
                    -r_i <= j <= r_i,
                    r_i == radius,
                    radius <= 0x1000,
                    i32::MIN + 0x1000 <= center.x as int,
                    center.x as int <= i32::MAX - 0x1000,
                    i32::MIN + 0x1000 <= center.y as int,
                    center.y as int <= i32::MAX - 0x1000,
                    self.wf(),
                    self.grids == old(self).grids,
                    forall|i1: int, j1: int| 0 <= i1 < j1 < res@.len() ==> res@[i1] != res@[j1],
                    forall|k: int|
                        0 <= k < res@.len() ==> old(self).spec_cells().contains_key(
                            #[trigger] res@[k],
                        ) && old(self).spec_cells()[res@[k]].mass == 0,
                    forall|k: int|
                        0 <= k < res@.len() ==> old(self).spec_from_scan(
                            center,
                            radius as int,
                            #[trigger] res@[k],
                        ),
                    forall|q: V2i, id: u64|
                        old(self).spec_scanned_static(center, radius as int, q, id) && ((
                        q.x as int) < center.x + i || (q.x as int == center.x + i && (q.y as int)
                            < center.y + j)) ==> res@.contains(id),
                    forall|id: u64|
                        self.spec_cells().contains_key(id) == old(self).spec_cells().contains_key(id),
                    forall|id: u64|
                        old(self).spec_cells().contains_key(id) && !res@.contains(id)
                            ==> #[trigger] self.spec_cells()[id] == old(self).spec_cells()[id],
                    forall|k: int|
                        0 <= k < res@.len() ==> #[trigger] self.spec_cells()[res@[k]]
                            == (CellState {
                            color: old(self).spec_cells()[res@[k]].color,
                            mass: 1,
                            pos: old(self).spec_cells()[res@[k]].pos,
                        }),
                    self.spec_moving() == old(self).spec_moving() + res@,
                    self.spec_next_index() == old(self).spec_next_index(),
                    self.spec_stats() == old(self).spec_stats(),
                    forall|g: GridIndex| self.spec_has_grid(g) == old(self).spec_has_grid(g),
                    forall|g: GridIndex|
                        old(self).spec_has_grid(g) ==> #[trigger] self.spec_chunk(g) == old(self).spec_chunk(g),
                decreases r_i - j,
            {
                let ppos = center.plus(V2i { x: i, y: j });
                let bucket = self.grids.get_at(ppos);
                match bucket {
                    Some(b) => {
                        let neighbors = b.neighbors;
                        let ghost go = self.spec_index_of(ppos);
                        proof {
                            assert(go == old(self).spec_index_of(ppos));
                            assert(self.spec_has_grid(go));
                            assert(old(self).spec_has_grid(go));
                            assert(self.spec_chunk(go) == old(self).spec_chunk(go));
                            assert(neighbors@ == old(self).spec_chunk(go).neighbors_at(ppos));
                        }
                        let m = neighbors.len();
                        for t in 0..m
                            invariant
                                m == neighbors@.len(),
                                -r_i <= i < r_i,
                                -r_i <= j < r_i,
                                r_i == radius,
                                radius <= 0x1000,
                                i32::MIN + 0x1000 <= center.x as int,
                                center.x as int <= i32::MAX - 0x1000,
                                i32::MIN + 0x1000 <= center.y as int,
                                center.y as int <= i32::MAX - 0x1000,
                                ppos.x as int == center.x + i,
                                ppos.y as int == center.y + j,
                                go == old(self).spec_index_of(ppos),
                                old(self).spec_has_grid(go),
                                neighbors@ == old(self).spec_chunk(go).neighbors_at(ppos),
                                self.wf(),
                                self.grids == old(self).grids,
                                forall|i1: int, j1: int|
                                    0 <= i1 < j1 < res@.len() ==> res@[i1] != res@[j1],
                                forall|k: int|
                                    0 <= k < res@.len() ==> old(self).spec_cells().contains_key(
                                        #[trigger] res@[k],
                                    ) && old(self).spec_cells()[res@[k]].mass == 0,
                                forall|k: int|
                                    0 <= k < res@.len() ==> old(self).spec_from_scan(
                                        center,
                                        radius as int,
                                        #[trigger] res@[k],
                                    ),
                                forall|q: V2i, id: u64|
                                    old(self).spec_scanned_static(center, radius as int, q, id)
                                        && ((q.x as int) < center.x + i || (q.x as int == center.x
                                        + i && (q.y as int) < center.y + j)) ==> res@.contains(id),
                                forall|idx: int|
                                    0 <= idx < t && old(self).spec_cells().contains_key(
                                        #[trigger] neighbors@[idx],
                                    ) && old(self).spec_cells()[neighbors@[idx]].mass == 0
                                        ==> res@.contains(neighbors@[idx]),
                                forall|id: u64|
                                    self.spec_cells().contains_key(id) == old(self).spec_cells().contains_key(id),
                                forall|id: u64|
                                    old(self).spec_cells().contains_key(id) && !res@.contains(id)
                                        ==> #[trigger] self.spec_cells()[id] == old(self).spec_cells()[id],
                                forall|k: int|
                                    0 <= k < res@.len() ==> #[trigger] self.spec_cells()[res@[k]]
                                        == (CellState {
                                        color: old(self).spec_cells()[res@[k]].color,
                                        mass: 1,
                                        pos: old(self).spec_cells()[res@[k]].pos,
                                    }),
                                self.spec_moving() == old(self).spec_moving() + res@,
                                self.spec_next_index() == old(self).spec_next_index(),
                                self.spec_stats() == old(self).spec_stats(),
                                forall|g: GridIndex|
                                    self.spec_has_grid(g) == old(self).spec_has_grid(g),
                                forall|g: GridIndex|
                                    old(self).spec_has_grid(g) ==> #[trigger] self.spec_chunk(g)
                                        == old(self).spec_chunk(g),
                        {
                            let id = neighbors[t];
                            let is_static = match self.cells.get(&id) {
                                Some(st) => st.mass == 0,
                                None => false,
                            };
                            let ghost pre_res = res@;
                            if is_static {
                                self.unset_static(id);
                                res.push(id);
                                proof {
                                    assert forall|i1: int, j1: int|
                                        0 <= i1 < j1 < res@.len() implies res@[i1] != res@[j1] by {
                                        if j1 == res@.len() - 1 {
                                            assert(self.spec_cells()[pre_res[i1]].mass == 1);
                                        }
                                    }
                                    assert(self.spec_moving() =~= old(self).spec_moving() + res@);
                                    // the revived particle was static before the scan began
                                    assert(old(self).spec_cells().contains_key(id));
                                    assert(old(self).spec_cells()[id].mass == 0) by {
                                        if res@.take(res@.len() - 1).contains(id) {
                                            let k0 = choose|k0: int|
                                                0 <= k0 < pre_res.len() && pre_res[k0] == id;
                                            assert(self.spec_cells()[pre_res[k0]].mass == 1);
                                            assert(false);
                                        }
                                        if !pre_res.contains(id) {
                                        }
                                    }
                                    assert forall|p: u64| pre_res.contains(p) implies res@.contains(
                                        p,
                                    ) by {
                                        let k0 = choose|k0: int|
                                            0 <= k0 < pre_res.len() && pre_res[k0] == p;
                                        assert(res@[k0] == p);
                                    }
                                    assert forall|k: int|
                                        0 <= k < res@.len() implies old(self).spec_from_scan(
                                        center,
                                        radius as int,
                                        #[trigger] res@[k],
                                    ) by {
                                        if k < pre_res.len() {
                                            assert(res@[k] == pre_res[k]);
                                        } else {
                                            assert(res@[k] == id);
                                            assert(old(self).spec_scanned_static(
                                                center,
                                                radius as int,
                                                ppos,
                                                id,
                                            )) by {
                                                assert(old(self).spec_chunk(
                                                    old(self).spec_index_of(ppos),
                                                ).neighbors_at(ppos).contains(id)) by {
                                                    assert(neighbors@[t as int] == id);
                                                }
                                            }
                                        }
                                    }
                                    assert forall|q: V2i, id2: u64|
                                        old(self).spec_scanned_static(
                                            center,
                                            radius as int,
                                            q,
                                            id2,
                                        ) && ((q.x as int) < center.x + i || (q.x as int
                                            == center.x + i && (q.y as int) < center.y + j))
                                            implies res@.contains(id2) by {
                                        assert(pre_res.contains(id2));
                                    }
                                    assert forall|idx: int|
                                        0 <= idx < t + 1 && old(self).spec_cells().contains_key(
                                            #[trigger] neighbors@[idx],
                                        ) && old(self).spec_cells()[neighbors@[idx]].mass == 0
                                            implies res@.contains(neighbors@[idx]) by {
                                        if idx < t {
                                            assert(pre_res.contains(neighbors@[idx]));
                                        } else {
                                            assert(res@[res@.len() - 1] == id);
                                        }
                                    }
                                }
                            } else {
                                proof {
                                    assert forall|idx: int|
                                        0 <= idx < t + 1 && old(self).spec_cells().contains_key(
                                            #[trigger] neighbors@[idx],
                                        ) && old(self).spec_cells()[neighbors@[idx]].mass == 0
                                            implies res@.contains(neighbors@[idx]) by {
                                        if idx == t {
                                            let id2 = neighbors@[idx];
                                            if !res@.contains(id2) {
                                                assert(self.spec_cells()[id2] == old(self).spec_cells()[id2]);
                                                assert(false);
                                            }
                                        }
                                    }
                                }
                            }
                        }
                        proof {
                            assert forall|q: V2i, id: u64|
                                old(self).spec_scanned_static(center, radius as int, q, id) && ((
                                q.x as int) < center.x + i || (q.x as int == center.x + i && (
                                q.y as int) < center.y + j + 1)) implies res@.contains(id) by {
                                if q.x as int == center.x + i && q.y as int == center.y + j {
                                    assert(q == ppos);
                                    assert(old(self).spec_chunk(go).neighbors_at(ppos).contains(
                                        id,
                                    ));
                                    let idx = choose|idx: int|
                                        0 <= idx < neighbors@.len() && neighbors@[idx] == id;
                                }
                            }
                        }
                    },
                    None => {
                        proof {
                            assert forall|q: V2i, id: u64|
                                old(self).spec_scanned_static(center, radius as int, q, id) && ((
                                q.x as int) < center.x + i || (q.x as int == center.x + i && (
                                q.y as int) < center.y + j + 1)) implies res@.contains(id) by {
                                if q.x as int == center.x + i && q.y as int == center.y + j {
                                    assert(q == ppos);
                                    assert(old(self).spec_has_grid(old(self).spec_index_of(ppos)));
                                    assert(self.spec_has_grid(self.spec_index_of(ppos)));
                                    assert(false);
                                }
                            }
                        }
                    },
                }
                j = j + 1;
            }
            proof {
                assert forall|q: V2i, id: u64|
                    old(self).spec_scanned_static(center, radius as int, q, id) && (q.x as int)
                        < center.x + i + 1 implies res@.contains(id) by {
                    if q.x as int == center.x + i {
                        assert((q.y as int) < center.y + r_i);
                    }
                }
            }
            i = i + 1;
        }
        res
    }



    /// Chunk indices near the given center that are not loaded: the chunks
    /// an external pager should stream in. The scan radius is fixed.
    pub fn get_missing_grids(&self, center: V2i) -> (r: Vec<GridIndex>)
        requires
            self.wf(),
            i32::MIN + 0x10_0000 <= center.x as int / CHUNK_SIZE as int,
            center.x as int / CHUNK_SIZE as int <= i32::MAX - 0x10_0000,
            i32::MIN + 0x10_0000 <= center.y as int / CHUNK_SIZE as int,
            center.y as int / CHUNK_SIZE as int <= i32::MAX - 0x10_0000,
        ensures
            forall|j: int|
                0 <= j < r@.len() ==> crate::multigrid::in_scan_window(
                    #[trigger] r@[j],
                    self.spec_index_of(center),
                    DROP_RADIUS as int,
                ) && !self.spec_has_grid(r@[j]),
            forall|g: GridIndex|
                crate::multigrid::in_scan_window(g, self.spec_index_of(center), DROP_RADIUS as int)
                    && !self.spec_has_grid(g) ==> r@.contains(g),
            forall|i: int, j: int| 0 <= i < j < r@.len() ==> r@[i] != r@[j],
    {
        self.grids.get_dropped_grids(center, DROP_RADIUS)
    }

    /// Loaded chunk indices strictly beyond the scan radius of the center:
    /// the chunks an external pager may save and drop. A chunk exactly at
    /// the radius is kept.
    pub fn get_droppable_grids(&self, center: V2i) -> (r: Vec<GridIndex>)
        requires
            self.wf(),
        ensures
            forall|j: int|
                0 <= j < r@.len() ==> self.spec_has_grid(#[trigger] r@[j])
                    && crate::multigrid::is_far(
                    r@[j],
                    self.spec_index_of(center),
                    DROP_RADIUS as int,
                ),
            forall|g: GridIndex|
                self.spec_has_grid(g) && crate::multigrid::is_far(
                    g,
                    self.spec_index_of(center),
                    DROP_RADIUS as int,
                ) ==> r@.contains(g),
            forall|i: int, j: int| 0 <= i < j < r@.len() ==> r@[i] != r@[j],
    {
        self.grids.get_far_grids(center, DROP_RADIUS)
    }

    /// Every loaded chunk index, each once.
    pub fn get_loaded_grids(&self) -> (r: Vec<GridIndex>)
        requires
            self.wf(),
        ensures
            forall|j: int| 0 <= j < r@.len() ==> self.spec_has_grid(#[trigger] r@[j]),
            forall|g: GridIndex| #[trigger] self.spec_has_grid(g) ==> r@.contains(g),
            forall|i: int, j: int| 0 <= i < j < r@.len() ==> r@[i] != r@[j],
    {
        self.grids.get_loaded_grids()
    }

    /// Counts resolved collisions, saturating.
    pub fn note_collisions(&mut self, n: usize)
        ensures
            final(self).spec_stats().spec_collisions_count() == if old(self).spec_stats().spec_collisions_count() + n <= usize::MAX {
                old(self).spec_stats().spec_collisions_count() + n
            } else {
                usize::MAX as int
            },
            final(self).spec_stats().spec_ticks() == old(self).spec_stats().spec_ticks(),
            final(self).spec_stats().spec_cells_count() == old(self).spec_stats().spec_cells_count(),
            final(self).spec_stats().spec_collision_pairs_tested() == old(self).spec_stats().spec_collision_pairs_tested(),
            final(self).spec_cells() == old(self).spec_cells(),
            final(self).spec_moving() == old(self).spec_moving(),
            final(self).spec_next_index() == old(self).spec_next_index(),
            old(self).wf() ==> final(self).wf(),
            forall|g: GridIndex| final(self).spec_has_grid(g) == old(self).spec_has_grid(g),
            forall|g: GridIndex|
                old(self).spec_has_grid(g) ==> #[trigger] final(self).spec_chunk(g) == old(self).spec_chunk(g),
    {
        if n <= usize::MAX - self.stats.collisions_count {
            self.stats.collisions_count = self.stats.collisions_count + n;
        } else {
            self.stats.collisions_count = usize::MAX;
        }
        proof {
            if old(self).wf() {
                self.lemma_wf_carry(*old(self));
            }
        }
    }


    /// Whether some bucket of chunk `c` holds the particle `id`.
    pub open spec fn spec_chunk_holds(c: UniverseGrid<u64>, id: u64) -> bool {
        exists|pos: V2i|
            c.spec_in_bounds(pos) && #[trigger] c.occupants_at(pos).contains(id)
    }

    /// Unloads a chunk, first striking every particle it contains from the
    /// moving set and the arena, so nothing keeps referring to the dropped
    /// chunk. Particles of other chunks are untouched. A chunk that is not
    /// loaded is a no-op.
    pub fn drop_grid(&mut self, grid_index: GridIndex)
        requires
            old(self).wf(),
        ensures
            final(self).wf(),
            !final(self).spec_has_grid(grid_index),
            final(self).spec_next_index() == old(self).spec_next_index(),
            final(self).spec_stats() == old(self).spec_stats(),
            forall|g: GridIndex|
                g != grid_index ==> final(self).spec_has_grid(g) == #[trigger] old(self).spec_has_grid(g),
            forall|g: GridIndex|
                g != grid_index && old(self).spec_has_grid(g) ==> final(self).spec_chunk(g) == #[trigger] old(self).spec_chunk(g),
            !old(self).spec_has_grid(grid_index) ==> final(self).spec_cells() == old(self).spec_cells() && final(self).spec_moving() == old(self).spec_moving(),
            old(self).spec_has_grid(grid_index) ==> {
                let c = old(self).spec_chunk(grid_index);
                &&& forall|pos: V2i, id: u64|
                    c.spec_in_bounds(pos) && #[trigger] c.occupants_at(pos).contains(id)
                        ==> !final(self).spec_moving().contains(id) && !final(self).spec_cells().contains_key(id)
                &&& forall|id: u64|
                    #[trigger] final(self).spec_moving().contains(id) ==> old(self).spec_moving().contains(id)
                &&& forall|id: u64|
                    #[trigger] final(self).spec_cells().contains_key(id) ==> old(self).spec_cells().contains_key(id) && final(self).spec_cells()[id] == old(self).spec_cells()[id]
                &&& forall|id: u64|
                    old(self).spec_moving().contains(id) && !Self::spec_chunk_holds(c, id)
                        ==> #[trigger] final(self).spec_moving().contains(id)
                &&& forall|id: u64|
                    old(self).spec_cells().contains_key(id) && !Self::spec_chunk_holds(c, id)
                        ==> #[trigger] final(self).spec_cells().contains_key(id)
            },
    {
        if !self.grids.contains(grid_index) {
            self.grids.drop_grid(grid_index);
            proof {
                self.lemma_wf_carry(*old(self));
                assert(self.spec_cells() == old(self).spec_cells());
                assert(self.spec_moving() == old(self).spec_moving());
                assert(!self.spec_has_grid(grid_index));
                assert(self.spec_stats() == old(self).spec_stats());
            }
            return ;
        }
        let ghost c = old(self).spec_chunk(grid_index);
        proof {
            self.grids.lemma_chunk_props(grid_index);
        }
        let chunk = self.grids.get(grid_index).unwrap();
        let ox = chunk.offset.x;
        let oy = chunk.offset.y;
        let mut x: usize = 0;
        while x < CHUNK_SIZE
            invariant
                0 <= x <= CHUNK_SIZE,
                self.wf(),
                c == old(self).spec_chunk(grid_index),
                old(self).spec_has_grid(grid_index),
                self.spec_has_grid(grid_index),
                self.spec_chunk(grid_index) == c,
                ox == c.spec_offset().x,
                oy == c.spec_offset().y,
                c.width == CHUNK_SIZE,
                c.height == CHUNK_SIZE,
                c.wf(),
                self.spec_next_index() == old(self).spec_next_index(),
                self.spec_stats() == old(self).spec_stats(),
                forall|g: GridIndex| self.spec_has_grid(g) == old(self).spec_has_grid(g),
                forall|g: GridIndex|
                    old(self).spec_has_grid(g) ==> self.spec_chunk(g) == #[trigger] old(self).spec_chunk(g),
                forall|pos: V2i, id: u64|
                    c.spec_in_bounds(pos) && pos.x - c.spec_offset().x < x && 
                    #[trigger] c.occupants_at(pos).contains(id) ==> !self.spec_moving().contains(
                        id,
                    ) && !self.spec_cells().contains_key(id),
                forall|id: u64|
                    #[trigger] self.spec_moving().contains(id) ==> old(self).spec_moving().contains(id),
                forall|id: u64|
                    #[trigger] self.spec_cells().contains_key(id) ==> old(self).spec_cells().contains_key(id) && self.spec_cells()[id] == old(self).spec_cells()[id],
                forall|id: u64|
                    old(self).spec_moving().contains(id) && !Self::spec_chunk_holds(c, id)
                        ==> #[trigger] self.spec_moving().contains(id),
                forall|id: u64|
                    old(self).spec_cells().contains_key(id) && !Self::spec_chunk_holds(c, id)
                        ==> #[trigger] self.spec_cells().contains_key(id),
            decreases CHUNK_SIZE - x,
        {
            let mut y: usize = 0;
            while y < CHUNK_SIZE
                invariant
                    0 <= x < CHUNK_SIZE,
                    0 <= y <= CHUNK_SIZE,
                    self.wf(),
                    c == old(self).spec_chunk(grid_index),
                    old(self).spec_has_grid(grid_index),
                    self.spec_has_grid(grid_index),
                    self.spec_chunk(grid_index) == c,
                    ox == c.spec_offset().x,
                    oy == c.spec_offset().y,
                    c.width == CHUNK_SIZE,
                    c.height == CHUNK_SIZE,
                    c.wf(),
                    self.spec_next_index() == old(self).spec_next_index(),
                    self.spec_stats() == old(self).spec_stats(),
                    forall|g: GridIndex| self.spec_has_grid(g) == old(self).spec_has_grid(g),
                    forall|g: GridIndex|
                        old(self).spec_has_grid(g) ==> self.spec_chunk(g) == #[trigger] old(self).spec_chunk(g),
                    forall|pos: V2i, id: u64|
                        c.spec_in_bounds(pos) && (pos.x - c.spec_offset().x < x || (pos.x
                            - c.spec_offset().x == x && pos.y - c.spec_offset().y < y)) && 
                        #[trigger] c.occupants_at(pos).contains(id)
                            ==> !self.spec_moving().contains(id) && !self.spec_cells().contains_key(
                            id,
                        ),
                    forall|id: u64|
                        #[trigger] self.spec_moving().contains(id) ==> old(self).spec_moving().contains(id),
                    forall|id: u64|
                        #[trigger] self.spec_cells().contains_key(id) ==> old(self).spec_cells().contains_key(id) && self.spec_cells()[id] == old(self).spec_cells()[id],
                    forall|id: u64|
                        old(self).spec_moving().contains(id) && !Self::spec_chunk_holds(c, id)
                            ==> #[trigger] self.spec_moving().contains(id),
                    forall|id: u64|
                        old(self).spec_cells().contains_key(id) && !Self::spec_chunk_holds(c, id)
                            ==> #[trigger] self.spec_cells().contains_key(id),
                decreases CHUNK_SIZE - y,
            {
                let pos = V2i {
                    x: ((ox as i64 + x as i64) as i32),
                    y: ((oy as i64 + y as i64) as i32),
                };
                let bucket = self.grids.get_at(pos);
                let ids = match bucket {
                    Some(b) => b.value,
                    None => Vec::new(),
                };
                proof {
                    self.grids.lemma_owner_unique_pub(grid_index, pos);
                    assert(c.spec_in_bounds(pos));
                    assert(ids@ == c.occupants_at(pos));
                }
                let n = ids.len();
                for t in 0..n
                    invariant
                        n == ids@.len(),
                        ids@ == c.occupants_at(pos),
                        c.spec_in_bounds(pos),
                        self.wf(),
                        c == old(self).spec_chunk(grid_index),
                        old(self).spec_has_grid(grid_index),
                        self.spec_has_grid(grid_index),
                        self.spec_chunk(grid_index) == c,
                        self.spec_next_index() == old(self).spec_next_index(),
                        self.spec_stats() == old(self).spec_stats(),
                        forall|g: GridIndex| self.spec_has_grid(g) == old(self).spec_has_grid(g),
                        forall|g: GridIndex|
                            old(self).spec_has_grid(g) ==> self.spec_chunk(g) == #[trigger] old(self).spec_chunk(g),
                        forall|pos2: V2i, id: u64|
                            c.spec_in_bounds(pos2) && (pos2.x - c.spec_offset().x < x || (pos2.x
                                - c.spec_offset().x == x && pos2.y - c.spec_offset().y < y)) && 
                            #[trigger] c.occupants_at(pos2).contains(id)
                                ==> !self.spec_moving().contains(id)
                                && !self.spec_cells().contains_key(id),
                        forall|j: int|
                            0 <= j < t ==> !self.spec_moving().contains(#[trigger] ids@[j])
                                && !self.spec_cells().contains_key(ids@[j]),
                        forall|id: u64|
                            #[trigger] self.spec_moving().contains(id) ==> old(self).spec_moving().contains(id),
                        forall|id: u64|
                            #[trigger] self.spec_cells().contains_key(id) ==> old(self).spec_cells().contains_key(id) && self.spec_cells()[id] == old(self).spec_cells()[id],
                        forall|id: u64|
                            old(self).spec_moving().contains(id) && !Self::spec_chunk_holds(c, id)
                                ==> #[trigger] self.spec_moving().contains(id),
                        forall|id: u64|
                            old(self).spec_cells().contains_key(id) && !Self::spec_chunk_holds(
                                c,
                                id,
                            ) ==> #[trigger] self.spec_cells().contains_key(id),
                {
                    let id = ids[t];
                    self.remove_from_moving(id);
                    self.cells.remove(&id);
                    proof {
                        assert(c.occupants_at(pos).contains(id));
                        assert(Self::spec_chunk_holds(c, id));
                        assert forall|i: int|
                            0 <= i < self.moving_cells@.len() implies self.cells@.contains_key(
                            #[trigger] self.moving_cells@[i],
                        ) && self.cells@[self.moving_cells@[i]].mass > 0 by {
                            assert(self.spec_moving().contains(self.moving_cells@[i]));
                            assert(self.spec_moving().to_set().contains(self.moving_cells@[i]));
                            assert(self.moving_cells@[i] != id);
                        }
                        assert forall|id2: u64|
                            old(self).spec_moving().contains(id2) && !Self::spec_chunk_holds(
                                c,
                                id2,
                            ) implies #[trigger] self.spec_moving().contains(id2) by {
                            assert(id2 != id);
                            assert(self.spec_moving().to_set().contains(id2));
                        }
                        assert forall|id2: u64|
                            old(self).spec_cells().contains_key(id2) && !Self::spec_chunk_holds(
                                c,
                                id2,
                            ) implies #[trigger] self.spec_cells().contains_key(id2) by {
                            assert(id2 != id);
                        }
                    }
                }
                proof {
                    assert forall|pos2: V2i, id: u64|
                        c.spec_in_bounds(pos2) && (pos2.x - c.spec_offset().x < x || (pos2.x
                            - c.spec_offset().x == x && pos2.y - c.spec_offset().y < y + 1)) && 
                        #[trigger] c.occupants_at(pos2).contains(id)
                            implies !self.spec_moving().contains(id)
                            && !self.spec_cells().contains_key(id) by {
                        if pos2 == pos {
                            let j = choose|j: int| 0 <= j < ids@.len() && ids@[j] == id;
                            assert(!self.spec_cells().contains_key(ids@[j]));
                        }
                    }
                }
                y = y + 1;
            }
            x = x + 1;
        }
        let ghost pre_drop = *self;
        self.grids.drop_grid(grid_index);
        proof {
            self.lemma_wf_carry(pre_drop);
            assert(self.spec_moving() == pre_drop.spec_moving());
            assert(self.spec_cells() == pre_drop.spec_cells());
            assert forall|id: u64|
                old(self).spec_moving().contains(id) && !Self::spec_chunk_holds(c, id)
                    implies #[trigger] self.spec_moving().contains(id) by {
                assert(pre_drop.spec_moving().contains(id));
            }
            assert forall|id: u64|
                old(self).spec_cells().contains_key(id) && !Self::spec_chunk_holds(c, id)
                    implies #[trigger] self.spec_cells().contains_key(id) by {
                assert(pre_drop.spec_cells().contains_key(id));
            }
            assert forall|id: u64| #[trigger] self.spec_moving().contains(id) implies old(self).spec_moving().contains(id) by {
                assert(pre_drop.spec_moving().contains(id));
            }
            assert forall|id: u64| #[trigger] self.spec_cells().contains_key(id) implies old(self).spec_cells().contains_key(id) && self.spec_cells()[id] == old(self).spec_cells()[id]
                by {
                assert(pre_drop.spec_cells().contains_key(id));
            }
            assert forall|pos: V2i, id: u64|
                c.spec_in_bounds(pos) && #[trigger] c.occupants_at(pos).contains(id)
                    implies !self.spec_moving().contains(id) && !self.spec_cells().contains_key(
                id,
            ) by {
                assert(pos.x - c.spec_offset().x < CHUNK_SIZE);
            }
        }
    }


    /// Whether `(a, b)` is a pair the narrow phase must test: `a` is a
    /// moving particle and `b` is a distinct occupant within one cell of
    /// `a`'s bucket, as its chunk's neighbor list reports.
    pub open spec fn spec_is_candidate(&self, a: u64, b: u64) -> bool {
        &&& self.spec_moving().contains(a)
        &&& self.spec_cells().contains_key(a)
        &&& self.spec_has_grid(self.spec_index_of(self.spec_cells()[a].pos))
        &&& self.spec_chunk(self.spec_index_of(self.spec_cells()[a].pos)).neighbors_at(
            self.spec_cells()[a].pos,
        ).contains(b)
        &&& b != a
    }

    /// Collects distinct unordered pairs for the narrow phase to test this
    /// sub-step: for each moving particle, each distinct occupant of its
    /// bucket's neighbor list, deduplicated so an unordered pair appears at
    /// most once, smaller index first. Each listed pair counts as one tested
    /// pair in the stats.
    #[verifier::rlimit(100)]
    pub fn candidate_pairs(&mut self) -> (r: Vec<(u64, u64)>)
        requires
            old(self).wf(),
        ensures
            final(self).wf(),
            final(self).spec_cells() == old(self).spec_cells(),
            final(self).spec_moving() == old(self).spec_moving(),
            final(self).spec_next_index() == old(self).spec_next_index(),
            forall|g: GridIndex| final(self).spec_has_grid(g) == old(self).spec_has_grid(g),
            forall|g: GridIndex|
                old(self).spec_has_grid(g) ==> final(self).spec_chunk(g) == #[trigger] old(self).spec_chunk(g),
            forall|k: int| 0 <= k < r@.len() ==> (#[trigger] r@[k]).0 < r@[k].1,
            forall|k: int|
                0 <= k < r@.len() ==> old(self).spec_is_candidate(
                    (#[trigger] r@[k]).0,
                    r@[k].1,
                ) || old(self).spec_is_candidate(r@[k].1, r@[k].0),
            forall|k1: int, k2: int| 0 <= k1 < k2 < r@.len() ==> r@[k1] != r@[k2],
            forall|a: u64, b: u64|
                old(self).spec_is_candidate(a, b) && a < b ==> r@.contains((a, b)),
            forall|a: u64, b: u64|
                old(self).spec_is_candidate(a, b) && b < a ==> r@.contains((b, a)),
            final(self).spec_stats().spec_collision_pairs_tested() == if old(self).spec_stats().spec_collision_pairs_tested() + r@.len() <= usize::MAX {
                old(self).spec_stats().spec_collision_pairs_tested() + r@.len()
            } else {
                usize::MAX as int
            },
            final(self).spec_stats().spec_ticks() == old(self).spec_stats().spec_ticks(),
            final(self).spec_stats().spec_cells_count() == old(self).spec_stats().spec_cells_count(),
            final(self).spec_stats().spec_collisions_count() == old(self).spec_stats().spec_collisions_count(),
    {
        let mut res: Vec<(u64, u64)> = Vec::new();
        let mut seen: HashSet<u128> = HashSet::new();
        let n = self.moving_cells.len();
        for m in 0..n
            invariant
                n == self.moving_cells@.len(),
                self.wf(),
                self.cells@ == old(self).cells@,
                self.moving_cells@ == old(self).moving_cells@,
                self.grids == old(self).grids,
                self.next_cell_index == old(self).next_cell_index,
                self.stats.spec_ticks() == old(self).spec_stats().spec_ticks(),
                self.stats.spec_cells_count() == old(self).spec_stats().spec_cells_count(),
                self.stats.spec_collisions_count() == old(self).spec_stats().spec_collisions_count(),
                self.stats.spec_collision_pairs_tested() == if old(self).spec_stats().spec_collision_pairs_tested() + res@.len() <= usize::MAX {
                    old(self).spec_stats().spec_collision_pairs_tested() + res@.len()
                } else {
                    usize::MAX as int
                },
                forall|k: int| 0 <= k < res@.len() ==> (#[trigger] res@[k]).0 < res@[k].1,
                forall|k: int|
                    0 <= k < res@.len() ==> old(self).spec_is_candidate(
                        (#[trigger] res@[k]).0,
                        res@[k].1,
                    ) || old(self).spec_is_candidate(res@[k].1, res@[k].0),
                forall|k: int|
                    0 <= k < res@.len() ==> seen@.contains(
                        spec_pair_key((#[trigger] res@[k]).0, res@[k].1),
                    ),
                forall|lo: u64, hi: u64|
                    #![trigger spec_pair_key(lo, hi)]
                    seen@.contains(spec_pair_key(lo, hi)) ==> res@.contains((lo, hi)),
                forall|a2: u64, b: u64, m2: int|
                    #![trigger old(self).spec_moving()[m2], old(self).spec_is_candidate(a2, b)]
                    0 <= m2 < m && old(self).spec_moving()[m2] == a2 && old(self).spec_is_candidate(
                        a2,
                        b,
                    ) ==> seen@.contains(spec_pair_key(min64(a2, b), max64(a2, b))),
                forall|k1: int, k2: int| 0 <= k1 < k2 < res@.len() ==> res@[k1] != res@[k2],
        {
            let a = self.moving_cells[m];
            let st = match self.cells.get(&a) {
                Some(st) => *st,
                None => {
                    proof {
                        assert(false);
                    }
                    return res;
                },
            };
            let bucket = self.grids.get_at(st.pos);
            match bucket {
                Some(bu) => {
                    let neighbors = bu.neighbors;
                    let nn = neighbors.len();
                    for t in 0..nn
                        invariant
                            nn == neighbors@.len(),
                            self.wf(),
                            self.cells@ == old(self).cells@,
                            self.moving_cells@ == old(self).moving_cells@,
                            self.grids == old(self).grids,
                            self.next_cell_index == old(self).next_cell_index,
                            0 <= m < self.moving_cells@.len(),
                            a == self.moving_cells@[m as int],
                            self.spec_cells().contains_key(a),
                            st == self.spec_cells()[a],
                            self.spec_has_grid(self.spec_index_of(st.pos)),
                            neighbors@ == self.spec_chunk(
                                self.spec_index_of(st.pos),
                            ).neighbors_at(st.pos),
                            self.stats.spec_ticks() == old(self).spec_stats().spec_ticks(),
                            self.stats.spec_cells_count() == old(self).spec_stats().spec_cells_count(),
                            self.stats.spec_collisions_count() == old(self).spec_stats().spec_collisions_count(),
                            self.stats.spec_collision_pairs_tested() == if old(self).spec_stats().spec_collision_pairs_tested() + res@.len()
                                <= usize::MAX {
                                old(self).spec_stats().spec_collision_pairs_tested() + res@.len()
                            } else {
                                usize::MAX as int
                            },
                            forall|k: int|
                                0 <= k < res@.len() ==> (#[trigger] res@[k]).0 < res@[k].1,
                            forall|k: int|
                                0 <= k < res@.len() ==> old(self).spec_is_candidate(
                                    (#[trigger] res@[k]).0,
                                    res@[k].1,
                                ) || old(self).spec_is_candidate(res@[k].1, res@[k].0),
                            forall|k: int|
                                0 <= k < res@.len() ==> seen@.contains(
                                    spec_pair_key((#[trigger] res@[k]).0, res@[k].1),
                                ),
                            forall|lo: u64, hi: u64|
                                #![trigger spec_pair_key(lo, hi)]
                                seen@.contains(spec_pair_key(lo, hi)) ==> res@.contains((lo, hi)),
                            forall|a2: u64, b2: u64, m2: int|
                                #![trigger old(self).spec_moving()[m2], old(self).spec_is_candidate(a2, b2)]
                                0 <= m2 < m && old(self).spec_moving()[m2] == a2 && old(self).spec_is_candidate(
                                    a2,
                                    b2,
                                ) ==> seen@.contains(spec_pair_key(min64(a2, b2), max64(a2, b2))),
                            forall|j: int|
                                0 <= j < t && (#[trigger] neighbors@[j]) != a ==> seen@.contains(
                                    spec_pair_key(
                                        min64(a, neighbors@[j]),
                                        max64(a, neighbors@[j]),
                                    ),
                                ),
                            forall|k1: int, k2: int|
                                0 <= k1 < k2 < res@.len() ==> res@[k1] != res@[k2],
                    {
                        let b = neighbors[t];
                        let ghost pre_res = res@;
                        let ghost pre_seen = seen@;
                        if b != a {
                            let lo = if a < b {
                                a
                            } else {
                                b
                            };
                            let hi = if a < b {
                                b
                            } else {
                                a
                            };
                            let key = pair_key(lo, hi);
                            if !seen.contains(&key) {
                                seen.insert(key);
                                res.push((lo, hi));
                                self.stats.bump_pairs_tested();
                                proof {
                                    assert(neighbors@.contains(b));
                                    assert forall|k1: int, k2: int|
                                        0 <= k1 < k2 < res@.len() implies res@[k1] != res@[k2] by {
                                        if k2 == res@.len() - 1 {
                                            assert(pre_seen.contains(
                                                spec_pair_key(res@[k1].0, res@[k1].1),
                                            ));
                                            if res@[k1] != (lo, hi) {
                                                lemma_pair_key_injective(
                                                    res@[k1].0,
                                                    res@[k1].1,
                                                    lo,
                                                    hi,
                                                );
                                            }
                                        }
                                    }
                                    assert forall|lo2: u64, hi2: u64|
                                        #![trigger spec_pair_key(lo2, hi2)]
                                        seen@.contains(spec_pair_key(lo2, hi2))
                                            implies res@.contains((lo2, hi2)) by {
                                        if lo2 == lo && hi2 == hi {
                                            assert(res@[res@.len() - 1] == (lo, hi));
                                        } else {
                                            lemma_pair_key_injective(lo2, hi2, lo, hi);
                                            assert(pre_seen.contains(spec_pair_key(lo2, hi2)));
                                            assert(pre_res.contains((lo2, hi2)));
                                            let j = choose|j: int|
                                                0 <= j < pre_res.len() && pre_res[j] == (lo2, hi2);
                                            assert(res@[j] == (lo2, hi2));
                                        }
                                    }
                                }
                            }
                            proof {
                                assert(seen@.contains(spec_pair_key(min64(a, b), max64(a, b))));
                            }
                        }
                        proof {
                            assert forall|a2: u64, b2: u64, m2: int|
                                #![trigger old(self).spec_moving()[m2], old(self).spec_is_candidate(a2, b2)]
                                0 <= m2 < m && self.spec_moving()[m2] == a2 && old(self).spec_is_candidate(a2, b2) implies seen@.contains(
                                spec_pair_key(min64(a2, b2), max64(a2, b2)),
                            ) by {
                                assert(pre_seen.contains(
                                    spec_pair_key(min64(a2, b2), max64(a2, b2)),
                                ));
                            }
                            assert forall|j: int|
                                0 <= j < t + 1 && (#[trigger] neighbors@[j]) != a
                                    implies seen@.contains(
                                spec_pair_key(min64(a, neighbors@[j]), max64(a, neighbors@[j])),
                            ) by {
                                if j < t {
                                    assert(pre_seen.contains(
                                        spec_pair_key(
                                            min64(a, neighbors@[j]),
                                            max64(a, neighbors@[j]),
                                        ),
                                    ));
                                } else {
                                    assert(neighbors@[j] == b);
                                }
                            }
                        }
                    }
                    proof {
                        assert forall|a2: u64, b: u64, m2: int|
                            #![trigger old(self).spec_moving()[m2], old(self).spec_is_candidate(a2, b)]
                            0 <= m2 < m + 1 && old(self).spec_moving()[m2] == a2 && old(self).spec_is_candidate(a2, b) implies seen@.contains(
                            spec_pair_key(min64(a2, b), max64(a2, b)),
                        ) by {
                            if m2 == m {
                                assert(a2 == a);
                                assert(self.spec_cells()[a] == st);
                                assert(old(self).spec_cells()[a] == st);
                                assert(neighbors@.contains(b));
                                let j = choose|j: int|
                                    0 <= j < neighbors@.len() && neighbors@[j] == b;
                                assert(neighbors@[j] != a);
                            }
                        }
                    }
                },
                None => {
                    proof {
                        assert forall|a2: u64, b: u64, m2: int|
                            #![trigger old(self).spec_moving()[m2], old(self).spec_is_candidate(a2, b)]
                            0 <= m2 < m + 1 && old(self).spec_moving()[m2] == a2 && old(self).spec_is_candidate(a2, b) implies seen@.contains(
                            spec_pair_key(min64(a2, b), max64(a2, b)),
                        ) by {
                            if m2 == m {
                                assert(a2 == a);
                                assert(old(self).spec_cells()[a] == st);
                                assert(false);
                            }
                        }
                    }
                },
            }
        }
        proof {
            assert forall|a: u64, b: u64|
                old(self).spec_is_candidate(a, b) && a < b implies res@.contains((a, b)) by {
                let m2 = choose|m2: int|
                    0 <= m2 < old(self).spec_moving().len() && old(self).spec_moving()[m2] == a;
                assert(seen@.contains(spec_pair_key(min64(a, b), max64(a, b))));
                assert(min64(a, b) == a && max64(a, b) == b);
            }
            assert forall|a: u64, b: u64|
                old(self).spec_is_candidate(a, b) && b < a implies res@.contains((b, a)) by {
                let m2 = choose|m2: int|
                    0 <= m2 < old(self).spec_moving().len() && old(self).spec_moving()[m2] == a;
                assert(seen@.contains(spec_pair_key(min64(a, b), max64(a, b))));
                assert(min64(a, b) == b && max64(a, b) == a);
            }
        }
        res
    }


    /// Reads the bucket at a world position, if its chunk is loaded.
    pub fn get_at(&self, pos: V2i) -> (r: Option<GetResult<u64>>)
        requires
            self.wf(),
        ensures
            match r {
                Some(b) => {
                    &&& self.spec_has_grid(self.spec_index_of(pos))
                    &&& b.value@ == self.spec_chunk(self.spec_index_of(pos)).occupants_at(pos)
                    &&& b.neighbors@ == self.spec_chunk(self.spec_index_of(pos)).neighbors_at(pos)
                },
                None => !self.spec_has_grid(self.spec_index_of(pos)),
            },
    {
        self.grids.get_at(pos)
    }

    /// Reads one particle's lattice state.
    pub fn get_cell_state(&self, id: u64) -> (r: Option<CellState>)
        ensures
            match r {
                Some(st) => self.spec_cells().contains_key(id) && st == self.spec_cells()[id],
                None => !self.spec_cells().contains_key(id),
            },
    {
        match self.cells.get(&id) {
            Some(st) => Some(*st),
            None => None,
        }
    }

    /// The records of the given particles, in order, read from an arena map.
    pub open spec fn spec_records_in(cells: Map<u64, CellState>, ids: Seq<u64>) -> Seq<
        CellRecord,
    > {
        ids.map_values(
            |id: u64| CellRecord { color: cells[id].color, mass: cells[id].mass },
        )
    }

    /// The records of the given particles, in order, read from the arena.
    pub open spec fn spec_records_of(&self, ids: Seq<u64>) -> Seq<CellRecord> {
        Self::spec_records_in(self.spec_cells(), ids)
    }

    /// The arena-known particles among `ids`, in order.
    pub open spec fn spec_known_of(&self, ids: Seq<u64>) -> Seq<u64> {
        ids.filter(|id: u64| self.spec_cells().contains_key(id))
    }

    /// Serializes a loaded chunk: its dimensions, its grid version, and one
    /// record per contained particle, in the chunk byte format. Per lattice
    /// cell, the serialized records are exactly the records of that cell's
    /// occupants, in occupant order. A chunk that is not loaded yields
    /// nothing.
    pub fn save_grid(&self, grid_index: GridIndex) -> (r: Option<Vec<u8>>)
        requires
            self.wf(),
        ensures
            r is Some <==> self.spec_has_grid(grid_index),
            r matches Some(bytes) ==> exists|entries: Seq<ChunkEntry>|
                #![trigger crate::codec::spec_encode_chunk(CHUNK_SIZE as u64, CHUNK_SIZE as u64, self.spec_chunk(grid_index).grid.spec_version() as u64, entries)]
                {
                    let c = self.spec_chunk(grid_index);
                    &&& entries.len() <= MAX_CHUNK_ENTRIES
                    &&& bytes@ == crate::codec::spec_encode_chunk(
                        CHUNK_SIZE as u64,
                        CHUNK_SIZE as u64,
                        c.grid.spec_version() as u64,
                        entries,
                    )
                    &&& forall|k: int|
                        0 <= k < entries.len() ==> c.spec_in_bounds(
                            V2i { x: (#[trigger] entries[k]).x, y: entries[k].y },
                        )
                    &&& entries.len() < MAX_CHUNK_ENTRIES ==> forall|p: V2i|
                        c.spec_in_bounds(p)
                            ==> #[trigger] crate::codec::spec_entry_records(
                            crate::codec::spec_entries_at(entries, p.x as int, p.y as int),
                        ) == self.spec_records_of(self.spec_known_of(c.occupants_at(p)))
                },
    {
        let chunk = match self.grids.get(grid_index) {
            Some(c) => c,
            None => {
                return None;
            },
        };
        proof {
            self.grids.lemma_chunk_props(grid_index);
        }
        let ghost c = self.spec_chunk(grid_index);
        let ox = chunk.offset.x;
        let oy = chunk.offset.y;
        let mut entries: Vec<ChunkEntry> = Vec::new();
        let mut x: usize = 0;
        while x < CHUNK_SIZE
            invariant
                0 <= x <= CHUNK_SIZE,
                self.wf(),
                self.spec_has_grid(grid_index),
                c == self.spec_chunk(grid_index),
                ox == c.spec_offset().x,
                oy == c.spec_offset().y,
                c.width == CHUNK_SIZE,
                c.height == CHUNK_SIZE,
                c.wf(),
                entries@.len() <= MAX_CHUNK_ENTRIES,
                forall|k: int|
                    0 <= k < entries@.len() ==> c.spec_in_bounds(
                        V2i { x: (#[trigger] entries@[k]).x, y: entries@[k].y },
                    ),
                entries@.len() < MAX_CHUNK_ENTRIES ==> forall|p: V2i|
                    c.spec_in_bounds(p) && p.x - c.spec_offset().x < x
                        ==> #[trigger] crate::codec::spec_entry_records(
                        crate::codec::spec_entries_at(entries@, p.x as int, p.y as int),
                    ) == self.spec_records_of(self.spec_known_of(c.occupants_at(p))),
                forall|p: V2i|
                    c.spec_in_bounds(p) && p.x - c.spec_offset().x >= x
                        ==> #[trigger] crate::codec::spec_entries_at(
                        entries@,
                        p.x as int,
                        p.y as int,
                    ) == Seq::<ChunkEntry>::empty(),
            decreases CHUNK_SIZE - x,
        {
            let mut y: usize = 0;
            while y < CHUNK_SIZE
                invariant
                    0 <= x < CHUNK_SIZE,
                    0 <= y <= CHUNK_SIZE,
                    self.wf(),
                    self.spec_has_grid(grid_index),
                    c == self.spec_chunk(grid_index),
                    ox == c.spec_offset().x,
                    oy == c.spec_offset().y,
                    c.width == CHUNK_SIZE,
                    c.height == CHUNK_SIZE,
                    c.wf(),
                    entries@.len() <= MAX_CHUNK_ENTRIES,
                    forall|k: int|
                        0 <= k < entries@.len() ==> c.spec_in_bounds(
                            V2i { x: (#[trigger] entries@[k]).x, y: entries@[k].y },
                        ),
                    entries@.len() < MAX_CHUNK_ENTRIES ==> forall|p: V2i|
                        c.spec_in_bounds(p) && (p.x - c.spec_offset().x < x || (p.x
                            - c.spec_offset().x == x && p.y - c.spec_offset().y < y))
                            ==> #[trigger] crate::codec::spec_entry_records(
                            crate::codec::spec_entries_at(entries@, p.x as int, p.y as int),
                        ) == self.spec_records_of(self.spec_known_of(c.occupants_at(p))),
                    forall|p: V2i|
                        c.spec_in_bounds(p) && !(p.x - c.spec_offset().x < x || (p.x
                            - c.spec_offset().x == x && p.y - c.spec_offset().y < y))
                            ==> #[trigger] crate::codec::spec_entries_at(
                            entries@,
                            p.x as int,
                            p.y as int,
                        ) == Seq::<ChunkEntry>::empty(),
                decreases CHUNK_SIZE - y,
            {
                let pos = V2i {
                    x: ((ox as i64 + x as i64) as i32),
                    y: ((oy as i64 + y as i64) as i32),
                };
                let bucket = self.grids.get_at(pos);
                let ids = match bucket {
                    Some(b) => b.value,
                    None => Vec::new(),
                };
                proof {
                    self.grids.lemma_owner_unique_pub(grid_index, pos);
                    assert(c.spec_in_bounds(pos));
                    assert(ids@ == c.occupants_at(pos));
                    assert(crate::codec::spec_entries_at(entries@, pos.x as int, pos.y as int)
                        == Seq::<ChunkEntry>::empty());
                    assert(self.spec_known_of(ids@.take(0)) =~= Seq::<u64>::empty()) by {
                        crate::grid::lemma_filter_none(
                            ids@.take(0),
                            |id: u64| self.spec_cells().contains_key(id),
                        );
                    }
                }
                let n = ids.len();
                for t in 0..n
                    invariant
                        n == ids@.len(),
                        ids@ == c.occupants_at(pos),
                        c.spec_in_bounds(pos),
                        pos.x as int == c.spec_offset().x as int + x,
                        pos.y as int == c.spec_offset().y as int + y,
                        0 <= x < CHUNK_SIZE,
                        0 <= y < CHUNK_SIZE,
                        self.wf(),
                        self.spec_has_grid(grid_index),
                        c == self.spec_chunk(grid_index),
                        c.wf(),
                        c.width == CHUNK_SIZE,
                        c.height == CHUNK_SIZE,
                        entries@.len() <= MAX_CHUNK_ENTRIES,
                        forall|k: int|
                            0 <= k < entries@.len() ==> c.spec_in_bounds(
                                V2i { x: (#[trigger] entries@[k]).x, y: entries@[k].y },
                            ),
                        entries@.len() < MAX_CHUNK_ENTRIES ==> forall|p: V2i|
                            c.spec_in_bounds(p) && (p.x - c.spec_offset().x < x || (p.x
                                - c.spec_offset().x == x && p.y - c.spec_offset().y < y))
                                ==> #[trigger] crate::codec::spec_entry_records(
                                crate::codec::spec_entries_at(entries@, p.x as int, p.y as int),
                            ) == self.spec_records_of(self.spec_known_of(c.occupants_at(p))),
                        forall|p: V2i|
                            c.spec_in_bounds(p) && p != pos && !(p.x - c.spec_offset().x < x || (
                            p.x - c.spec_offset().x == x && p.y - c.spec_offset().y < y))
                                ==> #[trigger] crate::codec::spec_entries_at(
                                entries@,
                                p.x as int,
                                p.y as int,
                            ) == Seq::<ChunkEntry>::empty(),
                        entries@.len() < MAX_CHUNK_ENTRIES
                            ==> crate::codec::spec_entry_records(
                            crate::codec::spec_entries_at(entries@, pos.x as int, pos.y as int),
                        ) == self.spec_records_of(self.spec_known_of(ids@.take(t as int))),
                {
                    proof {
                        crate::grid::lemma_filter_step(
                            ids@.take(t as int),
                            ids@[t as int],
                            |id: u64| self.spec_cells().contains_key(id),
                        );
                        assert(ids@.take(t + 1) == ids@.take(t as int).push(ids@[t as int]));
                    }
                    let ghost pre_e = entries@;
                    if entries.len() < MAX_CHUNK_ENTRIES {
                        let id = ids[t];
                        match self.cells.get(&id) {
                            Some(st) => {
                                let e = ChunkEntry {
                                    x: pos.x,
                                    y: pos.y,
                                    record: CellRecord { color: st.color, mass: st.mass },
                                };
                                entries.push(e);
                                proof {
                                    assert(self.spec_cells()[id] == *st);
                                    assert forall|p: V2i|
                                        c.spec_in_bounds(p) && p != pos
                                            implies #[trigger] crate::codec::spec_entries_at(
                                        entries@,
                                        p.x as int,
                                        p.y as int,
                                    ) == crate::codec::spec_entries_at(
                                        pre_e,
                                        p.x as int,
                                        p.y as int,
                                    ) by {
                                        crate::grid::lemma_filter_step(
                                            pre_e,
                                            e,
                                            |e2: ChunkEntry| e2.x == p.x && e2.y == p.y,
                                        );
                                    }
                                    assert(crate::codec::spec_entries_at(
                                        entries@,
                                        pos.x as int,
                                        pos.y as int,
                                    ) == crate::codec::spec_entries_at(
                                        pre_e,
                                        pos.x as int,
                                        pos.y as int,
                                    ).push(e)) by {
                                        crate::grid::lemma_filter_step(
                                            pre_e,
                                            e,
                                            |e2: ChunkEntry| e2.x == pos.x && e2.y == pos.y,
                                        );
                                    }
                                    if entries@.len() < MAX_CHUNK_ENTRIES {
                                        let known_t = self.spec_known_of(ids@.take(t as int));
                                        assert(self.spec_known_of(ids@.take(t + 1)) == known_t.push(
                                            id,
                                        ));
                                        assert(self.spec_records_of(known_t.push(id))
                                            =~= self.spec_records_of(known_t).push(e.record));
                                        assert(crate::codec::spec_entry_records(
                                            crate::codec::spec_entries_at(
                                                pre_e,
                                                pos.x as int,
                                                pos.y as int,
                                            ).push(e),
                                        ) =~= crate::codec::spec_entry_records(
                                            crate::codec::spec_entries_at(
                                                pre_e,
                                                pos.x as int,
                                                pos.y as int,
                                            ),
                                        ).push(e.record));
                                        assert(crate::codec::spec_entry_records(
                                            crate::codec::spec_entries_at(
                                                entries@,
                                                pos.x as int,
                                                pos.y as int,
                                            ),
                                        ) =~= self.spec_records_of(
                                            self.spec_known_of(ids@.take(t + 1)),
                                        ));
                                    }
                                }
                            },
                            None => {
                                proof {
                                    if entries@.len() < MAX_CHUNK_ENTRIES {
                                        assert(crate::codec::spec_entry_records(
                                            crate::codec::spec_entries_at(
                                                entries@,
                                                pos.x as int,
                                                pos.y as int,
                                            ),
                                        ) =~= self.spec_records_of(
                                            self.spec_known_of(ids@.take(t + 1)),
                                        ));
                                    }
                                }
                            },
                        }
                    }
                }
                proof {
                    assert(ids@.take(n as int) == ids@);
                    if entries@.len() < MAX_CHUNK_ENTRIES {
                        assert(crate::codec::spec_entry_records(
                            crate::codec::spec_entries_at(entries@, pos.x as int, pos.y as int),
                        ) == self.spec_records_of(self.spec_known_of(c.occupants_at(pos))));
                    }
                    assert forall|p: V2i|
                        c.spec_in_bounds(p) && !(p.x - c.spec_offset().x < x || (p.x
                            - c.spec_offset().x == x && p.y - c.spec_offset().y < y + 1))
                            implies #[trigger] crate::codec::spec_entries_at(
                        entries@,
                        p.x as int,
                        p.y as int,
                    ) == Seq::<ChunkEntry>::empty() by {
                        assert(p != pos);
                    }
                }
                y = y + 1;
            }
            x = x + 1;
        }
        let version = chunk.grid.version();
        Some(encode_chunk(CHUNK_SIZE as u64, CHUNK_SIZE as u64, version as u64, &entries))
    }


    /// Whether a byte string can be restored as a chunk here: it decodes,
    /// carries no negative mass, names this build's chunk dimensions and a
    /// representable version, and the index space can still cover its
    /// entries.
    pub open spec fn spec_loadable(&self, bytes: Seq<u8>) -> bool {
        &&& crate::codec::spec_decode_chunk(bytes) is Some
        &&& forall|k: int|
            0 <= k < crate::codec::spec_decode_chunk(bytes).unwrap().3.len()
                ==> (#[trigger] crate::codec::spec_decode_chunk(bytes).unwrap().3[k]).record.mass
                >= 0
        &&& crate::codec::spec_decode_chunk(bytes).unwrap().0 == CHUNK_SIZE
        &&& crate::codec::spec_decode_chunk(bytes).unwrap().1 == CHUNK_SIZE
        &&& crate::codec::spec_decode_chunk(bytes).unwrap().2 <= usize::MAX
        &&& self.spec_next_index() <= u64::MAX - MAX_CHUNK_ENTRIES
    }

    /// Restores a chunk from its serialized bytes: on success the chunk is
    /// installed whole under `grid_index`, replacing any loaded copy — its
    /// grid version is the persisted one, and each in-bounds serialized
    /// position holds, in entry order, fresh particles carrying exactly the
    /// decoded records. Malformed bytes, bytes carrying a negative mass,
    /// bytes for a chunk of the wrong dimensions, and an exhausted index
    /// space are rejected whole: nothing is partially applied.
    pub fn load_from_storage(&mut self, grid_index: GridIndex, bytes: &Vec<u8>) -> (r: Result<
        (),
        LoadError,
    >)
        requires
            old(self).wf(),
            i32::MIN <= grid_index.grid_offset.x * CHUNK_SIZE,
            grid_index.grid_offset.x * CHUNK_SIZE + CHUNK_SIZE <= i32::MAX + 1,
            i32::MIN <= grid_index.grid_offset.y * CHUNK_SIZE,
            grid_index.grid_offset.y * CHUNK_SIZE + CHUNK_SIZE <= i32::MAX + 1,
        ensures
            final(self).wf(),
            final(self).spec_moving() == old(self).spec_moving(),
            final(self).spec_stats() == old(self).spec_stats(),
            r is Ok <==> old(self).spec_loadable(bytes@),
            r == Err::<(), LoadError>(LoadError::Malformed) <==> (
            crate::codec::spec_decode_chunk(bytes@) is None || exists|k: int|
                #![trigger crate::codec::spec_decode_chunk(bytes@).unwrap().3[k]]
                0 <= k < crate::codec::spec_decode_chunk(bytes@).unwrap().3.len()
                    && crate::codec::spec_decode_chunk(bytes@).unwrap().3[k].record.mass < 0),
            r == Err::<(), LoadError>(LoadError::WrongDimensions) <==> (r != Err::<
                (),
                LoadError,
            >(LoadError::Malformed) && crate::codec::spec_decode_chunk(bytes@) is Some && !(
            crate::codec::spec_decode_chunk(bytes@).unwrap().0 == CHUNK_SIZE
                && crate::codec::spec_decode_chunk(bytes@).unwrap().1 == CHUNK_SIZE
                && crate::codec::spec_decode_chunk(bytes@).unwrap().2 <= usize::MAX)),
            r == Err::<(), LoadError>(LoadError::IndexExhausted) <==> (r != Err::<
                (),
                LoadError,
            >(LoadError::Malformed) && r != Err::<(), LoadError>(LoadError::WrongDimensions)
                && old(self).spec_next_index() > u64::MAX - MAX_CHUNK_ENTRIES),
            r is Err ==> {
                &&& final(self).spec_cells() == old(self).spec_cells()
                &&& final(self).spec_next_index() == old(self).spec_next_index()
                &&& forall|g: GridIndex|
                    final(self).spec_has_grid(g) == old(self).spec_has_grid(g)
                &&& forall|g: GridIndex|
                    old(self).spec_has_grid(g) ==> final(self).spec_chunk(g) == #[trigger] old(self).spec_chunk(g)
            },
            r is Ok ==> {
                let entries = crate::codec::spec_decode_chunk(bytes@).unwrap().3;
                let c = final(self).spec_chunk(grid_index);
                &&& final(self).spec_has_grid(grid_index)
                &&& c.width == CHUNK_SIZE
                &&& c.height == CHUNK_SIZE
                &&& c.spec_offset().x == grid_index.grid_offset.x * CHUNK_SIZE
                &&& c.spec_offset().y == grid_index.grid_offset.y * CHUNK_SIZE
                &&& c.grid.spec_version() == crate::codec::spec_decode_chunk(bytes@).unwrap().2
                &&& forall|g: GridIndex|
                    g != grid_index ==> #[trigger] final(self).spec_has_grid(g) == old(self).spec_has_grid(g)
                &&& forall|g: GridIndex|
                    g != grid_index && old(self).spec_has_grid(g) ==> final(self).spec_chunk(g)
                        == #[trigger] old(self).spec_chunk(g)
                &&& forall|id: u64|
                    old(self).spec_cells().contains_key(id) ==> final(self).spec_cells().contains_key(id) && final(self).spec_cells()[id]
                        == #[trigger] old(self).spec_cells()[id]
                &&& forall|p: V2i|
                    c.spec_in_bounds(p) ==> #[trigger] final(self).spec_records_of(
                        c.occupants_at(p),
                    ) == crate::codec::spec_entry_records(
                        crate::codec::spec_entries_at(entries, p.x as int, p.y as int),
                    )
                &&& forall|p: V2i, j: int|
                    c.spec_in_bounds(p) && 0 <= j < c.occupants_at(p).len() ==> {
                        let id = #[trigger] c.occupants_at(p)[j];
                        &&& id >= old(self).spec_next_index()
                        &&& final(self).spec_cells().contains_key(id)
                        &&& final(self).spec_cells()[id].pos == p
                    }
                &&& forall|id: u64|
                    #[trigger] final(self).spec_cells().contains_key(id) && !old(self).spec_cells().contains_key(id) ==> id >= old(self).spec_next_index()
                        && c.spec_in_bounds(final(self).spec_cells()[id].pos) && c.occupants_at(
                        final(self).spec_cells()[id].pos,
                    ).contains(id)
            },
    {
        let data = match decode_chunk(bytes) {
            Ok(d) => d,
            Err(_) => {
                return Err(LoadError::Malformed);
            },
        };
        let ghost decoded = crate::codec::spec_decode_chunk(bytes@).unwrap();
        proof {
            assert(crate::codec::spec_decode_chunk(bytes@) == Some(
                (data.width, data.height, data.version, data.entries@),
            ));
            assert(decoded == (data.width, data.height, data.version, data.entries@));
            assert(decoded.3 == data.entries@);
        }
        let n = data.entries.len();
        for k in 0..n
            invariant
                n == data.entries@.len(),
                *self == *old(self),
                old(self).wf(),
                decoded == crate::codec::spec_decode_chunk(bytes@).unwrap(),
                crate::codec::spec_decode_chunk(bytes@) is Some,
                data.entries@ == decoded.3,
                forall|j: int| 0 <= j < k ==> (#[trigger] data.entries@[j]).record.mass >= 0,
        {
            if data.entries[k].record.mass < 0 {
                proof {
                    assert(crate::codec::spec_decode_chunk(bytes@).unwrap().3[k as int]
                        == data.entries@[k as int]);
                }
                return Err(LoadError::Malformed);
            }
        }
        proof {
            assert forall|k: int|
                0 <= k < crate::codec::spec_decode_chunk(bytes@).unwrap().3.len()
                    implies (#[trigger] crate::codec::spec_decode_chunk(bytes@).unwrap().3[k])
                    .record.mass >= 0 by {
                assert(crate::codec::spec_decode_chunk(bytes@).unwrap().3[k]
                    == data.entries@[k]);
            }
        }
        if data.width != CHUNK_SIZE as u64 || data.height != CHUNK_SIZE as u64
            || data.version > usize::MAX as u64 {
            return Err(LoadError::WrongDimensions);
        }
        if self.next_cell_index > u64::MAX - MAX_CHUNK_ENTRIES as u64 {
            return Err(LoadError::IndexExhausted);
        }
        let mut grid: UniverseGrid<u64> = UniverseGrid::new(grid_index, CHUNK_SIZE, CHUNK_SIZE);
        let ghost g0 = grid;
        grid.grid.set_version(data.version as usize);
        proof {
            assert forall|p: V2i| grid.spec_in_bounds(p) implies grid.occupants_at(p) == Seq::<
                u64,
            >::empty() && grid.neighbors_at(p) == Seq::<u64>::empty() by {
                let gx = p.x as int - grid.spec_offset().x as int;
                let gy = p.y as int - grid.spec_offset().y as int;
                assert(0 <= gx < CHUNK_SIZE && 0 <= gy < CHUNK_SIZE);
                if data.version as usize == g0.grid.spec_version() {
                    assert(grid.grid.occupants_at(gx, gy) == g0.grid.occupants_at(gx, gy));
                    assert(g0.occupants_at(p) == Seq::<u64>::empty());
                    assert(g0.neighbors_at(p) == Seq::<u64>::empty());
                } else {
                    assert(grid.grid.occupants_at(gx, gy) == Seq::<u64>::empty());
                    assert(grid.grid.neighbors_at(gx, gy) == Seq::<u64>::empty());
                }
            }
        }
        let ghost pre = *self;
        let ghost base = self.next_cell_index;
        let ghost entries = data.entries@;
        let m = data.entries.len();
        for k in 0..m
            invariant
                pre.wf(),
                pre == *old(self),
                m == data.entries@.len(),
                m <= MAX_CHUNK_ENTRIES,
                data.entries@ == entries,
                forall|j: int| 0 <= j < m ==> (#[trigger] data.entries@[j]).record.mass >= 0,
                self.wf(),
                grid.wf(),
                grid.width == CHUNK_SIZE,
                grid.height == CHUNK_SIZE,
                grid.spec_offset().x == grid_index.grid_offset.x * CHUNK_SIZE,
                grid.spec_offset().y == grid_index.grid_offset.y * CHUNK_SIZE,
                grid.grid.spec_version() == decoded.2,
                base == pre.spec_next_index(),
                base <= self.spec_next_index(),
                self.spec_next_index() as int <= base + k,
                base <= u64::MAX - MAX_CHUNK_ENTRIES,
                self.spec_moving() == pre.spec_moving(),
                self.spec_stats() == pre.spec_stats(),
                self.grids == pre.grids,
                forall|g: GridIndex| self.spec_has_grid(g) == pre.spec_has_grid(g),
                forall|g: GridIndex|
                    pre.spec_has_grid(g) ==> self.spec_chunk(g) == #[trigger] pre.spec_chunk(g),
                forall|id: u64|
                    pre.spec_cells().contains_key(id) ==> self.spec_cells().contains_key(id)
                        && self.spec_cells()[id] == #[trigger] pre.spec_cells()[id],
                forall|id: u64|
                    pre.spec_cells().contains_key(id) ==> id < base,
                forall|id: u64|
                    #[trigger] self.spec_cells().contains_key(id) && !pre.spec_cells().contains_key(
                        id,
                    ) ==> id >= base,
                forall|p: V2i|
                    grid.spec_in_bounds(p) ==> #[trigger] Self::spec_records_in(
                        self.cells@,
                        grid.occupants_at(p),
                    ) == crate::codec::spec_entry_records(
                        crate::codec::spec_entries_at(
                            entries.take(k as int),
                            p.x as int,
                            p.y as int,
                        ),
                    ),
                forall|p: V2i, j: int|
                    grid.spec_in_bounds(p) && 0 <= j < grid.occupants_at(p).len() ==> {
                        let id = #[trigger] grid.occupants_at(p)[j];
                        &&& base <= id < self.spec_next_index()
                        &&& self.spec_cells().contains_key(id)
                        &&& self.spec_cells()[id].pos == p
                    },
                forall|id: u64|
                    #[trigger] self.spec_cells().contains_key(id) && id >= base ==> id
                        < self.spec_next_index() && grid.spec_in_bounds(self.spec_cells()[id].pos)
                        && grid.occupants_at(self.spec_cells()[id].pos).contains(id),
        {
            let e = data.entries[k];
            let pos = V2i { x: e.x, y: e.y };
            let ghost pre_grid = grid;
            let ghost pre_cells = self.cells@;
            let ghost pre_self = *self;
            if grid.is_in_bounds(pos) {
                let id = self.next_cell_index;
                self.next_cell_index = self.next_cell_index + 1;
                self.cells.insert(
                    id,
                    CellState { color: e.record.color, mass: e.record.mass, pos },
                );
                grid.put(pos, id);
                proof {
                    assert forall|i: int|
                        0 <= i < self.moving_cells@.len() implies self.cells@.contains_key(
                        #[trigger] self.moving_cells@[i],
                    ) && self.cells@[self.moving_cells@[i]].mass > 0 by {
                        assert(pre.spec_moving().contains(pre.spec_moving()[i]));
                        assert(pre.cells@.contains_key(pre.moving_cells@[i]));
                    }
                    assert forall|p: V2i| grid.spec_in_bounds(p) implies #[trigger] Self::spec_records_in(
                        self.cells@,
                        grid.occupants_at(p),
                    ) == crate::codec::spec_entry_records(
                        crate::codec::spec_entries_at(
                            entries.take(k + 1),
                            p.x as int,
                            p.y as int,
                        ),
                    ) by {
                        let fp = |e2: ChunkEntry| e2.x == p.x && e2.y == p.y;
                        assert(entries.take(k + 1) == entries.take(k as int).push(
                            entries[k as int],
                        ));
                        crate::grid::lemma_filter_step(
                            entries.take(k as int),
                            entries[k as int],
                            fp,
                        );
                        assert(Self::spec_records_in(self.cells@, pre_grid.occupants_at(p))
                            =~= Self::spec_records_in(pre_cells, pre_grid.occupants_at(p))) by {
                            assert forall|j2: int|
                                0 <= j2 < pre_grid.occupants_at(p).len()
                                    implies self.cells@[#[trigger] pre_grid.occupants_at(p)[j2]]
                                    == pre_cells[pre_grid.occupants_at(p)[j2]] by {
                                assert(pre_grid.occupants_at(p)[j2] < id);
                            }
                        }
                        if p == pos {
                            assert(grid.occupants_at(p) == pre_grid.occupants_at(p).push(id));
                            assert(Self::spec_records_in(self.cells@, grid.occupants_at(p))
                                =~= Self::spec_records_in(
                                self.cells@,
                                pre_grid.occupants_at(p),
                            ).push(e.record));
                            assert(crate::codec::spec_entry_records(
                                crate::codec::spec_entries_at(
                                    entries.take(k + 1),
                                    p.x as int,
                                    p.y as int,
                                ),
                            ) =~= crate::codec::spec_entry_records(
                                crate::codec::spec_entries_at(
                                    entries.take(k as int),
                                    p.x as int,
                                    p.y as int,
                                ),
                            ).push(e.record));
                        } else {
                            assert(!(fp(entries[k as int])));
                            assert(grid.occupants_at(p) == pre_grid.occupants_at(p));
                            assert(crate::codec::spec_entries_at(
                                entries.take(k + 1),
                                p.x as int,
                                p.y as int,
                            ) == crate::codec::spec_entries_at(
                                entries.take(k as int),
                                p.x as int,
                                p.y as int,
                            ));
                            assert(Self::spec_records_in(self.cells@, grid.occupants_at(p))
                                =~= crate::codec::spec_entry_records(
                                crate::codec::spec_entries_at(
                                    entries.take(k + 1),
                                    p.x as int,
                                    p.y as int,
                                ),
                            ));
                        }
                    }
                    assert forall|id2: u64|
                        #[trigger] self.spec_cells().contains_key(id2) && id2 >= base implies id2
                        < self.spec_next_index() && grid.spec_in_bounds(
                        self.spec_cells()[id2].pos,
                    ) && grid.occupants_at(self.spec_cells()[id2].pos).contains(id2) by {
                        if id2 != id {
                            assert(pre_self.spec_cells().contains_key(id2));
                            assert(self.spec_cells()[id2] == pre_self.spec_cells()[id2]);
                            let q = pre_self.spec_cells()[id2].pos;
                            assert(pre_grid.spec_in_bounds(q));
                            assert(pre_grid.occupants_at(q).contains(id2));
                            assert(grid.spec_in_bounds(q));
                            let j0 = choose|j0: int|
                                0 <= j0 < pre_grid.occupants_at(q).len()
                                    && pre_grid.occupants_at(q)[j0] == id2;
                            if q == pos {
                                assert(grid.occupants_at(q) == pre_grid.occupants_at(q).push(
                                    id,
                                ));
                                assert(grid.occupants_at(q)[j0] == id2);
                            } else {
                                assert(grid.occupants_at(q) == pre_grid.occupants_at(q));
                                assert(grid.occupants_at(q)[j0] == id2);
                            }
                            assert(grid.occupants_at(q).contains(id2));
                        } else {
                            assert(self.spec_cells()[id].pos == pos);
                            assert(grid.occupants_at(pos) == pre_grid.occupants_at(pos).push(
                                id,
                            ));
                            assert(grid.occupants_at(pos)[grid.occupants_at(pos).len() - 1]
                                == id);
                            assert(grid.occupants_at(pos).contains(id));
                        }
                    }
                    assert forall|id2: u64|
                        #[trigger] self.spec_cells().contains_key(id2)
                            && !pre.spec_cells().contains_key(id2) implies id2 >= base by {
                        if id2 != id {
                            assert(pre_self.spec_cells().contains_key(id2));
                        }
                    }
                }
            } else {
                proof {
                    assert forall|p: V2i| grid.spec_in_bounds(p) implies #[trigger] Self::spec_records_in(
                        self.cells@,
                        grid.occupants_at(p),
                    ) == crate::codec::spec_entry_records(
                        crate::codec::spec_entries_at(
                            entries.take(k + 1),
                            p.x as int,
                            p.y as int,
                        ),
                    ) by {
                        let fp = |e2: ChunkEntry| e2.x == p.x && e2.y == p.y;
                        assert(entries.take(k + 1) == entries.take(k as int).push(
                            entries[k as int],
                        ));
                        crate::grid::lemma_filter_step(
                            entries.take(k as int),
                            entries[k as int],
                            fp,
                        );
                        assert(!(fp(entries[k as int]))) by {
                            if fp(entries[k as int]) {
                                assert(V2i { x: e.x, y: e.y } == p);
                                assert(grid.spec_in_bounds(pos));
                                assert(false);
                            }
                        }
                    }
                }
            }
        }
        let ghost post_loop = *self;
        self.grids.insert(grid_index, grid);
        proof {
            assert(entries.take(m as int) == entries);
            assert(pre == *old(self));
            assert(self.spec_cells() == post_loop.spec_cells());
            assert forall|id: u64|
                #[trigger] self.spec_cells().contains_key(id) && !pre.spec_cells().contains_key(
                    id,
                ) implies id >= base && grid.spec_in_bounds(self.spec_cells()[id].pos)
                && grid.occupants_at(self.spec_cells()[id].pos).contains(id) by {
                assert(post_loop.spec_cells().contains_key(id));
                assert(id >= base);
            }
            assert forall|p: V2i|
                grid.spec_in_bounds(p) implies #[trigger] Self::spec_records_in(
                self.cells@,
                grid.occupants_at(p),
            ) == crate::codec::spec_entry_records(
                crate::codec::spec_entries_at(entries, p.x as int, p.y as int),
            ) by {
                assert(Self::spec_records_in(post_loop.cells@, grid.occupants_at(p))
                    == crate::codec::spec_entry_records(
                    crate::codec::spec_entries_at(entries, p.x as int, p.y as int),
                ));
            }
            assert forall|i: int|
                0 <= i < self.moving_cells@.len() implies self.cells@.contains_key(
                #[trigger] self.moving_cells@[i],
            ) && self.cells@[self.moving_cells@[i]].mass > 0 by {
                assert(pre.spec_moving().contains(pre.spec_moving()[i]));
                assert(pre.cells@.contains_key(pre.moving_cells@[i]));
            }
            assert forall|id: u64| self.cells@.contains_key(id) implies id
                < self.next_cell_index && (#[trigger] self.cells@[id]).mass >= 0 by {}
            assert(self.wf());
            assert(self.spec_chunk(grid_index) == grid);
        }
        Ok(())
    }



    /// A read-only snapshot of a rectangular window for rendering: one entry
    /// per lattice position, in x-major order, each carrying that cell's
    /// occupant indices. Every chunk covering the window must be loaded;
    /// reading through an unloaded chunk is a caller error.
    pub fn get_range(&self, start_pos: V2i, end_pos: V2i) -> (r: Vec<(V2i, Vec<u64>)>)
        requires
            self.wf(),
            start_pos.x <= end_pos.x,
            start_pos.y <= end_pos.y,
            end_pos.x - start_pos.x <= 0x8000,
            end_pos.y - start_pos.y <= 0x8000,
            forall|p: V2i|
                start_pos.x <= p.x < end_pos.x && start_pos.y <= p.y < end_pos.y
                    ==> #[trigger] self.spec_has_grid(self.spec_index_of(p)),
        ensures
            r@.len() == (end_pos.x - start_pos.x) * (end_pos.y - start_pos.y),
            forall|k: int|
                0 <= k < r@.len() ==> {
                    let ny = end_pos.y - start_pos.y;
                    let p = V2i {
                        x: (start_pos.x + k / ny) as i32,
                        y: (start_pos.y + k % ny) as i32,
                    };
                    &&& (#[trigger] r@[k]).0 == p
                    &&& r@[k].1@ == self.spec_chunk(self.spec_index_of(p)).occupants_at(p)
                },
    {
        let ghost ny = (end_pos.y - start_pos.y) as int;
        let mut r: Vec<(V2i, Vec<u64>)> = Vec::new();
        let mut x = start_pos.x;
        while x < end_pos.x
            invariant
                self.wf(),
                start_pos.x <= x <= end_pos.x,
                start_pos.y <= end_pos.y,
                end_pos.x - start_pos.x <= 0x8000,
                end_pos.y - start_pos.y <= 0x8000,
                ny == end_pos.y - start_pos.y,
                forall|p: V2i|
                    start_pos.x <= p.x < end_pos.x && start_pos.y <= p.y < end_pos.y
                        ==> #[trigger] self.spec_has_grid(self.spec_index_of(p)),
                r@.len() == (x - start_pos.x) * ny,
                forall|k: int|
                    0 <= k < r@.len() ==> {
                        let p = V2i {
                            x: (start_pos.x + k / ny) as i32,
                            y: (start_pos.y + k % ny) as i32,
                        };
                        &&& (#[trigger] r@[k]).0 == p
                        &&& r@[k].1@ == self.spec_chunk(self.spec_index_of(p)).occupants_at(p)
                    },
            decreases end_pos.x - x,
        {
            let mut y = start_pos.y;
            while y < end_pos.y
                invariant
                    self.wf(),
                    start_pos.x <= x < end_pos.x,
                    start_pos.y <= y <= end_pos.y,
                    end_pos.x - start_pos.x <= 0x8000,
                    end_pos.y - start_pos.y <= 0x8000,
                    ny == end_pos.y - start_pos.y,
                    forall|p: V2i|
                        start_pos.x <= p.x < end_pos.x && start_pos.y <= p.y < end_pos.y
                            ==> #[trigger] self.spec_has_grid(self.spec_index_of(p)),
                    r@.len() == (x - start_pos.x) * ny + (y - start_pos.y),
                    forall|k: int|
                        0 <= k < r@.len() ==> {
                            let p = V2i {
                                x: (start_pos.x + k / ny) as i32,
                                y: (start_pos.y + k % ny) as i32,
                            };
                            &&& (#[trigger] r@[k]).0 == p
                            &&& r@[k].1@ == self.spec_chunk(self.spec_index_of(p)).occupants_at(p)
                        },
                decreases end_pos.y - y,
            {
                let pos = V2i { x, y };
                let bucket = match self.grids.get_at(pos) {
                    Some(b) => b,
                    None => {
                        proof {
                            assert(self.spec_has_grid(self.spec_index_of(pos)));
                            assert(false);
                        }
                        return r;
                    },
                };
                let ghost pre = r@;
                r.push((pos, bucket.value));
                proof {
                    let k = pre.len() as int;
                    vstd::arithmetic::div_mod::lemma_fundamental_div_mod_converse(
                        k,
                        ny,
                        x - start_pos.x,
                        y - start_pos.y,
                    );
                    assert(r@[k].0 == pos);
                    assert forall|k2: int|
                        0 <= k2 < r@.len() implies {
                        let p = V2i {
                            x: (start_pos.x + k2 / ny) as i32,
                            y: (start_pos.y + k2 % ny) as i32,
                        };
                        &&& (#[trigger] r@[k2]).0 == p
                        &&& r@[k2].1@ == self.spec_chunk(self.spec_index_of(p)).occupants_at(p)
                    } by {
                        if k2 < k {
                            assert(r@[k2] == pre[k2]);
                        }
                    }
                }
                y = y + 1;
            }
            proof {
                assert((x + 1 - start_pos.x) * ny == (x - start_pos.x) * ny + ny)
                    by (nonlinear_arith);
            }
            x = x + 1;
        }
        proof {
            assert((end_pos.x - start_pos.x) * ny == r@.len());
        }
        r
    }

    /// Reads the stats counters and resets them.
    pub fn stats(&mut self) -> (r: Stats)
        ensures
            r == old(self).spec_stats(),
            final(self).spec_stats().spec_is_zero(),
            final(self).spec_cells() == old(self).spec_cells(),
            final(self).spec_moving() == old(self).spec_moving(),
            final(self).spec_next_index() == old(self).spec_next_index(),
            old(self).wf() ==> final(self).wf(),
            forall|g: GridIndex| final(self).spec_has_grid(g) == old(self).spec_has_grid(g),
            forall|g: GridIndex|
                old(self).spec_has_grid(g) ==> #[trigger] final(self).spec_chunk(g) == old(self).spec_chunk(g),
    {
        let r = self.stats.get_and_reset();
        proof {
            if old(self).wf() {
                self.lemma_wf_carry(*old(self));
            }
        }
        r
    }

    /// Counts one outer tick.
    pub fn bump_ticks(&mut self)
        ensures
            final(self).spec_stats().spec_ticks() == old(self).spec_stats().spec_ticks() + if old(self).spec_stats().spec_ticks() < usize::MAX {
                1int
            } else {
                0int
            },
            final(self).spec_stats().spec_cells_count() == old(self).spec_stats().spec_cells_count(),
            final(self).spec_stats().spec_collisions_count() == old(self).spec_stats().spec_collisions_count(),
            final(self).spec_stats().spec_collision_pairs_tested() == old(self).spec_stats().spec_collision_pairs_tested(),
            final(self).spec_cells() == old(self).spec_cells(),
            final(self).spec_moving() == old(self).spec_moving(),
            final(self).spec_next_index() == old(self).spec_next_index(),
            old(self).wf() ==> final(self).wf(),
            forall|g: GridIndex| final(self).spec_has_grid(g) == old(self).spec_has_grid(g),
            forall|g: GridIndex|
                old(self).spec_has_grid(g) ==> #[trigger] final(self).spec_chunk(g) == old(self).spec_chunk(g),
    {
        if self.stats.ticks < usize::MAX {
            self.stats.ticks = self.stats.ticks + 1;
        }
        proof {
            if old(self).wf() {
                self.lemma_wf_carry(*old(self));
            }
        }
    }
}

impl Stats {
    /// Counts one tested collision pair, saturating.
    fn bump_pairs_tested(&mut self)
        ensures
            final(self).spec_collision_pairs_tested() == old(self).spec_collision_pairs_tested()
                + if old(self).spec_collision_pairs_tested() < usize::MAX {
                1int
            } else {
                0int
            },
            final(self).spec_ticks() == old(self).spec_ticks(),
            final(self).spec_cells_count() == old(self).spec_cells_count(),
            final(self).spec_collisions_count() == old(self).spec_collisions_count(),
    {
        if self.collision_pairs_tested < usize::MAX {
            self.collision_pairs_tested = self.collision_pairs_tested + 1;
        }
    }

    /// Counts one accepted particle, saturating.
    fn bump_cells_count(&mut self)
        ensures
            final(self).spec_cells_count() == old(self).spec_cells_count() + if old(self).spec_cells_count() < usize::MAX {
                1int
            } else {
                0int
            },
            final(self).spec_ticks() == old(self).spec_ticks(),
            final(self).spec_collisions_count() == old(self).spec_collisions_count(),
            final(self).spec_collision_pairs_tested() == old(self).spec_collision_pairs_tested(),
    {
        if self.cells_count < usize::MAX {
            self.cells_count = self.cells_count + 1;
        }
    }
}



} // verus!
