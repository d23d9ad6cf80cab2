//! The chunk persistence state machine.
//!
//! Each chunk position carries three pieces of state: whether a copy is in
//! persistent storage, whether it is loaded in memory, and whether the loaded
//! copy has unsaved changes. The transitions enforce the paging discipline: a
//! missing chunk loads as pristine, a stored chunk loads as unmodified, only
//! a loaded pristine-or-unmodified chunk may be marked dirty or unloaded, and
//! storing a dirty-or-unmodified chunk flips it to unmodified. A dirty chunk
//! can never be unloaded directly: it must be stored first.

use std::collections::HashMap;
use vstd::prelude::*;

verus! {

broadcast use vstd::std_specs::hash::group_hash_axioms, vstd::std_specs::hash::axiom_u32_obeys_hash_table_key_model;

/// Identity of one player.
#[derive(Debug, PartialEq, Eq, Hash, Clone, Copy, Structural)]
pub struct PlayerId(u32);

impl PlayerId {
    pub closed spec fn spec_id(&self) -> u32 {
        self.0
    }

    pub fn new(id: u32) -> (r: Self)
        ensures
            r.spec_id() == id,
    {
        PlayerId(id)
    }
}

/// Identity of one chunk position in the persistence model.
#[derive(Debug, PartialEq, Eq, Hash, Clone, Copy, Structural)]
pub struct GridPos(u32);

impl GridPos {
    pub closed spec fn spec_id(&self) -> u32 {
        self.0
    }

    pub fn new(pos: u32) -> (r: Self)
        ensures
            r.spec_id() == pos,
    {
        GridPos(pos)
    }
}

/// Whether a chunk has a copy in persistent storage.
#[derive(Debug, PartialEq, Eq, Hash, Clone, Copy, Structural)]
pub enum GridStoreStatus {
    Stored,
    NotStored,
}

/// Whether a chunk is loaded in memory.
#[derive(Debug, PartialEq, Eq, Hash, Clone, Copy, Structural)]
pub enum GridLoadStatus {
    Loaded,
    NotLoaded,
}

/// Whether a loaded chunk has diverged from its stored copy. `Unknown` is
/// the initial state of a chunk that has never been loaded.
#[derive(Debug, PartialEq, Eq, Hash, Clone, Copy, Structural)]
pub enum GridDirtyStatus {
    Dirty,
    Unmodified,
    Pristine,
    Unknown,
}

/// The whole persistence state: one status triple per chunk position and one
/// position per player.
pub struct GridSystem {
    grid_store_status: HashMap<u32, GridStoreStatus>,
    grid_load_status: HashMap<u32, GridLoadStatus>,
    grid_dirty_status: HashMap<u32, GridDirtyStatus>,
    player_positions: HashMap<u32, GridPos>,
    all_grid_positions: Vec<GridPos>,
    all_player_ids: Vec<PlayerId>,
}

impl GridSystem {
    pub closed spec fn store_map(&self) -> Map<u32, GridStoreStatus> {
        self.grid_store_status@
    }

    pub closed spec fn load_map(&self) -> Map<u32, GridLoadStatus> {
        self.grid_load_status@
    }

    pub closed spec fn dirty_map(&self) -> Map<u32, GridDirtyStatus> {
        self.grid_dirty_status@
    }

    pub closed spec fn player_map(&self) -> Map<u32, GridPos> {
        self.player_positions@
    }

    /// The chunk positions this system was created over.
    pub closed spec fn spec_positions(&self) -> Seq<GridPos> {
        self.all_grid_positions@
    }

    /// The player identities this system was created over.
    pub closed spec fn spec_players(&self) -> Seq<PlayerId> {
        self.all_player_ids@
    }

    /// The storage status recorded for `pos`, if any.
    pub open spec fn spec_store(&self, pos: GridPos) -> Option<GridStoreStatus> {
        if self.store_map().contains_key(pos.spec_id()) {
            Some(self.store_map()[pos.spec_id()])
        } else {
            None
        }
    }

    /// The load status recorded for `pos`, if any.
    pub open spec fn spec_load(&self, pos: GridPos) -> Option<GridLoadStatus> {
        if self.load_map().contains_key(pos.spec_id()) {
            Some(self.load_map()[pos.spec_id()])
        } else {
            None
        }
    }

    /// The dirty status recorded for `pos`, if any.
    pub open spec fn spec_dirty(&self, pos: GridPos) -> Option<GridDirtyStatus> {
        if self.dirty_map().contains_key(pos.spec_id()) {
            Some(self.dirty_map()[pos.spec_id()])
        } else {
            None
        }
    }

    /// The chunk position recorded for a player, if any.
    pub open spec fn spec_player(&self, id: PlayerId) -> Option<GridPos> {
        if self.player_map().contains_key(id.spec_id()) {
            Some(self.player_map()[id.spec_id()])
        } else {
            None
        }
    }

    /// A fresh system: every given chunk position is not stored, not loaded
    /// and of unknown dirtiness, and every given player starts at the first
    /// given position.
    pub fn new(all_grid_positions: Vec<GridPos>, all_player_ids: Vec<PlayerId>) -> (r: GridSystem)
        requires
            all_grid_positions@.len() > 0,
        ensures
            forall|p: GridPos|
                all_grid_positions@.contains(p) ==> #[trigger] r.spec_store(p) == Some(
                    GridStoreStatus::NotStored,
                ) && r.spec_load(p) == Some(GridLoadStatus::NotLoaded) && r.spec_dirty(p) == Some(
                    GridDirtyStatus::Unknown,
                ),
            forall|p: GridPos|
                !all_grid_positions@.contains(p) ==> #[trigger] r.spec_store(p) == None::<
                    GridStoreStatus,
                > && r.spec_load(p) == None::<GridLoadStatus> && r.spec_dirty(p) == None::<
                    GridDirtyStatus,
                >,
            forall|id: PlayerId|
                all_player_ids@.contains(id) ==> #[trigger] r.spec_player(id) == Some(
                    all_grid_positions@[0],
                ),
            forall|id: PlayerId|
                !all_player_ids@.contains(id) ==> #[trigger] r.spec_player(id) == None::<GridPos>,
    {
        let mut system = GridSystem {
            grid_store_status: HashMap::new(),
            grid_load_status: HashMap::new(),
            grid_dirty_status: HashMap::new(),
            player_positions: HashMap::new(),
            all_grid_positions,
            all_player_ids,
        };
        system.initialize_system();
        system
    }

    /// Writes the initial status of every chunk position and player.
    fn initialize_system(&mut self)
        requires
            old(self).all_grid_positions@.len() > 0,
        ensures
            final(self).spec_positions() == old(self).spec_positions(),
            final(self).spec_players() == old(self).spec_players(),
            forall|p: GridPos|
                old(self).all_grid_positions@.contains(p) ==> #[trigger] final(self).spec_store(p)
                    == Some(GridStoreStatus::NotStored) && final(self).spec_load(p) == Some(
                    GridLoadStatus::NotLoaded,
                ) && final(self).spec_dirty(p) == Some(GridDirtyStatus::Unknown),
            forall|p: GridPos|
                !old(self).all_grid_positions@.contains(p) ==> #[trigger] final(self).spec_store(p)
                    == None::<GridStoreStatus> && final(self).spec_load(p) == None::<GridLoadStatus>
                    && final(self).spec_dirty(p) == None::<GridDirtyStatus>,
            forall|id: PlayerId|
                old(self).all_player_ids@.contains(id) ==> #[trigger] final(self).spec_player(id)
                    == Some(old(self).all_grid_positions@[0]),
            forall|id: PlayerId|
                !old(self).all_player_ids@.contains(id) ==> #[trigger] final(self).spec_player(id)
                    == None::<GridPos>,
    {
        self.grid_store_status = HashMap::new();
        self.grid_load_status = HashMap::new();
        self.grid_dirty_status = HashMap::new();
        self.player_positions = HashMap::new();
        let ghost ps = self.all_grid_positions@;
        let n = self.all_grid_positions.len();
        for i in 0..n
            invariant
                n == self.all_grid_positions@.len(),
                self.all_grid_positions@ == ps,
                self.all_player_ids@ == old(self).all_player_ids@,
                forall|j: int|
                    0 <= j < i ==> {
                        let k = (#[trigger] ps[j]).spec_id();
                        &&& self.store_map().contains_key(k) && self.store_map()[k]
                            == GridStoreStatus::NotStored
                        &&& self.load_map().contains_key(k) && self.load_map()[k]
                            == GridLoadStatus::NotLoaded
                        &&& self.dirty_map().contains_key(k) && self.dirty_map()[k]
                            == GridDirtyStatus::Unknown
                    },
                forall|k: u32|
                    self.store_map().contains_key(k) ==> exists|j: int|
                        0 <= j < i && (#[trigger] ps[j]).spec_id() == k,
                forall|k: u32| self.load_map().contains_key(k) == self.store_map().contains_key(k),
                forall|k: u32| self.dirty_map().contains_key(k) == self.store_map().contains_key(k),
                self.player_map() == Map::<u32, GridPos>::empty(),
        {
            let p = self.all_grid_positions[i];
            self.grid_store_status.insert(p.0, GridStoreStatus::NotStored);
            self.grid_load_status.insert(p.0, GridLoadStatus::NotLoaded);
            self.grid_dirty_status.insert(p.0, GridDirtyStatus::Unknown);
            proof {
                assert forall|k: u32| self.store_map().contains_key(k) implies exists|j: int|
                    0 <= j < i + 1 && (#[trigger] ps[j]).spec_id() == k by {
                    if k == p.spec_id() {
                        assert(0 <= i < i + 1 && ps[i as int].spec_id() == k);
                    } else {
                        let j0 = choose|j: int| 0 <= j < i && (#[trigger] ps[j]).spec_id() == k;
                        assert(0 <= j0 < i + 1 && ps[j0].spec_id() == k);
                    }
                }
            }
        }
        let initial_player_pos = self.all_grid_positions[0];
        let ghost ids = self.all_player_ids@;
        let ghost smap = self.store_map();
        let ghost lmap = self.load_map();
        let ghost dmap = self.dirty_map();
        let m = self.all_player_ids.len();
        for i in 0..m
            invariant
                m == self.all_player_ids@.len(),
                self.all_grid_positions@ == ps,
                self.all_player_ids@ == ids,
                ps.len() > 0,
                initial_player_pos == ps[0],
                self.store_map() == smap,
                self.load_map() == lmap,
                self.dirty_map() == dmap,
                forall|j: int|
                    0 <= j < i ==> {
                        let k = (#[trigger] ids[j]).spec_id();
                        self.player_map().contains_key(k) && self.player_map()[k] == ps[0]
                    },
                forall|k: u32|
                    self.player_map().contains_key(k) ==> exists|j: int|
                        0 <= j < i && (#[trigger] ids[j]).spec_id() == k,
        {
            let id = self.all_player_ids[i];
            let ghost before = self.player_map();
            self.player_positions.insert(id.0, initial_player_pos);
            proof {
                assert forall|k: u32| self.player_map().contains_key(k) implies exists|j: int|
                    0 <= j < i + 1 && (#[trigger] ids[j]).spec_id() == k by {
                    if k == id.spec_id() {
                        assert(0 <= i < i + 1 && ids[i as int].spec_id() == k);
                    } else {
                        assert(before.contains_key(k));
                        let j0 = choose|j: int| 0 <= j < i && (#[trigger] ids[j]).spec_id() == k;
                        assert(0 <= j0 < i + 1 && ids[j0].spec_id() == k);
                    }
                }
            }
        }
        proof {
            assert forall|p: GridPos| ps.contains(p) implies #[trigger] self.spec_store(p) == Some(
                GridStoreStatus::NotStored,
            ) && self.spec_load(p) == Some(GridLoadStatus::NotLoaded) && self.spec_dirty(p) == Some(
                GridDirtyStatus::Unknown,
            ) by {
                let j = choose|j: int| 0 <= j < ps.len() && ps[j] == p;
                assert(ps[j].spec_id() == p.spec_id());
            }
            assert forall|p: GridPos| !ps.contains(p) implies #[trigger] self.spec_store(p)
                == None::<GridStoreStatus> && self.spec_load(p) == None::<GridLoadStatus>
                && self.spec_dirty(p) == None::<GridDirtyStatus> by {
                if self.store_map().contains_key(p.spec_id()) {
                    let j = choose|j: int|
                        0 <= j < ps.len() && (#[trigger] ps[j]).spec_id() == p.spec_id();
                    assert(ps[j] == p);
                    assert(false);
                }
            }
            assert forall|id: PlayerId| ids.contains(id) implies #[trigger] self.spec_player(id)
                == Some(ps[0]) by {
                let j = choose|j: int| 0 <= j < ids.len() && ids[j] == id;
                assert(ids[j].spec_id() == id.spec_id());
            }
            assert forall|id: PlayerId| !ids.contains(id) implies #[trigger] self.spec_player(id)
                == None::<GridPos> by {
                if self.player_map().contains_key(id.spec_id()) {
                    let j = choose|j: int|
                        0 <= j < ids.len() && (#[trigger] ids[j]).spec_id() == id.spec_id();
                    assert(ids[j] == id);
                    assert(false);
                }
            }
        }
    }

    /// A player moves to a new position; allowed only if the chunk at that
    /// position is loaded. Reports whether the move happened.
    pub fn player_moves(&mut self, player_id: PlayerId, new_pos: GridPos) -> (r: bool)
        ensures
            r == (old(self).spec_load(new_pos) == Some(GridLoadStatus::Loaded)),
            r ==> final(self).player_map() == old(self).player_map().insert(
                player_id.spec_id(),
                new_pos,
            ),
            !r ==> final(self).player_map() == old(self).player_map(),
            final(self).store_map() == old(self).store_map(),
            final(self).load_map() == old(self).load_map(),
            final(self).dirty_map() == old(self).dirty_map(),
            final(self).spec_positions() == old(self).spec_positions(),
            final(self).spec_players() == old(self).spec_players(),
    {
        if !self.is_loaded(new_pos) {
            return false;
        }
        self.player_positions.insert(player_id.0, new_pos);
        true
    }

    /// Whether the chunk at `pos` is recorded as loaded.
    fn is_loaded(&self, pos: GridPos) -> (r: bool)
        ensures
            r == (self.spec_load(pos) == Some(GridLoadStatus::Loaded)),
    {
        match self.grid_load_status.get(&pos.0) {
            Some(s) => *s == GridLoadStatus::Loaded,
            None => false,
        }
    }

    /// A chunk with no stored copy is loaded and marked pristine. Reports
    /// whether the transition was allowed.
    pub fn load_missing_grid(&mut self, pos: GridPos) -> (r: bool)
        ensures
            r == (old(self).spec_store(pos) == Some(GridStoreStatus::NotStored) && old(
                self,
            ).spec_load(pos) == Some(GridLoadStatus::NotLoaded)),
            r ==> final(self).load_map() == old(self).load_map().insert(
                pos.spec_id(),
                GridLoadStatus::Loaded,
            ) && final(self).dirty_map() == old(self).dirty_map().insert(
                pos.spec_id(),
                GridDirtyStatus::Pristine,
            ),
            !r ==> final(self).load_map() == old(self).load_map() && final(self).dirty_map()
                == old(self).dirty_map(),
            final(self).store_map() == old(self).store_map(),
            final(self).player_map() == old(self).player_map(),
            final(self).spec_positions() == old(self).spec_positions(),
            final(self).spec_players() == old(self).spec_players(),
    {
        let store_ok = match self.grid_store_status.get(&pos.0) {
            Some(s) => *s == GridStoreStatus::NotStored,
            None => false,
        };
        let load_ok = match self.grid_load_status.get(&pos.0) {
            Some(s) => *s == GridLoadStatus::NotLoaded,
            None => false,
        };
        if !store_ok || !load_ok {
            return false;
        }
        self.grid_load_status.insert(pos.0, GridLoadStatus::Loaded);
        self.grid_dirty_status.insert(pos.0, GridDirtyStatus::Pristine);
        true
    }

    /// A chunk with a stored copy is loaded and marked unmodified. Reports
    /// whether the transition was allowed.
    pub fn load_stored_grid(&mut self, pos: GridPos) -> (r: bool)
        ensures
            r == (old(self).spec_store(pos) == Some(GridStoreStatus::Stored) && old(
                self,
            ).spec_load(pos) == Some(GridLoadStatus::NotLoaded)),
            r ==> final(self).load_map() == old(self).load_map().insert(
                pos.spec_id(),
                GridLoadStatus::Loaded,
            ) && final(self).dirty_map() == old(self).dirty_map().insert(
                pos.spec_id(),
                GridDirtyStatus::Unmodified,
            ),
            !r ==> final(self).load_map() == old(self).load_map() && final(self).dirty_map()
                == old(self).dirty_map(),
            final(self).store_map() == old(self).store_map(),
            final(self).player_map() == old(self).player_map(),
            final(self).spec_positions() == old(self).spec_positions(),
            final(self).spec_players() == old(self).spec_players(),
    {
        let store_ok = match self.grid_store_status.get(&pos.0) {
            Some(s) => *s == GridStoreStatus::Stored,
            None => false,
        };
        let load_ok = match self.grid_load_status.get(&pos.0) {
            Some(s) => *s == GridLoadStatus::NotLoaded,
            None => false,
        };
        if !store_ok || !load_ok {
            return false;
        }
        self.grid_load_status.insert(pos.0, GridLoadStatus::Loaded);
        self.grid_dirty_status.insert(pos.0, GridDirtyStatus::Unmodified);
        true
    }

    /// A loaded pristine-or-unmodified chunk is marked dirty. Reports whether
    /// the transition was allowed.
    pub fn mark_dirty(&mut self, pos: GridPos) -> (r: bool)
        ensures
            r == (old(self).spec_load(pos) == Some(GridLoadStatus::Loaded) && (old(
                self,
            ).spec_dirty(pos) == Some(GridDirtyStatus::Pristine) || old(self).spec_dirty(pos)
                == Some(GridDirtyStatus::Unmodified))),
            r ==> final(self).dirty_map() == old(self).dirty_map().insert(
                pos.spec_id(),
                GridDirtyStatus::Dirty,
            ),
            !r ==> final(self).dirty_map() == old(self).dirty_map(),
            final(self).store_map() == old(self).store_map(),
            final(self).load_map() == old(self).load_map(),
            final(self).player_map() == old(self).player_map(),
            final(self).spec_positions() == old(self).spec_positions(),
            final(self).spec_players() == old(self).spec_players(),
    {
        let dirty_ok = match self.grid_dirty_status.get(&pos.0) {
            Some(s) => *s == GridDirtyStatus::Pristine || *s == GridDirtyStatus::Unmodified,
            None => false,
        };
        if !self.is_loaded(pos) || !dirty_ok {
            return false;
        }
        self.grid_dirty_status.insert(pos.0, GridDirtyStatus::Dirty);
        true
    }

    /// A loaded dirty-or-unmodified chunk is written to storage; its dirty
    /// status resets to unmodified in the same step. Reports whether the
    /// transition was allowed.
    pub fn store_grid(&mut self, pos: GridPos) -> (r: bool)
        ensures
            r == (old(self).spec_load(pos) == Some(GridLoadStatus::Loaded) && (old(
                self,
            ).spec_dirty(pos) == Some(GridDirtyStatus::Dirty) || old(self).spec_dirty(pos) == Some(
                GridDirtyStatus::Unmodified,
            ))),
            r ==> final(self).store_map() == old(self).store_map().insert(
                pos.spec_id(),
                GridStoreStatus::Stored,
            ) && final(self).dirty_map() == old(self).dirty_map().insert(
                pos.spec_id(),
                GridDirtyStatus::Unmodified,
            ),
            !r ==> final(self).store_map() == old(self).store_map() && final(self).dirty_map()
                == old(self).dirty_map(),
            final(self).load_map() == old(self).load_map(),
            final(self).player_map() == old(self).player_map(),
            final(self).spec_positions() == old(self).spec_positions(),
            final(self).spec_players() == old(self).spec_players(),
    {
        let dirty_ok = match self.grid_dirty_status.get(&pos.0) {
            Some(s) => *s == GridDirtyStatus::Dirty || *s == GridDirtyStatus::Unmodified,
            None => false,
        };
        if !self.is_loaded(pos) || !dirty_ok {
            return false;
        }
        self.grid_store_status.insert(pos.0, GridStoreStatus::Stored);
        self.grid_dirty_status.insert(pos.0, GridDirtyStatus::Unmodified);
        true
    }

    /// A loaded pristine-or-unmodified chunk is unloaded from memory; its
    /// dirty status is kept. A dirty chunk is refused: it must be stored
    /// first. Reports whether the transition was allowed.
    pub fn unload_pristine_unmodified_grid(&mut self, pos: GridPos) -> (r: bool)
        ensures
            r == (old(self).spec_load(pos) == Some(GridLoadStatus::Loaded) && (old(
                self,
            ).spec_dirty(pos) == Some(GridDirtyStatus::Pristine) || old(self).spec_dirty(pos)
                == Some(GridDirtyStatus::Unmodified))),
            r ==> final(self).load_map() == old(self).load_map().insert(
                pos.spec_id(),
                GridLoadStatus::NotLoaded,
            ),
            !r ==> final(self).load_map() == old(self).load_map(),
            final(self).store_map() == old(self).store_map(),
            final(self).dirty_map() == old(self).dirty_map(),
            final(self).player_map() == old(self).player_map(),
            final(self).spec_positions() == old(self).spec_positions(),
            final(self).spec_players() == old(self).spec_players(),
    {
        let dirty_ok = match self.grid_dirty_status.get(&pos.0) {
            Some(s) => *s == GridDirtyStatus::Pristine || *s == GridDirtyStatus::Unmodified,
            None => false,
        };
        if !self.is_loaded(pos) || !dirty_ok {
            return false;
        }
        self.grid_load_status.insert(pos.0, GridLoadStatus::NotLoaded);
        true
    }

    /// A loaded dirty chunk is written to storage and marked unmodified, in
    /// one step; the chunk stays loaded. Reports whether the transition was
    /// allowed.
    pub fn store_and_unload_dirty_grid(&mut self, pos: GridPos) -> (r: bool)
        ensures
            r == (old(self).spec_load(pos) == Some(GridLoadStatus::Loaded) && old(self).spec_dirty(
                pos,
            ) == Some(GridDirtyStatus::Dirty)),
            r ==> final(self).store_map() == old(self).store_map().insert(
                pos.spec_id(),
                GridStoreStatus::Stored,
            ) && final(self).dirty_map() == old(self).dirty_map().insert(
                pos.spec_id(),
                GridDirtyStatus::Unmodified,
            ),
            !r ==> final(self).store_map() == old(self).store_map() && final(self).dirty_map()
                == old(self).dirty_map(),
            final(self).load_map() == old(self).load_map(),
            final(self).player_map() == old(self).player_map(),
            final(self).spec_positions() == old(self).spec_positions(),
            final(self).spec_players() == old(self).spec_players(),
    {
        let dirty_ok = match self.grid_dirty_status.get(&pos.0) {
            Some(s) => *s == GridDirtyStatus::Dirty,
            None => false,
        };
        if !self.is_loaded(pos) || !dirty_ok {
            return false;
        }
        self.grid_store_status.insert(pos.0, GridStoreStatus::Stored);
        self.grid_dirty_status.insert(pos.0, GridDirtyStatus::Unmodified);
        true
    }

    /// Reads the storage status of a chunk position.
    pub fn get_grid_store_status(&self, pos: GridPos) -> (r: Option<GridStoreStatus>)
        ensures
            r == self.spec_store(pos),
    {
        match self.grid_store_status.get(&pos.0) {
            Some(s) => Some(*s),
            None => None,
        }
    }

    /// Reads the load status of a chunk position.
    pub fn get_grid_load_status(&self, pos: GridPos) -> (r: Option<GridLoadStatus>)
        ensures
            r == self.spec_load(pos),
    {
        match self.grid_load_status.get(&pos.0) {
            Some(s) => Some(*s),
            None => None,
        }
    }

    /// Reads the dirty status of a chunk position.
    pub fn get_grid_dirty_status(&self, pos: GridPos) -> (r: Option<GridDirtyStatus>)
        ensures
            r == self.spec_dirty(pos),
    {
        match self.grid_dirty_status.get(&pos.0) {
            Some(s) => Some(*s),
            None => None,
        }
    }

    /// Reads the recorded position of a player.
    pub fn get_player_position(&self, player_id: PlayerId) -> (r: Option<GridPos>)
        ensures
            r == self.spec_player(player_id),
    {
        match self.player_positions.get(&player_id.0) {
            Some(p) => Some(*p),
            None => None,
        }
    }
}

} // verus!
