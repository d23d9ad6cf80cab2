use rockies::color::Color;
use rockies::multigrid::GridIndex;
use rockies::universe::{fixup_mass, Stats, UniverseCells};
use rockies::v2::V2i;

fn world_with_origin_chunk() -> UniverseCells {
    let mut w = UniverseCells::new();
    let origin = GridIndex { grid_offset: V2i::new(0, 0) };
    w.create_empty_grid(origin);
    w
}

fn red() -> Color {
    Color::rgb(255, 0, 0)
}

// Density cap: seven insertions at one lattice cell; the seventh is refused
// and the particle count stays at six.
#[test]
fn test_add_density_cap() {
    let mut w = world_with_origin_chunk();
    let pos = V2i::new(5, 5);
    for _ in 0..6 {
        assert!(w.add_cell(pos, red(), 1).is_some());
    }
    assert!(w.add_cell(pos, red(), 1).is_none());
    let stats = w.stats();
    assert_eq!(stats.cells_count(), 6);
}

#[test]
fn test_add_and_remove_cell() {
    let mut w = world_with_origin_chunk();
    let pos = V2i::new(3, 4);
    let id = w.add_cell(pos, red(), 1).unwrap();
    let st = w.get_cell_state(id).unwrap();
    assert_eq!(st.pos, pos);
    assert_eq!(st.mass, 1);
    assert_eq!(st.color, red());

    w.remove_cell(pos);
    assert!(w.get_cell_state(id).is_none());
    let bucket = w.get_at(pos).unwrap();
    assert!(bucket.value.is_empty());
    assert!(bucket.neighbors.is_empty());
}

// A settled particle leaves the moving set; unsticking revives it with unit
// mass.
#[test]
fn test_set_static_and_unstick() {
    let mut w = world_with_origin_chunk();
    let pos = V2i::new(10, 10);
    let id = w.add_cell(pos, red(), 1).unwrap();
    w.set_static(id);
    assert_eq!(w.get_cell_state(id).unwrap().mass, 0);

    let revived = w.unstick_cells(V2i::new(10, 10), 2);
    assert_eq!(revived, vec![id]);
    assert_eq!(w.get_cell_state(id).unwrap().mass, 1);
}

// Candidate pairs: two adjacent moving particles give exactly one unordered
// pair, counted once in the stats.
#[test]
fn test_candidate_pairs_dedup() {
    let mut w = world_with_origin_chunk();
    let a = w.add_cell(V2i::new(8, 8), red(), 1).unwrap();
    let b = w.add_cell(V2i::new(9, 8), red(), 1).unwrap();
    let pairs = w.candidate_pairs();
    assert_eq!(pairs, vec![(a.min(b), a.max(b))]);
    let stats = w.stats();
    assert_eq!(stats.collision_pairs_tested(), 1);
}

// Moving a particle across a lattice cell updates its bucket and its state.
#[test]
fn test_update_cell_pos() {
    let mut w = world_with_origin_chunk();
    let old_pos = V2i::new(1, 1);
    let new_pos = V2i::new(2, 1);
    let id = w.add_cell(old_pos, red(), 1).unwrap();
    w.update_cell_pos(id, old_pos, new_pos);
    assert_eq!(w.get_cell_state(id).unwrap().pos, new_pos);
    assert!(w.get_at(old_pos).unwrap().value.is_empty());
    assert_eq!(w.get_at(new_pos).unwrap().value, vec![id]);
}

// Dropping a chunk strikes its particles from the arena and the moving set.
#[test]
fn test_drop_grid_removes_particles() {
    let mut w = world_with_origin_chunk();
    let origin = GridIndex { grid_offset: V2i::new(0, 0) };
    let id = w.add_cell(V2i::new(7, 7), red(), 1).unwrap();
    w.drop_grid(origin);
    assert!(w.get_cell_state(id).is_none());
    assert!(w.get_at(V2i::new(7, 7)).is_none());
    assert!(w.candidate_pairs().is_empty());
}

// Save and reload round trip through the chunk byte format: the reloaded
// chunk carries the same occupant positions and records.
#[test]
fn test_save_and_load_grid() {
    let mut w = world_with_origin_chunk();
    let origin = GridIndex { grid_offset: V2i::new(0, 0) };
    let pos = V2i::new(12, 34);
    let wall = w.add_wall(pos, Color::rgb(1, 2, 3));
    let bytes = w.save_grid(origin).unwrap();

    w.drop_grid(origin);
    assert!(w.get_cell_state(wall).is_none());

    w.load_from_storage(origin, &bytes).unwrap();
    let bucket = w.get_at(pos).unwrap();
    assert_eq!(bucket.value.len(), 1);
    let st = w.get_cell_state(bucket.value[0]).unwrap();
    assert_eq!(st.pos, pos);
    assert_eq!(st.mass, 0);
    assert_eq!(st.color, Color::rgb(1, 2, 3));
}

// Malformed bytes are rejected whole and the chunk stays absent.
#[test]
fn test_load_malformed_bytes() {
    let mut w = UniverseCells::new();
    let origin = GridIndex { grid_offset: V2i::new(0, 0) };
    let bytes = vec![0u8; 7];
    assert!(w.load_from_storage(origin, &bytes).is_err());
    assert!(!w.has_grid(origin));
}

// Missing and droppable chunk queries around a center position.
#[test]
fn test_missing_and_droppable() {
    let mut w = UniverseCells::new();
    let origin = GridIndex { grid_offset: V2i::new(0, 0) };
    let far = GridIndex { grid_offset: V2i::new(5, 0) };
    w.create_empty_grid(origin);
    w.create_empty_grid(far);

    let center = V2i::new(0, 0);
    let missing = w.get_missing_grids(center);
    assert!(!missing.contains(&origin));
    assert!(missing.contains(&GridIndex { grid_offset: V2i::new(-1, -1) }));

    let droppable = w.get_droppable_grids(center);
    assert_eq!(droppable, vec![far]);

    let loaded = w.get_loaded_grids();
    assert_eq!(loaded.len(), 2);
    assert!(loaded.contains(&origin));
    assert!(loaded.contains(&far));
}

#[test]
fn test_stats_reset_on_read() {
    let mut w = world_with_origin_chunk();
    w.add_cell(V2i::new(0, 0), red(), 1).unwrap();
    w.bump_ticks();
    let s = w.stats();
    assert_eq!(s.ticks(), 1);
    assert_eq!(s.cells_count(), 1);
    assert_eq!(s.collisions_count(), 0);
    let s2 = w.stats();
    assert_eq!(s2.ticks(), 0);
    assert_eq!(s2.cells_count(), 0);
}

#[test]
fn test_fixup_mass() {
    assert_eq!(fixup_mass(0), 10_000_000);
    assert_eq!(fixup_mass(1), 1);
    assert_eq!(fixup_mass(42), 42);
}

#[test]
fn test_stats_zero() {
    let z = Stats::zero();
    assert_eq!(z.ticks(), 0);
    assert_eq!(z.cells_count(), 0);
    assert_eq!(z.collisions_count(), 0);
    assert_eq!(z.collision_pairs_tested(), 0);
}

#[test]
fn test_color_to_u32() {
    assert_eq!(Color::rgb(1, 2, 3).to_u32(), 0x010203);
    assert_eq!(Color::rgb(255, 255, 255).to_u32(), 0xFFFFFF);
}

#[test]
fn test_v2i_arithmetic() {
    let a = V2i::new(3, -4);
    let b = V2i::new(1, 2);
    assert_eq!(a.plus(b), V2i::new(4, -2));
    assert_eq!(a.minus(b), V2i::new(2, -6));
}

// A range snapshot reports each position once, in x-major order, with its
// occupants.
#[test]
fn test_get_range() {
    let mut w = world_with_origin_chunk();
    let id = w.add_cell(V2i::new(2, 3), red(), 1).unwrap();
    let r = w.get_range(V2i::new(2, 2), V2i::new(4, 5));
    assert_eq!(r.len(), 6);
    assert_eq!(r[0].0, V2i::new(2, 2));
    assert_eq!(r[1].0, V2i::new(2, 3));
    assert_eq!(r[1].1, vec![id]);
    assert_eq!(r[5].0, V2i::new(3, 4));
    assert!(r[0].1.is_empty());
}

// Serialization round trip of a chunk holding several particles: positions,
// colors and masses survive; the empty positions stay empty.
#[test]
fn test_grid_serialization() {
    let mut w = world_with_origin_chunk();
    let origin = GridIndex { grid_offset: V2i::new(0, 0) };
    w.add_wall(V2i::new(0, 0), Color::rgb(10, 0, 0));
    w.add_wall(V2i::new(1, 1), Color::rgb(0, 20, 0));
    w.add_wall(V2i::new(2, 2), Color::rgb(0, 0, 30));

    let bytes = w.save_grid(origin).unwrap();
    w.drop_grid(origin);
    w.load_from_storage(origin, &bytes).unwrap();

    for (pos, color) in [
        (V2i::new(0, 0), Color::rgb(10, 0, 0)),
        (V2i::new(1, 1), Color::rgb(0, 20, 0)),
        (V2i::new(2, 2), Color::rgb(0, 0, 30)),
    ] {
        let bucket = w.get_at(pos).unwrap();
        assert_eq!(bucket.value.len(), 1);
        let st = w.get_cell_state(bucket.value[0]).unwrap();
        assert_eq!(st.color, color);
        assert_eq!(st.pos, pos);
        assert_eq!(st.mass, 0);
    }
    let empty = w.get_at(V2i::new(0, 1)).unwrap();
    assert_eq!(empty.value.len(), 0);
}

// Serialization round trip of an empty chunk: every position stays empty.
#[test]
fn test_grid_empty_serialization() {
    let mut w = world_with_origin_chunk();
    let origin = GridIndex { grid_offset: V2i::new(0, 0) };
    let bytes = w.save_grid(origin).unwrap();
    w.drop_grid(origin);
    w.load_from_storage(origin, &bytes).unwrap();
    for x in 0..2 {
        for y in 0..2 {
            let bucket = w.get_at(V2i::new(x, y)).unwrap();
            assert_eq!(bucket.value.len(), 0);
        }
    }
}

// Saving, reloading, and saving again yields the identical byte string: the
// occupant records and the persisted grid version both survive the trip.
#[test]
fn test_save_reload_save_identical() {
    let mut w = world_with_origin_chunk();
    let origin = GridIndex { grid_offset: V2i::new(0, 0) };
    w.add_wall(V2i::new(4, 4), Color::rgb(7, 8, 9));
    w.add_wall(V2i::new(4, 5), Color::rgb(1, 1, 1));
    let bytes = w.save_grid(origin).unwrap();
    w.drop_grid(origin);
    w.load_from_storage(origin, &bytes).unwrap();
    let bytes2 = w.save_grid(origin).unwrap();
    assert_eq!(bytes, bytes2);
}
