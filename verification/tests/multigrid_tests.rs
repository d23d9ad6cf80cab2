use rockies::multigrid::{GridIndex, MultiGrid, UniverseGrid};
use rockies::v2::V2i;

#[test]
fn test_grid_index_from_pos() {
    let width = 10;
    let height = 10;

    let pos = V2i::new(0, 0);
    let index = GridIndex::from_pos(pos, width, height);
    assert_eq!(index.grid_offset, V2i::new(0, 0));

    let pos = V2i::new(9, 9);
    let index = GridIndex::from_pos(pos, width, height);
    assert_eq!(index.grid_offset, V2i::new(0, 0));

    let pos = V2i::new(10, 10);
    let index = GridIndex::from_pos(pos, width, height);
    assert_eq!(index.grid_offset, V2i::new(1, 1));

    let pos = V2i::new(19, 19);
    let index = GridIndex::from_pos(pos, width, height);
    assert_eq!(index.grid_offset, V2i::new(1, 1));
}

#[test]
fn test_grid_index_to_pos() {
    let width = 10;
    let height = 10;

    let index = GridIndex { grid_offset: V2i::new(0, 0) };
    let pos = index.to_pos(width, height);
    assert_eq!(pos, V2i::new(0, 0));

    let index = GridIndex { grid_offset: V2i::new(1, 1) };
    let pos = index.to_pos(width, height);
    assert_eq!(pos, V2i::new(10, 10));

    let index = GridIndex { grid_offset: V2i::new(1, 2) };
    let pos = index.to_pos(width, height);
    assert_eq!(pos, V2i::new(10, 20));

    let index = GridIndex { grid_offset: V2i::new(0, 2) };
    let pos = index.to_pos(width, height);
    assert_eq!(pos, V2i::new(0, 20));

    let index = GridIndex { grid_offset: V2i::new(-1, 2) };
    let pos = index.to_pos(width, height);
    assert_eq!(pos, V2i::new(-10, 20));
}

#[test]
fn test_grid_index_from_pos_negative() {
    let width = 10;
    let height = 10;

    let pos = V2i::new(-1, -1);
    let index = GridIndex::from_pos(pos, width, height);
    assert_eq!(index.grid_offset, V2i::new(-1, -1));

    let pos = V2i::new(-11, -11);
    let index = GridIndex::from_pos(pos, width, height);
    assert_eq!(index.grid_offset, V2i::new(-2, -2));
}

#[test]
fn test_grid_index_to_pos_negative() {
    let width = 10;
    let height = 10;

    let index = GridIndex { grid_offset: V2i::new(-1, -1) };
    let pos = index.to_pos(width, height);
    assert_eq!(pos, V2i::new(-10, -10));

    let index = GridIndex { grid_offset: V2i::new(-2, -2) };
    let pos = index.to_pos(width, height);
    assert_eq!(pos, V2i::new(-20, -20));
}

fn empty_chunk(ix: i32, iy: i32) -> (GridIndex, UniverseGrid<u64>) {
    let g = GridIndex { grid_offset: V2i::new(ix, iy) };
    (g, UniverseGrid::new(g, 16, 16))
}

// Streaming boundary: a loaded chunk exactly at the radius is kept, one
// chunk beyond it is droppable; a missing chunk strictly inside the window
// is reported exactly once.
#[test]
fn test_streaming_boundary() {
    let mut m: MultiGrid<u64> = MultiGrid::new(16, 16);
    let (at_radius, c1) = empty_chunk(2, 0);
    let (beyond, c2) = empty_chunk(3, 0);
    m.insert(at_radius, c1);
    m.insert(beyond, c2);

    let center = V2i::new(0, 0);
    let far = m.get_far_grids(center, 2);
    assert!(!far.contains(&at_radius));
    assert!(far.contains(&beyond));
    assert_eq!(far.len(), 1);

    let missing = m.get_dropped_grids(center, 2);
    let inside = GridIndex { grid_offset: V2i::new(1, 1) };
    assert_eq!(missing.iter().filter(|g| **g == inside).count(), 1);
    assert!(!missing.contains(&at_radius));
}

// The chunk map holds at most one copy of any chunk.
#[test]
fn test_multigrid_single_copy() {
    let mut m: MultiGrid<u64> = MultiGrid::new(16, 16);
    let (g, c1) = empty_chunk(0, 0);
    let (_, c2) = empty_chunk(0, 0);
    m.insert(g, c1);
    m.insert(g, c2);
    let loaded = m.get_loaded_grids();
    assert_eq!(loaded, vec![g]);

    let dropped = m.drop_grid(g);
    assert!(dropped.is_some());
    assert!(m.get_loaded_grids().is_empty());
    assert!(m.drop_grid(g).is_none());
}

// An occupant moved across a chunk boundary leaves the old chunk's bucket
// and appears in the new chunk's bucket.
#[test]
fn test_update_cell_pos_across_chunks() {
    let mut m: MultiGrid<u64> = MultiGrid::new(16, 16);
    let (g0, c0) = empty_chunk(0, 0);
    let (g1, c1) = empty_chunk(1, 0);
    m.insert(g0, c0);
    m.insert(g1, c1);

    let old_pos = V2i::new(15, 0);
    let new_pos = V2i::new(16, 0);
    assert!(m.put_at(old_pos, 42));
    m.update_cell_pos(42, old_pos, new_pos);

    let b_old = m.get_at(old_pos).unwrap();
    assert!(b_old.value.is_empty());
    let b_new = m.get_at(new_pos).unwrap();
    assert_eq!(b_new.value, vec![42]);
}
