use rockies::gridsystem::{
    GridDirtyStatus, GridLoadStatus, GridPos, GridStoreStatus, GridSystem, PlayerId,
};

#[test]
fn test_initialization() {
    let grid_positions = vec![GridPos::new(1), GridPos::new(2)];
    let player_ids = vec![PlayerId::new(101)];

    let system = GridSystem::new(grid_positions.clone(), player_ids.clone());

    for pos in grid_positions {
        assert_eq!(system.get_grid_store_status(pos), Some(GridStoreStatus::NotStored));
        assert_eq!(system.get_grid_load_status(pos), Some(GridLoadStatus::NotLoaded));
        assert_eq!(system.get_grid_dirty_status(pos), Some(GridDirtyStatus::Unknown));
    }

    for player_id in player_ids {
        assert!(system.get_player_position(player_id).is_some());
    }
}

#[test]
fn test_player_moves() {
    let grid_positions = vec![GridPos::new(1), GridPos::new(2), GridPos::new(3)];
    let player_ids = vec![PlayerId::new(101)];
    let mut system = GridSystem::new(grid_positions, player_ids);

    // Player can't move to an unloaded grid
    assert!(!system.player_moves(PlayerId::new(101), GridPos::new(2)));

    // Load grid 2
    assert!(system.load_missing_grid(GridPos::new(2)));
    assert_eq!(system.get_grid_load_status(GridPos::new(2)), Some(GridLoadStatus::Loaded));

    // Player can now move to grid 2
    assert!(system.player_moves(PlayerId::new(101), GridPos::new(2)));
    assert_eq!(system.get_player_position(PlayerId::new(101)), Some(GridPos::new(2)));
}

#[test]
fn test_load_missing_grid() {
    let grid_positions = vec![GridPos::new(1)];
    let player_ids = vec![PlayerId::new(101)];
    let mut system = GridSystem::new(grid_positions, player_ids);

    // Grid is initially not_stored and not_loaded
    assert_eq!(system.get_grid_store_status(GridPos::new(1)), Some(GridStoreStatus::NotStored));
    assert_eq!(system.get_grid_load_status(GridPos::new(1)), Some(GridLoadStatus::NotLoaded));
    assert_eq!(system.get_grid_dirty_status(GridPos::new(1)), Some(GridDirtyStatus::Unknown));

    assert!(system.load_missing_grid(GridPos::new(1)));

    assert_eq!(system.get_grid_store_status(GridPos::new(1)), Some(GridStoreStatus::NotStored)); // Unchanged
    assert_eq!(system.get_grid_load_status(GridPos::new(1)), Some(GridLoadStatus::Loaded));
    assert_eq!(system.get_grid_dirty_status(GridPos::new(1)), Some(GridDirtyStatus::Pristine));
}

#[test]
fn test_load_stored_grid() {
    let grid_positions = vec![GridPos::new(1)];
    let player_ids = vec![PlayerId::new(101)];
    let mut system = GridSystem::new(grid_positions, player_ids);

    // Reach the stored + not-loaded state through the machine itself
    assert!(system.load_missing_grid(GridPos::new(1)));
    assert!(system.mark_dirty(GridPos::new(1)));
    assert!(system.store_grid(GridPos::new(1)));
    assert!(system.unload_pristine_unmodified_grid(GridPos::new(1)));

    assert_eq!(system.get_grid_store_status(GridPos::new(1)), Some(GridStoreStatus::Stored));
    assert_eq!(system.get_grid_load_status(GridPos::new(1)), Some(GridLoadStatus::NotLoaded));

    assert!(system.load_stored_grid(GridPos::new(1)));

    assert_eq!(system.get_grid_store_status(GridPos::new(1)), Some(GridStoreStatus::Stored)); // Unchanged
    assert_eq!(system.get_grid_load_status(GridPos::new(1)), Some(GridLoadStatus::Loaded));
    assert_eq!(system.get_grid_dirty_status(GridPos::new(1)), Some(GridDirtyStatus::Unmodified));
}

#[test]
fn test_mark_dirty() {
    let grid_positions = vec![GridPos::new(1)];
    let player_ids = vec![PlayerId::new(101)];
    let mut system = GridSystem::new(grid_positions, player_ids);

    // Load a pristine grid
    assert!(system.load_missing_grid(GridPos::new(1)));
    assert_eq!(system.get_grid_dirty_status(GridPos::new(1)), Some(GridDirtyStatus::Pristine));

    assert!(system.mark_dirty(GridPos::new(1)));
    assert_eq!(system.get_grid_dirty_status(GridPos::new(1)), Some(GridDirtyStatus::Dirty));

    // An unmodified grid may be marked dirty too
    assert!(system.store_grid(GridPos::new(1)));
    assert_eq!(system.get_grid_dirty_status(GridPos::new(1)), Some(GridDirtyStatus::Unmodified));

    assert!(system.mark_dirty(GridPos::new(1)));
    assert_eq!(system.get_grid_dirty_status(GridPos::new(1)), Some(GridDirtyStatus::Dirty));
}

#[test]
fn test_store_grid() {
    let grid_positions = vec![GridPos::new(1)];
    let player_ids = vec![PlayerId::new(101)];
    let mut system = GridSystem::new(grid_positions, player_ids);

    // Load a dirty grid
    assert!(system.load_missing_grid(GridPos::new(1)));
    assert!(system.mark_dirty(GridPos::new(1)));
    assert_eq!(system.get_grid_load_status(GridPos::new(1)), Some(GridLoadStatus::Loaded));
    assert_eq!(system.get_grid_dirty_status(GridPos::new(1)), Some(GridDirtyStatus::Dirty));
    assert_eq!(system.get_grid_store_status(GridPos::new(1)), Some(GridStoreStatus::NotStored));

    assert!(system.store_grid(GridPos::new(1)));
    assert_eq!(system.get_grid_load_status(GridPos::new(1)), Some(GridLoadStatus::Loaded)); // Unchanged
    assert_eq!(system.get_grid_dirty_status(GridPos::new(1)), Some(GridDirtyStatus::Unmodified));
    assert_eq!(system.get_grid_store_status(GridPos::new(1)), Some(GridStoreStatus::Stored));

    // Storing an unmodified grid is allowed and keeps it unmodified
    assert!(system.store_grid(GridPos::new(1)));
    assert_eq!(system.get_grid_store_status(GridPos::new(1)), Some(GridStoreStatus::Stored));
    assert_eq!(system.get_grid_dirty_status(GridPos::new(1)), Some(GridDirtyStatus::Unmodified));
}

#[test]
fn test_unload_pristine_unmodified_grid() {
    let grid_positions = vec![GridPos::new(1)];
    let player_ids = vec![PlayerId::new(101)];
    let mut system = GridSystem::new(grid_positions, player_ids);

    // Load a pristine grid and unload it
    assert!(system.load_missing_grid(GridPos::new(1)));
    assert_eq!(system.get_grid_load_status(GridPos::new(1)), Some(GridLoadStatus::Loaded));
    assert_eq!(system.get_grid_dirty_status(GridPos::new(1)), Some(GridDirtyStatus::Pristine));

    assert!(system.unload_pristine_unmodified_grid(GridPos::new(1)));
    assert_eq!(system.get_grid_load_status(GridPos::new(1)), Some(GridLoadStatus::NotLoaded));
    assert_eq!(system.get_grid_dirty_status(GridPos::new(1)), Some(GridDirtyStatus::Pristine)); // Unchanged

    // A dirty grid may not be unloaded directly: store it first
    assert!(system.load_missing_grid(GridPos::new(1)));
    assert!(system.mark_dirty(GridPos::new(1)));
    assert!(!system.unload_pristine_unmodified_grid(GridPos::new(1)));
    assert!(system.store_grid(GridPos::new(1)));
    assert!(system.unload_pristine_unmodified_grid(GridPos::new(1)));
    assert_eq!(system.get_grid_load_status(GridPos::new(1)), Some(GridLoadStatus::NotLoaded));
}

#[test]
fn test_store_and_unload_dirty_grid() {
    let grid_positions = vec![GridPos::new(1)];
    let player_ids = vec![PlayerId::new(101)];
    let mut system = GridSystem::new(grid_positions, player_ids);

    // Load a dirty grid
    assert!(system.load_missing_grid(GridPos::new(1)));
    assert!(system.mark_dirty(GridPos::new(1)));
    assert_eq!(system.get_grid_load_status(GridPos::new(1)), Some(GridLoadStatus::Loaded));
    assert_eq!(system.get_grid_dirty_status(GridPos::new(1)), Some(GridDirtyStatus::Dirty));
    assert_eq!(system.get_grid_store_status(GridPos::new(1)), Some(GridStoreStatus::NotStored));

    assert!(system.store_and_unload_dirty_grid(GridPos::new(1)));
    // Still loaded: this transition stores and resets dirtiness, nothing more
    assert_eq!(system.get_grid_load_status(GridPos::new(1)), Some(GridLoadStatus::Loaded));
    assert_eq!(system.get_grid_dirty_status(GridPos::new(1)), Some(GridDirtyStatus::Unmodified));
    assert_eq!(system.get_grid_store_status(GridPos::new(1)), Some(GridStoreStatus::Stored));
}
