use rockies::grid::Grid;

#[test]
fn test_grid_new_empty() {
    let _grid: Grid<i32> = Grid::new(0, 0);
}

#[test]
fn test_grid_one() {
    let mut grid: Grid<char> = Grid::new(1, 1);
    grid.put(0, 0, 'a');
    let res = grid.get(0, 0);
    assert_eq!(res.neighbors.len(), 1);
    assert_eq!(res.value, vec!['a']);
    assert_eq!(res.neighbors, vec!['a']);

    grid.remove(0, 0, &'a');
    let res = grid.get(0, 0);
    assert_eq!(res.neighbors.len(), 0);
    assert_eq!(res.value, Vec::<char>::new());
}

#[test]
fn test_grid_two() {
    let mut grid: Grid<char> = Grid::new(2, 1);
    grid.put(0, 0, 'a');
    grid.put(1, 0, 'b');

    let res = grid.get(0, 0);
    assert_eq!(res.neighbors.len(), 2);
    assert_eq!(res.value, vec!['a']);
    assert_eq!(res.neighbors, vec!['a', 'b']);

    grid.remove(0, 0, &'a');
    let res = grid.get(0, 0);
    assert_eq!(res.neighbors.len(), 1);
    assert_eq!(res.value, Vec::<char>::new());
    assert_eq!(res.neighbors, vec!['b']);
}

#[test]
fn test_grid_two_apart() {
    let mut grid: Grid<char> = Grid::new(6, 2);
    grid.put(0, 0, 'a');
    grid.put(4, 0, 'b');

    {
        let res = grid.get(0, 0);
        assert_eq!(res.neighbors.len(), 1);
        assert_eq!(res.value, vec!['a']);
        assert_eq!(res.neighbors, vec!['a']);
    }
    {
        let res = grid.get(4, 0);
        assert_eq!(res.neighbors.len(), 1);
        assert_eq!(res.value, vec!['b']);
        assert_eq!(res.neighbors, vec!['b']);
    }
}

// The neighbor fan-out: a value put at the center of a 3x3 block is reported
// in the neighbor list of all 9 cells, but in the occupant list of only its
// own cell.
#[test]
fn test_grid_neighbor_fanout() {
    let mut grid: Grid<u64> = Grid::new(3, 3);
    grid.put(1, 1, 7);
    for x in 0..3usize {
        for y in 0..3usize {
            let res = grid.get(x, y);
            assert_eq!(res.neighbors, vec![7]);
            if x == 1 && y == 1 {
                assert_eq!(res.value, vec![7]);
            } else {
                assert_eq!(res.value, Vec::<u64>::new());
            }
        }
    }
}

// Grid idempotence: put then remove of a fresh value restores every bucket.
#[test]
fn test_grid_put_remove_restores() {
    let mut grid: Grid<u64> = Grid::new(4, 4);
    grid.put(0, 0, 1);
    grid.put(2, 2, 2);
    grid.put(2, 2, 3);
    grid.remove(2, 2, &3);
    for x in 0..4usize {
        for y in 0..4usize {
            let res = grid.get(x, y);
            assert!(!res.value.contains(&3));
            assert!(!res.neighbors.contains(&3));
        }
    }
    assert_eq!(grid.get(0, 0).value, vec![1]);
    assert_eq!(grid.get(2, 2).value, vec![2]);
}

// Constant-time clear: after clear, previously filled buckets read empty.
#[test]
fn test_grid_clear() {
    let mut grid: Grid<char> = Grid::new(2, 2);
    grid.put(0, 0, 'a');

    grid.clear();
    let res = grid.get(0, 0);
    assert_eq!(res.value.len(), 0);
    assert_eq!(res.neighbors.len(), 0);

    grid.put(1, 1, 'b');
    let res = grid.get(1, 1);
    assert_eq!(res.value, vec!['b']);
}

// Removing a duplicated value removes every copy of it.
#[test]
fn test_grid_remove_duplicates() {
    let mut grid: Grid<u64> = Grid::new(2, 2);
    grid.put(0, 0, 5);
    grid.put(0, 0, 5);
    grid.put(0, 0, 6);
    grid.remove(0, 0, &5);
    let res = grid.get(0, 0);
    assert_eq!(res.value, vec![6]);
    assert_eq!(res.neighbors, vec![6]);
}
