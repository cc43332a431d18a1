use vec2d::{OutOfBounds, Vec2D};

#[test]
fn test_new() {
    let vec2d: Vec2D<i32> = Vec2D::new(3, 2, 0);
    assert_eq!(vec2d.width(), 3);
    assert_eq!(vec2d.height(), 2);
    assert_eq!(vec2d.as_slice(), vec![0; 6].as_slice());
}

#[test]
fn test_index() {
    let vec2d: Vec2D<i32> = Vec2D::new(3, 2, 1);
    assert_eq!(vec2d[(0, 0)], 1);
    assert_eq!(vec2d[(2, 1)], 1);
}

#[test]
fn test_index_skewed_0() {
    let vec2d: Vec2D<i32> = Vec2D::new(10, 2, 1);
    assert_eq!(vec2d[(9, 0)], 1);
    assert_eq!(vec2d[(9, 1)], 1);
}

#[test]
fn test_index_skewed_1() {
    let vec2d: Vec2D<i32> = Vec2D::new(3, 10, 1);
    assert_eq!(vec2d[(0, 9)], 1);
    assert_eq!(vec2d[(2, 9)], 1);
}

#[test]
#[should_panic(expected = "index out of bounds: the len is (3, 2) but the index is (3, 0)")]
fn test_index_out_of_bounds_0() {
    let vec2d: Vec2D<i32> = Vec2D::new(3, 2, 1);
    match vec2d.try_index((3, 0)) {
        Ok(_) => {}
        Err(e) => panic!("{}", e.message()),
    }
}

#[test]
#[should_panic(expected = "index out of bounds: the len is (3, 2) but the index is (0, 2)")]
fn test_index_out_of_bounds_1() {
    let vec2d: Vec2D<i32> = Vec2D::new(3, 2, 1);
    match vec2d.try_index((0, 2)) {
        Ok(_) => {}
        Err(e) => panic!("{}", e.message()),
    }
}

#[test]
fn test_index_mut() {
    let mut vec2d: Vec2D<i32> = Vec2D::new(3, 2, 1);
    *vec2d.index_mut((1, 1)) = 5;
    assert_eq!(vec2d[(1, 1)], 5);
}

#[test]
fn test_index_mut_skewed_0() {
    let mut vec2d: Vec2D<i32> = Vec2D::new(10, 2, 1);
    *vec2d.index_mut((9, 1)) = 5;
    assert_eq!(vec2d[(9, 1)], 5);
}

#[test]
fn test_index_mut_skewed_1() {
    let mut vec2d: Vec2D<i32> = Vec2D::new(3, 10, 1);
    *vec2d.index_mut((2, 9)) = 5;
    assert_eq!(vec2d[(2, 9)], 5);
}

#[test]
#[should_panic(expected = "index out of bounds: the len is (3, 2) but the index is (3, 0)")]
fn test_index_mut_out_of_bounds_0() {
    let mut vec2d: Vec2D<i32> = Vec2D::new(3, 2, 1);
    match vec2d.try_index_mut((3, 0)) {
        Ok(cell) => *cell = 5,
        Err(e) => panic!("{}", e.message()),
    }
}

#[test]
#[should_panic(expected = "index out of bounds: the len is (3, 2) but the index is (0, 2)")]
fn test_index_mut_out_of_bounds_1() {
    let mut vec2d: Vec2D<i32> = Vec2D::new(3, 2, 1);
    match vec2d.try_index_mut((0, 2)) {
        Ok(cell) => *cell = 5,
        Err(e) => panic!("{}", e.message()),
    }
}

#[test]
fn new_fills_every_cell_with_the_default() {
    let grid: Vec2D<String> = Vec2D::new(4, 3, String::from("d"));
    assert_eq!(grid.width(), 4);
    assert_eq!(grid.height(), 3);
    assert_eq!(grid.as_slice().len(), 12);
    for x in 0..4 {
        for y in 0..3 {
            assert_eq!(grid[(x, y)], "d");
        }
    }
}

#[test]
fn new_accepts_empty_dimensions() {
    let no_columns: Vec2D<u8> = Vec2D::new(0, 5, 7);
    assert_eq!(no_columns.width(), 0);
    assert_eq!(no_columns.height(), 5);
    assert!(no_columns.as_slice().is_empty());
    assert!(no_columns.iter().is_empty());
    let no_rows: Vec2D<u8> = Vec2D::new(5, 0, 7);
    assert_eq!(no_rows.width(), 5);
    assert_eq!(no_rows.height(), 0);
    assert!(no_rows.as_slice().is_empty());
    assert!(no_rows.iter().is_empty());
    assert_eq!(
        no_rows.try_index((0, 0)),
        Err(OutOfBounds { width: 5, height: 0, x: 0, y: 0 })
    );
}

#[test]
fn cell_lives_at_x_times_height_plus_y() {
    let mut grid: Vec2D<u32> = Vec2D::new(3, 2, 0);
    *grid.index_mut((2, 0)) = 20;
    *grid.index_mut((0, 1)) = 1;
    *grid.index_mut((1, 1)) = 11;
    assert_eq!(grid.as_slice(), &[0, 1, 0, 11, 20, 0]);
}

#[test]
fn write_changes_one_cell_only() {
    let mut grid: Vec2D<u32> = Vec2D::new(4, 5, 0);
    let mut n = 0;
    for x in 0..4 {
        for y in 0..5 {
            *grid.index_mut((x, y)) = n;
            n += 1;
        }
    }
    let before = grid.clone();
    *grid.index_mut((2, 3)) = 999;
    for x in 0..4 {
        for y in 0..5 {
            if (x, y) == (2, 3) {
                assert_eq!(grid[(x, y)], 999);
            } else {
                assert_eq!(grid[(x, y)], before[(x, y)]);
            }
        }
    }
}

#[test]
fn skewed_grids_keep_their_neighbours() {
    let mut wide: Vec2D<i32> = Vec2D::new(10, 2, 1);
    *wide.index_mut((9, 0)) = 7;
    *wide.index_mut((9, 1)) = 8;
    assert_eq!(wide[(9, 0)], 7);
    assert_eq!(wide[(9, 1)], 8);
    assert_eq!(wide[(8, 1)], 1);
    assert_eq!(&wide.as_slice()[..18], vec![1; 18].as_slice());
    let mut tall: Vec2D<i32> = Vec2D::new(3, 10, 1);
    *tall.index_mut((0, 9)) = 7;
    *tall.index_mut((2, 9)) = 8;
    assert_eq!(tall[(0, 9)], 7);
    assert_eq!(tall[(2, 9)], 8);
    assert_eq!(tall[(1, 0)], 1);
    assert_eq!(tall[(2, 8)], 1);
    assert_eq!(tall.as_slice()[9], 7);
    assert_eq!(tall.as_slice()[29], 8);
}

#[test]
fn try_index_reads_inside_and_refuses_outside() {
    let mut grid: Vec2D<i32> = Vec2D::new(3, 2, 1);
    *grid.index_mut((2, 1)) = 4;
    assert_eq!(grid.try_index((2, 1)), Ok(&4));
    assert_eq!(grid.try_index((0, 0)), Ok(&1));
    assert_eq!(
        grid.try_index((3, 0)),
        Err(OutOfBounds { width: 3, height: 2, x: 3, y: 0 })
    );
    assert_eq!(
        grid.try_index((0, 2)),
        Err(OutOfBounds { width: 3, height: 2, x: 0, y: 2 })
    );
    assert_eq!(
        grid.try_index((7, 9)),
        Err(OutOfBounds { width: 3, height: 2, x: 7, y: 9 })
    );
}

#[test]
fn try_index_mut_writes_inside_and_refuses_outside() {
    let mut grid: Vec2D<i32> = Vec2D::new(3, 2, 1);
    match grid.try_index_mut((1, 0)) {
        Ok(cell) => *cell = 6,
        Err(e) => panic!("{}", e.message()),
    }
    assert_eq!(grid.as_slice(), &[1, 1, 6, 1, 1, 1]);
    assert_eq!(
        grid.try_index_mut((3, 0)),
        Err(OutOfBounds { width: 3, height: 2, x: 3, y: 0 })
    );
    assert_eq!(
        grid.try_index_mut((0, 2)),
        Err(OutOfBounds { width: 3, height: 2, x: 0, y: 2 })
    );
    assert_eq!(grid.as_slice(), &[1, 1, 6, 1, 1, 1]);
}

#[test]
fn iter_walks_all_y_of_one_x_first() {
    let mut grid: Vec2D<char> = Vec2D::new(3, 2, '.');
    *grid.index_mut((0, 1)) = 'a';
    *grid.index_mut((1, 0)) = 'b';
    *grid.index_mut((2, 1)) = 'c';
    assert_eq!(
        grid.iter(),
        vec![
            (0, 0, '.'),
            (0, 1, 'a'),
            (1, 0, 'b'),
            (1, 1, '.'),
            (2, 0, '.'),
            (2, 1, 'c'),
        ]
    );
}

#[test]
fn iter_meets_every_pair_once() {
    let grid: Vec2D<u8> = Vec2D::new(7, 4, 0);
    let walk = grid.iter();
    assert_eq!(walk.len(), 28);
    let mut seen = vec![false; 28];
    for (i, (x, y, v)) in walk.into_iter().enumerate() {
        assert!(x < 7 && y < 4);
        assert_eq!(x * 4 + y, i);
        assert_eq!(v, 0);
        assert!(!seen[x * 4 + y]);
        seen[x * 4 + y] = true;
    }
    assert!(seen.into_iter().all(|s| s));
}

#[test]
fn iter_mut_reaches_each_cell_with_its_pair() {
    let mut grid: Vec2D<usize> = Vec2D::new(3, 2, 100);
    let mut pairs = Vec::new();
    for (x, y, cell) in grid.iter_mut() {
        pairs.push((x, y));
        *cell += 10 * x + y;
    }
    assert_eq!(pairs, vec![(0, 0), (0, 1), (1, 0), (1, 1), (2, 0), (2, 1)]);
    assert_eq!(grid.as_slice(), &[100, 101, 110, 111, 120, 121]);
    assert_eq!(grid.width(), 3);
    assert_eq!(grid.height(), 2);
    assert_eq!(grid[(2, 1)], 121);
}

#[test]
fn iter_mut_leaves_untouched_cells_alone() {
    let mut grid: Vec2D<i32> = Vec2D::new(2, 3, 7);
    {
        let mut cells = grid.iter_mut();
        assert_eq!(cells.len(), 6);
        let (x, y, cell) = cells.remove(4);
        assert_eq!((x, y), (1, 1));
        assert_eq!(*cell, 7);
        *cell = -1;
    }
    assert_eq!(grid.as_slice(), &[7, 7, 7, 7, -1, 7]);
    let mut empty: Vec2D<i32> = Vec2D::new(0, 3, 1);
    assert!(empty.iter_mut().is_empty());
}

#[test]
fn clone_keeps_dimensions_and_cells() {
    let mut grid: Vec2D<i64> = Vec2D::new(2, 3, -1);
    *grid.index_mut((1, 2)) = 9;
    let copy = grid.clone();
    assert_eq!(copy.width(), 2);
    assert_eq!(copy.height(), 3);
    assert_eq!(copy.as_slice(), &[-1, -1, -1, -1, -1, 9]);
    assert_eq!(copy, grid);
    *grid.index_mut((0, 0)) = 3;
    assert_eq!(copy[(0, 0)], -1);
}
