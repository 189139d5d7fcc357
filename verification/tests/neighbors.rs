use game_of_life_lib::neighborhood::neighbors;
use game_of_life_lib::Point;

#[test]
fn test_point_creation() {
    let p = Point::new(5, 10);
    assert_eq!(p.x, 5);
    assert_eq!(p.y, 10);
}

#[test]
fn test_neighbors_center() {
    // Point in the middle of the grid should have all 8 neighbors
    let p = Point::new(5, 5);
    let neighbors_set = neighbors(p, 10, 10);

    assert_eq!(neighbors_set.len(), 8);

    // Check some expected neighbors
    assert!(neighbors_set.contains(&Point::new(4, 4)));
    assert!(neighbors_set.contains(&Point::new(4, 5)));
    assert!(neighbors_set.contains(&Point::new(4, 6)));
    assert!(neighbors_set.contains(&Point::new(5, 4)));
    assert!(neighbors_set.contains(&Point::new(5, 6)));
    assert!(neighbors_set.contains(&Point::new(6, 4)));
    assert!(neighbors_set.contains(&Point::new(6, 5)));
    assert!(neighbors_set.contains(&Point::new(6, 6)));

    // Self should NOT be included
    assert!(!neighbors_set.contains(&Point::new(5, 5)));
}

#[test]
fn test_neighbors_corner() {
    // Corner point should have fewer neighbors (3)
    let p = Point::new(0, 0);
    let neighbors_set = neighbors(p, 10, 10);

    assert_eq!(neighbors_set.len(), 3);
    assert!(neighbors_set.contains(&Point::new(0, 1)));
    assert!(neighbors_set.contains(&Point::new(1, 0)));
    assert!(neighbors_set.contains(&Point::new(1, 1)));
}

#[test]
fn test_neighbors_edge() {
    // Edge point should have 5 neighbors
    let p = Point::new(0, 5);
    let neighbors_set = neighbors(p, 10, 10);

    assert_eq!(neighbors_set.len(), 5);
}

#[test]
fn test_neighbors_bounds_enforced() {
    // Neighbors beyond bounds should be filtered
    let p = Point::new(10, 10);
    let neighbors_set = neighbors(p, 10, 10);

    // Only 1 neighbor fits within exclusive bounds (0-9)
    assert_eq!(neighbors_set.len(), 1);
    assert!(neighbors_set.contains(&Point::new(9, 9)));
}

fn count(x: usize, y: usize, x_max: usize, y_max: usize) -> usize {
    neighbors(Point::new(x, y), x_max, y_max).len()
}

#[test]
fn interior_cells_have_eight_neighbors() {
    for x in 1..6 {
        for y in 1..4 {
            assert_eq!(count(x, y, 7, 5), 8);
        }
    }
    // The smallest grid with an interior.
    assert_eq!(count(1, 1, 3, 3), 8);
}

#[test]
fn edge_cells_have_five_neighbors() {
    for y in 1..4 {
        assert_eq!(count(0, y, 7, 5), 5);
        assert_eq!(count(6, y, 7, 5), 5);
    }
    for x in 1..6 {
        assert_eq!(count(x, 0, 7, 5), 5);
        assert_eq!(count(x, 4, 7, 5), 5);
    }
}

#[test]
fn corner_cells_have_three_neighbors() {
    assert_eq!(count(0, 0, 7, 5), 3);
    assert_eq!(count(6, 0, 7, 5), 3);
    assert_eq!(count(0, 4, 7, 5), 3);
    assert_eq!(count(6, 4, 7, 5), 3);
    // Two by two: every cell is a corner.
    assert_eq!(count(0, 0, 2, 2), 3);
    assert_eq!(count(1, 1, 2, 2), 3);
}

#[test]
fn far_corner_neighbors_are_the_three_inside() {
    let set = neighbors(Point::new(9, 9), 10, 10);
    assert_eq!(set.len(), 3);
    assert!(set.contains(&Point::new(8, 8)));
    assert!(set.contains(&Point::new(8, 9)));
    assert!(set.contains(&Point::new(9, 8)));
}

#[test]
fn narrow_grids_have_fewer_neighbors() {
    // A single column: a cell in its middle lies on both vertical edges.
    assert_eq!(count(0, 2, 1, 5), 2);
    // Its ends lie on three edges.
    assert_eq!(count(0, 0, 1, 5), 1);
    // A single cell lies on all four.
    assert_eq!(count(0, 0, 1, 1), 0);
    // No grid at all.
    assert_eq!(count(0, 0, 0, 0), 0);
    assert_eq!(count(3, 3, 0, 7), 0);
}

#[test]
fn neighbors_leave_out_the_centre_and_stay_on_the_grid() {
    for x in 0..8 {
        for y in 0..8 {
            let centre = Point::new(x, y);
            let set = neighbors(centre, 6, 4);
            assert!(!set.contains(&centre));
            for q in set.to_vec() {
                assert!(q.x < 6 && q.y < 4);
                assert!(q.x.abs_diff(x) <= 1 && q.y.abs_diff(y) <= 1);
            }
        }
    }
}

#[test]
fn neighbors_do_not_wrap_around() {
    let west = neighbors(Point::new(0, 2), 5, 5);
    assert!(!west.contains(&Point::new(4, 2)));
    assert!(!west.contains(&Point::new(4, 1)));
    let east = neighbors(Point::new(4, 2), 5, 5);
    assert!(!east.contains(&Point::new(0, 2)));
}

#[test]
fn neighbors_of_the_largest_coordinates() {
    let max = usize::MAX;
    let set = neighbors(Point::new(max, max), max, max);
    assert_eq!(set.len(), 1);
    assert!(set.contains(&Point::new(max - 1, max - 1)));

    let inside = neighbors(Point::new(max - 1, max - 1), max, max);
    assert_eq!(inside.len(), 3);
    assert!(inside.contains(&Point::new(max - 2, max - 2)));
    assert!(inside.contains(&Point::new(max - 2, max - 1)));
    assert!(inside.contains(&Point::new(max - 1, max - 2)));
}

#[test]
fn neighbors_of_a_cell_far_off_the_grid() {
    assert_eq!(count(20, 20, 10, 10), 0);
    // One column east of the grid: the three cells of the last column.
    let set = neighbors(Point::new(10, 5), 10, 10);
    assert_eq!(set.len(), 3);
    assert!(set.contains(&Point::new(9, 4)));
    assert!(set.contains(&Point::new(9, 5)));
    assert!(set.contains(&Point::new(9, 6)));
}
