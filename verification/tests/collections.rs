use game_of_life_lib::{NeighborCounts, Point, PointSet};

#[test]
fn point_set_starts_empty() {
    let set = PointSet::new();
    assert_eq!(set.len(), 0);
    assert!(set.is_empty());
    assert!(set.to_vec().is_empty());
    assert!(!set.contains(&Point::new(0, 0)));
}

#[test]
fn point_set_insert_reports_new_cells() {
    let mut set = PointSet::new();
    assert!(set.insert(Point::new(3, 4)));
    assert!(!set.insert(Point::new(3, 4)));
    assert!(set.insert(Point::new(4, 3)));
    assert_eq!(set.len(), 2);
    assert!(!set.is_empty());
    assert!(set.contains(&Point::new(3, 4)));
    assert!(set.contains(&Point::new(4, 3)));
    assert!(!set.contains(&Point::new(3, 3)));
}

#[test]
fn point_set_tells_column_from_row() {
    let mut set = PointSet::new();
    set.insert(Point::new(0, 1));
    assert!(!set.contains(&Point::new(1, 0)));
    set.insert(Point::new(1, 0));
    assert_eq!(set.len(), 2);
}

#[test]
fn point_set_holds_the_largest_coordinates() {
    let max = usize::MAX;
    let mut set = PointSet::new();
    set.insert(Point::new(max, 0));
    set.insert(Point::new(0, max));
    set.insert(Point::new(max, max));
    set.insert(Point::new(0, 0));
    assert_eq!(set.len(), 4);
    let mut cells: Vec<(usize, usize)> = set.to_vec().iter().map(|p| (p.x, p.y)).collect();
    cells.sort();
    assert_eq!(cells, vec![(0, 0), (0, max), (max, 0), (max, max)]);
}

#[test]
fn point_set_from_points_drops_repeats() {
    let set = PointSet::from_points(&[Point::new(1, 2), Point::new(1, 2), Point::new(2, 1)]);
    assert_eq!(set.len(), 2);
    assert!(set.contains(&Point::new(1, 2)));
    assert!(set.contains(&Point::new(2, 1)));
}

#[test]
fn point_set_to_vec_lists_each_cell_once() {
    let set = PointSet::from_points(&[Point::new(5, 6), Point::new(7, 8), Point::new(5, 6)]);
    let mut cells: Vec<(usize, usize)> = set.to_vec().iter().map(|p| (p.x, p.y)).collect();
    cells.sort();
    assert_eq!(cells, vec![(5, 6), (7, 8)]);
}

#[test]
fn point_set_extend_is_union() {
    let mut a = PointSet::from_points(&[Point::new(0, 0), Point::new(1, 1)]);
    let b = PointSet::from_points(&[Point::new(1, 1), Point::new(2, 2)]);
    a.extend(&b);
    assert_eq!(a, PointSet::from_points(&[Point::new(0, 0), Point::new(1, 1), Point::new(2, 2)]));
    assert_eq!(b.len(), 2);
}

#[test]
fn point_set_intersection_len_counts_common_cells() {
    let a = PointSet::from_points(&[Point::new(0, 0), Point::new(1, 1), Point::new(2, 2)]);
    let b = PointSet::from_points(&[Point::new(1, 1), Point::new(2, 2), Point::new(3, 3)]);
    assert_eq!(a.intersection_len(&b), 2);
    assert_eq!(b.intersection_len(&a), 2);
    assert_eq!(a.intersection_len(&PointSet::new()), 0);
    assert_eq!(a.intersection_len(&a), 3);
}

#[test]
fn point_set_equality_is_by_content() {
    let a = PointSet::from_points(&[Point::new(0, 0), Point::new(1, 1)]);
    let b = PointSet::from_points(&[Point::new(1, 1), Point::new(0, 0)]);
    let c = PointSet::from_points(&[Point::new(0, 0), Point::new(1, 2)]);
    let d = PointSet::from_points(&[Point::new(0, 0)]);
    assert!(a == b);
    assert!(a != c);
    assert!(a != d);
    assert!(d != a);
    assert!(PointSet::new() == PointSet::new());
}

#[test]
fn point_set_clone_is_equal_and_independent() {
    let a = PointSet::from_points(&[Point::new(0, 0), Point::new(1, 1)]);
    let mut b = a.clone();
    assert_eq!(a, b);
    b.insert(Point::new(9, 9));
    assert_eq!(a.len(), 2);
    assert_eq!(b.len(), 3);
}

#[test]
fn neighbor_counts_records_and_replaces() {
    let mut counts = NeighborCounts::new();
    assert_eq!(counts.len(), 0);
    assert_eq!(counts.get(&Point::new(1, 1)), None);
    counts.insert(Point::new(1, 1), 3);
    counts.insert(Point::new(2, 1), 0);
    assert_eq!(counts.get(&Point::new(1, 1)), Some(3));
    assert_eq!(counts.get(&Point::new(2, 1)), Some(0));
    assert_eq!(counts.get(&Point::new(1, 2)), None);
    counts.insert(Point::new(1, 1), 8);
    assert_eq!(counts.get(&Point::new(1, 1)), Some(8));
    assert_eq!(counts.len(), 2);
}

#[test]
fn neighbor_counts_entries_lists_each_cell_once() {
    let mut counts = NeighborCounts::new();
    counts.insert(Point::new(1, 1), 3);
    counts.insert(Point::new(2, 1), 0);
    counts.insert(Point::new(1, 1), 5);
    let mut entries: Vec<(usize, usize, usize)> =
        counts.entries().iter().map(|(p, n)| (p.x, p.y, *n)).collect();
    entries.sort();
    assert_eq!(entries, vec![(1, 1, 5), (2, 1, 0)]);
}
