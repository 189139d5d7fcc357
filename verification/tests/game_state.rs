use game_of_life_lib::{GameState, Generation, Point, PointSet};

#[test]
fn test_gamestate_creation() {
    let initial_cells: PointSet =
        PointSet::from_points(&vec![Point::new(1, 1), Point::new(2, 2), Point::new(0, 0)]);

    let gen = Generation::new(initial_cells.clone(), 10, 10);
    let state = GameState::new(gen);

    assert_eq!(state.generation().x_max, 10);
    assert_eq!(state.generation().y_max, 10);
    assert_eq!(&state.generation().live_cells, &initial_cells);
}

#[test]
fn test_points_to_evaluate() {
    // Two cells at (1,1) and (3,3)
    let initial_cells: PointSet = PointSet::from_points(&vec![Point::new(1, 1), Point::new(3, 3)]);

    let gen = Generation::new(initial_cells, 5, 5);
    let state = GameState::new(gen);
    let points = state.points_to_evaluate();

    // Should include both live cells
    assert!(points.contains(&Point::new(1, 1)));
    assert!(points.contains(&Point::new(3, 3)));

    // Should include neighbors of (1,1) - 8 neighbors
    assert!(points.contains(&Point::new(0, 0)));
    assert!(points.contains(&Point::new(0, 1)));
    assert!(points.contains(&Point::new(0, 2)));
    assert!(points.contains(&Point::new(1, 0)));
    assert!(points.contains(&Point::new(1, 2)));
    assert!(points.contains(&Point::new(2, 0)));
    assert!(points.contains(&Point::new(2, 1)));
    assert!(points.contains(&Point::new(2, 2)));

    // Should include neighbors of (3,3) - 8 neighbors
    for x in 2..=4 {
        for y in 2..=4 {
            if x != 3 || y != 3 {
                assert!(
                    points.contains(&Point::new(x, y)),
                    "Should contain ({}, {})",
                    x,
                    y
                );
            }
        }
    }
}
