use game_of_life_lib::{Life, WasmPoint};

fn pairs(flat: &[u32]) -> Vec<(u32, u32)> {
    assert_eq!(flat.len() % 2, 0);
    let mut cells: Vec<(u32, u32)> = flat.chunks(2).map(|c| (c[0], c[1])).collect();
    cells.sort();
    cells
}

#[test]
fn life_ticks_a_blinker() {
    let mut life = Life::new(vec![WasmPoint(1, 0), WasmPoint(1, 1), WasmPoint(1, 2)], 5, 5);
    assert_eq!(pairs(&life.tick()), vec![(0, 1), (1, 1), (2, 1)]);
    assert_eq!(pairs(&life.tick()), vec![(1, 0), (1, 1), (1, 2)]);
}

#[test]
fn life_tick_gives_column_before_row() {
    // Three cells in a row that is cut off by the edge leave two cells in
    // column 0 and column 1 of row 1.
    let mut life = Life::new(vec![WasmPoint(1, 0), WasmPoint(1, 1), WasmPoint(1, 2)], 2, 3);
    let flat = life.tick();
    assert_eq!(flat.len(), 4);
    assert_eq!(pairs(&flat), vec![(0, 1), (1, 1)]);
}

#[test]
fn life_of_nothing_ticks_to_nothing() {
    let mut life = Life::new(vec![], 4, 4);
    assert!(life.tick().is_empty());
    assert!(life.tick().is_empty());
}

#[test]
fn life_drops_repeated_cells() {
    let block = vec![
        WasmPoint(1, 1),
        WasmPoint(1, 2),
        WasmPoint(2, 1),
        WasmPoint(2, 2),
        WasmPoint(1, 1),
        WasmPoint(2, 2),
    ];
    let mut life = Life::new(block, 6, 6);
    assert_eq!(pairs(&life.tick()), vec![(1, 1), (1, 2), (2, 1), (2, 2)]);
}

#[test]
fn life_keeps_the_largest_coordinates() {
    let max = u32::MAX;
    let block = vec![
        WasmPoint(max - 1, max - 1),
        WasmPoint(max - 1, max - 2),
        WasmPoint(max - 2, max - 1),
        WasmPoint(max - 2, max - 2),
    ];
    let mut life = Life::new(block, max, max);
    assert_eq!(
        pairs(&life.tick()),
        vec![
            (max - 2, max - 2),
            (max - 2, max - 1),
            (max - 1, max - 2),
            (max - 1, max - 1)
        ]
    );
}
