use game_of_life_lib::render::{render, OutputMode};
use game_of_life_lib::{Generation, Point, PointSet};

fn generation(cells: &[(usize, usize)], x_max: usize, y_max: usize) -> Generation {
    let points: Vec<Point> = cells.iter().map(|&(x, y)| Point::new(x, y)).collect();
    Generation::new(PointSet::from_points(&points), x_max, y_max)
}

#[test]
fn render_ascii_blinker() {
    let gen = generation(&[(1, 0), (1, 1), (1, 2)], 3, 3);
    assert_eq!(render(&gen, false), "  O   \n  O   \n  O   \n");
}

#[test]
fn render_unicode_blinker() {
    let gen = generation(&[(0, 1), (1, 1), (2, 1)], 3, 3);
    assert_eq!(render(&gen, true), "      \n\u{25cf} \u{25cf} \u{25cf} \n      \n");
}

#[test]
fn render_puts_columns_across_and_rows_down() {
    let gen = generation(&[(2, 0), (0, 1)], 3, 2);
    assert_eq!(render(&gen, false), "    O \nO     \n");
}

#[test]
fn render_empty_grid() {
    let gen = generation(&[], 2, 2);
    assert_eq!(render(&gen, false), "    \n    \n");
    assert_eq!(render(&gen, true), "    \n    \n");
}

#[test]
fn render_grid_without_columns_or_rows() {
    assert_eq!(render(&generation(&[], 0, 3), false), "\n\n\n");
    assert_eq!(render(&generation(&[], 3, 0), false), "");
    assert_eq!(render(&generation(&[], 0, 0), true), "");
}

#[test]
fn render_leaves_out_cells_off_the_grid() {
    let gen = generation(&[(0, 0), (2, 0), (0, 2), (5, 5)], 2, 2);
    assert_eq!(render(&gen, false), "O   \n    \n");
}

#[test]
fn render_has_two_characters_for_each_cell() {
    let gen = generation(&[(3, 1), (6, 4)], 7, 5);
    let text = render(&gen, true);
    assert_eq!(text.chars().count(), 5 * (2 * 7 + 1));
    assert_eq!(text.lines().count(), 5);
    for line in text.lines() {
        assert_eq!(line.chars().count(), 14);
    }
}

#[test]
fn output_modes_have_names() {
    assert_eq!(OutputMode::Ascii.name(), "ascii");
    assert_eq!(OutputMode::Unicode.name(), "unicode");
}

#[test]
fn only_the_unicode_mode_is_unicode() {
    assert!(OutputMode::Unicode.is_unicode());
    assert!(!OutputMode::Ascii.is_unicode());
    let gen = generation(&[(0, 0)], 1, 1);
    assert_eq!(render(&gen, OutputMode::Ascii.is_unicode()), "O \n");
    assert_eq!(render(&gen, OutputMode::Unicode.is_unicode()), "\u{25cf} \n");
}
