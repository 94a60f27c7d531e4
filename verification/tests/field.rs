use tetris_core::Field;
use tetris_core::Tetromino;
use tetris_core::TetrominoType;

fn piece(cells: Vec<(i32, i32)>) -> Tetromino {
    Tetromino {
        pixels: cells,
        center: (0, 0),
        tetromino_type: TetrominoType::T,
        straight_tetromino_index: None,
    }
}

#[test]
fn new_field_is_empty() {
    let f = Field::new(10, 20);
    assert_eq!(f.width, 10);
    assert_eq!(f.height, 20);
    for x in 0..10 {
        for y in 0..20 {
            assert!(!f.is_set(x, y));
        }
    }
}

#[test]
fn new_field_enumerates_the_grid() {
    let f = Field::new(3, 2);
    let coords: Vec<(i32, i32)> = f.pixels.iter().map(|p| p.coordinates).collect();
    assert_eq!(coords, vec![(0, 0), (0, 1), (1, 0), (1, 1), (2, 0), (2, 1)]);
}

#[test]
fn is_set_is_false_outside_the_grid() {
    let mut f = Field::new(4, 4);
    let _ = f.fill_tetromino(&piece(vec![(0, 0), (1, 0), (2, 0), (3, 0)]));
    assert!(f.is_set(0, 0));
    assert!(!f.is_set(-1, 0));
    assert!(!f.is_set(0, -1));
    assert!(!f.is_set(4, 0));
    assert!(!f.is_set(0, 4));
}

#[test]
fn merge_reports_a_completed_row() {
    let mut f = Field::new(4, 4);
    // pre-fill row 3 except one cell
    let none = f.fill_tetromino(&piece(vec![(0, 3), (1, 3), (2, 3), (2, 2)]));
    assert_eq!(none, Vec::<u32>::new());
    // the last cell of row 3 completes it
    let rows = f.fill_tetromino(&piece(vec![(3, 3), (3, 2), (2, 1), (3, 1)]));
    assert_eq!(rows, vec![3]);
}

#[test]
fn merge_of_a_partial_row_reports_nothing() {
    let mut f = Field::new(10, 20);
    let rows = f.fill_tetromino(&piece(vec![(0, 19), (1, 19), (2, 19), (3, 19)]));
    assert_eq!(rows, Vec::<u32>::new());
}

#[test]
fn merge_ignores_cells_outside_the_grid() {
    let mut f = Field::new(4, 4);
    let rows = f.fill_tetromino(&piece(vec![(-1, 0), (0, -1), (4, 0), (0, 4)]));
    assert_eq!(rows, Vec::<u32>::new());
    for x in 0..4 {
        for y in 0..4 {
            assert!(!f.is_set(x, y));
        }
    }
}

#[test]
fn merge_reports_two_rows_completed_at_once() {
    let mut f = Field::new(2, 4);
    let none = f.fill_tetromino(&piece(vec![(0, 2), (0, 3), (0, 1), (0, 0)]));
    assert_eq!(none, Vec::<u32>::new());
    let rows = f.fill_tetromino(&piece(vec![(1, 2), (1, 3), (1, 0), (1, 1)]));
    assert_eq!(rows, vec![2, 3, 0, 1]);
}

#[test]
fn complete_row_removes_exactly_that_row() {
    let mut f = Field::new(4, 4);
    let _ = f.fill_tetromino(&piece(vec![(0, 3), (1, 3), (2, 3), (3, 3)]));
    let _ = f.fill_tetromino(&piece(vec![(0, 2), (1, 2), (0, 1), (1, 1)]));
    f.complete_row(&3);
    for x in 0..4 {
        assert!(!f.is_set(x, 3));
    }
    assert!(f.is_set(0, 2) && f.is_set(1, 2));
    assert!(f.is_set(0, 1) && f.is_set(1, 1));
}

#[test]
fn collapse_moves_rows_above_down_by_one() {
    let mut f = Field::new(4, 4);
    let _ = f.fill_tetromino(&piece(vec![(0, 3), (1, 3), (2, 3), (3, 3)]));
    let _ = f.fill_tetromino(&piece(vec![(0, 2), (1, 2), (0, 1), (2, 0)]));
    f.complete_row(&3);
    f.restructure_rows(Some(&3), 1);
    // the cells of rows 0..2 dropped one row each
    assert!(f.is_set(0, 3) && f.is_set(1, 3));
    assert!(f.is_set(0, 2));
    assert!(f.is_set(2, 1));
    assert!(!f.is_set(1, 2));
    assert!(!f.is_set(2, 0));
    assert!(!f.is_set(0, 1));
}

#[test]
fn collapse_with_no_row_changes_nothing() {
    let mut f = Field::new(4, 4);
    let _ = f.fill_tetromino(&piece(vec![(0, 2), (1, 2), (0, 1), (2, 0)]));
    f.restructure_rows(None, 1);
    assert!(f.is_set(0, 2) && f.is_set(1, 2) && f.is_set(0, 1) && f.is_set(2, 0));
    assert!(!f.is_set(0, 3));
}

#[test]
fn double_clear_collapses_by_two_in_one_pass() {
    let mut f = Field::new(2, 5);
    let _ = f.fill_tetromino(&piece(vec![(0, 3), (1, 3), (0, 4), (1, 4)]));
    let _ = f.fill_tetromino(&piece(vec![(0, 2), (0, 1), (1, 1), (0, 0)]));
    // rows 3 and 4 are complete
    f.complete_row(&3);
    f.complete_row(&4);
    f.restructure_rows(Some(&3), 2);
    // every cell above row 3 dropped two rows in one pass
    assert!(f.is_set(0, 4));
    assert!(f.is_set(0, 3) && f.is_set(1, 3));
    assert!(f.is_set(0, 2));
    assert!(!f.is_set(0, 1) && !f.is_set(1, 1));
    assert!(!f.is_set(0, 0));
}

#[test]
fn end_to_end_single_line_clear() {
    let mut f = Field::new(10, 20);
    // fill the bottom row with four horizontal pieces, all but one cell
    let none1 = f.fill_tetromino(&piece(vec![(0, 19), (1, 19), (2, 19), (3, 19)]));
    let none2 = f.fill_tetromino(&piece(vec![(4, 19), (5, 19), (6, 19), (7, 19)]));
    let none3 = f.fill_tetromino(&piece(vec![(8, 19), (5, 18), (6, 18), (7, 18)]));
    assert_eq!(none1, Vec::<u32>::new());
    assert_eq!(none2, Vec::<u32>::new());
    assert_eq!(none3, Vec::<u32>::new());
    // the final piece completes exactly row 19
    let rows = f.fill_tetromino(&piece(vec![(9, 19), (9, 18), (8, 18), (9, 17)]));
    assert_eq!(rows, vec![19]);
    for row in &rows {
        f.complete_row(&(*row as i32));
    }
    f.restructure_rows(rows.iter().min(), rows.len() as i32);
    // the row above now sits at the cleared row's former index
    assert!(f.is_set(5, 19) && f.is_set(6, 19) && f.is_set(7, 19));
    assert!(f.is_set(8, 19) && f.is_set(9, 19));
    assert!(f.is_set(9, 18));
    assert!(!f.is_set(0, 19) && !f.is_set(1, 19));
    assert!(!f.is_set(5, 18));
    assert!(!f.is_set(9, 17));
}
