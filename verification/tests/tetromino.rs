use tetris_core::Field;
use tetris_core::Tetromino;
use tetris_core::TetrominoType;
use tetris_core::tetromino::get_center;
use tetris_core::tetromino::tetromino_l;
use tetris_core::tetromino::tetromino_pool;
use tetris_core::tetromino::tetromino_skew;
use tetris_core::tetromino::tetromino_square;
use tetris_core::tetromino::tetromino_straight_options;
use tetris_core::tetromino::tetromino_t;

fn t_piece(cells: Vec<(i32, i32)>, center: (i32, i32)) -> Tetromino {
    Tetromino {
        pixels: cells,
        center,
        tetromino_type: TetrominoType::T,
        straight_tetromino_index: None,
    }
}

#[test]
fn spawn_yields_four_cells() {
    for _ in 0..50 {
        let t = Tetromino::new(10).unwrap();
        assert_eq!(t.pixels.len(), 4);
        match t.tetromino_type {
            TetrominoType::STRAIGHT => assert_eq!(t.straight_tetromino_index, Some(0)),
            _ => assert_eq!(t.straight_tetromino_index, None),
        }
        for &(x, y) in &t.pixels {
            assert!((3..=6).contains(&x));
            assert!((0..=1).contains(&y));
        }
    }
}

#[test]
fn moves_and_rotations_keep_four_cells() {
    let mut t = t_piece(vec![(4, 5), (5, 5), (6, 5), (5, 6)], (5, 5));
    t.move_left().unwrap();
    assert_eq!(t.pixels.len(), 4);
    t.move_right(10).unwrap();
    assert_eq!(t.pixels.len(), 4);
    t.move_next(20).unwrap();
    assert_eq!(t.pixels.len(), 4);
    t.transform().unwrap();
    assert_eq!(t.pixels.len(), 4);
}

#[test]
fn is_set_sees_exactly_the_piece_cells() {
    let t = t_piece(vec![(4, 5), (5, 5), (6, 5), (5, 6)], (5, 5));
    assert!(t.is_set(4, 5));
    assert!(t.is_set(5, 6));
    assert!(!t.is_set(5, 4));
    assert!(!t.is_set(7, 5));
}

#[test]
fn move_left_then_right_restores_the_piece() {
    let original = vec![(4, 5), (5, 5), (6, 5), (5, 6)];
    let mut t = t_piece(original.clone(), (5, 5));
    t.move_left().unwrap();
    assert_eq!(t.pixels, vec![(3, 5), (4, 5), (5, 5), (4, 6)]);
    t.move_right(10).unwrap();
    assert_eq!(t.pixels, original);
    assert_eq!(t.center, (5, 5));
}

#[test]
fn move_right_then_left_restores_the_piece() {
    let original = vec![(4, 5), (5, 5), (6, 5), (5, 6)];
    let mut t = t_piece(original.clone(), (5, 5));
    t.move_right(10).unwrap();
    assert_eq!(t.pixels, vec![(5, 5), (6, 5), (7, 5), (6, 6)]);
    t.move_left().unwrap();
    assert_eq!(t.pixels, original);
    assert_eq!(t.center, (5, 5));
}

#[test]
fn move_left_at_column_zero_is_a_no_op() {
    let original = vec![(0, 5), (1, 5), (2, 5), (1, 6)];
    let mut t = t_piece(original.clone(), (1, 5));
    t.move_left().unwrap();
    assert_eq!(t.pixels, original);
    assert_eq!(t.center, (1, 5));
    assert_eq!(t.tetromino_type, TetrominoType::T);
    assert_eq!(t.straight_tetromino_index, None);
}

#[test]
fn move_right_at_the_last_column_is_a_no_op() {
    let original = vec![(7, 5), (8, 5), (9, 5), (8, 6)];
    let mut t = t_piece(original.clone(), (8, 5));
    t.move_right(10).unwrap();
    assert_eq!(t.pixels, original);
    assert_eq!(t.center, (8, 5));
}

#[test]
fn move_next_signals_the_floor() {
    let mut t = t_piece(vec![(4, 10), (5, 10), (6, 10), (5, 11)], (5, 10));
    assert_eq!(t.move_next(20).unwrap(), false);
    assert_eq!(t.pixels, vec![(4, 11), (5, 11), (6, 11), (5, 12)]);
    assert_eq!(t.center, (5, 11));
    let mut u = t_piece(vec![(4, 18), (5, 18), (6, 18), (5, 17)], (5, 18));
    assert_eq!(u.move_next(20).unwrap(), true);
    assert_eq!(u.pixels, vec![(4, 19), (5, 19), (6, 19), (5, 18)]);
}

#[test]
fn has_collision_sees_only_the_cell_below() {
    let mut f = Field::new(10, 20);
    let filler = t_piece(vec![(2, 5), (3, 5), (4, 5), (3, 4)], (3, 5));
    let _ = f.fill_tetromino(&filler);
    let mut above = t_piece(vec![(2, 4), (1, 4), (0, 4), (1, 3)], (1, 4));
    assert!(above.has_collision(&f));
    let mut beside = t_piece(vec![(5, 5), (6, 5), (7, 5), (6, 4)], (6, 5));
    assert!(!beside.has_collision(&f));
    let mut below = t_piece(vec![(2, 6), (3, 6), (4, 6), (3, 7)], (3, 6));
    assert!(!below.has_collision(&f));
}

#[test]
fn square_rotation_is_a_no_op() {
    let original = vec![(5, 0), (5, 1), (4, 0), (4, 1)];
    let mut t = Tetromino {
        pixels: original.clone(),
        center: (5, 0),
        tetromino_type: TetrominoType::SQUARE,
        straight_tetromino_index: None,
    };
    for _ in 0..4 {
        t.transform().unwrap();
        assert_eq!(t.pixels, original);
    }
}

#[test]
fn four_rotations_restore_t_l_and_skew() {
    for kind in [TetrominoType::T, TetrominoType::L, TetrominoType::SKEW] {
        let start = (5, 10);
        let cells = match kind {
            TetrominoType::T => tetromino_t(5),
            TetrominoType::L => tetromino_l(5),
            _ => tetromino_skew(5),
        };
        let original: Vec<(i32, i32)> = cells.iter().map(|&(x, y)| (x, y + 10)).collect();
        let mut t = Tetromino {
            pixels: original.clone(),
            center: start,
            tetromino_type: kind,
            straight_tetromino_index: None,
        };
        let mut seen = Vec::new();
        for _ in 0..4 {
            t.transform().unwrap();
            seen.push(t.pixels.clone());
        }
        assert_eq!(t.pixels, original);
        assert_eq!(t.center, start);
        assert_ne!(seen[0], original);
    }
}

#[test]
fn single_rotation_turns_a_quarter() {
    // one cell one column right of the pivot lands one row below it
    let mut t = t_piece(vec![(6, 5), (5, 5), (4, 5), (5, 4)], (5, 5));
    t.transform().unwrap();
    assert_eq!(t.pixels, vec![(5, 6), (5, 5), (5, 4), (6, 5)]);
    assert_eq!(t.center, (5, 5));
}

#[test]
fn straight_rotations_cycle_through_four_distinct_layouts() {
    let mut t = Tetromino {
        pixels: tetromino_straight_options((5, 0), 0),
        center: get_center(5, TetrominoType::STRAIGHT),
        tetromino_type: TetrominoType::STRAIGHT,
        straight_tetromino_index: Some(0),
    };
    let mut layouts = Vec::new();
    for _ in 0..4 {
        t.transform().unwrap();
        layouts.push(t.pixels.clone());
    }
    for i in 0..4 {
        for j in (i + 1)..4 {
            assert_ne!(layouts[i], layouts[j]);
        }
    }
    assert_eq!(t.straight_tetromino_index, Some(0));
    // a fifth rotation returns to the first rotated layout
    t.transform().unwrap();
    assert_eq!(t.pixels, layouts[0]);
    assert_eq!(t.straight_tetromino_index, Some(1));
}

#[test]
fn straight_layouts_match_the_table() {
    assert_eq!(tetromino_straight_options((5, 1), 0), vec![(3, 1), (4, 1), (5, 1), (6, 1)]);
    assert_eq!(tetromino_straight_options((5, 1), 1), vec![(5, 0), (5, 1), (5, 2), (5, 3)]);
    assert_eq!(tetromino_straight_options((5, 1), 2), vec![(3, 2), (4, 2), (5, 2), (6, 2)]);
    assert_eq!(tetromino_straight_options((5, 1), 3), vec![(4, 0), (4, 1), (4, 2), (4, 3)]);
}

#[test]
fn spawn_layouts_match_the_catalog() {
    assert_eq!(tetromino_square(5), vec![(5, 0), (5, 1), (4, 0), (4, 1)]);
    assert_eq!(tetromino_t(5), vec![(4, 0), (5, 0), (6, 0), (5, 1)]);
    assert_eq!(tetromino_l(5), vec![(4, 0), (4, 1), (5, 1), (6, 1)]);
    assert_eq!(tetromino_skew(5), vec![(5, 0), (6, 0), (4, 1), (5, 1)]);
    let pool = tetromino_pool(5);
    assert_eq!(pool.len(), 5);
    assert_eq!(pool[0].1, vec![(3, 0), (4, 0), (5, 0), (6, 0)]);
    assert_eq!(pool[1].1, tetromino_square(5));
    assert_eq!(pool[2].1, tetromino_t(5));
    assert_eq!(pool[3].1, tetromino_l(5));
    assert_eq!(pool[4].1, tetromino_skew(5));
}

#[test]
fn spawn_centers_match_the_catalog() {
    assert_eq!(get_center(5, TetrominoType::STRAIGHT), (4, 1));
    assert_eq!(get_center(5, TetrominoType::SQUARE), (5, 0));
    assert_eq!(get_center(5, TetrominoType::T), (5, 0));
    assert_eq!(get_center(5, TetrominoType::L), (5, 1));
    assert_eq!(get_center(5, TetrominoType::SKEW), (5, 1));
}

#[test]
fn geometry_errors_surface_on_an_empty_piece() {
    let mut empty = t_piece(vec![], (0, 0));
    assert_eq!(empty.move_next(20), Err("Could not determine new max y for tetromino"));
    let mut empty = t_piece(vec![], (0, 0));
    assert_eq!(empty.move_left(), Err("Could not determine new min x for tetromino"));
    let mut empty = t_piece(vec![], (0, 0));
    assert_eq!(empty.move_right(10), Err("Could not determine new max x for tetromino"));
}

#[test]
fn missing_rotation_state_surfaces() {
    let mut t = Tetromino {
        pixels: vec![(3, 0), (4, 0), (5, 0), (6, 0)],
        center: (4, 1),
        tetromino_type: TetrominoType::STRAIGHT,
        straight_tetromino_index: None,
    };
    assert_eq!(t.transform(), Err("Straight tetromino index missing from tetromino."));
}
