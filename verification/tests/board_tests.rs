use minesweeper::board::Board;
use minesweeper::board::Cell;
use minesweeper::board::GenError;
use minesweeper::board::generate;
use minesweeper::rng::RandomSource;
use minesweeper::rng::ScriptedSource;
use minesweeper::rng::SmallRngSource;

fn mines_on(board: &Board) -> usize {
    let mut mines = 0;
    for y in 0..board.size {
        for x in 0..board.size {
            if board.get(x, y) == Cell::Mine {
                mines += 1;
            }
        }
    }
    mines
}

fn recomputed_count(board: &Board, x: usize, y: usize) -> u8 {
    let mut c = 0;
    for dy in 0..3usize {
        for dx in 0..3usize {
            if dx == 1 && dy == 1 {
                continue;
            }
            let nx = x + dx;
            let ny = y + dy;
            if nx >= 1 && ny >= 1 && nx <= board.size && ny <= board.size {
                if board.get(nx - 1, ny - 1) == Cell::Mine {
                    c += 1;
                }
            }
        }
    }
    c
}

fn assert_counts_match(board: &Board) {
    for y in 0..board.size {
        for x in 0..board.size {
            match board.get(x, y) {
                Cell::Mine => {}
                Cell::Count(c) => {
                    assert!(c <= 8, "count out of range at ({x}, {y}): {c}");
                    assert_eq!(
                        c,
                        recomputed_count(board, x, y),
                        "count wrong at ({x}, {y})"
                    );
                }
            }
        }
    }
}

#[test]
fn scripted_source_cycles() {
    let mut src = ScriptedSource::new(vec![7, 8]);
    assert_eq!(src.next_u32(), 7);
    assert_eq!(src.next_u32(), 8);
    assert_eq!(src.next_u32(), 7);
    let mut empty = ScriptedSource::new(vec![]);
    assert_eq!(empty.next_u32(), 0);
    assert_eq!(empty.next_u32(), 0);
}

#[test]
fn center_mine_on_three_by_three() {
    let mut src = ScriptedSource::new(vec![1]);
    let board = generate(3, 1, &mut src).unwrap();
    assert_eq!(board.size, 3);
    assert_eq!(board.mine_count, 1);
    assert_eq!(board.get(1, 1), Cell::Mine);
    for y in 0..3 {
        for x in 0..3 {
            if (x, y) != (1, 1) {
                assert_eq!(board.get(x, y), Cell::Count(1), "at ({x}, {y})");
            }
        }
    }
}

#[test]
fn full_grid_is_rejected() {
    let mut src = ScriptedSource::new(vec![0]);
    assert!(matches!(generate(2, 4, &mut src), Err(GenError::InvalidConfiguration)));
}

#[test]
fn zero_size_is_rejected() {
    let mut src = ScriptedSource::new(vec![0]);
    assert!(matches!(generate(0, 0, &mut src), Err(GenError::InvalidConfiguration)));
    let mut src = ScriptedSource::new(vec![0]);
    assert!(matches!(generate(0, 3, &mut src), Err(GenError::InvalidConfiguration)));
}

#[test]
fn single_cell_boards() {
    let mut src = ScriptedSource::new(vec![0]);
    let board = generate(1, 0, &mut src).unwrap();
    assert_eq!(board.get(0, 0), Cell::Count(0));
    let mut src = ScriptedSource::new(vec![0]);
    assert!(matches!(generate(1, 1, &mut src), Err(GenError::InvalidConfiguration)));
}

#[test]
fn zero_mines_gives_all_zero_counts() {
    let mut src = ScriptedSource::new(vec![5]);
    let board = generate(4, 0, &mut src).unwrap();
    assert_eq!(mines_on(&board), 0);
    for y in 0..4 {
        for x in 0..4 {
            assert_eq!(board.get(x, y), Cell::Count(0));
        }
    }
}

#[test]
fn rejected_draw_is_redrawn() {
    // Draws give (0, 0), then (0, 0) again (already a mine, rejected),
    // then (1, 0).
    let mut src = ScriptedSource::new(vec![0, 0, 0, 0, 1, 0]);
    let board = generate(2, 2, &mut src).unwrap();
    assert_eq!(board.get(0, 0), Cell::Mine);
    assert_eq!(board.get(1, 0), Cell::Mine);
    assert_eq!(board.get(0, 1), Cell::Count(2));
    assert_eq!(board.get(1, 1), Cell::Count(2));
}

#[test]
fn constant_source_falls_back_to_scan() {
    // A source stuck on (0, 0) can never draw a second free cell; the
    // capped search then takes the first free cells in row-major order.
    let mut src = ScriptedSource::new(vec![0]);
    let board = generate(2, 3, &mut src).unwrap();
    assert_eq!(mines_on(&board), 3);
    assert_eq!(board.get(0, 0), Cell::Mine);
    assert_eq!(board.get(1, 0), Cell::Mine);
    assert_eq!(board.get(0, 1), Cell::Mine);
    assert_eq!(board.get(1, 1), Cell::Count(3));
    assert_counts_match(&board);
}

#[test]
fn scripted_generation_is_reproducible() {
    let draws = vec![3, 14, 15, 92, 65, 35, 89, 79, 32, 38, 46, 26];
    let mut a_src = ScriptedSource::new(draws.clone());
    let mut b_src = ScriptedSource::new(draws);
    let a = generate(5, 6, &mut a_src).unwrap();
    let b = generate(5, 6, &mut b_src).unwrap();
    assert_eq!(a.size, b.size);
    assert_eq!(a.mine_count, b.mine_count);
    for y in 0..5 {
        for x in 0..5 {
            assert_eq!(a.get(x, y), b.get(x, y), "boards differ at ({x}, {y})");
        }
    }
}

#[test]
fn seeded_generation_is_reproducible() {
    let mut a_src = SmallRngSource::from_seed(123456789);
    let mut b_src = SmallRngSource::from_seed(123456789);
    let a = generate(9, 10, &mut a_src).unwrap();
    let b = generate(9, 10, &mut b_src).unwrap();
    for y in 0..9 {
        for x in 0..9 {
            assert_eq!(a.get(x, y), b.get(x, y), "boards differ at ({x}, {y})");
        }
    }
}

#[test]
fn shipped_configuration_a_thousand_times() {
    for _ in 0..1000 {
        let mut src = SmallRngSource::from_entropy();
        let board = generate(9, 10, &mut src).unwrap();
        assert_eq!(board.size, 9);
        assert_eq!(mines_on(&board), 10);
        assert_counts_match(&board);
    }
}

#[test]
fn scripted_counts_match_recomputation() {
    let mut src = ScriptedSource::new(vec![2, 0, 6, 3, 1, 5, 4, 4, 0, 6]);
    let board = generate(7, 5, &mut src).unwrap();
    assert_eq!(mines_on(&board), 5);
    assert_counts_match(&board);
}
