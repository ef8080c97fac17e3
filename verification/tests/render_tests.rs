use minesweeper::board::Cell;
use minesweeper::board::generate;
use minesweeper::render::render_board;
use minesweeper::rng::ScriptedSource;
use minesweeper::rng::SmallRngSource;

#[test]
fn renders_single_cell_board() {
    let mut src = ScriptedSource::new(vec![0]);
    let board = generate(1, 0, &mut src).unwrap();
    let text = render_board(&board);
    assert_eq!(text, "\n0 akna van elrejtve\n||  :zero:  ||  \n");
}

#[test]
fn renders_center_mine_board() {
    let mut src = ScriptedSource::new(vec![1]);
    let board = generate(3, 1, &mut src).unwrap();
    let text = render_board(&board);
    let one = "||  :one:  ||  ";
    let boom = "||  :boom:  ||  ";
    let expected = format!(
        "\n1 akna van elrejtve\n{one}{one}{one}\n{one}{boom}{one}\n{one}{one}{one}\n"
    );
    assert_eq!(text, expected);
}

#[test]
fn header_shows_multi_digit_mine_count() {
    let mut src = SmallRngSource::from_seed(42);
    let board = generate(9, 10, &mut src).unwrap();
    let text = render_board(&board);
    assert!(text.starts_with("\n10 akna van elrejtve\n"));
    assert_eq!(text.matches(":boom:").count(), 10);
    assert_eq!(text.matches("||").count(), 2 * 81);
    assert_eq!(text.lines().filter(|l| l.contains("||")).count(), 9);
}

#[test]
fn every_digit_word_renders() {
    // Eight mines packed around the center of a 3x3 grid leave the center
    // with the largest possible count.
    let mut src = ScriptedSource::new(vec![
        0, 0, 1, 0, 2, 0, 0, 1, 2, 1, 0, 2, 1, 2, 2, 2,
    ]);
    let board = generate(3, 8, &mut src).unwrap();
    assert_eq!(board.get(1, 1), Cell::Count(8));
    let text = render_board(&board);
    assert!(text.contains(":eight:"));
    assert_eq!(text.matches(":boom:").count(), 8);
}
