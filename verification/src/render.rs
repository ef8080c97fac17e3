//! Rendering a finished board as chat-message text: a header stating the
//! mine count, then one line per row of spoiler-wrapped cell tokens.

use vstd::prelude::*;

use crate::board::Board;
use crate::board::Cell;
use crate::board::grid_index;
use crate::board::in_bounds;
use crate::board::lemma_adj_mines_bounds;
use crate::board::mine_grid;
use crate::board::spec_cell;

verus! {

/// The English word for a digit, as used inside a cell token.
pub open spec fn digit_word(d: int) -> Seq<char> {
    if d == 0 {
        "zero"@
    } else if d == 1 {
        "one"@
    } else if d == 2 {
        "two"@
    } else if d == 3 {
        "three"@
    } else if d == 4 {
        "four"@
    } else if d == 5 {
        "five"@
    } else if d == 6 {
        "six"@
    } else if d == 7 {
        "seven"@
    } else if d == 8 {
        "eight"@
    } else {
        "nine"@
    }
}

/// The decimal digit character for `d` in `[0, 9]`.
pub open spec fn dec_digit(d: int) -> char {
    if d == 0 {
        '0'
    } else if d == 1 {
        '1'
    } else if d == 2 {
        '2'
    } else if d == 3 {
        '3'
    } else if d == 4 {
        '4'
    } else if d == 5 {
        '5'
    } else if d == 6 {
        '6'
    } else if d == 7 {
        '7'
    } else if d == 8 {
        '8'
    } else {
        '9'
    }
}

/// The decimal numeral of a non-negative integer.
pub open spec fn dec_str(n: int) -> Seq<char>
    decreases n,
{
    if n <= 9 {
        seq![dec_digit(n)]
    } else {
        dec_str(n / 10) + seq![dec_digit(n % 10)]
    }
}

/// The spoiler-wrapped token a cell is rendered as: the digit word of its
/// count, or the explosion token for a mine.
pub open spec fn cell_token(c: Cell) -> Seq<char> {
    match c {
        Cell::Mine => "||  :boom:  ||  "@,
        Cell::Count(d) => "||  :"@ + digit_word(d as int) + ":  ||  "@,
    }
}

/// The tokens of row `y` from column `x` to the row's end.
pub open spec fn row_suffix(cells: Seq<Cell>, size: int, y: int, x: int) -> Seq<char>
    decreases size - x,
{
    if x < 0 || size <= x {
        Seq::<char>::empty()
    } else {
        cell_token(cells[grid_index(size, x, y)]) + row_suffix(cells, size, y, x + 1)
    }
}

/// The rendered lines of the rows from `y` down, each closed by a newline.
pub open spec fn rows_suffix(cells: Seq<Cell>, size: int, y: int) -> Seq<char>
    decreases size - y,
{
    if y < 0 || size <= y {
        Seq::<char>::empty()
    } else {
        row_suffix(cells, size, y, 0) + "\n"@ + rows_suffix(cells, size, y + 1)
    }
}

/// The full rendering of a board: a header line stating the mine count,
/// then one line per row.
pub open spec fn board_text(b: Board) -> Seq<char> {
    "\n"@ + dec_str(b.mine_count as int) + " akna van elrejtve\n"@ + rows_suffix(
        b.cells@,
        b.size as int,
        0,
    )
}

/// Appends the decimal digit character of `d`.
fn append_dec_digit(s: &mut String, d: usize)
    requires
        d <= 9,
    ensures
        final(s)@ == old(s)@ + seq![dec_digit(d as int)],
{
    proof {
        reveal_strlit("0");
        reveal_strlit("1");
        reveal_strlit("2");
        reveal_strlit("3");
        reveal_strlit("4");
        reveal_strlit("5");
        reveal_strlit("6");
        reveal_strlit("7");
        reveal_strlit("8");
        reveal_strlit("9");
    }
    if d == 0 {
        s.append("0");
    } else if d == 1 {
        s.append("1");
    } else if d == 2 {
        s.append("2");
    } else if d == 3 {
        s.append("3");
    } else if d == 4 {
        s.append("4");
    } else if d == 5 {
        s.append("5");
    } else if d == 6 {
        s.append("6");
    } else if d == 7 {
        s.append("7");
    } else if d == 8 {
        s.append("8");
    } else {
        s.append("9");
    }
    assert(s@ =~= old(s)@ + seq![dec_digit(d as int)]);
}

/// Appends the decimal numeral of `n`.
fn append_decimal(s: &mut String, n: usize)
    ensures
        final(s)@ == old(s)@ + dec_str(n as int),
    decreases n,
{
    if n <= 9 {
        append_dec_digit(s, n);
    } else {
        append_decimal(s, n / 10);
        append_dec_digit(s, n % 10);
        assert(s@ =~= old(s)@ + dec_str(n as int));
    }
}

/// Appends the digit word of `d`.
fn append_digit_word(s: &mut String, d: u8)
    requires
        d <= 9,
    ensures
        final(s)@ == old(s)@ + digit_word(d as int),
{
    if d == 0 {
        s.append("zero");
    } else if d == 1 {
        s.append("one");
    } else if d == 2 {
        s.append("two");
    } else if d == 3 {
        s.append("three");
    } else if d == 4 {
        s.append("four");
    } else if d == 5 {
        s.append("five");
    } else if d == 6 {
        s.append("six");
    } else if d == 7 {
        s.append("seven");
    } else if d == 8 {
        s.append("eight");
    } else {
        s.append("nine");
    }
}

/// Renders a finished board as the text of one chat message: the header,
/// then each row as a line of spoiler-wrapped tokens.
pub fn render_board(b: &Board) -> (s: String)
    requires
        b.wf(),
    ensures
        s@ == board_text(*b),
{
    let ghost sz = b.size as int;
    let mut s = String::new();
    s.append("\n");
    append_decimal(&mut s, b.mine_count);
    s.append(" akna van elrejtve\n");
    proof {
        assert(s@ + rows_suffix(b.cells@, sz, 0) =~= board_text(*b));
    }
    let mut y: usize = 0;
    while y < b.size
        invariant
            b.wf(),
            y <= b.size,
            sz == b.size as int,
            s@ + rows_suffix(b.cells@, sz, y as int) == board_text(*b),
        decreases b.size - y,
    {
        proof {
            assert(s@ + row_suffix(b.cells@, sz, y as int, 0) + "\n"@ + rows_suffix(
                b.cells@,
                sz,
                y as int + 1,
            ) =~= s@ + rows_suffix(b.cells@, sz, y as int));
        }
        let mut x: usize = 0;
        while x < b.size
            invariant
                b.wf(),
                y < b.size,
                x <= b.size,
                sz == b.size as int,
                s@ + row_suffix(b.cells@, sz, y as int, x as int) + "\n"@ + rows_suffix(
                    b.cells@,
                    sz,
                    y as int + 1,
                ) == board_text(*b),
            decreases b.size - x,
        {
            let c = b.get(x, y);
            let ghost pre = s@;
            match c {
                Cell::Mine => {
                    s.append("||  :boom:  ||  ");
                },
                Cell::Count(d) => {
                    proof {
                        let m = mine_grid(b.cells@);
                        assert(in_bounds(sz, x as int, y as int));
                        assert(c == spec_cell(m, sz, x as int, y as int));
                        lemma_adj_mines_bounds(m, sz, x as int, y as int);
                    }
                    s.append("||  :");
                    append_digit_word(&mut s, d);
                    s.append(":  ||  ");
                },
            }
            proof {
                assert(s@ =~= pre + cell_token(b.cells@[grid_index(sz, x as int, y as int)]));
                assert(s@ + row_suffix(b.cells@, sz, y as int, x as int + 1) + "\n"@ + rows_suffix(
                    b.cells@,
                    sz,
                    y as int + 1,
                ) =~= pre + row_suffix(b.cells@, sz, y as int, x as int) + "\n"@ + rows_suffix(
                    b.cells@,
                    sz,
                    y as int + 1,
                ));
            }
            x = x + 1;
        }
        let ghost pre_row = s@;
        s.append("\n");
        proof {
            assert(row_suffix(b.cells@, sz, y as int, sz) =~= Seq::<char>::empty());
            assert(s@ + rows_suffix(b.cells@, sz, y as int + 1) =~= pre_row + row_suffix(
                b.cells@,
                sz,
                y as int,
                sz,
            ) + "\n"@ + rows_suffix(b.cells@, sz, y as int + 1));
        }
        y = y + 1;
    }
    proof {
        assert(rows_suffix(b.cells@, sz, sz) =~= Seq::<char>::empty());
        assert(s@ =~= s@ + rows_suffix(b.cells@, sz, sz));
    }
    s
}

} // verus!
