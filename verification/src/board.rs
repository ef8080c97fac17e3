//! The board model: cells, the mine grid, and the adjacency counts.

use vstd::prelude::*;

use crate::rng::RandomSource;

verus! {

/// One cell of a finished board: either a mine, or the number of mines
/// among the cell's in-bounds neighbors.
#[derive(Clone, Copy, PartialEq, Eq, Structural, Debug)]
pub enum Cell {
    Mine,
    Count(u8),
}

/// Index of the cell at column `x`, row `y` in a row-major grid of side `size`.
pub open spec fn grid_index(size: int, x: int, y: int) -> int {
    y * size + x
}

/// Whether `(x, y)` lies inside a grid of side `size`.
pub open spec fn in_bounds(size: int, x: int, y: int) -> bool {
    0 <= x < size && 0 <= y < size
}

/// 1 if `(x, y)` is in bounds and a mine in the mine grid `m`, else 0.
pub open spec fn mine_ind(m: Seq<bool>, size: int, x: int, y: int) -> int {
    if in_bounds(size, x, y) && m[grid_index(size, x, y)] {
        1int
    } else {
        0int
    }
}

/// Number of mines among the up-to-8 in-bounds neighbors of `(x, y)`.
pub open spec fn adj_mines(m: Seq<bool>, size: int, x: int, y: int) -> int {
    mine_ind(m, size, x - 1, y - 1) + mine_ind(m, size, x, y - 1) + mine_ind(m, size, x + 1, y - 1)
        + mine_ind(m, size, x - 1, y) + mine_ind(m, size, x + 1, y) + mine_ind(
        m,
        size,
        x - 1,
        y + 1,
    ) + mine_ind(m, size, x, y + 1) + mine_ind(m, size, x + 1, y + 1)
}

/// A neighbor count can never leave `[0, 8]`: a cell has at most 8
/// neighbors, so every count cell of a well-formed board carries a value in
/// that range.
pub proof fn lemma_adj_mines_bounds(m: Seq<bool>, size: int, x: int, y: int)
    ensures
        0 <= adj_mines(m, size, x, y) <= 8,
{
}

/// Number of `true` entries (mines) in a mine grid.
pub open spec fn count_true(m: Seq<bool>) -> int
    decreases m.len(),
{
    if m.len() == 0 {
        0int
    } else {
        count_true(m.drop_last()) + if m.last() {
            1int
        } else {
            0int
        }
    }
}

/// Appending one entry adds 1 to the count exactly when the entry is `true`.
pub proof fn lemma_count_true_push(m: Seq<bool>, b: bool)
    ensures
        count_true(m.push(b)) == count_true(m) + if b {
            1int
        } else {
            0int
        },
{
    assert(m.push(b).drop_last() =~= m);
    assert(m.push(b).last() == b);
}

/// Turning one `false` entry to `true` adds exactly 1 to the count.
pub proof fn lemma_count_true_set_true(m: Seq<bool>, i: int)
    requires
        0 <= i < m.len(),
        !m[i],
    ensures
        count_true(m.update(i, true)) == count_true(m) + 1,
    decreases m.len(),
{
    if i == m.len() - 1 {
        assert(m.update(i, true).drop_last() =~= m.drop_last());
        assert(m.update(i, true).last());
    } else {
        assert(m.update(i, true).drop_last() =~= m.drop_last().update(i, true));
        assert(m.update(i, true).last() == m.last());
        lemma_count_true_set_true(m.drop_last(), i);
    }
}

/// The count is between 0 and the grid's length.
pub proof fn lemma_count_true_bounds(m: Seq<bool>)
    ensures
        0 <= count_true(m) <= m.len(),
    decreases m.len(),
{
    if m.len() > 0 {
        lemma_count_true_bounds(m.drop_last());
    }
}

/// A grid with fewer mines than entries has a free entry.
pub proof fn lemma_free_cell_exists(m: Seq<bool>)
    requires
        count_true(m) < m.len(),
    ensures
        exists|i: int| 0 <= i < m.len() && !m[i],
    decreases m.len(),
{
    if !m.last() {
        assert(0 <= m.len() - 1 < m.len() && !m[m.len() - 1]);
    } else {
        lemma_count_true_bounds(m.drop_last());
        lemma_free_cell_exists(m.drop_last());
        let j = choose|j: int| 0 <= j < m.drop_last().len() && !m.drop_last()[j];
        assert(0 <= j < m.len() && !m[j]);
    }
}

/// The flattened index of an in-bounds cell, free of overflow.
fn flat_index(size: usize, x: usize, y: usize) -> (i: usize)
    requires
        x < size,
        y < size,
        (size as int) * (size as int) <= usize::MAX as int,
    ensures
        i as int == grid_index(size as int, x as int, y as int),
        i < (size as int) * (size as int),
{
    proof {
        assert((y as int) * (size as int) + (x as int) < (size as int) * (size as int))
            by (nonlinear_arith)
            requires
                (x as int) < (size as int),
                (y as int) < (size as int),
                0 <= x as int,
                0 <= y as int,
        ;
    }
    y * size + x
}

/// The mine grid underlying a sequence of cells: `true` where the cell is a mine.
pub open spec fn mine_grid(cells: Seq<Cell>) -> Seq<bool> {
    Seq::new(cells.len(), |i: int| cells[i] is Mine)
}

/// The one cell value a finished board may hold at `(x, y)`, given its mine
/// grid: the mine marker on a mine, else the count of adjacent mines.
pub open spec fn spec_cell(m: Seq<bool>, size: int, x: int, y: int) -> Cell {
    if m[grid_index(size, x, y)] {
        Cell::Mine
    } else {
        Cell::Count(adj_mines(m, size, x, y) as u8)
    }
}

/// A fully revealed minesweeper board: a square grid of side `size` in which
/// exactly `mine_count` cells are mines and every other cell counts the
/// mines among its in-bounds neighbors.
pub struct Board {
    pub size: usize,
    pub mine_count: usize,
    pub cells: Vec<Cell>,
}

impl Board {
    /// Well-formedness: the grid is square, and every cell is exactly what
    /// its own mine grid dictates — mines are marked, and every other cell
    /// carries the number of mines among its in-bounds neighbors,
    /// recomputable from the finished grid.
    pub open spec fn wf(self) -> bool {
        &&& 1 <= self.size
        &&& (self.size as int) * (self.size as int) <= usize::MAX as int
        &&& self.cells@.len() == (self.size as int) * (self.size as int)
        &&& self.mine_count as int == count_true(mine_grid(self.cells@))
        &&& forall|x: int, y: int|
            in_bounds(self.size as int, x, y) ==> self.cells@[grid_index(self.size as int, x, y)]
                == spec_cell(mine_grid(self.cells@), self.size as int, x, y)
    }

    /// The number of mine cells on the board.
    pub open spec fn mine_total(self) -> int {
        count_true(mine_grid(self.cells@))
    }

    /// The cell at column `x`, row `y`.
    pub fn get(&self, x: usize, y: usize) -> (c: Cell)
        requires
            self.wf(),
            x < self.size,
            y < self.size,
        ensures
            c == self.cells@[grid_index(self.size as int, x as int, y as int)],
    {
        self.cells[flat_index(self.size, x, y)]
    }
}

/// The number of mines among the in-bounds neighbors of `(x, y)`, computed
/// from the mine grid alone.
pub fn count_adjacent(m: &Vec<bool>, size: usize, x: usize, y: usize) -> (c: u8)
    requires
        x < size,
        y < size,
        (size as int) * (size as int) <= usize::MAX as int,
        m@.len() == (size as int) * (size as int),
    ensures
        c as int == adj_mines(m@, size as int, x as int, y as int),
{
    let ghost s = size as int;
    let ghost xi = x as int;
    let ghost yi = y as int;
    let mut c: u8 = 0;
    if x > 0 && y > 0 && m[flat_index(size, x - 1, y - 1)] {
        c = c + 1;
    }
    assert(c as int == mine_ind(m@, s, xi - 1, yi - 1));
    if y > 0 && m[flat_index(size, x, y - 1)] {
        c = c + 1;
    }
    assert(c as int == mine_ind(m@, s, xi - 1, yi - 1) + mine_ind(m@, s, xi, yi - 1));
    if x + 1 < size && y > 0 && m[flat_index(size, x + 1, y - 1)] {
        c = c + 1;
    }
    assert(c as int == mine_ind(m@, s, xi - 1, yi - 1) + mine_ind(m@, s, xi, yi - 1) + mine_ind(
        m@,
        s,
        xi + 1,
        yi - 1,
    ));
    if x > 0 && m[flat_index(size, x - 1, y)] {
        c = c + 1;
    }
    assert(c as int == mine_ind(m@, s, xi - 1, yi - 1) + mine_ind(m@, s, xi, yi - 1) + mine_ind(
        m@,
        s,
        xi + 1,
        yi - 1,
    ) + mine_ind(m@, s, xi - 1, yi));
    if x + 1 < size && m[flat_index(size, x + 1, y)] {
        c = c + 1;
    }
    assert(c as int == mine_ind(m@, s, xi - 1, yi - 1) + mine_ind(m@, s, xi, yi - 1) + mine_ind(
        m@,
        s,
        xi + 1,
        yi - 1,
    ) + mine_ind(m@, s, xi - 1, yi) + mine_ind(m@, s, xi + 1, yi));
    if x > 0 && y + 1 < size && m[flat_index(size, x - 1, y + 1)] {
        c = c + 1;
    }
    assert(c as int == mine_ind(m@, s, xi - 1, yi - 1) + mine_ind(m@, s, xi, yi - 1) + mine_ind(
        m@,
        s,
        xi + 1,
        yi - 1,
    ) + mine_ind(m@, s, xi - 1, yi) + mine_ind(m@, s, xi + 1, yi) + mine_ind(m@, s, xi - 1, yi + 1));
    if y + 1 < size && m[flat_index(size, x, y + 1)] {
        c = c + 1;
    }
    assert(c as int == mine_ind(m@, s, xi - 1, yi - 1) + mine_ind(m@, s, xi, yi - 1) + mine_ind(
        m@,
        s,
        xi + 1,
        yi - 1,
    ) + mine_ind(m@, s, xi - 1, yi) + mine_ind(m@, s, xi + 1, yi) + mine_ind(m@, s, xi - 1, yi + 1)
        + mine_ind(m@, s, xi, yi + 1));
    if x + 1 < size && y + 1 < size && m[flat_index(size, x + 1, y + 1)] {
        c = c + 1;
    }
    assert(c as int == adj_mines(m@, s, xi, yi));
    c
}

/// For an in-bounds cell of a row before `y`, the flattened index stays
/// below the start of row `y`.
proof fn lemma_row_index_below(s: int, xx: int, yy: int, y: int)
    requires
        0 <= xx < s,
        0 <= yy < y,
    ensures
        grid_index(s, xx, yy) < y * s,
        0 <= grid_index(s, xx, yy),
{
    assert(yy * s + xx < y * s) by (nonlinear_arith)
        requires
            0 <= xx < s,
            0 <= yy < y,
    ;
    assert(0 <= yy * s + xx) by (nonlinear_arith)
        requires
            0 <= xx,
            0 <= yy,
            0 < s,
    ;
}

/// Builds the finished board over a given mine grid: mines are marked, and
/// every other cell gets its count of adjacent mines. The result is a
/// function of `size` and `m` alone, pinned cell by cell.
pub fn board_from_mines(size: usize, mine_count: usize, m: &Vec<bool>) -> (b: Board)
    requires
        1 <= size,
        (size as int) * (size as int) <= usize::MAX as int,
        m@.len() == (size as int) * (size as int),
        mine_count as int == count_true(m@),
    ensures
        b.size == size,
        b.mine_count == mine_count,
        b.wf(),
        mine_grid(b.cells@) == m@,
        forall|x: int, y: int|
            in_bounds(size as int, x, y) ==> b.cells@[grid_index(size as int, x, y)] == spec_cell(
                m@,
                size as int,
                x,
                y,
            ),
{
    let ghost s = size as int;
    let mut cells: Vec<Cell> = Vec::new();
    let mut y: usize = 0;
    while y < size
        invariant
            1 <= size,
            y <= size,
            s == size as int,
            (size as int) * (size as int) <= usize::MAX as int,
            m@.len() == (size as int) * (size as int),
            cells@.len() == (y as int) * s,
            forall|i: int| 0 <= i < cells@.len() ==> ((cells@[i] is Mine) <==> m@[i]),
            forall|xx: int, yy: int|
                0 <= xx < s && 0 <= yy < y ==> cells@[grid_index(s, xx, yy)] == spec_cell(
                    m@,
                    s,
                    xx,
                    yy,
                ),
        decreases size - y,
    {
        let mut x: usize = 0;
        while x < size
            invariant
                1 <= size,
                y < size,
                x <= size,
                s == size as int,
                (size as int) * (size as int) <= usize::MAX as int,
                m@.len() == (size as int) * (size as int),
                cells@.len() == (y as int) * s + x as int,
                forall|i: int| 0 <= i < cells@.len() ==> ((cells@[i] is Mine) <==> m@[i]),
                forall|xx: int, yy: int|
                    0 <= xx < s && 0 <= yy < y ==> cells@[grid_index(s, xx, yy)] == spec_cell(
                        m@,
                        s,
                        xx,
                        yy,
                    ),
                forall|xx: int|
                    0 <= xx < x ==> cells@[grid_index(s, xx, y as int)] == spec_cell(
                        m@,
                        s,
                        xx,
                        y as int,
                    ),
            decreases size - x,
        {
            let i = flat_index(size, x, y);
            assert(i as int == cells@.len());
            let ghost pre = cells@;
            if m[i] {
                cells.push(Cell::Mine);
            } else {
                let n = count_adjacent(m, size, x, y);
                cells.push(Cell::Count(n));
            }
            proof {
                assert forall|xx: int, yy: int| 0 <= xx < s && 0 <= yy < y implies cells@[grid_index(
                    s,
                    xx,
                    yy,
                )] == spec_cell(m@, s, xx, yy) by {
                    lemma_row_index_below(s, xx, yy, y as int);
                    assert(cells@[grid_index(s, xx, yy)] == pre[grid_index(s, xx, yy)]);
                }
                assert(cells@[grid_index(s, x as int, y as int)] == spec_cell(
                    m@,
                    s,
                    x as int,
                    y as int,
                ));
            }
            x = x + 1;
        }
        proof {
            assert((y as int + 1) * s == (y as int) * s + s) by (nonlinear_arith);
        }
        y = y + 1;
    }
    proof {
        assert(cells@.len() == s * s);
        assert(mine_grid(cells@) =~= m@);
        assert forall|x: int, yy: int| in_bounds(s, x, yy) implies cells@[grid_index(s, x, yy)]
            == spec_cell(m@, s, x, yy) by {}
    }
    let b = Board { size, mine_count, cells };
    proof {
        assert forall|x: int, yy: int| in_bounds(s, x, yy) implies b.cells@[grid_index(s, x, yy)]
            == spec_cell(mine_grid(b.cells@), s, x, yy) by {
            assert(mine_grid(b.cells@) == m@);
        }
    }
    b
}

/// Draws a coordinate pair, rejecting cells that already hold a mine.
/// Redraws are capped at one attempt per grid cell; past the cap the first
/// free cell in row-major order is taken, so the search always terminates
/// even against an adversarial source.
fn draw_free_index<R: RandomSource>(size: usize, m: &Vec<bool>, rng: &mut R) -> (i: usize)
    requires
        1 <= size,
        (size as int) * (size as int) <= usize::MAX as int,
        m@.len() == (size as int) * (size as int),
        count_true(m@) < m@.len(),
    ensures
        i < m@.len(),
        !m@[i as int],
{
    let total = size * size;
    let mut attempts: usize = 0;
    while attempts < total
        invariant
            1 <= size,
            (size as int) * (size as int) <= usize::MAX as int,
            m@.len() == (size as int) * (size as int),
            total as int == (size as int) * (size as int),
        decreases total - attempts,
    {
        let x = (rng.next_u32() as usize) % size;
        let y = (rng.next_u32() as usize) % size;
        let i = flat_index(size, x, y);
        if !m[i] {
            return i;
        }
        attempts = attempts + 1;
    }
    let mut i: usize = 0;
    while i < total
        invariant
            (size as int) * (size as int) <= usize::MAX as int,
            m@.len() == (size as int) * (size as int),
            total as int == (size as int) * (size as int),
            count_true(m@) < m@.len(),
            i <= total,
            forall|j: int| 0 <= j < i ==> m@[j],
        decreases total - i,
    {
        if !m[i] {
            return i;
        }
        i = i + 1;
    }
    proof {
        lemma_free_cell_exists(m@);
        let j = choose|j: int| 0 <= j < m@.len() && !m@[j];
        assert(m@[j]);
    }
    unreached()
}

/// Fills a fresh mine grid: `mine_count` distinct cells drawn from `rng`.
fn draw_mine_grid<R: RandomSource>(size: usize, mine_count: usize, rng: &mut R) -> (m: Vec<bool>)
    requires
        1 <= size,
        (mine_count as int) < (size as int) * (size as int),
        (size as int) * (size as int) <= usize::MAX as int,
    ensures
        m@.len() == (size as int) * (size as int),
        count_true(m@) == mine_count as int,
{
    let total = size * size;
    let mut m: Vec<bool> = Vec::new();
    let mut i: usize = 0;
    while i < total
        invariant
            i <= total,
            m@.len() == i as int,
            count_true(m@) == 0,
        decreases total - i,
    {
        let ghost pre = m@;
        m.push(false);
        proof {
            lemma_count_true_push(pre, false);
        }
        i = i + 1;
    }
    let mut placed: usize = 0;
    while placed < mine_count
        invariant
            1 <= size,
            (mine_count as int) < (size as int) * (size as int),
            (size as int) * (size as int) <= usize::MAX as int,
            m@.len() == (size as int) * (size as int),
            placed <= mine_count,
            count_true(m@) == placed as int,
        decreases mine_count - placed,
    {
        let i = draw_free_index(size, &m, rng);
        let ghost pre = m@;
        m.set(i, true);
        proof {
            lemma_count_true_set_true(pre, i as int);
        }
        placed = placed + 1;
    }
    m
}

/// An index into the flattened grid decomposes into in-bounds coordinates.
proof fn lemma_index_to_coords(s: int, i: int)
    requires
        1 <= s,
        0 <= i < s * s,
    ensures
        in_bounds(s, i % s, i / s),
        grid_index(s, i % s, i / s) == i,
{
    vstd::arithmetic::div_mod::lemma_fundamental_div_mod(i, s);
    vstd::arithmetic::div_mod::lemma_mod_bound(i, s);
    assert(0 <= i / s < s) by (nonlinear_arith)
        requires
            1 <= s,
            0 <= i < s * s,
            i == s * (i / s) + (i % s),
            0 <= i % s < s,
    ;
    assert((i / s) * s == s * (i / s)) by (nonlinear_arith);
    assert(grid_index(s, i % s, i / s) == (i / s) * s + (i % s));
}

/// Determinism of the finished board: two well-formed boards of the same
/// size with the same mine grid are the same board, cell for cell, and
/// report the same mine count. Together with the generator's contract, a
/// board is fully determined by its size and the set of cells the draws
/// placed mines on.
pub proof fn lemma_board_determined_by_mines(a: Board, b: Board)
    requires
        a.wf(),
        b.wf(),
        a.size == b.size,
        mine_grid(a.cells@) == mine_grid(b.cells@),
    ensures
        a.cells@ == b.cells@,
        a.mine_count == b.mine_count,
{
    let s = a.size as int;
    assert forall|i: int| 0 <= i < a.cells@.len() implies a.cells@[i] == b.cells@[i] by {
        lemma_index_to_coords(s, i);
        let x = i % s;
        let y = i / s;
        assert(a.cells@[grid_index(s, x, y)] == spec_cell(mine_grid(a.cells@), s, x, y));
        assert(b.cells@[grid_index(s, x, y)] == spec_cell(mine_grid(b.cells@), s, x, y));
    }
    assert(a.cells@ =~= b.cells@);
}

/// The error a rejected configuration is reported with.
#[derive(Clone, Copy, PartialEq, Eq, Structural, Debug)]
pub enum GenError {
    InvalidConfiguration,
}

/// A configuration the generator accepts: a positive side length, with
/// strictly fewer mines than cells (otherwise placement could never finish).
pub open spec fn valid_config(size: usize, mine_count: usize) -> bool {
    1 <= size && (mine_count as int) < (size as int) * (size as int)
}

/// Generates a fully revealed board of side `size` with exactly `mine_count`
/// mines, their positions drawn from `rng`. An invalid configuration is
/// rejected up front with `InvalidConfiguration`; a valid one always yields a
/// well-formed board carrying exactly `mine_count` mines.
pub fn generate<R: RandomSource>(size: usize, mine_count: usize, rng: &mut R) -> (r: Result<
    Board,
    GenError,
>)
    requires
        (size as int) * (size as int) <= usize::MAX as int,
    ensures
        r is Ok <==> valid_config(size, mine_count),
        r matches Ok(b) ==> b.size == size && b.wf() && b.mine_total() == mine_count as int,
        r matches Err(e) ==> e == GenError::InvalidConfiguration,
{
    if size == 0 {
        return Err(GenError::InvalidConfiguration);
    }
    if mine_count >= size * size {
        return Err(GenError::InvalidConfiguration);
    }
    let m = draw_mine_grid(size, mine_count, rng);
    Ok(board_from_mines(size, mine_count, &m))
}

} // verus!
