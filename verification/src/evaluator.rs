//! The heuristic evaluator: six board-quality terms (hole factor, bumpiness,
//! max height, line continuity, line filledness, filled-line count) and the
//! weighted fitness formula that combines them.

use vstd::prelude::*;
use crate::board::{Game, WIDTH, HEIGHT, row_filled, board_wf, lemma_grid_shape};

verus! {

/// The first row at or below `row` holding a block in `col`, or the board
/// height if the column is empty from `row` down.
pub open spec fn first_block_from(b: Seq<Seq<u8>>, col: int, row: int) -> int
    decreases HEIGHT - row,
{
    if row < 0 || row >= HEIGHT {
        HEIGHT as int
    } else if b[row][col] != 0 {
        row
    } else {
        first_block_from(b, col, row + 1)
    }
}

/// The topmost occupied row of a column, or the board height if none.
pub open spec fn first_block(b: Seq<Seq<u8>>, col: int) -> int {
    first_block_from(b, col, 0)
}

/// The column height the evaluator measures: the last column always counts
/// as 0 (it is never measured), any other column as the distance from its
/// topmost block to the floor.
pub open spec fn measured_height(b: Seq<Seq<u8>>, col: int) -> int {
    if col == WIDTH - 1 {
        0
    } else if first_block(b, col) == HEIGHT {
        0
    } else {
        HEIGHT - first_block(b, col)
    }
}

pub open spec fn diff_abs(a: int, b: int) -> int {
    if a >= b { a - b } else { b - a }
}

/// Sum of absolute height differences over the first `i` adjacent column pairs.
pub open spec fn bump_sum(b: Seq<Seq<u8>>, i: int) -> int
    decreases i,
{
    if i <= 0 {
        0
    } else {
        bump_sum(b, i - 1) + diff_abs(measured_height(b, i), measured_height(b, i - 1))
    }
}

/// The bumpiness term: adjacent differences across all measured columns.
pub open spec fn bumpiness_spec(b: Seq<Seq<u8>>) -> int {
    bump_sum(b, WIDTH - 1)
}

/// The maximum measured column height among the first `i` columns.
pub open spec fn max_height_upto(b: Seq<Seq<u8>>, i: int) -> int
    decreases i,
{
    if i <= 0 {
        0
    } else {
        let m = max_height_upto(b, i - 1);
        let h = measured_height(b, i - 1);
        if h > m { h } else { m }
    }
}

/// The max-height term.
pub open spec fn max_height_spec(b: Seq<Seq<u8>>) -> int {
    max_height_upto(b, WIDTH as int)
}

/// Row-index-weighted count of the empty cells of `col` from `row` down.
pub open spec fn holes_from(b: Seq<Seq<u8>>, col: int, row: int) -> int
    decreases HEIGHT - row,
{
    if row < 0 || row >= HEIGHT {
        0
    } else {
        (if b[row][col] == 0 { row } else { 0 }) + holes_from(b, col, row + 1)
    }
}

/// The hole factor of one column: empty cells below its topmost block,
/// each weighted by its row index (deeper holes weigh more).
pub open spec fn col_holes(b: Seq<Seq<u8>>, col: int) -> int {
    if first_block(b, col) == HEIGHT {
        0
    } else {
        holes_from(b, col, first_block(b, col))
    }
}

/// The hole factor summed over the first `i` columns.
pub open spec fn holes_sum(b: Seq<Seq<u8>>, i: int) -> int
    decreases i,
{
    if i <= 0 {
        0
    } else {
        holes_sum(b, i - 1) + col_holes(b, i - 1)
    }
}

/// The hole-factor term.
pub open spec fn hole_factor_spec(b: Seq<Seq<u8>>) -> int {
    holes_sum(b, WIDTH as int)
}

/// The length of the run of blocks at the start of a row, from `col` on.
pub open spec fn run_len_from(b: Seq<Seq<u8>>, row: int, col: int) -> int
    decreases WIDTH - col,
{
    if col < 0 || col >= WIDTH {
        0
    } else if b[row][col] == 0 {
        0
    } else {
        1 + run_len_from(b, row, col + 1)
    }
}

/// Row-index-weighted squared left-run lengths, over the first `i` rows.
pub open spec fn continuity_sum(b: Seq<Seq<u8>>, i: int) -> int
    decreases i,
{
    if i <= 0 {
        0
    } else {
        let run = run_len_from(b, i - 1, 0);
        continuity_sum(b, i - 1) + run * run * (i - 1)
    }
}

/// The line-continuity term.
pub open spec fn continuity_spec(b: Seq<Seq<u8>>) -> int {
    continuity_sum(b, HEIGHT as int)
}

/// The number of blocks in a row, from `col` on.
pub open spec fn row_count_from(b: Seq<Seq<u8>>, row: int, col: int) -> int
    decreases WIDTH - col,
{
    if col < 0 || col >= WIDTH {
        0
    } else {
        (if b[row][col] != 0 { 1int } else { 0int }) + row_count_from(b, row, col + 1)
    }
}

/// Row-index-weighted squared block counts, over the first `i` rows.
pub open spec fn filledness_sum(b: Seq<Seq<u8>>, i: int) -> int
    decreases i,
{
    if i <= 0 {
        0
    } else {
        let cnt = row_count_from(b, i - 1, 0);
        filledness_sum(b, i - 1) + cnt * cnt * (i - 1)
    }
}

/// The line-filledness term.
pub open spec fn filledness_spec(b: Seq<Seq<u8>>) -> int {
    filledness_sum(b, HEIGHT as int)
}

/// The number of completely filled rows among the first `i`.
pub open spec fn filled_rows(b: Seq<Seq<u8>>, i: int) -> int
    decreases i,
{
    if i <= 0 {
        0
    } else {
        filled_rows(b, i - 1) + if row_filled(b, i - 1) { 1int } else { 0int }
    }
}

/// Subtract a penalty, clamping at zero.
pub open spec fn clamp_sub(f: int, t: int) -> int {
    if f - t < 0 { 0 } else { f - t }
}

/// Add a bonus, saturating at the largest representable value.
pub open spec fn clamp_add(f: int, t: int) -> int {
    if f + t > u64::MAX { u64::MAX as int } else { f + t }
}

/// The fitness formula: starting from a large constant, the six weighted
/// terms are applied one after the other, each intermediate value clamped
/// into the representable range before the next is applied.
pub open spec fn fitness_spec(b: Seq<Seq<u8>>, w: Seq<u64>) -> int {
    let hf = hole_factor_spec(b);
    let lines = 10 * filled_rows(b, HEIGHT as int);
    let f1 = clamp_sub(1_000_000_000_000_000_000, w[0] * 10 * hf * hf);
    let f2 = clamp_sub(f1, w[1] * 2500 * bumpiness_spec(b));
    let f3 = clamp_sub(f2, w[2] * 20 * max_height_spec(b));
    let f4 = clamp_add(f3, w[3] * continuity_spec(b) / 50);
    let f5 = clamp_add(f4, w[4] * 50 * filledness_spec(b));
    clamp_add(f5, w[5] * 300 * lines * lines)
}

pub proof fn lemma_first_block_range(b: Seq<Seq<u8>>, col: int, row: int)
    ensures
        0 <= first_block_from(b, col, row) <= HEIGHT,
        0 <= row <= HEIGHT ==> row <= first_block_from(b, col, row),
    decreases HEIGHT - row,
{
    if 0 <= row < HEIGHT && b[row][col] == 0 {
        lemma_first_block_range(b, col, row + 1);
    }
}

/// If everything above `row` in `col` is empty and `row` itself is a block
/// (or the floor), then `row` is the column's first block.
pub proof fn lemma_first_block_char(b: Seq<Seq<u8>>, col: int, k: int, row: int)
    requires
        0 <= k <= row <= HEIGHT,
        forall|rr: int| k <= rr < row ==> b[rr][col] == 0,
        row < HEIGHT ==> b[row][col] != 0,
    ensures
        first_block_from(b, col, k) == row,
    decreases row - k,
{
    if k < row {
        assert(b[k][col] == 0);
        lemma_first_block_char(b, col, k + 1, row);
    }
}

/// If the first `col` cells of `row` are blocks and cell `col` is empty (or
/// the edge), the left run of the row is exactly `col` long.
pub proof fn lemma_run_len_char(b: Seq<Seq<u8>>, row: int, k: int, col: int)
    requires
        0 <= k <= col <= WIDTH,
        forall|cc: int| k <= cc < col ==> b[row][cc] != 0,
        col < WIDTH ==> b[row][col] == 0,
    ensures
        run_len_from(b, row, k) == col - k,
    decreases col - k,
{
    if k < col {
        assert(b[row][k] != 0);
        lemma_run_len_char(b, row, k + 1, col);
    }
}

pub proof fn lemma_holes_from_bounds(b: Seq<Seq<u8>>, col: int, row: int)
    ensures
        0 <= holes_from(b, col, row) <= 380,
        0 <= row <= HEIGHT ==> holes_from(b, col, row) <= (HEIGHT - row) * (HEIGHT - 1),
    decreases HEIGHT - row,
{
    if 0 <= row < HEIGHT {
        lemma_holes_from_bounds(b, col, row + 1);
    }
}

/// Later suffixes of a column weigh no more than earlier ones.
pub proof fn lemma_holes_from_monotone(b: Seq<Seq<u8>>, col: int, r1: int, r2: int)
    requires
        0 <= r1 <= r2,
    ensures
        holes_from(b, col, r2) <= holes_from(b, col, r1),
    decreases r2 - r1,
{
    lemma_holes_from_bounds(b, col, r2);
    if r1 < r2 {
        lemma_holes_from_monotone(b, col, r1 + 1, r2);
        lemma_holes_from_bounds(b, col, r1 + 1);
    }
}

pub proof fn lemma_holes_sum_bounds(b: Seq<Seq<u8>>, i: int)
    ensures
        0 <= holes_sum(b, i) <= (if i >= 0 { i * 380 } else { 0 }),
    decreases i,
{
    if i > 0 {
        lemma_holes_sum_bounds(b, i - 1);
        lemma_first_block_range(b, i - 1, 0);
        lemma_holes_from_bounds(b, i - 1, first_block(b, i - 1));
    }
}

pub proof fn lemma_measured_height_bounds(b: Seq<Seq<u8>>, col: int)
    ensures
        0 <= measured_height(b, col) <= 20,
{
    lemma_first_block_range(b, col, 0);
}

pub proof fn lemma_bump_sum_bounds(b: Seq<Seq<u8>>, i: int)
    ensures
        0 <= bump_sum(b, i) <= (if i >= 0 { i * 20 } else { 0 }),
    decreases i,
{
    if i > 0 {
        lemma_bump_sum_bounds(b, i - 1);
        lemma_measured_height_bounds(b, i);
        lemma_measured_height_bounds(b, i - 1);
    }
}

pub proof fn lemma_max_height_bounds(b: Seq<Seq<u8>>, i: int)
    ensures
        0 <= max_height_upto(b, i) <= 20,
    decreases i,
{
    if i > 0 {
        lemma_max_height_bounds(b, i - 1);
        lemma_measured_height_bounds(b, i - 1);
    }
}

pub proof fn lemma_row_count_bounds(b: Seq<Seq<u8>>, row: int, col: int)
    ensures
        0 <= row_count_from(b, row, col) <= WIDTH,
        0 <= col <= WIDTH ==> row_count_from(b, row, col) <= WIDTH - col,
    decreases WIDTH - col,
{
    if 0 <= col < WIDTH {
        lemma_row_count_bounds(b, row, col + 1);
    }
}

pub proof fn lemma_run_len_bounds(b: Seq<Seq<u8>>, row: int, col: int)
    ensures
        0 <= run_len_from(b, row, col) <= WIDTH,
        0 <= col <= WIDTH ==> run_len_from(b, row, col) <= WIDTH - col,
    decreases WIDTH - col,
{
    if 0 <= col < WIDTH {
        lemma_run_len_bounds(b, row, col + 1);
    }
}

pub proof fn lemma_continuity_sum_bounds(b: Seq<Seq<u8>>, i: int)
    requires
        i <= HEIGHT,
    ensures
        0 <= continuity_sum(b, i) <= (if i >= 0 { i * 1900 } else { 0 }),
    decreases i,
{
    if i > 0 {
        lemma_continuity_sum_bounds(b, i - 1);
        lemma_run_len_bounds(b, i - 1, 0);
        assert(run_len_from(b, i - 1, 0) * run_len_from(b, i - 1, 0) <= 100) by (nonlinear_arith)
            requires 0 <= run_len_from(b, i - 1, 0) <= 10;
        assert(run_len_from(b, i - 1, 0) * run_len_from(b, i - 1, 0) * (i - 1) <= 100 * (i - 1)) by (nonlinear_arith)
            requires 0 <= run_len_from(b, i - 1, 0) * run_len_from(b, i - 1, 0) <= 100 && i >= 1;
    }
}

pub proof fn lemma_filledness_sum_bounds(b: Seq<Seq<u8>>, i: int)
    requires
        i <= HEIGHT,
    ensures
        0 <= filledness_sum(b, i) <= (if i >= 0 { i * 1900 } else { 0 }),
    decreases i,
{
    if i > 0 {
        lemma_filledness_sum_bounds(b, i - 1);
        lemma_row_count_bounds(b, i - 1, 0);
        assert(row_count_from(b, i - 1, 0) * row_count_from(b, i - 1, 0) <= 100) by (nonlinear_arith)
            requires 0 <= row_count_from(b, i - 1, 0) <= 10;
        assert(row_count_from(b, i - 1, 0) * row_count_from(b, i - 1, 0) * (i - 1) <= 100 * (i - 1)) by (nonlinear_arith)
            requires 0 <= row_count_from(b, i - 1, 0) * row_count_from(b, i - 1, 0) <= 100 && i >= 1;
    }
}

pub proof fn lemma_filled_rows_bounds(b: Seq<Seq<u8>>, i: int)
    ensures
        0 <= filled_rows(b, i) <= (if i >= 0 { i } else { 0 }),
    decreases i,
{
    if i > 0 {
        lemma_filled_rows_bounds(b, i - 1);
    }
}

proof fn lemma_col_all_zero(b: Seq<Seq<u8>>, col: int)
    requires
        0 <= col < WIDTH,
        forall|r: int, c: int| crate::board::in_board(r, c) ==> b[r][c] == 0,
    ensures
        first_block(b, col) == HEIGHT,
{
    assert forall|rr: int| 0 <= rr < HEIGHT implies b[rr][col] == 0 by {
        assert(crate::board::in_board(rr, col));
    }
    lemma_first_block_char(b, col, 0, HEIGHT as int);
}

proof fn lemma_holes_sum_zero(b: Seq<Seq<u8>>, i: int)
    requires
        i <= WIDTH,
        forall|r: int, c: int| crate::board::in_board(r, c) ==> b[r][c] == 0,
    ensures
        holes_sum(b, i) == 0,
    decreases i,
{
    if i > 0 {
        lemma_holes_sum_zero(b, i - 1);
        lemma_col_all_zero(b, i - 1);
    }
}

proof fn lemma_bump_sum_zero(b: Seq<Seq<u8>>, i: int)
    requires
        i <= WIDTH - 1,
        forall|r: int, c: int| crate::board::in_board(r, c) ==> b[r][c] == 0,
    ensures
        bump_sum(b, i) == 0,
        max_height_upto(b, i) == 0,
    decreases i,
{
    if i > 0 {
        lemma_bump_sum_zero(b, i - 1);
        if i < WIDTH - 1 {
            lemma_col_all_zero(b, i);
        }
        lemma_col_all_zero(b, i - 1);
    }
}

proof fn lemma_filled_rows_zero(b: Seq<Seq<u8>>, i: int)
    requires
        i <= HEIGHT,
        forall|r: int, c: int| crate::board::in_board(r, c) ==> b[r][c] == 0,
    ensures
        filled_rows(b, i) == 0,
    decreases i,
{
    if i > 0 {
        lemma_filled_rows_zero(b, i - 1);
        assert(crate::board::in_board(i - 1, 0));
        assert(b[i - 1][0] == 0);
        assert(!row_filled(b, i - 1));
    }
}

proof fn lemma_row_count_zero(b: Seq<Seq<u8>>, row: int, col: int)
    requires
        0 <= row < HEIGHT,
        forall|r: int, c: int| crate::board::in_board(r, c) ==> b[r][c] == 0,
    ensures
        row_count_from(b, row, col) == 0,
    decreases WIDTH - col,
{
    if 0 <= col < WIDTH {
        assert(crate::board::in_board(row, col));
        assert(b[row][col] == 0);
        lemma_row_count_zero(b, row, col + 1);
    }
}

proof fn lemma_continuity_zero(b: Seq<Seq<u8>>, i: int)
    requires
        i <= HEIGHT,
        forall|r: int, c: int| crate::board::in_board(r, c) ==> b[r][c] == 0,
    ensures
        continuity_sum(b, i) == 0,
        filledness_sum(b, i) == 0,
    decreases i,
{
    if i > 0 {
        lemma_continuity_zero(b, i - 1);
        assert(crate::board::in_board(i - 1, 0));
        assert(b[i - 1][0] == 0);
        assert(run_len_from(b, i - 1, 0) == 0);
        assert(run_len_from(b, i - 1, 0) * run_len_from(b, i - 1, 0) * (i - 1) == 0) by (nonlinear_arith)
            requires run_len_from(b, i - 1, 0) == 0;
        lemma_row_count_zero(b, i - 1, 0);
        assert(row_count_from(b, i - 1, 0) * row_count_from(b, i - 1, 0) * (i - 1) == 0) by (nonlinear_arith)
            requires row_count_from(b, i - 1, 0) == 0;
    }
}

/// On an empty board every evaluator term is zero. (That each term is
/// non-negative on any board is stated by the bound lemmas above.)
pub proof fn lemma_empty_board_terms(b: Seq<Seq<u8>>)
    requires
        board_wf(b),
        forall|r: int, c: int| crate::board::in_board(r, c) ==> b[r][c] == 0,
    ensures
        hole_factor_spec(b) == 0,
        bumpiness_spec(b) == 0,
        max_height_spec(b) == 0,
        continuity_spec(b) == 0,
        filledness_spec(b) == 0,
        filled_rows(b, HEIGHT as int) == 0,
{
    lemma_holes_sum_zero(b, WIDTH as int);
    lemma_bump_sum_zero(b, WIDTH - 1);
    assert(measured_height(b, WIDTH - 1) == 0);
    assert(max_height_upto(b, WIDTH as int) == 0);
    lemma_filled_rows_zero(b, HEIGHT as int);
    lemma_continuity_zero(b, HEIGHT as int);
}

/// The fitness value is never negative, whatever the board holds: the
/// subtracting steps clamp at zero and the bonus terms are non-negative.
pub proof fn lemma_fitness_spec_nonneg(b: Seq<Seq<u8>>, w: Seq<u64>)
    requires
        w.len() == 6,
    ensures
        fitness_spec(b, w) >= 0,
{
    lemma_continuity_sum_bounds(b, HEIGHT as int);
    lemma_filledness_sum_bounds(b, HEIGHT as int);
    lemma_filled_rows_bounds(b, HEIGHT as int);
    let lines = 10 * filled_rows(b, HEIGHT as int);
    assert(w[3] * continuity_spec(b) >= 0) by (nonlinear_arith)
        requires w[3] >= 0 && continuity_spec(b) >= 0;
    assert(w[3] * continuity_spec(b) / 50 >= 0);
    assert(w[4] * 50 * filledness_spec(b) >= 0) by (nonlinear_arith)
        requires w[4] >= 0 && filledness_spec(b) >= 0;
    assert(w[5] * 300 * lines * lines >= 0) by (nonlinear_arith)
        requires w[5] >= 0 && lines >= 0;
}

/// The fitness formula clamps at zero: an overwhelming hole penalty drives
/// the result to exactly zero — never negative, never wrapped around — as
/// long as the three bonus weights are zero.
pub proof fn lemma_fitness_clamps_to_zero(b: Seq<Seq<u8>>, w: Seq<u64>)
    requires
        w.len() == 6,
        w[0] * 10 * hole_factor_spec(b) * hole_factor_spec(b) >= 1_000_000_000_000_000_000,
        w[3] == 0,
        w[4] == 0,
        w[5] == 0,
    ensures
        fitness_spec(b, w) == 0,
{
    lemma_bump_sum_bounds(b, WIDTH - 1);
    lemma_max_height_bounds(b, WIDTH as int);
    assert(w[1] * 2500 * bumpiness_spec(b) >= 0) by (nonlinear_arith)
        requires w[1] >= 0 && bumpiness_spec(b) >= 0;
    assert(w[2] * 20 * max_height_spec(b) >= 0) by (nonlinear_arith)
        requires w[2] >= 0 && max_height_spec(b) >= 0;
    let hf = hole_factor_spec(b);
    let lines = 10 * filled_rows(b, HEIGHT as int);
    let f1 = clamp_sub(1_000_000_000_000_000_000, w[0] * 10 * hf * hf);
    assert(f1 == 0);
    let f2 = clamp_sub(f1, w[1] * 2500 * bumpiness_spec(b));
    assert(f2 == 0);
    let f3 = clamp_sub(f2, w[2] * 20 * max_height_spec(b));
    assert(f3 == 0);
    let f4 = clamp_add(f3, w[3] * continuity_spec(b) / 50);
    assert(w[3] * continuity_spec(b) == 0) by (nonlinear_arith)
        requires w[3] == 0;
    assert(f4 == 0);
    let f5 = clamp_add(f4, w[4] * 50 * filledness_spec(b));
    assert(w[4] * 50 * filledness_spec(b) == 0) by (nonlinear_arith)
        requires w[4] == 0;
    assert(f5 == 0);
    assert(w[5] * 300 * lines * lines == 0) by (nonlinear_arith)
        requires w[5] == 0;
    assert(clamp_add(f5, w[5] * 300 * lines * lines) == 0);
    assert(fitness_spec(b, w) == 0);
}

impl Game {
    /// The bumpiness and max-height terms: per-column heights are measured
    /// for every column but the last, bumpiness sums the absolute differences
    /// of adjacent heights, and the second result is the largest height.
    pub fn blocks_bumpiness(&self) -> (r: (u64, u64))
        requires
            board_wf(self.grid()),
        ensures
            r.0 == bumpiness_spec(self.grid()),
            r.1 == max_height_spec(self.grid()),
    {
        let ghost g = self.grid();
        proof {
            lemma_grid_shape(self);
        }
        let mut heights: Vec<u8> = Vec::new();
        let mut col: usize = 0;
        while col < WIDTH
            invariant
                board_wf(g),
                g == self.grid(),
                self.board@.len() == HEIGHT,
                forall|sr: int| 0 <= sr < HEIGHT ==> (#[trigger] self.board@[sr]@).len() == WIDTH,
                col <= WIDTH,
                heights@.len() == col,
                forall|i: int| 0 <= i < col ==> #[trigger] heights@[i] == measured_height(g, i),
            decreases WIDTH - col,
        {
            if col < WIDTH - 1 {
                let mut row: usize = 0;
                while row < HEIGHT && self.board[row][col] == 0
                    invariant
                        board_wf(g),
                        g == self.grid(),
                        self.board@.len() == HEIGHT,
                        forall|sr: int| 0 <= sr < HEIGHT ==> (#[trigger] self.board@[sr]@).len() == WIDTH,
                        col < WIDTH,
                        row <= HEIGHT,
                        forall|rr: int| 0 <= rr < row ==> g[rr][col as int] == 0,
                    decreases HEIGHT - row,
                {
                    row += 1;
                }
                proof {
                    lemma_first_block_char(g, col as int, 0, row as int);
                }
                if row < HEIGHT {
                    heights.push((HEIGHT - row) as u8);
                } else {
                    heights.push(0u8);
                }
            } else {
                heights.push(0u8);
            }
            col += 1;
        }

        let mut bumpiness_factor: u64 = 0;
        let mut idx: usize = 0;
        while idx < WIDTH - 1
            invariant
                board_wf(g),
                idx <= WIDTH - 1,
                heights@.len() == WIDTH,
                forall|i: int| 0 <= i < WIDTH ==> #[trigger] heights@[i] == measured_height(g, i),
                bumpiness_factor == bump_sum(g, idx as int),
                bumpiness_factor <= 200 * idx,
            decreases WIDTH - idx,
        {
            proof {
                lemma_measured_height_bounds(g, idx as int);
                lemma_measured_height_bounds(g, idx as int + 1);
            }
            let a = heights[idx + 1];
            let bb = heights[idx];
            let d: u8 = if a >= bb { a - bb } else { bb - a };
            bumpiness_factor += d as u64;
            idx += 1;
        }

        let mut max_height: u8 = 0;
        let mut m: usize = 0;
        while m < WIDTH
            invariant
                board_wf(g),
                m <= WIDTH,
                heights@.len() == WIDTH,
                forall|i: int| 0 <= i < WIDTH ==> #[trigger] heights@[i] == measured_height(g, i),
                max_height == max_height_upto(g, m as int),
                max_height <= 20,
            decreases WIDTH - m,
        {
            proof {
                lemma_measured_height_bounds(g, m as int);
            }
            if heights[m] > max_height {
                max_height = heights[m];
            }
            m += 1;
        }

        (bumpiness_factor, max_height as u64)
    }

    /// The hole-factor term: per column, the row indices of every empty cell
    /// below the column's topmost block, summed over all columns.
    pub fn blocks_hole_factor(&self) -> (r: u64)
        requires
            board_wf(self.grid()),
        ensures
            r == hole_factor_spec(self.grid()),
    {
        let ghost g = self.grid();
        proof {
            lemma_grid_shape(self);
        }
        let mut hole_factor: u64 = 0;
        let mut col: usize = 0;
        while col < WIDTH
            invariant
                board_wf(g),
                g == self.grid(),
                self.board@.len() == HEIGHT,
                forall|sr: int| 0 <= sr < HEIGHT ==> (#[trigger] self.board@[sr]@).len() == WIDTH,
                col <= WIDTH,
                hole_factor == holes_sum(g, col as int),
                hole_factor <= 380 * col,
            decreases WIDTH - col,
        {
            let mut row: usize = 0;
            while row < HEIGHT && self.board[row][col] == 0
                invariant
                    board_wf(g),
                    g == self.grid(),
                    self.board@.len() == HEIGHT,
                    forall|sr: int| 0 <= sr < HEIGHT ==> (#[trigger] self.board@[sr]@).len() == WIDTH,
                    col < WIDTH,
                    row <= HEIGHT,
                    forall|rr: int| 0 <= rr < row ==> g[rr][col as int] == 0,
                decreases HEIGHT - row,
            {
                row += 1;
            }
            proof {
                lemma_first_block_char(g, col as int, 0, row as int);
            }

            if row < HEIGHT {
                let ghost first = row as int;
                let mut column_holes: u64 = 0;
                let mut r2: usize = row;
                while r2 < HEIGHT
                    invariant
                        board_wf(g),
                        g == self.grid(),
                        col < WIDTH,
                        first <= r2 <= HEIGHT,
                        first == first_block(g, col as int),
                        0 <= first < HEIGHT,
                        column_holes as int == holes_from(g, col as int, first) - holes_from(g, col as int, r2 as int),
                        column_holes <= 380,
                    decreases HEIGHT - r2,
                {
                    proof {
                        lemma_holes_from_bounds(g, col as int, first);
                        lemma_holes_from_bounds(g, col as int, r2 as int + 1);
                        lemma_holes_from_monotone(g, col as int, first, r2 as int + 1);
                    }
                    if self.board[r2][col] == 0 {
                        column_holes += r2 as u64;
                    }
                    r2 += 1;
                }
                hole_factor += column_holes;
            }
            proof {
                lemma_holes_sum_bounds(g, col as int + 1);
            }
            col += 1;
        }
        hole_factor
    }

    /// The line-continuity term: the squared length of each row's leading
    /// block run, weighted by the row index, summed over all rows.
    pub fn block_line_continuity(&self) -> (r: u64)
        requires
            board_wf(self.grid()),
        ensures
            r == continuity_spec(self.grid()),
    {
        let ghost g = self.grid();
        proof {
            lemma_grid_shape(self);
        }
        let mut continuity_factor: u64 = 0;
        let mut row: usize = 0;
        while row < HEIGHT
            invariant
                board_wf(g),
                g == self.grid(),
                self.board@.len() == HEIGHT,
                forall|sr: int| 0 <= sr < HEIGHT ==> (#[trigger] self.board@[sr]@).len() == WIDTH,
                row <= HEIGHT,
                continuity_factor == continuity_sum(g, row as int),
                continuity_factor <= 1900 * row,
            decreases HEIGHT - row,
        {
            let mut col: usize = 0;
            while col < WIDTH && self.board[row][col] != 0
                invariant
                    board_wf(g),
                    g == self.grid(),
                    self.board@.len() == HEIGHT,
                    forall|sr: int| 0 <= sr < HEIGHT ==> (#[trigger] self.board@[sr]@).len() == WIDTH,
                    row < HEIGHT,
                    col <= WIDTH,
                    forall|cc: int| 0 <= cc < col ==> g[row as int][cc] != 0,
                decreases WIDTH - col,
            {
                col += 1;
            }
            proof {
                lemma_run_len_char(g, row as int, 0, col as int);
                lemma_continuity_sum_bounds(g, row as int + 1);
            }
            let run = col as u64;
            proof {
                assert(run * run <= 100) by (nonlinear_arith)
                    requires 0 <= run <= 10;
                assert(run * run * (row as u64) <= 1900) by (nonlinear_arith)
                    requires 0 <= run * run <= 100 && 0 <= row < 20;
            }
            continuity_factor += run * run * (row as u64);
            row += 1;
        }
        continuity_factor
    }

    /// The line-filledness term: the squared number of blocks in each row,
    /// weighted by the row index, summed over all rows.
    pub fn block_line_filledness(&self) -> (r: u64)
        requires
            board_wf(self.grid()),
        ensures
            r == filledness_spec(self.grid()),
    {
        let ghost g = self.grid();
        proof {
            lemma_grid_shape(self);
        }
        let mut overall: u64 = 0;
        let mut row: usize = 0;
        while row < HEIGHT
            invariant
                board_wf(g),
                g == self.grid(),
                self.board@.len() == HEIGHT,
                forall|sr: int| 0 <= sr < HEIGHT ==> (#[trigger] self.board@[sr]@).len() == WIDTH,
                row <= HEIGHT,
                overall == filledness_sum(g, row as int),
                overall <= 1900 * row,
            decreases HEIGHT - row,
        {
            let mut line_filledness: u64 = 0;
            let mut col: usize = 0;
            while col < WIDTH
                invariant
                    board_wf(g),
                    g == self.grid(),
                    self.board@.len() == HEIGHT,
                    forall|sr: int| 0 <= sr < HEIGHT ==> (#[trigger] self.board@[sr]@).len() == WIDTH,
                    row < HEIGHT,
                    col <= WIDTH,
                    line_filledness as int == row_count_from(g, row as int, 0) - row_count_from(g, row as int, col as int),
                    line_filledness <= 10,
                decreases WIDTH - col,
            {
                proof {
                    lemma_row_count_bounds(g, row as int, 0);
                    lemma_row_count_bounds(g, row as int, col as int + 1);
                }
                if self.board[row][col] != 0 {
                    line_filledness += 1;
                }
                col += 1;
            }
            proof {
                lemma_row_count_bounds(g, row as int, 0);
                lemma_filledness_sum_bounds(g, row as int + 1);
            }
            proof {
                assert(line_filledness * line_filledness <= 100) by (nonlinear_arith)
                    requires 0 <= line_filledness <= 10;
                assert(line_filledness * line_filledness * (row as u64) <= 1900) by (nonlinear_arith)
                    requires 0 <= line_filledness * line_filledness <= 100 && 0 <= row < 20;
            }
            overall += line_filledness * line_filledness * (row as u64);
            row += 1;
        }
        overall
    }

    /// The weighted fitness of the board under the six weights, applied in
    /// order and clamped into range after every step.
    pub fn fitness(&self, fitness_params: [u64; 6]) -> (r: u64)
        requires
            board_wf(self.grid()),
        ensures
            r as int == fitness_spec(self.grid(), fitness_params@),
    {
        let ghost g = self.grid();
        proof {
            lemma_grid_shape(self);
        }
        let ghost w = fitness_params@;

        let mut filled_lines: u64 = 0;
        let mut row: usize = 0;
        while row < HEIGHT
            invariant
                board_wf(g),
                g == self.grid(),
                self.board@.len() == HEIGHT,
                forall|sr: int| 0 <= sr < HEIGHT ==> (#[trigger] self.board@[sr]@).len() == WIDTH,
                row <= HEIGHT,
                filled_lines == filled_rows(g, row as int),
                filled_lines <= row,
            decreases HEIGHT - row,
        {
            let mut filled = true;
            let mut col: usize = 0;
            while col < WIDTH
                invariant
                    board_wf(g),
                    g == self.grid(),
                    self.board@.len() == HEIGHT,
                    forall|sr: int| 0 <= sr < HEIGHT ==> (#[trigger] self.board@[sr]@).len() == WIDTH,
                    row < HEIGHT,
                    col <= WIDTH,
                    filled <==> (forall|cc: int| 0 <= cc < col ==> #[trigger] g[row as int][cc] != 0),
                decreases WIDTH - col,
            {
                proof {
                    assert(g[row as int] == self.board@[row as int]@);
                }
                if self.board[row][col] == 0 {
                    filled = false;
                }
                col += 1;
            }
            proof {
                assert(filled <==> row_filled(g, row as int));
            }
            if filled {
                filled_lines += 1;
            }
            row += 1;
        }

        let filled_lines: u64 = filled_lines * 10;
        proof {
            assert(filled_lines * filled_lines <= 40000) by (nonlinear_arith)
                requires 0 <= filled_lines <= 200;
        }
        let filled_lines: u64 = filled_lines * filled_lines;

        let hole_fact = self.blocks_hole_factor();
        let (bumpiness, max_height) = self.blocks_bumpiness();
        let continuity = self.block_line_continuity();
        let filledness = self.block_line_filledness();

        proof {
            lemma_holes_sum_bounds(g, WIDTH as int);
            lemma_bump_sum_bounds(g, WIDTH - 1);
            lemma_max_height_bounds(g, WIDTH as int);
            lemma_continuity_sum_bounds(g, HEIGHT as int);
            lemma_filledness_sum_bounds(g, HEIGHT as int);
            lemma_filled_rows_bounds(g, HEIGHT as int);
        }

        let mut fitness: u64 = 1_000_000_000_000_000_000;

        proof {
            let wmax = u64::MAX as u128;
            assert(fitness_params[0] as u128 * 10 * (hole_fact as u128) <= wmax * 10 * 3800)
                by (nonlinear_arith)
                requires
                    fitness_params[0] as u128 <= wmax,
                    0 <= hole_fact as u128 <= 3800;
            assert(fitness_params[0] as u128 * 10 * (hole_fact as u128) * (hole_fact as u128)
                <= wmax * 10 * 3800 * 3800) by (nonlinear_arith)
                requires
                    fitness_params[0] as u128 <= wmax,
                    0 <= hole_fact as u128 <= 3800;
            assert(fitness_params[1] as u128 * 2500 * (bumpiness as u128) <= wmax * 2500 * 180)
                by (nonlinear_arith)
                requires
                    fitness_params[1] as u128 <= wmax,
                    0 <= bumpiness as u128 <= 180;
            assert(fitness_params[2] as u128 * 20 * (max_height as u128) <= wmax * 20 * 20)
                by (nonlinear_arith)
                requires
                    fitness_params[2] as u128 <= wmax,
                    0 <= max_height as u128 <= 20;
            assert(fitness_params[3] as u128 * (continuity as u128) <= wmax * 38000)
                by (nonlinear_arith)
                requires
                    fitness_params[3] as u128 <= wmax,
                    0 <= continuity as u128 <= 38000;
            assert(fitness_params[4] as u128 * 50 * (filledness as u128) <= wmax * 50 * 38000)
                by (nonlinear_arith)
                requires
                    fitness_params[4] as u128 <= wmax,
                    0 <= filledness as u128 <= 38000;
            assert(fitness_params[5] as u128 * 300 * (filled_lines as u128) <= wmax * 300 * 40000)
                by (nonlinear_arith)
                requires
                    fitness_params[5] as u128 <= wmax,
                    0 <= filled_lines as u128 <= 40000;
        }

        let ghost hf = hole_factor_spec(g);
        let ghost lines = 10 * filled_rows(g, HEIGHT as int);
        let ghost f1 = clamp_sub(1_000_000_000_000_000_000, w[0] * 10 * hf * hf);
        let ghost f2 = clamp_sub(f1, w[1] * 2500 * bumpiness_spec(g));
        let ghost f3 = clamp_sub(f2, w[2] * 20 * max_height_spec(g));
        let ghost f4 = clamp_add(f3, w[3] * continuity_spec(g) / 50);
        let ghost f5 = clamp_add(f4, w[4] * 50 * filledness_spec(g));

        let t0: u128 = fitness_params[0] as u128 * 10 * hole_fact as u128 * hole_fact as u128;
        fitness = if t0 >= fitness as u128 { 0 } else { fitness - t0 as u64 };
        proof {
            assert(t0 as int == w[0] * 10 * hf * hf);
            assert(fitness as int == f1);
        }

        let t1: u128 = fitness_params[1] as u128 * 2500 * bumpiness as u128;
        fitness = if t1 >= fitness as u128 { 0 } else { fitness - t1 as u64 };
        proof {
            assert(fitness as int == f2);
        }

        let t2: u128 = fitness_params[2] as u128 * 20 * max_height as u128;
        fitness = if t2 >= fitness as u128 { 0 } else { fitness - t2 as u64 };
        proof {
            assert(fitness as int == f3);
        }

        let t3: u128 = fitness_params[3] as u128 * continuity as u128 / 50;
        let a3: u128 = fitness as u128 + t3;
        fitness = if a3 > u64::MAX as u128 { u64::MAX } else { a3 as u64 };
        proof {
            assert(t3 as int == w[3] * continuity_spec(g) / 50);
            assert(fitness as int == f4);
        }

        let t4: u128 = fitness_params[4] as u128 * 50 * filledness as u128;
        let a4: u128 = fitness as u128 + t4;
        fitness = if a4 > u64::MAX as u128 { u64::MAX } else { a4 as u64 };
        proof {
            assert(fitness as int == f5);
        }

        let t5: u128 = fitness_params[5] as u128 * 300 * filled_lines as u128;
        let a5: u128 = fitness as u128 + t5;
        fitness = if a5 > u64::MAX as u128 { u64::MAX } else { a5 as u64 };
        proof {
            assert(filled_lines as int == lines * lines);
            assert(w[5] * 300 * (lines * lines) == w[5] * 300 * lines * lines) by (nonlinear_arith);
            assert(t5 as int == w[5] * 300 * lines * lines);
            assert(fitness as int == clamp_add(f5, w[5] * 300 * lines * lines));
            assert(fitness as int == fitness_spec(g, w));
        }

        fitness
    }
}

} // verus!
