//! The board model: a fixed 20 x 10 grid, the seven tetromino masks, the
//! analytic rotation index transform, the placement-fit test, piece
//! movement, and line clearing.

use vstd::prelude::*;

verus! {

/// Board width in cells.
pub const WIDTH: usize = 10;

/// Board height in cells.
pub const HEIGHT: usize = 20;

/// The sentinel `kind` marking a target placement that has not been planned.
pub const NO_TARGET: usize = 100;

/// One move intent, as produced by the bot or an input device.
#[derive(PartialEq, Eq, Structural)]
pub enum MoveAction {
    LEFT,
    RIGHT,
    DOWN,
    ROTATE,
    NONE,
    QUIT,
}

/// The active piece: a tetromino kind, a rotation quadrant (taken modulo 4),
/// and the board position of the 4x4 mask's top-left corner.
#[derive(Copy, Clone)]
pub struct Piece {
    pub kind: usize,
    pub rotation: u8,
    pub x: i8,
    pub y: i8,
}

/// One game: the grid, the accumulated score, the falling piece, the kind of
/// the piece that spawns next, and the placement the bot is steering toward.
pub struct Game {
    pub board: Vec<Vec<u8>>,
    pub score: u32,
    pub curr_piece: Piece,
    pub next_piece_kind: usize,
    pub target_piece: Piece,
}

/// Whether cell `idx` (0..16) of the base 4x4 mask of tetromino `kind` is
/// occupied. Kinds in order: S, T, Z, L, O, J, I.
pub open spec fn mask_occupied(kind: int, idx: int) -> bool {
    if kind == 0 {
        idx == 1 || idx == 5 || idx == 6 || idx == 10
    } else if kind == 1 {
        idx == 2 || idx == 5 || idx == 6 || idx == 10
    } else if kind == 2 {
        idx == 2 || idx == 5 || idx == 6 || idx == 9
    } else if kind == 3 {
        idx == 1 || idx == 5 || idx == 9 || idx == 10
    } else if kind == 4 {
        idx == 5 || idx == 6 || idx == 9 || idx == 10
    } else if kind == 5 {
        idx == 2 || idx == 6 || idx == 9 || idx == 10
    } else if kind == 6 {
        idx == 1 || idx == 5 || idx == 9 || idx == 13
    } else {
        false
    }
}

/// The rotation index transform: where local cell (x, y) of a mask rotated by
/// quadrant `rot` reads from in the base mask.
pub open spec fn rotate_spec(x: int, y: int, rot: int) -> int {
    if rot % 4 == 0 {
        x * 4 + y
    } else if rot % 4 == 1 {
        12 + x - y * 4
    } else if rot % 4 == 2 {
        15 - x * 4 - y
    } else {
        3 - x + y * 4
    }
}

/// Whether (row, col) lies on the board.
pub open spec fn in_board(row: int, col: int) -> bool {
    0 <= row < HEIGHT && 0 <= col < WIDTH
}

/// A well-formed grid: 20 rows of 10 cells each.
pub open spec fn board_wf(b: Seq<Seq<u8>>) -> bool {
    b.len() == HEIGHT && forall|r: int| 0 <= r < HEIGHT ==> (#[trigger] b[r]).len() == WIDTH
}

/// The placement-fit test: every occupied cell of the rotated mask must map
/// to an in-bounds, empty board cell.
pub open spec fn fits_spec(b: Seq<Seq<u8>>, kind: int, rot: int, x: int, y: int) -> bool {
    forall|tx: int, ty: int|
        0 <= tx < 4 && 0 <= ty < 4 && mask_occupied(kind, #[trigger] rotate_spec(tx, ty, rot))
            ==> in_board(x + tx, y + ty) && b[x + tx][y + ty] == 0
}

/// `fits_spec` for a piece value.
pub open spec fn piece_fits(b: Seq<Seq<u8>>, p: Piece) -> bool {
    fits_spec(b, p.kind as int, p.rotation as int, p.x as int, p.y as int)
}

/// Every occupied cell of the piece's rotated mask lies on the board
/// (regardless of what the board holds there).
pub open spec fn piece_in_bounds(p: Piece) -> bool {
    forall|tx: int, ty: int|
        0 <= tx < 4 && 0 <= ty < 4 && mask_occupied(p.kind as int, #[trigger] rotate_spec(tx, ty, p.rotation as int))
            ==> in_board(p.x + tx, p.y + ty)
}

/// Whether board cell (row, col) is covered by an occupied cell of the piece.
pub open spec fn covers(p: Piece, row: int, col: int) -> bool {
    exists|tx: int, ty: int|
        0 <= tx < 4 && 0 <= ty < 4 && mask_occupied(p.kind as int, #[trigger] rotate_spec(tx, ty, p.rotation as int))
            && row == p.x + tx && col == p.y + ty
}

/// The grid after writing `v` into every cell the piece covers.
pub open spec fn place_spec(b: Seq<Seq<u8>>, p: Piece, v: u8) -> Seq<Seq<u8>> {
    Seq::new(b.len(), |row: int| Seq::new(b[row].len(), |col: int|
        if covers(p, row, col) { v } else { b[row][col] }
    ))
}

/// `covers`, restricted to the mask cells strictly before (a, b) in row-major
/// order; the intermediate states of a placement write.
pub open spec fn covers_before(p: Piece, row: int, col: int, a: int, b: int) -> bool {
    exists|tx: int, ty: int|
        0 <= tx < 4 && 0 <= ty < 4 && (tx < a || (tx == a && ty < b))
            && mask_occupied(p.kind as int, #[trigger] rotate_spec(tx, ty, p.rotation as int))
            && row == p.x + tx && col == p.y + ty
}

/// Whether every full row is filled.
pub open spec fn row_filled(b: Seq<Seq<u8>>, r: int) -> bool {
    forall|c: int| 0 <= c < WIDTH ==> #[trigger] b[r][c] != 0
}

/// Whether span row `i` (0..4) of a piece whose mask top row is `x` is an
/// on-board, completely filled row.
pub open spec fn span_row_solved(b: Seq<Seq<u8>>, x: int, i: int) -> bool {
    0 <= x + i < HEIGHT && row_filled(b, x + i)
}

/// How many of the span rows with index below `n` are solved.
pub open spec fn span_solved_count(b: Seq<Seq<u8>>, x: int, n: int) -> int
    decreases n,
{
    if n <= 0 {
        0
    } else {
        span_solved_count(b, x, n - 1) + if span_row_solved(b, x, n - 1) { 1int } else { 0int }
    }
}

/// The bottom-most solved row in the span, or -1 if none is.
pub open spec fn span_bottom_solved(b: Seq<Seq<u8>>, x: int) -> int {
    if span_row_solved(b, x, 3) {
        x + 3
    } else if span_row_solved(b, x, 2) {
        x + 2
    } else if span_row_solved(b, x, 1) {
        x + 1
    } else if span_row_solved(b, x, 0) {
        x
    } else {
        -1
    }
}

/// An empty board row.
pub open spec fn zero_row() -> Seq<u8> {
    Seq::new(WIDTH as nat, |c: int| 0u8)
}

/// The grid after clearing the solved rows within the 4-row span starting at
/// row `x`: rows above the bottom-most solved row shift down by the number of
/// solved rows, and as many top rows become empty. Rows outside the span are
/// never inspected.
pub open spec fn clear_spec(b: Seq<Seq<u8>>, x: int) -> Seq<Seq<u8>> {
    let n = span_solved_count(b, x, 4);
    let s = span_bottom_solved(b, x);
    if n == 0 {
        b
    } else {
        Seq::new(b.len(), |r: int|
            if r > s { b[r] } else if r >= n { b[r - n] } else { zero_row() })
    }
}

pub proof fn lemma_span_count_bounds(b: Seq<Seq<u8>>, x: int, n: int)
    ensures
        0 <= span_solved_count(b, x, n) <= (if n >= 0 { n } else { 0 }),
    decreases n,
{
    if n > 0 {
        lemma_span_count_bounds(b, x, n - 1);
    }
}

/// There is at least one solved span row exactly when the count is positive;
/// then the bottom-most one is a real row at or above span position `n - 1`.
pub proof fn lemma_span_bottom_vs_count(b: Seq<Seq<u8>>, x: int)
    ensures
        span_solved_count(b, x, 4) == 0 <==> span_bottom_solved(b, x) == -1,
        span_solved_count(b, x, 4) > 0 ==> {
            let s = span_bottom_solved(b, x);
            &&& 0 <= s < HEIGHT
            &&& x <= s <= x + 3
            &&& s >= x + span_solved_count(b, x, 4) - 1
            &&& s >= span_solved_count(b, x, 4) - 1
            &&& span_row_solved(b, x, s - x)
            &&& forall|i: int| s - x < i < 4 ==> !span_row_solved(b, x, i)
        },
{
    lemma_span_count_bounds(b, x, 4);
    reveal_with_fuel(span_solved_count, 5);
    assert(span_solved_count(b, x, 4) ==
        span_solved_count(b, x, 0)
        + (if span_row_solved(b, x, 0) { 1int } else { 0int })
        + (if span_row_solved(b, x, 1) { 1int } else { 0int })
        + (if span_row_solved(b, x, 2) { 1int } else { 0int })
        + (if span_row_solved(b, x, 3) { 1int } else { 0int }));
}

/// The rotation transform stays within the 16 mask cells and never sends two
/// local cells to the same index.
pub proof fn lemma_rotate_bijective(rot: int)
    ensures
        forall|x: int, y: int| 0 <= x < 4 && 0 <= y < 4 ==> 0 <= #[trigger] rotate_spec(x, y, rot) < 16,
        forall|x1: int, y1: int, x2: int, y2: int|
            0 <= x1 < 4 && 0 <= y1 < 4 && 0 <= x2 < 4 && 0 <= y2 < 4
                && #[trigger] rotate_spec(x1, y1, rot) == #[trigger] rotate_spec(x2, y2, rot)
                ==> x1 == x2 && y1 == y2,
{
}

/// Every mask index has a preimage under the rotation transform: together
/// with `lemma_rotate_bijective`, the transform is a bijection onto 0..16.
pub proof fn lemma_rotate_preimage(rot: int, idx: int) -> (p: (int, int))
    requires
        0 <= idx < 16,
    ensures
        0 <= p.0 < 4 && 0 <= p.1 < 4 && rotate_spec(p.0, p.1, rot) == idx,
{
    if rot % 4 == 0 {
        (idx / 4, idx % 4)
    } else if rot % 4 == 1 {
        let y = (15 - idx) / 4;
        (idx - 12 + 4 * y, y)
    } else if rot % 4 == 2 {
        let x = (15 - idx) / 4;
        (x, 15 - idx - 4 * x)
    } else {
        (3 - idx % 4, idx / 4)
    }
}

/// A fitting placement keeps the mask's corner within a narrow band around
/// the board: every tetromino occupies at least one mask cell in any rotation.
pub proof fn lemma_fits_bounds(b: Seq<Seq<u8>>, kind: int, rot: int, x: int, y: int)
    requires
        0 <= kind < 7,
        fits_spec(b, kind, rot, x, y),
    ensures
        -3 <= x <= 19,
        -3 <= y <= 9,
{
    let m: int = if kind == 4 { 5 } else if kind == 0 || kind == 3 || kind == 6 { 1 } else { 2 };
    assert(mask_occupied(kind, m));
    let p = lemma_rotate_preimage(rot, m);
    assert(in_board(x + p.0, y + p.1));
}

/// A placement can always be undone: writing a value into the cells of a
/// fitting piece and then writing zeroes there restores the board exactly.
pub proof fn lemma_place_restore(b: Seq<Seq<u8>>, p: Piece, v: u8)
    requires
        board_wf(b),
        piece_fits(b, p),
    ensures
        place_spec(place_spec(b, p, v), p, 0) == b,
{
    let b1 = place_spec(b, p, v);
    assert forall|r: int| 0 <= r < b.len() implies place_spec(b1, p, 0)[r] =~= b[r] by {
        assert forall|c: int| 0 <= c < b[r].len() implies place_spec(b1, p, 0)[r][c] == b[r][c] by {
            if covers(p, r, c) {
                let (tx, ty) = choose|tx: int, ty: int|
                    0 <= tx < 4 && 0 <= ty < 4
                        && mask_occupied(p.kind as int, #[trigger] rotate_spec(tx, ty, p.rotation as int))
                        && r == p.x + tx && c == p.y + ty;
                assert(b[p.x + tx][p.y + ty] == 0);
            }
        }
    }
    assert(place_spec(b1, p, 0) =~~= b);
}

/// A placement whose rotated mask occupies any cell off the board — a
/// negative row or column, or one at or beyond the board's extent — never
/// fits, for every piece kind and rotation.
pub proof fn lemma_fits_rejects_out_of_bounds(
    b: Seq<Seq<u8>>,
    kind: int,
    rot: int,
    x: int,
    y: int,
    tx: int,
    ty: int,
)
    requires
        0 <= tx < 4,
        0 <= ty < 4,
        mask_occupied(kind, rotate_spec(tx, ty, rot)),
        !in_board(x + tx, y + ty),
    ensures
        !fits_spec(b, kind, rot, x, y),
{
}

/// A well-formed grid seen through the vector views: the shape facts that
/// element accesses need.
pub proof fn lemma_grid_shape(gm: &Game)
    requires
        board_wf(gm.grid()),
    ensures
        gm.board@.len() == HEIGHT,
        forall|r: int| 0 <= r < HEIGHT ==> (#[trigger] gm.board@[r]@).len() == WIDTH,
{
    assert forall|r: int| 0 <= r < HEIGHT implies (#[trigger] gm.board@[r]@).len() == WIDTH by {
        assert(gm.grid()[r].len() == WIDTH);
    }
}

impl Game {
    /// The grid as a mathematical sequence of rows.
    pub open spec fn grid(&self) -> Seq<Seq<u8>> {
        Seq::new(self.board@.len(), |r: int| self.board@[r]@)
    }

    /// The game invariant: a well-formed grid, valid piece kinds, and the
    /// falling piece near enough to the board for coordinate arithmetic.
    pub open spec fn wf(&self) -> bool {
        &&& board_wf(self.grid())
        &&& self.curr_piece.kind < 7
        &&& self.next_piece_kind < 7
        &&& -4 <= self.curr_piece.x <= 20
        &&& -4 <= self.curr_piece.y <= 10
    }

    /// A fresh game: an empty board, score 0, the S piece at the spawn
    /// position, and no planned target.
    pub fn new() -> (g: Game)
        ensures
            g.wf(),
            g.score == 0,
            g.curr_piece.kind == 0 && g.curr_piece.rotation == 0 && g.curr_piece.x == 0 && g.curr_piece.y == 5,
            g.next_piece_kind == 0,
            g.target_piece.kind == NO_TARGET,
            forall|r: int, c: int| in_board(r, c) ==> g.grid()[r][c] == 0,
    {
        let mut board: Vec<Vec<u8>> = Vec::new();
        let mut r: usize = 0;
        while r < HEIGHT
            invariant
                r <= HEIGHT,
                board@.len() == r,
                forall|i: int| 0 <= i < r ==> (#[trigger] board@[i]@).len() == WIDTH,
                forall|i: int, j: int| 0 <= i < r && 0 <= j < WIDTH ==> board@[i]@[j] == 0,
            decreases HEIGHT - r,
        {
            let mut row: Vec<u8> = Vec::new();
            let mut c: usize = 0;
            while c < WIDTH
                invariant
                    c <= WIDTH,
                    row@.len() == c,
                    forall|j: int| 0 <= j < c ==> row@[j] == 0,
                decreases WIDTH - c,
            {
                row.push(0u8);
                c += 1;
            }
            board.push(row);
            r += 1;
        }
        Game {
            board,
            score: 0,
            curr_piece: Piece { kind: 0, rotation: 0, x: 0, y: 5 },
            next_piece_kind: 0,
            target_piece: Piece { kind: NO_TARGET, rotation: 100, x: 100, y: 100 },
        }
    }

    /// The rotation index transform, executably.
    pub fn rotate(x: u8, y: u8, rot: u8) -> (idx: usize)
        requires
            x < 4,
            y < 4,
        ensures
            idx == rotate_spec(x as int, y as int, rot as int),
            idx < 16,
    {
        let r = rot % 4;
        if r == 0 {
            (x * 4 + y) as usize
        } else if r == 1 {
            (12 + x - y * 4) as usize
        } else if r == 2 {
            (15 - x * 4 - y) as usize
        } else {
            (3 - x + y * 4) as usize
        }
    }

    /// Whether cell `idx` of tetromino `kind`'s base mask is occupied.
    pub fn tetromino_occupied(kind: usize, idx: usize) -> (r: bool)
        requires
            kind < 7,
        ensures
            r == mask_occupied(kind as int, idx as int),
    {
        if kind == 0 {
            idx == 1 || idx == 5 || idx == 6 || idx == 10
        } else if kind == 1 {
            idx == 2 || idx == 5 || idx == 6 || idx == 10
        } else if kind == 2 {
            idx == 2 || idx == 5 || idx == 6 || idx == 9
        } else if kind == 3 {
            idx == 1 || idx == 5 || idx == 9 || idx == 10
        } else if kind == 4 {
            idx == 5 || idx == 6 || idx == 9 || idx == 10
        } else if kind == 5 {
            idx == 2 || idx == 6 || idx == 9 || idx == 10
        } else {
            idx == 1 || idx == 5 || idx == 9 || idx == 13
        }
    }

    /// True iff the piece `tetr_idx`, rotated by `rotation`, fits at (x, y):
    /// no occupied mask cell may fall outside the board or on a filled cell.
    pub fn does_piece_fit(&self, tetr_idx: usize, rotation: u8, x: i8, y: i8) -> (r: bool)
        requires
            board_wf(self.grid()),
            tetr_idx < 7,
        ensures
            r == fits_spec(self.grid(), tetr_idx as int, rotation as int, x as int, y as int),
    {
        let mut tetr_x: u8 = 0;
        while tetr_x < 4
            invariant
                board_wf(self.grid()),
                tetr_idx < 7,
                tetr_x <= 4,
                forall|tx: int, ty: int|
                    0 <= tx < tetr_x && 0 <= ty < 4 && mask_occupied(tetr_idx as int, #[trigger] rotate_spec(tx, ty, rotation as int))
                        ==> in_board(x + tx, y + ty) && self.grid()[x + tx][y + ty] == 0,
            decreases 4 - tetr_x,
        {
            let mut tetr_y: u8 = 0;
            while tetr_y < 4
                invariant
                    board_wf(self.grid()),
                    tetr_idx < 7,
                    tetr_x < 4,
                    tetr_y <= 4,
                    forall|tx: int, ty: int|
                        0 <= tx < tetr_x && 0 <= ty < 4 && mask_occupied(tetr_idx as int, #[trigger] rotate_spec(tx, ty, rotation as int))
                            ==> in_board(x + tx, y + ty) && self.grid()[x + tx][y + ty] == 0,
                    forall|ty: int|
                        0 <= ty < tetr_y && mask_occupied(tetr_idx as int, #[trigger] rotate_spec(tetr_x as int, ty, rotation as int))
                            ==> in_board(x + tetr_x, y + ty) && self.grid()[x + tetr_x][y + ty] == 0,
                decreases 4 - tetr_y,
            {
                let rotated_index = Game::rotate(tetr_x, tetr_y, rotation);
                let abs_x: i32 = x as i32 + tetr_x as i32;
                let abs_y: i32 = y as i32 + tetr_y as i32;

                if Game::tetromino_occupied(tetr_idx, rotated_index) {
                    if abs_x >= 0 && abs_x < HEIGHT as i32 && abs_y >= 0 && abs_y < WIDTH as i32 {
                        proof {
                            assert(self.board@.len() == HEIGHT);
                            assert(self.grid()[abs_x as int].len() == WIDTH);
                            assert(self.board@[abs_x as int]@.len() == WIDTH);
                        }
                        if self.board[abs_x as usize][abs_y as usize] != 0 {
                            return false;
                        }
                    } else {
                        return false;
                    }
                }
                tetr_y += 1;
            }
            tetr_x += 1;
        }
        true
    }

    /// Write `value` into every board cell the current piece covers: a
    /// non-zero value locks the piece in, zero removes it.
    pub fn update_current_piece(&mut self, value: u8)
        requires
            old(self).wf(),
            piece_in_bounds(old(self).curr_piece),
        ensures
            final(self).wf(),
            final(self).grid() == place_spec(old(self).grid(), old(self).curr_piece, value),
            final(self).score == old(self).score,
            final(self).curr_piece == old(self).curr_piece,
            final(self).next_piece_kind == old(self).next_piece_kind,
            final(self).target_piece == old(self).target_piece,
    {
        let ghost p = self.curr_piece;
        let ghost g0 = self.grid();
        let mut row: u8 = 0;
        while row < 4
            invariant
                self.wf(),
                piece_in_bounds(p),
                self.curr_piece == p,
                self.score == old(self).score,
                self.curr_piece == old(self).curr_piece,
                self.next_piece_kind == old(self).next_piece_kind,
                self.target_piece == old(self).target_piece,
                g0 == old(self).grid(),
                board_wf(g0),
                row <= 4,
                forall|r: int, c: int| in_board(r, c) ==>
                    #[trigger] self.grid()[r][c]
                        == (if covers_before(p, r, c, row as int, 0) { value } else { g0[r][c] }),
            decreases 4 - row,
        {
            let mut col: u8 = 0;
            while col < 4
                invariant
                    self.wf(),
                    piece_in_bounds(p),
                    self.curr_piece == p,
                    self.score == old(self).score,
                    self.curr_piece == old(self).curr_piece,
                    self.next_piece_kind == old(self).next_piece_kind,
                    self.target_piece == old(self).target_piece,
                    g0 == old(self).grid(),
                    board_wf(g0),
                    row < 4,
                    col <= 4,
                    forall|r: int, c: int| in_board(r, c) ==>
                        #[trigger] self.grid()[r][c]
                            == (if covers_before(p, r, c, row as int, col as int) { value } else { g0[r][c] }),
                decreases 4 - col,
            {
                let rotated_idx = Game::rotate(row, col, self.curr_piece.rotation);

                if Game::tetromino_occupied(self.curr_piece.kind, rotated_idx) {
                    let abs_row = row as i8 + self.curr_piece.x;
                    let abs_col = col as i8 + self.curr_piece.y;
                    proof {
                        assert(in_board(p.x + row as int, p.y + col as int));
                        assert(self.grid()[abs_row as int].len() == WIDTH);
                        assert(self.board@[abs_row as int]@.len() == WIDTH);
                    }
                    let ghost gprev = self.grid();
                    self.board[abs_row as usize][abs_col as usize] = value;
                    proof {
                        assert(board_wf(gprev));
                        assert(self.board@.len() == HEIGHT);
                        assert forall|rr: int| 0 <= rr < HEIGHT implies (#[trigger] self.grid()[rr]).len() == WIDTH by {
                            if rr == abs_row as int {
                                assert(self.grid()[rr] =~= gprev[rr].update(abs_col as int, value));
                            } else {
                                assert(self.grid()[rr] == gprev[rr]);
                            }
                        }
                        assert forall|r: int, c: int| in_board(r, c) implies
                            #[trigger] self.grid()[r][c]
                                == (if covers_before(p, r, c, row as int, col as int + 1) { value } else { g0[r][c] }) by {
                            if r == abs_row as int && c == abs_col as int {
                                assert(covers_before(p, r, c, row as int, col as int + 1));
                            } else {
                                assert(self.grid()[r][c] == gprev[r][c]);
                                if covers_before(p, r, c, row as int, col as int + 1) {
                                    assert(covers_before(p, r, c, row as int, col as int));
                                }
                            }
                        }
                    }
                } else {
                    proof {
                        assert forall|r: int, c: int| in_board(r, c) implies
                            #[trigger] self.grid()[r][c]
                                == (if covers_before(p, r, c, row as int, col as int + 1) { value } else { g0[r][c] }) by {
                            if covers_before(p, r, c, row as int, col as int + 1) {
                                assert(covers_before(p, r, c, row as int, col as int));
                            }
                        }
                    }
                }
                col += 1;
            }
            proof {
                assert forall|r: int, c: int| in_board(r, c) implies
                    (covers_before(p, r, c, row as int + 1, 0) <==> covers_before(p, r, c, row as int, 4)) by {
                    if covers_before(p, r, c, row as int + 1, 0) {
                        assert(covers_before(p, r, c, row as int, 4));
                    }
                    if covers_before(p, r, c, row as int, 4) {
                        assert(covers_before(p, r, c, row as int + 1, 0));
                    }
                }
            }
            row += 1;
        }
        proof {
            assert forall|r: int, c: int| in_board(r, c) implies
                (covers(p, r, c) <==> covers_before(p, r, c, 4, 0)) by {
                if covers(p, r, c) {
                    assert(covers_before(p, r, c, 4, 0));
                }
                if covers_before(p, r, c, 4, 0) {
                    assert(covers(p, r, c));
                }
            }
            assert(self.grid() =~~= place_spec(old(self).grid(), old(self).curr_piece, value));
        }
    }

    /// Lock the current piece into the board, writing its kind tag.
    pub fn add_current_piece(&mut self)
        requires
            old(self).wf(),
            piece_in_bounds(old(self).curr_piece),
        ensures
            final(self).wf(),
            final(self).grid() == place_spec(old(self).grid(), old(self).curr_piece, (old(self).curr_piece.kind + 1) as u8),
            final(self).score == old(self).score,
            final(self).curr_piece == old(self).curr_piece,
            final(self).next_piece_kind == old(self).next_piece_kind,
            final(self).target_piece == old(self).target_piece,
    {
        let value = self.curr_piece.kind as u8 + 1;
        self.update_current_piece(value);
    }

    /// Remove the current piece's cells from the board.
    pub fn remove_current_piece(&mut self)
        requires
            old(self).wf(),
            piece_in_bounds(old(self).curr_piece),
        ensures
            final(self).wf(),
            final(self).grid() == place_spec(old(self).grid(), old(self).curr_piece, 0),
            final(self).score == old(self).score,
            final(self).curr_piece == old(self).curr_piece,
            final(self).next_piece_kind == old(self).next_piece_kind,
            final(self).target_piece == old(self).target_piece,
    {
        self.update_current_piece(0);
    }

    /// Move the current piece one row down if the result still fits;
    /// report whether it moved.
    pub fn move_piece_down(&mut self) -> (moved: bool)
        requires
            old(self).wf(),
        ensures
            final(self).wf(),
            moved == fits_spec(old(self).grid(), old(self).curr_piece.kind as int,
                old(self).curr_piece.rotation as int, old(self).curr_piece.x + 1, old(self).curr_piece.y as int),
            final(self).grid() == old(self).grid(),
            final(self).score == old(self).score,
            final(self).next_piece_kind == old(self).next_piece_kind,
            final(self).target_piece == old(self).target_piece,
            moved ==> final(self).curr_piece == (Piece { x: (old(self).curr_piece.x + 1) as i8, ..old(self).curr_piece }),
            !moved ==> final(self).curr_piece == old(self).curr_piece,
    {
        if self.does_piece_fit(
            self.curr_piece.kind,
            self.curr_piece.rotation,
            self.curr_piece.x + 1,
            self.curr_piece.y,
        ) {
            proof {
                lemma_fits_bounds(self.grid(), self.curr_piece.kind as int,
                    self.curr_piece.rotation as int, self.curr_piece.x + 1, self.curr_piece.y as int);
            }
            self.curr_piece.x += 1;
            true
        } else {
            false
        }
    }

    /// Move the current piece one column left if the result still fits;
    /// report whether it moved.
    pub fn move_piece_left(&mut self) -> (moved: bool)
        requires
            old(self).wf(),
        ensures
            final(self).wf(),
            moved == fits_spec(old(self).grid(), old(self).curr_piece.kind as int,
                old(self).curr_piece.rotation as int, old(self).curr_piece.x as int, old(self).curr_piece.y - 1),
            final(self).grid() == old(self).grid(),
            final(self).score == old(self).score,
            final(self).next_piece_kind == old(self).next_piece_kind,
            final(self).target_piece == old(self).target_piece,
            moved ==> final(self).curr_piece == (Piece { y: (old(self).curr_piece.y - 1) as i8, ..old(self).curr_piece }),
            !moved ==> final(self).curr_piece == old(self).curr_piece,
    {
        if self.does_piece_fit(
            self.curr_piece.kind,
            self.curr_piece.rotation,
            self.curr_piece.x,
            self.curr_piece.y - 1,
        ) {
            proof {
                lemma_fits_bounds(self.grid(), self.curr_piece.kind as int,
                    self.curr_piece.rotation as int, self.curr_piece.x as int, self.curr_piece.y - 1);
            }
            self.curr_piece.y -= 1;
            true
        } else {
            false
        }
    }

    /// Move the current piece one column right if the result still fits;
    /// report whether it moved.
    pub fn move_piece_right(&mut self) -> (moved: bool)
        requires
            old(self).wf(),
        ensures
            final(self).wf(),
            moved == fits_spec(old(self).grid(), old(self).curr_piece.kind as int,
                old(self).curr_piece.rotation as int, old(self).curr_piece.x as int, old(self).curr_piece.y + 1),
            final(self).grid() == old(self).grid(),
            final(self).score == old(self).score,
            final(self).next_piece_kind == old(self).next_piece_kind,
            final(self).target_piece == old(self).target_piece,
            moved ==> final(self).curr_piece == (Piece { y: (old(self).curr_piece.y + 1) as i8, ..old(self).curr_piece }),
            !moved ==> final(self).curr_piece == old(self).curr_piece,
    {
        if self.does_piece_fit(
            self.curr_piece.kind,
            self.curr_piece.rotation,
            self.curr_piece.x,
            self.curr_piece.y + 1,
        ) {
            proof {
                lemma_fits_bounds(self.grid(), self.curr_piece.kind as int,
                    self.curr_piece.rotation as int, self.curr_piece.x as int, self.curr_piece.y + 1);
            }
            self.curr_piece.y += 1;
            true
        } else {
            false
        }
    }

    /// Rotate the current piece one quadrant clockwise if the result still
    /// fits; report whether it rotated.
    pub fn rotate_piece(&mut self) -> (rotated: bool)
        requires
            old(self).wf(),
        ensures
            final(self).wf(),
            rotated == fits_spec(old(self).grid(), old(self).curr_piece.kind as int,
                (old(self).curr_piece.rotation + 1) % 4, old(self).curr_piece.x as int, old(self).curr_piece.y as int),
            final(self).grid() == old(self).grid(),
            final(self).score == old(self).score,
            final(self).next_piece_kind == old(self).next_piece_kind,
            final(self).target_piece == old(self).target_piece,
            rotated ==> final(self).curr_piece == (Piece {
                rotation: ((old(self).curr_piece.rotation + 1) % 4) as u8,
                ..old(self).curr_piece
            }),
            !rotated ==> final(self).curr_piece == old(self).curr_piece,
    {
        let next_rotation = (self.curr_piece.rotation % 4 + 1) % 4;
        if self.does_piece_fit(
            self.curr_piece.kind,
            next_rotation,
            self.curr_piece.x,
            self.curr_piece.y,
        ) {
            self.curr_piece.rotation = next_rotation;
            true
        } else {
            false
        }
    }

    /// Scan the 4 rows the current piece could have touched, bottom-up, for
    /// completely filled rows; compact them away and add 10 points per row.
    /// Filled rows outside the piece's span are deliberately not detected.
    pub fn find_and_remove_solved_lines(&mut self)
        requires
            old(self).wf(),
            old(self).score <= u32::MAX - 40,
        ensures
            final(self).wf(),
            final(self).grid() == clear_spec(old(self).grid(), old(self).curr_piece.x as int),
            final(self).score == old(self).score
                + 10 * span_solved_count(old(self).grid(), old(self).curr_piece.x as int, 4),
            final(self).curr_piece == old(self).curr_piece,
            final(self).next_piece_kind == old(self).next_piece_kind,
            final(self).target_piece == old(self).target_piece,
    {
        let ghost g0 = self.grid();
        let ghost px = self.curr_piece.x as int;
        let x = self.curr_piece.x;

        let mut found_lines: u32 = 0;
        let mut line_start_idx: usize = 0;

        // Search for filled rows within the span, starting from the bottom.
        let mut i: usize = 4;
        while i > 0
            invariant
                self.wf(),
                self.grid() == g0,
                self.score == old(self).score,
                self.curr_piece == old(self).curr_piece,
                self.next_piece_kind == old(self).next_piece_kind,
                self.target_piece == old(self).target_piece,
                g0 == old(self).grid(),
                px == old(self).curr_piece.x as int,
                x == old(self).curr_piece.x,
                i <= 4,
                found_lines as int == span_solved_count(g0, px, 4) - span_solved_count(g0, px, i as int),
                found_lines > 0 ==> line_start_idx as int == span_bottom_solved(g0, px)
                    && span_bottom_solved(g0, px) >= px + i && line_start_idx < HEIGHT,
            decreases i,
        {
            i -= 1;
            proof {
                lemma_span_count_bounds(g0, px, i as int);
                lemma_span_count_bounds(g0, px, 4);
                reveal_with_fuel(span_solved_count, 5);
            }
            let abs: i8 = i as i8 + x;
            if abs >= 0 && (abs as usize) < HEIGHT {
                let abs_row = abs as usize;
                let mut filled = true;
                let mut c: usize = 0;
                while c < WIDTH
                    invariant
                        self.wf(),
                        self.grid() == g0,
                        g0.len() == HEIGHT,
                        abs_row < HEIGHT,
                        c <= WIDTH,
                        filled <==> (forall|cc: int| 0 <= cc < c ==> #[trigger] g0[abs_row as int][cc] != 0),
                    decreases WIDTH - c,
                {
                    proof {
                        assert(self.grid()[abs_row as int].len() == WIDTH);
                        assert(self.board@[abs_row as int]@.len() == WIDTH);
                    }
                    if self.board[abs_row][c] == 0 {
                        filled = false;
                    }
                    c += 1;
                }
                proof {
                    assert(filled <==> row_filled(g0, abs_row as int));
                }
                if filled {
                    if found_lines == 0 {
                        line_start_idx = abs_row;
                        proof {
                            assert(span_row_solved(g0, px, i as int));
                            assert forall|j: int| (i as int) < j < 4 implies !span_row_solved(g0, px, j) by {
                                reveal_with_fuel(span_solved_count, 5);
                            }
                            assert(span_bottom_solved(g0, px) == px + i);
                        }
                    }
                    found_lines += 1;
                }
            }
        }

        proof {
            lemma_span_bottom_vs_count(g0, px);
            lemma_span_count_bounds(g0, px, 4);
            assert(found_lines as int == span_solved_count(g0, px, 4));
        }

        // No filled row within the span: nothing to do.
        if found_lines == 0 {
            return;
        }

        let found = found_lines as usize;
        let ghost n = span_solved_count(g0, px, 4);
        let ghost s = span_bottom_solved(g0, px);
        proof {
            assert(found == n && line_start_idx as int == s && n - 1 <= s < HEIGHT);
        }

        // Compact: every row from the bottom-most solved one upward takes the
        // contents of the row `found` above it.
        let mut row: usize = line_start_idx + 1;
        while row > found
            invariant
                self.wf(),
                self.score == old(self).score,
                self.curr_piece == old(self).curr_piece,
                self.next_piece_kind == old(self).next_piece_kind,
                self.target_piece == old(self).target_piece,
                g0 == old(self).grid(),
                board_wf(g0),
                1 <= found <= 4,
                found == n,
                line_start_idx as int == s,
                s < HEIGHT,
                found <= row <= line_start_idx + 1,
                forall|r: int| row <= r <= s ==> #[trigger] self.grid()[r] == g0[r - n],
                forall|r: int| 0 <= r < row ==> #[trigger] self.grid()[r] == g0[r],
                forall|r: int| s < r < HEIGHT ==> #[trigger] self.grid()[r] == g0[r],
            decreases row,
        {
            row -= 1;
            let src = row - found;
            let ghost gprev = self.grid();
            let mut c: usize = 0;
            while c < WIDTH
                invariant
                    self.wf(),
                    self.score == old(self).score,
                    self.curr_piece == old(self).curr_piece,
                    self.next_piece_kind == old(self).next_piece_kind,
                    self.target_piece == old(self).target_piece,
                    board_wf(gprev),
                    src + 1 <= row < HEIGHT,
                    src == row - found,
                    c <= WIDTH,
                    gprev[src as int] == g0[src as int],
                    board_wf(g0),
                    forall|r: int| 0 <= r < HEIGHT && r != row ==> #[trigger] self.grid()[r] == gprev[r],
                    forall|cc: int| 0 <= cc < c ==> #[trigger] self.grid()[row as int][cc] == g0[src as int][cc],
                    forall|cc: int| c <= cc < WIDTH ==> #[trigger] self.grid()[row as int][cc] == gprev[row as int][cc],
                decreases WIDTH - c,
            {
                proof {
                    assert(self.grid()[src as int].len() == WIDTH);
                    assert(self.grid()[row as int].len() == WIDTH);
                    assert(self.board@[src as int]@.len() == WIDTH);
                    assert(self.board@[row as int]@.len() == WIDTH);
                }
                let v = self.board[src][c];
                let ghost gmid = self.grid();
                self.board[row][c] = v;
                proof {
                    assert forall|rr: int| 0 <= rr < HEIGHT && rr != row implies #[trigger] self.grid()[rr] == gmid[rr] by {
                        assert(self.grid()[rr] =~= gmid[rr]);
                    }
                    assert(self.grid()[row as int] =~= gmid[row as int].update(c as int, v));
                }
                c += 1;
            }
            proof {
                assert(self.grid()[row as int] =~= g0[src as int]);
            }
        }

        // The vacated top rows become empty.
        let ghost gcomp = self.grid();
        let mut r2: usize = 0;
        while r2 < found
            invariant
                self.wf(),
                self.score == old(self).score,
                self.curr_piece == old(self).curr_piece,
                self.next_piece_kind == old(self).next_piece_kind,
                self.target_piece == old(self).target_piece,
                board_wf(gcomp),
                1 <= found <= 4,
                found == n,
                r2 <= found,
                s < HEIGHT,
                forall|r: int| 0 <= r < r2 ==> #[trigger] self.grid()[r] == zero_row(),
                forall|r: int| r2 <= r < HEIGHT ==> #[trigger] self.grid()[r] == gcomp[r],
            decreases found - r2,
        {
            let ghost gprev = self.grid();
            let mut c: usize = 0;
            while c < WIDTH
                invariant
                    self.wf(),
                    self.score == old(self).score,
                    self.curr_piece == old(self).curr_piece,
                    self.next_piece_kind == old(self).next_piece_kind,
                    self.target_piece == old(self).target_piece,
                    board_wf(gprev),
                    r2 < found <= 4,
                    c <= WIDTH,
                    forall|r: int| 0 <= r < HEIGHT && r != r2 ==> #[trigger] self.grid()[r] == gprev[r],
                    forall|cc: int| 0 <= cc < c ==> #[trigger] self.grid()[r2 as int][cc] == 0,
                    forall|cc: int| c <= cc < WIDTH ==> #[trigger] self.grid()[r2 as int][cc] == gprev[r2 as int][cc],
                decreases WIDTH - c,
            {
                proof {
                    assert(self.grid()[r2 as int].len() == WIDTH);
                    assert(self.board@[r2 as int]@.len() == WIDTH);
                }
                let ghost gmid = self.grid();
                self.board[r2][c] = 0;
                proof {
                    assert forall|rr: int| 0 <= rr < HEIGHT && rr != r2 implies #[trigger] self.grid()[rr] == gmid[rr] by {
                        assert(self.grid()[rr] =~= gmid[rr]);
                    }
                    assert(self.grid()[r2 as int] =~= gmid[r2 as int].update(c as int, 0u8));
                }
                c += 1;
            }
            proof {
                assert(self.grid()[r2 as int] =~= zero_row());
            }
            r2 += 1;
        }

        // Update the score: 10 points per cleared row.
        self.score = self.score + found_lines * 10;

        proof {
            assert(self.grid() =~~= clear_spec(g0, px));
        }
    }
}

} // verus!
