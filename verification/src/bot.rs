//! The placement-search bot: a two-ply exhaustive enumeration over
//! (rotation, column) placements for the current piece and the known next
//! piece, scored with the heuristic evaluator. The board is always restored
//! exactly after the provisional placements, and the planned target is the
//! earliest first-ply placement whose best second-ply score is maximal.

use vstd::prelude::*;
use crate::board::{
    Game, Piece, MoveAction, WIDTH, NO_TARGET, fits_spec, piece_fits,
    place_spec, lemma_fits_bounds, lemma_place_restore,
};
use crate::evaluator::{fitness_spec, lemma_fitness_spec_nonneg};

verus! {

/// How many rotation quadrants are worth searching for a kind: pieces with
/// 180-degree symmetry need 2, the square 1, all others 4.
pub open spec fn max_rotation_spec(kind: int) -> int {
    if kind == 0 || kind == 2 || kind == 6 {
        2
    } else if kind == 4 {
        1
    } else {
        4
    }
}

/// The single move that steers the current piece toward the target: rotate
/// first, then shift sideways, then drop.
pub open spec fn bot_action_spec(p: Piece, t: Piece) -> MoveAction {
    if p.rotation != t.rotation {
        MoveAction::ROTATE
    } else if p.y != t.y {
        if p.y < t.y {
            MoveAction::RIGHT
        } else {
            MoveAction::LEFT
        }
    } else {
        MoveAction::DOWN
    }
}

/// A placement the search may select: either the untouched spawn piece (when
/// nothing fits or nothing scores) or a same-kind placement resting on the
/// stack.
pub open spec fn settled_target(b: Seq<Seq<u8>>, orig: Piece, t: Piece) -> bool {
    t == orig || {
        &&& t.kind == orig.kind
        &&& piece_fits(b, t)
        &&& !fits_spec(b, t.kind as int, t.rotation as int, t.x + 1, t.y as int)
    }
}

/// Where a piece pushed straight down from row `x` comes to rest: the first
/// row from which one more step down no longer fits.
pub open spec fn drop_row(b: Seq<Seq<u8>>, kind: int, rot: int, x: int, y: int) -> int
    decreases 20 - x,
{
    if x < 20 && fits_spec(b, kind, rot, x + 1, y) {
        drop_row(b, kind, rot, x + 1, y)
    } else {
        x
    }
}

/// The first-ply placement of search cell (r1, j1): column j1 - 2,
/// hard-dropped from the spawn row `x0`.
pub open spec fn first_ply_piece(b: Seq<Seq<u8>>, kind: int, r1: int, x0: int, j1: int) -> Piece {
    Piece {
        kind: kind as usize,
        rotation: r1 as u8,
        x: drop_row(b, kind, r1, x0, j1 - 2) as i8,
        y: (j1 - 2) as i8,
    }
}

/// The score of one (first-ply, second-ply) placement pair: the fitness of
/// the board holding both dropped pieces, or zero when either placement
/// cannot even be made at its spawn row.
pub open spec fn pair_value(
    b: Seq<Seq<u8>>, kind: int, kind2: int, w: Seq<u64>, x0: int,
    r1: int, j1: int, r2: int, j2: int,
) -> int {
    let c1 = j1 - 2;
    if !fits_spec(b, kind, r1, x0, c1) {
        0
    } else {
        let p1 = first_ply_piece(b, kind, r1, x0, j1);
        let g1 = place_spec(b, p1, (kind + 1) as u8);
        let c2 = j2 - 2;
        if !fits_spec(g1, kind2, r2, 0, c2) {
            0
        } else {
            let p2 = Piece {
                kind: kind2 as usize,
                rotation: r2 as u8,
                x: drop_row(g1, kind2, r2, 0, c2) as i8,
                y: c2 as i8,
            };
            fitness_spec(place_spec(g1, p2, (kind2 + 1) as u8), w)
        }
    }
}

pub open spec fn max2(a: int, b: int) -> int {
    if b > a { b } else { a }
}

/// Termination measure for walking the (rotation, column) grid backwards.
pub open spec fn cells_measure(r: int, j: int) -> int {
    (if r > 0 { 16 * r } else { 0 }) + (if j > 0 { j } else { 0 })
}

/// The largest pair value among the second-ply cells enumerated strictly
/// before (r2, j2) within first-ply cell (r1, j1); zero when none exist.
pub open spec fn inner_prefix_max(
    b: Seq<Seq<u8>>, kind: int, kind2: int, w: Seq<u64>, x0: int,
    r1: int, j1: int, r2: int, j2: int,
) -> int
    decreases cells_measure(r2, j2),
{
    if j2 > 0 {
        max2(inner_prefix_max(b, kind, kind2, w, x0, r1, j1, r2, j2 - 1),
            pair_value(b, kind, kind2, w, x0, r1, j1, r2, j2 - 1))
    } else if r2 > 0 {
        inner_prefix_max(b, kind, kind2, w, x0, r1, j1, r2 - 1, 15)
    } else {
        0
    }
}

/// The best second-ply score of first-ply cell (r1, j1), over the whole
/// second-ply enumeration.
pub open spec fn cell_max(
    b: Seq<Seq<u8>>, kind: int, kind2: int, w: Seq<u64>, x0: int, r1: int, j1: int,
) -> int {
    inner_prefix_max(b, kind, kind2, w, x0, r1, j1, max_rotation_spec(kind2), 0)
}

/// The largest cell maximum among the first-ply cells enumerated strictly
/// before (r1, j1); zero when none exist.
pub open spec fn search_prefix_max(
    b: Seq<Seq<u8>>, kind: int, kind2: int, w: Seq<u64>, x0: int, r1: int, j1: int,
) -> int
    decreases cells_measure(r1, j1),
{
    if j1 > 0 {
        max2(search_prefix_max(b, kind, kind2, w, x0, r1, j1 - 1),
            cell_max(b, kind, kind2, w, x0, r1, j1 - 1))
    } else if r1 > 0 {
        search_prefix_max(b, kind, kind2, w, x0, r1 - 1, 15)
    } else {
        0
    }
}

/// The best score in the whole two-ply search.
pub open spec fn search_max(b: Seq<Seq<u8>>, kind: int, kind2: int, w: Seq<u64>, x0: int) -> int {
    search_prefix_max(b, kind, kind2, w, x0, max_rotation_spec(kind), 0)
}

/// Whether first-ply cell (rb, jb) is enumerated strictly before (r1, j1).
pub open spec fn cell_before(r1: int, j1: int, rb: int, jb: int) -> bool {
    rb < r1 || (rb == r1 && jb < j1)
}

/// The placement the search must select when some pair scores above zero:
/// the first-ply piece of the earliest cell whose best second-ply score is
/// the search maximum (a strict comparison lets the earliest tie win).
pub open spec fn chosen_target(
    b: Seq<Seq<u8>>, kind: int, kind2: int, w: Seq<u64>, x0: int, t: Piece,
) -> bool {
    exists|r1: int, j1: int|
        #![trigger cell_max(b, kind, kind2, w, x0, r1, j1)]
        {
            &&& 0 <= r1 < max_rotation_spec(kind)
            &&& 0 <= j1 < 15
            &&& cell_max(b, kind, kind2, w, x0, r1, j1) == search_max(b, kind, kind2, w, x0)
            &&& forall|rb: int, jb: int|
                0 <= rb && 0 <= jb < 15 && cell_before(r1, j1, rb, jb)
                    ==> #[trigger] cell_max(b, kind, kind2, w, x0, rb, jb)
                        < search_max(b, kind, kind2, w, x0)
            &&& t == first_ply_piece(b, kind, r1, x0, j1)
        }
}

/// The loop state of the search at first-ply position (r1, j1): the running
/// best score is the prefix maximum, and the running best piece is the
/// untouched original while that maximum is zero, else the first-ply piece of
/// the earliest cell attaining it.
pub open spec fn running_best(
    b: Seq<Seq<u8>>, kind: int, kind2: int, w: Seq<u64>, x0: int,
    r1: int, j1: int, bf: int, bp: Piece, orig: Piece,
) -> bool {
    &&& bf == search_prefix_max(b, kind, kind2, w, x0, r1, j1)
    &&& (bf == 0 ==> bp == orig)
    &&& (bf > 0 ==> exists|ra: int, ja: int|
        #![trigger cell_max(b, kind, kind2, w, x0, ra, ja)]
        {
            &&& 0 <= ra < max_rotation_spec(kind)
            &&& 0 <= ja < 15
            &&& cell_before(r1, j1, ra, ja)
            &&& cell_max(b, kind, kind2, w, x0, ra, ja) == bf
            &&& forall|rb: int, jb: int|
                0 <= rb && 0 <= jb < 15 && cell_before(ra, ja, rb, jb)
                    ==> #[trigger] cell_max(b, kind, kind2, w, x0, rb, jb) < bf
            &&& bp == first_ply_piece(b, kind, ra, x0, ja)
        })
}

pub proof fn lemma_pair_value_nonneg(
    b: Seq<Seq<u8>>, kind: int, kind2: int, w: Seq<u64>, x0: int,
    r1: int, j1: int, r2: int, j2: int,
)
    requires
        w.len() == 6,
    ensures
        pair_value(b, kind, kind2, w, x0, r1, j1, r2, j2) >= 0,
{
    let c1 = j1 - 2;
    if fits_spec(b, kind, r1, x0, c1) {
        let p1 = first_ply_piece(b, kind, r1, x0, j1);
        let g1 = place_spec(b, p1, (kind + 1) as u8);
        let c2 = j2 - 2;
        if fits_spec(g1, kind2, r2, 0, c2) {
            let p2 = Piece {
                kind: kind2 as usize,
                rotation: r2 as u8,
                x: drop_row(g1, kind2, r2, 0, c2) as i8,
                y: c2 as i8,
            };
            lemma_fitness_spec_nonneg(place_spec(g1, p2, (kind2 + 1) as u8), w);
        }
    }
}

pub proof fn lemma_inner_prefix_nonneg(
    b: Seq<Seq<u8>>, kind: int, kind2: int, w: Seq<u64>, x0: int,
    r1: int, j1: int, r2: int, j2: int,
)
    requires
        w.len() == 6,
    ensures
        inner_prefix_max(b, kind, kind2, w, x0, r1, j1, r2, j2) >= 0,
    decreases cells_measure(r2, j2),
{
    if j2 > 0 {
        lemma_inner_prefix_nonneg(b, kind, kind2, w, x0, r1, j1, r2, j2 - 1);
        lemma_pair_value_nonneg(b, kind, kind2, w, x0, r1, j1, r2, j2 - 1);
    } else if r2 > 0 {
        lemma_inner_prefix_nonneg(b, kind, kind2, w, x0, r1, j1, r2 - 1, 15);
    }
}

/// A first-ply cell whose placement does not even fit at the spawn row
/// contributes nothing: all its pair values, hence its maximum, are zero.
pub proof fn lemma_unfit_cell_max_zero(
    b: Seq<Seq<u8>>, kind: int, kind2: int, w: Seq<u64>, x0: int,
    r1: int, j1: int, r2: int, j2: int,
)
    requires
        !fits_spec(b, kind, r1, x0, j1 - 2),
    ensures
        inner_prefix_max(b, kind, kind2, w, x0, r1, j1, r2, j2) == 0,
    decreases cells_measure(r2, j2),
{
    if j2 > 0 {
        lemma_unfit_cell_max_zero(b, kind, kind2, w, x0, r1, j1, r2, j2 - 1);
        assert(pair_value(b, kind, kind2, w, x0, r1, j1, r2, j2 - 1) == 0);
    } else if r2 > 0 {
        lemma_unfit_cell_max_zero(b, kind, kind2, w, x0, r1, j1, r2 - 1, 15);
    }
}

/// Every cell enumerated before (r1, j1) scores at most the prefix maximum
/// at (r1, j1).
pub proof fn lemma_cell_le_prefix(
    b: Seq<Seq<u8>>, kind: int, kind2: int, w: Seq<u64>, x0: int,
    rb: int, jb: int, r1: int, j1: int,
)
    requires
        0 <= rb,
        0 <= jb < 15,
        cell_before(r1, j1, rb, jb),
    ensures
        cell_max(b, kind, kind2, w, x0, rb, jb) <= search_prefix_max(b, kind, kind2, w, x0, r1, j1),
    decreases cells_measure(r1, j1),
{
    if j1 > 0 {
        if !(rb == r1 && jb == j1 - 1) {
            lemma_cell_le_prefix(b, kind, kind2, w, x0, rb, jb, r1, j1 - 1);
        }
    } else {
        lemma_cell_le_prefix(b, kind, kind2, w, x0, rb, jb, r1 - 1, 15);
    }
}

impl Game {
    /// The number of distinct rotations to search for a piece kind.
    pub fn max_rotation(kind: usize) -> (r: u8)
        ensures
            r == max_rotation_spec(kind as int),
    {
        match kind {
            0 | 2 | 6 => 2,
            4 => 1,
            _ => 4,
        }
    }

    /// Pick one move toward the best placement. When no target is planned
    /// yet, search every (rotation, column) placement of the current piece,
    /// drop it, then search every placement of the known next piece on the
    /// resulting board, score each board, and keep the first-ply placement
    /// with the highest best second-ply score; a strict comparison makes the
    /// earliest-enumerated tie win, and when nothing fits or nothing scores
    /// above zero the untouched piece stays the target. The board, score and
    /// piece are left exactly as they were.
    pub fn bot(&mut self, fitness_params: [u64; 6]) -> (action: MoveAction)
        requires
            old(self).wf(),
        ensures
            final(self).wf(),
            final(self).grid() == old(self).grid(),
            final(self).score == old(self).score,
            final(self).curr_piece == old(self).curr_piece,
            final(self).next_piece_kind == old(self).next_piece_kind,
            old(self).target_piece.kind != NO_TARGET
                ==> final(self).target_piece == old(self).target_piece,
            old(self).target_piece.kind == NO_TARGET
                ==> settled_target(old(self).grid(), old(self).curr_piece, final(self).target_piece),
            old(self).target_piece.kind == NO_TARGET ==> ({
                let m = search_max(old(self).grid(), old(self).curr_piece.kind as int,
                    old(self).next_piece_kind as int, fitness_params@, old(self).curr_piece.x as int);
                &&& (m == 0 ==> final(self).target_piece == old(self).curr_piece)
                &&& (m > 0 ==> chosen_target(old(self).grid(), old(self).curr_piece.kind as int,
                        old(self).next_piece_kind as int, fitness_params@,
                        old(self).curr_piece.x as int, final(self).target_piece))
            }),
            action == bot_action_spec(old(self).curr_piece, final(self).target_piece),
    {
        let ghost g0 = old(self).grid();
        let ghost w = fitness_params@;
        let ghost ki = old(self).curr_piece.kind as int;
        let ghost k2i = old(self).next_piece_kind as int;
        let ghost x0 = old(self).curr_piece.x as int;
        let kind = self.curr_piece.kind;
        let mut best_fitness: u64 = 0;
        let mut best_piece = self.curr_piece;
        let original_piece = self.curr_piece;

        if self.target_piece.kind == NO_TARGET {
            let max_rot = Game::max_rotation(kind);
            let mut rotation: u8 = 0;
            while rotation < max_rot
                invariant
                    self.wf(),
                    self.grid() == g0,
                    g0 == old(self).grid(),
                    w == fitness_params@,
                    self.score == old(self).score,
                    self.curr_piece == old(self).curr_piece,
                    self.next_piece_kind == old(self).next_piece_kind,
                    self.target_piece == old(self).target_piece,
                    kind == old(self).curr_piece.kind,
                    ki == kind as int,
                    k2i == old(self).next_piece_kind as int,
                    x0 == old(self).curr_piece.x as int,
                    original_piece == old(self).curr_piece,
                    rotation <= max_rot,
                    max_rot == max_rotation_spec(ki),
                    max_rot <= 4,
                    settled_target(g0, original_piece, best_piece),
                    running_best(g0, ki, k2i, w, x0, rotation as int, 0,
                        best_fitness as int, best_piece, original_piece),
                decreases max_rot - rotation,
            {
                let mut col_i: i8 = 0;
                while col_i < WIDTH as i8 + 5
                    invariant
                        self.wf(),
                        self.grid() == g0,
                        g0 == old(self).grid(),
                        w == fitness_params@,
                        self.score == old(self).score,
                        self.curr_piece == old(self).curr_piece,
                        self.next_piece_kind == old(self).next_piece_kind,
                        self.target_piece == old(self).target_piece,
                        kind == old(self).curr_piece.kind,
                        ki == kind as int,
                        k2i == old(self).next_piece_kind as int,
                        x0 == old(self).curr_piece.x as int,
                        original_piece == old(self).curr_piece,
                        rotation < 4,
                        rotation < max_rotation_spec(ki),
                        0 <= col_i <= WIDTH as i8 + 5,
                        settled_target(g0, original_piece, best_piece),
                        running_best(g0, ki, k2i, w, x0, rotation as int, col_i as int,
                            best_fitness as int, best_piece, original_piece),
                    decreases WIDTH as i8 + 5 - col_i,
                {
                    let ghost j1 = col_i as int;
                    let ghost r1 = rotation as int;
                    let ghost entry_bf = best_fitness as int;
                    let ghost entry_bp = best_piece;
                    let col = col_i - 2;
                    let curr_piece_x = self.curr_piece.x;

                    // A placement is only considered if the piece could even
                    // be placed at the spawn row for this column.
                    if self.does_piece_fit(kind, rotation, curr_piece_x, col) {
                        // Hard drop: push the piece down until it rests.
                        let mut piece_x = curr_piece_x;
                        proof {
                            lemma_fits_bounds(g0, ki, r1, piece_x as int, col as int);
                        }
                        while self.does_piece_fit(kind, rotation, piece_x + 1, col)
                            invariant
                                self.wf(),
                                self.grid() == g0,
                                kind < 7,
                                ki == kind as int,
                                r1 == rotation as int,
                                j1 == col_i as int,
                                col == col_i - 2,
                                fits_spec(g0, ki, r1, piece_x as int, col as int),
                                drop_row(g0, ki, r1, x0, col as int)
                                    == drop_row(g0, ki, r1, piece_x as int, col as int),
                                -3 <= piece_x <= 19,
                                -3 <= col <= 9,
                            decreases 19 - piece_x,
                        {
                            piece_x += 1;
                            proof {
                                lemma_fits_bounds(g0, ki, r1, piece_x as int, col as int);
                            }
                        }
                        proof {
                            assert(piece_x as int == drop_row(g0, ki, r1, x0, col as int));
                        }

                        // Provisionally lock the piece.
                        self.curr_piece = Piece { kind, rotation, x: piece_x, y: col };
                        let ghost p1 = self.curr_piece;
                        proof {
                            assert(p1 == first_ply_piece(g0, ki, r1, x0, j1));
                        }
                        self.add_current_piece();
                        let ghost g1 = self.grid();

                        let kind_2 = self.next_piece_kind;
                        self.curr_piece = Piece { kind: kind_2, rotation: 0, x: 0, y: 5 };
                        let original_piece_2 = self.curr_piece;

                        // Second ply: try every placement of the next piece.
                        let max_rot_2 = Game::max_rotation(kind_2);
                        let mut rotation_2: u8 = 0;
                        while rotation_2 < max_rot_2
                            invariant
                                self.wf(),
                                self.grid() == g1,
                                g0 == old(self).grid(),
                                w == fitness_params@,
                                self.score == old(self).score,
                                self.next_piece_kind == old(self).next_piece_kind,
                                self.target_piece == old(self).target_piece,
                                self.curr_piece == original_piece_2,
                                original_piece_2 == (Piece { kind: kind_2, rotation: 0u8, x: 0i8, y: 5i8 }),
                                kind == old(self).curr_piece.kind,
                                ki == kind as int,
                                k2i == old(self).next_piece_kind as int,
                                x0 == old(self).curr_piece.x as int,
                                original_piece == old(self).curr_piece,
                                kind_2 == old(self).next_piece_kind,
                                kind_2 < 7,
                                rotation_2 <= max_rot_2,
                                max_rot_2 == max_rotation_spec(k2i),
                                max_rot_2 <= 4,
                                r1 == rotation as int,
                                j1 == col_i as int,
                                col == col_i - 2,
                                0 <= col_i < 15,
                                rotation < max_rotation_spec(ki),
                                p1 == (Piece { kind, rotation, x: piece_x, y: col }),
                                p1 == first_ply_piece(g0, ki, r1, x0, j1),
                                piece_fits(g0, p1),
                                g1 == place_spec(g0, p1, (kind + 1) as u8),
                                g1 == place_spec(g0, p1, (ki + 1) as u8),
                                fits_spec(g0, ki, r1, x0, col as int),
                                !fits_spec(g0, ki, r1, piece_x + 1, col as int),
                                settled_target(g0, original_piece, best_piece),
                                entry_bf == search_prefix_max(g0, ki, k2i, w, x0, r1, j1),
                                best_fitness as int == max2(entry_bf,
                                    inner_prefix_max(g0, ki, k2i, w, x0, r1, j1, rotation_2 as int, 0)),
                                (best_fitness as int == entry_bf && best_piece == entry_bp
                                    && running_best(g0, ki, k2i, w, x0, r1, j1,
                                        best_fitness as int, best_piece, original_piece))
                                    || (best_fitness as int > entry_bf && best_piece == p1),
                            decreases max_rot_2 - rotation_2,
                        {
                            let mut col_2_i: i8 = 0;
                            while col_2_i < WIDTH as i8 + 5
                                invariant
                                    self.wf(),
                                    self.grid() == g1,
                                    g0 == old(self).grid(),
                                    w == fitness_params@,
                                    self.score == old(self).score,
                                    self.next_piece_kind == old(self).next_piece_kind,
                                    self.target_piece == old(self).target_piece,
                                    self.curr_piece == original_piece_2,
                                    original_piece_2 == (Piece { kind: kind_2, rotation: 0u8, x: 0i8, y: 5i8 }),
                                    kind == old(self).curr_piece.kind,
                                    ki == kind as int,
                                    k2i == old(self).next_piece_kind as int,
                                    x0 == old(self).curr_piece.x as int,
                                    original_piece == old(self).curr_piece,
                                    kind_2 == old(self).next_piece_kind,
                                    kind_2 < 7,
                                    rotation_2 < 4,
                                    (rotation_2 as int) < max_rotation_spec(k2i),
                                    0 <= col_2_i <= WIDTH as i8 + 5,
                                    r1 == rotation as int,
                                    j1 == col_i as int,
                                    col == col_i - 2,
                                    0 <= col_i < 15,
                                    rotation < max_rotation_spec(ki),
                                    p1 == (Piece { kind, rotation, x: piece_x, y: col }),
                                    p1 == first_ply_piece(g0, ki, r1, x0, j1),
                                    piece_fits(g0, p1),
                                    g1 == place_spec(g0, p1, (kind + 1) as u8),
                                    g1 == place_spec(g0, p1, (ki + 1) as u8),
                                    fits_spec(g0, ki, r1, x0, col as int),
                                    !fits_spec(g0, ki, r1, piece_x + 1, col as int),
                                    settled_target(g0, original_piece, best_piece),
                                    entry_bf == search_prefix_max(g0, ki, k2i, w, x0, r1, j1),
                                    best_fitness as int == max2(entry_bf,
                                        inner_prefix_max(g0, ki, k2i, w, x0, r1, j1,
                                            rotation_2 as int, col_2_i as int)),
                                    (best_fitness as int == entry_bf && best_piece == entry_bp
                                        && running_best(g0, ki, k2i, w, x0, r1, j1,
                                            best_fitness as int, best_piece, original_piece))
                                        || (best_fitness as int > entry_bf && best_piece == p1),
                                decreases WIDTH as i8 + 5 - col_2_i,
                            {
                                let ghost r2 = rotation_2 as int;
                                let ghost j2 = col_2_i as int;
                                let col_2 = col_2_i - 2;
                                let curr_piece_x_2 = self.curr_piece.x;

                                if self.does_piece_fit(kind_2, rotation_2, curr_piece_x_2, col_2) {
                                    let mut piece_x_2 = curr_piece_x_2;
                                    proof {
                                        lemma_fits_bounds(g1, k2i, r2, piece_x_2 as int, col_2 as int);
                                    }
                                    while self.does_piece_fit(kind_2, rotation_2, piece_x_2 + 1, col_2)
                                        invariant
                                            self.wf(),
                                            self.grid() == g1,
                                            kind_2 < 7,
                                            k2i == kind_2 as int,
                                            r2 == rotation_2 as int,
                                            col_2 == col_2_i - 2,
                                            fits_spec(g1, k2i, r2, piece_x_2 as int, col_2 as int),
                                            drop_row(g1, k2i, r2, 0, col_2 as int)
                                                == drop_row(g1, k2i, r2, piece_x_2 as int, col_2 as int),
                                            -3 <= piece_x_2 <= 19,
                                            -3 <= col_2 <= 9,
                                        decreases 19 - piece_x_2,
                                    {
                                        piece_x_2 += 1;
                                        proof {
                                            lemma_fits_bounds(g1, k2i, r2, piece_x_2 as int, col_2 as int);
                                        }
                                    }
                                    proof {
                                        assert(piece_x_2 as int == drop_row(g1, k2i, r2, 0, col_2 as int));
                                    }

                                    // Lock the second piece, score the board,
                                    // then restore it exactly.
                                    self.curr_piece = Piece { kind: kind_2, rotation: rotation_2, x: piece_x_2, y: col_2 };
                                    let ghost p2 = self.curr_piece;

                                    self.add_current_piece();

                                    let fitness = self.fitness(fitness_params);
                                    proof {
                                        assert(fitness as int
                                            == pair_value(g0, ki, k2i, w, x0, r1, j1, r2, j2));
                                    }

                                    self.remove_current_piece();
                                    proof {
                                        lemma_place_restore(g1, p2, (kind_2 + 1) as u8);
                                    }
                                    self.curr_piece = original_piece_2;

                                    if fitness > best_fitness {
                                        best_piece = Piece { kind, rotation, x: piece_x, y: col };
                                        best_fitness = fitness;
                                        proof {
                                            assert(best_piece == p1);
                                        }
                                    }
                                    proof {
                                        lemma_inner_prefix_nonneg(g0, ki, k2i, w, x0, r1, j1, r2, j2);
                                        assert(inner_prefix_max(g0, ki, k2i, w, x0, r1, j1, r2, j2 + 1)
                                            == max2(inner_prefix_max(g0, ki, k2i, w, x0, r1, j1, r2, j2),
                                                pair_value(g0, ki, k2i, w, x0, r1, j1, r2, j2)));
                                    }
                                } else {
                                    proof {
                                        assert(pair_value(g0, ki, k2i, w, x0, r1, j1, r2, j2) == 0);
                                        lemma_inner_prefix_nonneg(g0, ki, k2i, w, x0, r1, j1, r2, j2);
                                        assert(inner_prefix_max(g0, ki, k2i, w, x0, r1, j1, r2, j2 + 1)
                                            == max2(inner_prefix_max(g0, ki, k2i, w, x0, r1, j1, r2, j2), 0));
                                    }
                                }
                                col_2_i += 1;
                            }
                            proof {
                                assert(inner_prefix_max(g0, ki, k2i, w, x0, r1, j1, rotation_2 as int + 1, 0)
                                    == inner_prefix_max(g0, ki, k2i, w, x0, r1, j1, rotation_2 as int, 15));
                            }
                            rotation_2 += 1;
                        }

                        // Unlock the first piece and restore the position.
                        self.curr_piece = Piece { kind, rotation, x: piece_x, y: col };
                        self.remove_current_piece();
                        proof {
                            lemma_place_restore(g0, p1, (kind + 1) as u8);
                        }
                        self.curr_piece = original_piece;

                        proof {
                            // The inner enumeration is complete: the running
                            // best now reflects this cell too.
                            assert(inner_prefix_max(g0, ki, k2i, w, x0, r1, j1, max_rot_2 as int, 0)
                                == cell_max(g0, ki, k2i, w, x0, r1, j1));
                            assert(search_prefix_max(g0, ki, k2i, w, x0, r1, j1 + 1)
                                == max2(search_prefix_max(g0, ki, k2i, w, x0, r1, j1),
                                    cell_max(g0, ki, k2i, w, x0, r1, j1)));
                            if best_fitness as int > entry_bf {
                                assert(best_fitness as int == cell_max(g0, ki, k2i, w, x0, r1, j1));
                                assert forall|rb: int, jb: int|
                                    0 <= rb && 0 <= jb < 15 && cell_before(r1, j1, rb, jb)
                                        implies #[trigger] cell_max(g0, ki, k2i, w, x0, rb, jb)
                                            < best_fitness as int by {
                                    lemma_cell_le_prefix(g0, ki, k2i, w, x0, rb, jb, r1, j1);
                                }
                                assert(running_best(g0, ki, k2i, w, x0, r1, j1 + 1,
                                    best_fitness as int, best_piece, original_piece));
                            } else {
                                assert(running_best(g0, ki, k2i, w, x0, r1, j1 + 1,
                                    best_fitness as int, best_piece, original_piece));
                            }
                        }
                    } else {
                        proof {
                            // An unfit cell contributes nothing.
                            lemma_unfit_cell_max_zero(g0, ki, k2i, w, x0, r1, j1,
                                max_rotation_spec(k2i), 0);
                            assert(cell_max(g0, ki, k2i, w, x0, r1, j1) == 0);
                            assert(search_prefix_max(g0, ki, k2i, w, x0, r1, j1 + 1)
                                == max2(search_prefix_max(g0, ki, k2i, w, x0, r1, j1), 0));
                            assert(running_best(g0, ki, k2i, w, x0, r1, j1 + 1,
                                best_fitness as int, best_piece, original_piece));
                        }
                    }
                    col_i += 1;
                }
                proof {
                    assert(search_prefix_max(g0, ki, k2i, w, x0, rotation as int + 1, 0)
                        == search_prefix_max(g0, ki, k2i, w, x0, rotation as int, 15));
                }
                rotation += 1;
            }

            self.target_piece = best_piece;
            proof {
                assert(best_fitness as int == search_max(g0, ki, k2i, w, x0));
            }
        }

        // Decide the next move from the live piece and the target placement:
        // by default just push the piece down.
        let mut bot_action = MoveAction::DOWN;

        if original_piece.rotation != self.target_piece.rotation {
            bot_action = MoveAction::ROTATE;
        } else if original_piece.y != self.target_piece.y {
            if original_piece.y < self.target_piece.y {
                bot_action = MoveAction::RIGHT;
            } else {
                bot_action = MoveAction::LEFT;
            }
        }

        bot_action
    }
}

} // verus!
