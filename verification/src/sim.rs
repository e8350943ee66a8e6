//! The game simulation driver: advances one game per fixed-rate step, with a
//! gravity tick whenever the step counter passes 20 (so on every 21st step,
//! as the counter is reset after firing), the bot steering the piece on every
//! step, and a seeded generator choosing the piece kinds so that a run is
//! reproducible.

use vstd::prelude::*;
use crate::board::{
    Game, Piece, MoveAction, NO_TARGET, in_board, fits_spec, piece_in_bounds, piece_fits,
    place_spec, clear_spec, span_solved_count, span_row_solved, lemma_span_count_bounds,
};
use crate::rng::{rng_from_seed, rng_next_u64};

verus! {

/// Upper bound on simulation steps in one call: keeps every run finite.
pub const STEP_LIMIT: u64 = 100_000_000;

pub proof fn lemma_fits_piece_in_bounds(b: Seq<Seq<u8>>, p: Piece)
    requires
        piece_fits(b, p),
    ensures
        piece_in_bounds(p),
{
}

impl Game {
    /// The gravity-lock transition, taking the freshly drawn next kind as an
    /// argument: lock the current piece, detect game over by testing `kind`'s
    /// spawn placement against the locked board, and — on a fresh game if the
    /// round ended — score the lock, clear the span's solved lines, and spawn
    /// `kind` with the plan reset. Returns whether the round ended and, if
    /// so, the ended round's final score.
    pub fn lock_and_spawn(&mut self, kind: usize) -> (r: (bool, u32))
        requires
            old(self).wf(),
            piece_in_bounds(old(self).curr_piece),
            kind < 7,
            old(self).score <= u32::MAX - 41,
        ensures
            final(self).wf(),
            piece_in_bounds(final(self).curr_piece),
            ({
                let locked = place_spec(old(self).grid(), old(self).curr_piece,
                    (old(self).curr_piece.kind + 1) as u8);
                let over = !fits_spec(locked, kind as int, 0, 0, 5);
                &&& r.0 == over
                &&& final(self).curr_piece == (Piece { kind, rotation: 0u8, x: 0i8, y: 5i8 })
                &&& final(self).target_piece.kind == NO_TARGET
                &&& over ==> {
                    &&& r.1 == old(self).score
                    &&& final(self).score == 1
                    &&& final(self).next_piece_kind == 0
                    &&& forall|row: int, c: int| in_board(row, c) ==> final(self).grid()[row][c] == 0
                }
                &&& !over ==> {
                    &&& r.1 == 0
                    &&& final(self).score == old(self).score + 1
                        + 10 * span_solved_count(locked, old(self).curr_piece.x as int, 4)
                    &&& final(self).grid() == clear_spec(locked, old(self).curr_piece.x as int)
                    &&& final(self).next_piece_kind == old(self).next_piece_kind
                }
            }),
    {
        self.add_current_piece();
        let over = !self.does_piece_fit(kind, 0, 0, 5);

        let mut round_score: u32 = 0;
        if over {
            round_score = self.score;
            *self = Game::new();
            proof {
                // Nothing on a fresh board is filled, so the clear below is a
                // no-op there.
                let g = self.grid();
                let px = self.curr_piece.x as int;
                assert forall|i: int| 0 <= i < 4 implies !span_row_solved(g, px, i) by {
                    assert(in_board(px + i, 0));
                    assert(g[px + i][0] == 0);
                    assert(!crate::board::row_filled(g, px + i));
                }
                reveal_with_fuel(span_solved_count, 5);
                assert(span_solved_count(g, px, 4) == 0);
            }
        }

        // Score the lock, then clear any lines the locked piece completed.
        self.score += 1;
        proof {
            lemma_span_count_bounds(self.grid(), self.curr_piece.x as int, 4);
        }
        self.find_and_remove_solved_lines();

        // Spawn the drawn piece; the plan belonged to the locked piece, so
        // the new piece gets its own plan on the next bot call.
        self.curr_piece = Piece { kind, rotation: 0, x: 0, y: 5 };
        self.target_piece = Piece { kind: NO_TARGET, rotation: 100, x: 100, y: 100 };
        proof {
            assert(piece_in_bounds(self.curr_piece));
        }
        (over, round_score)
    }
}

/// Play `run_count` bot-driven games to completion (each ends when a freshly
/// spawned piece no longer fits) and return the average of their final
/// scores; the per-round transition is fixed by `lock_and_spawn`'s contract
/// for every kind the generator can return. Piece kinds come from a generator
/// seeded with a fixed constant, so two runs with the same weights return the
/// same average. The pacing flag is accepted for callers that alternate with
/// a renderer; the simulation logic does not depend on it.
#[allow(unused_variables)]
pub fn run_tetris(run_count: usize, simulate_only: bool, fitness_params: [u64; 6]) -> (avg: u32)
    requires
        1 <= run_count <= u32::MAX,
    ensures
        avg as u64 <= 41 * STEP_LIMIT,
{
    let mut game = Game::new();
    let mut loop_counter: u64 = 0;
    let mut rng = rng_from_seed([0u8; 32]);
    let mut round_counter: usize = 0;
    let mut score_accumulator: u32 = 0;
    let mut steps: u64 = 0;

    proof {
        assert(piece_in_bounds(game.curr_piece));
    }

    while steps < STEP_LIMIT
        invariant
            1 <= run_count <= u32::MAX,
            game.wf(),
            piece_in_bounds(game.curr_piece),
            loop_counter <= 20,
            steps <= STEP_LIMIT,
            round_counter < run_count,
            score_accumulator as u64 + game.score as u64 <= 41 * steps,
        decreases STEP_LIMIT - steps,
    {
        steps += 1;
        loop_counter += 1;

        // Gravity tick: force the piece one row down; when it cannot move,
        // lock it and spawn the next randomly drawn piece.
        if loop_counter > 20 {
            loop_counter = 0;
            if !game.move_piece_down() {
                let kind = (rng_next_u64(&mut rng) % 7) as usize;
                proof {
                    lemma_span_count_bounds(
                        place_spec(game.grid(), game.curr_piece, (game.curr_piece.kind + 1) as u8),
                        game.curr_piece.x as int, 4);
                }
                let (over, round_score) = game.lock_and_spawn(kind);

                // Game over: record the ended round's score.
                if over {
                    round_counter += 1;
                    score_accumulator += round_score;

                    if round_counter >= run_count {
                        return score_accumulator / (run_count as u32);
                    }
                }
            }
        }

        let ghost pre = game;
        let action = game.bot(fitness_params);
        match action {
            MoveAction::LEFT => {
                let moved = game.move_piece_left();
                proof {
                    if moved {
                        lemma_fits_piece_in_bounds(pre.grid(), game.curr_piece);
                    }
                }
            }
            MoveAction::RIGHT => {
                let moved = game.move_piece_right();
                proof {
                    if moved {
                        lemma_fits_piece_in_bounds(pre.grid(), game.curr_piece);
                    }
                }
            }
            MoveAction::DOWN => {
                let moved = game.move_piece_down();
                proof {
                    if moved {
                        lemma_fits_piece_in_bounds(pre.grid(), game.curr_piece);
                    }
                }
            }
            MoveAction::ROTATE => {
                let moved = game.rotate_piece();
                proof {
                    if moved {
                        lemma_fits_piece_in_bounds(pre.grid(), game.curr_piece);
                    }
                }
            }
            _ => {}
        }
    }

    score_accumulator / (run_count as u32)
}

} // verus!
