use tetris::board::{Game, HEIGHT, WIDTH, NO_TARGET};

const BASE: u64 = 1_000_000_000_000_000_000;

#[test]
fn test_evaluator_empty_board() {
    let game = Game::new();
    assert_eq!(game.blocks_hole_factor(), 0);
    assert_eq!(game.blocks_bumpiness(), (0, 0));
    assert_eq!(game.block_line_continuity(), 0);
    assert_eq!(game.block_line_filledness(), 0);
    // With every term zero the fitness is exactly the base constant.
    assert_eq!(game.fitness([0; 6]), BASE);
    assert_eq!(game.fitness([7, 7, 7, 7, 7, 7]), BASE);
}

#[test]
fn test_hole_factor_concrete() {
    let mut game = Game::new();
    // A block near the bottom of column 0 leaves holes in rows 18 and 19.
    game.board[HEIGHT - 3][0] = 1;
    assert_eq!(game.blocks_hole_factor(), (HEIGHT as u64 - 2) + (HEIGHT as u64 - 1));
}

#[test]
fn test_bumpiness_and_max_height_concrete() {
    let mut game = Game::new();
    // Column 0 has height 1; all the other measured columns stay 0.
    game.board[HEIGHT - 1][0] = 1;
    let (bumpiness, max_height) = game.blocks_bumpiness();
    assert_eq!(bumpiness, 1);
    assert_eq!(max_height, 1);

    // The last column is never measured: a block there changes nothing.
    let mut game2 = Game::new();
    game2.board[0][WIDTH - 1] = 1;
    assert_eq!(game2.blocks_bumpiness(), (0, 0));
}

#[test]
fn test_line_continuity_concrete() {
    let mut game = Game::new();
    // A run of 3 blocks from the left edge of the bottom row.
    game.board[HEIGHT - 1][0] = 1;
    game.board[HEIGHT - 1][1] = 1;
    game.board[HEIGHT - 1][2] = 1;
    // A block not adjacent to the left edge contributes no run.
    game.board[HEIGHT - 2][1] = 1;
    assert_eq!(game.block_line_continuity(), 3 * 3 * (HEIGHT as u64 - 1));
}

#[test]
fn test_line_filledness_concrete() {
    let mut game = Game::new();
    game.board[HEIGHT - 1][0] = 1;
    game.board[HEIGHT - 1][1] = 1;
    game.board[HEIGHT - 1][2] = 1;
    game.board[HEIGHT - 2][1] = 1;
    // Unlike continuity, every block counts, wherever it sits in the row.
    assert_eq!(
        game.block_line_filledness(),
        3 * 3 * (HEIGHT as u64 - 1) + 1 * 1 * (HEIGHT as u64 - 2)
    );
}

#[test]
fn test_fitness_single_terms() {
    // Hole penalty: a block atop two holes (rows 18 and 19) gives 37; the
    // term subtracts weight * 10 * 37^2.
    let mut game = Game::new();
    game.board[HEIGHT - 3][0] = 1;
    assert_eq!(game.fitness([1, 0, 0, 0, 0, 0]), BASE - 10 * 37 * 37);

    // Bumpiness and max height for a single bottom-row block.
    let mut game = Game::new();
    game.board[HEIGHT - 1][0] = 1;
    assert_eq!(game.fitness([0, 1, 0, 0, 0, 0]), BASE - 2500);
    assert_eq!(game.fitness([0, 0, 1, 0, 0, 0]), BASE - 20);

    // Continuity bonus: run 1 in row 19 gives 19; weight 50 divided by the
    // formula's 50 adds exactly 19.
    assert_eq!(game.fitness([0, 0, 0, 50, 0, 0]), BASE + 19);

    // Filledness bonus: one block in row 19 adds weight * 50 * 19.
    assert_eq!(game.fitness([0, 0, 0, 0, 1, 0]), BASE + 50 * 19);

    // Filled-line bonus: one full row gives (10 * 1)^2 = 100 scaled by 300.
    let mut game = Game::new();
    for c in 0..WIDTH {
        game.board[HEIGHT - 1][c] = 1;
    }
    assert_eq!(game.fitness([0, 0, 0, 0, 0, 1]), BASE + 300 * 100);
}

#[test]
fn test_fitness_clamps_at_zero() {
    let mut game = Game::new();
    // One hole below a block; a pathologically large first weight must give
    // exactly zero, not a wrapped or negative value.
    game.board[HEIGHT - 2][0] = 1;
    assert_eq!(game.fitness([u64::MAX, 0, 0, 0, 0, 0]), 0);
    assert_eq!(game.fitness([u64::MAX, u64::MAX, u64::MAX, 0, 0, 0]), 0);
}

#[test]
fn test_max_rotation() {
    assert_eq!(Game::max_rotation(0), 2);
    assert_eq!(Game::max_rotation(2), 2);
    assert_eq!(Game::max_rotation(6), 2);
    assert_eq!(Game::max_rotation(4), 1);
    assert_eq!(Game::max_rotation(1), 4);
    assert_eq!(Game::max_rotation(3), 4);
    assert_eq!(Game::max_rotation(5), 4);
}

#[test]
fn test_bot_restores_board_and_plans_once() {
    let mut game = Game::new();
    game.board[HEIGHT - 1][0] = 3;
    game.board[HEIGHT - 1][1] = 3;
    let board_before = game.board.clone();
    let piece_before = game.curr_piece;

    let weights = [100, 200, 50, 30, 400, 10];
    let _action = game.bot(weights);

    // The provisional placements were fully undone.
    assert_eq!(game.board, board_before);
    assert_eq!(game.score, 0);
    assert_eq!(game.curr_piece.kind, piece_before.kind);
    assert_eq!(game.curr_piece.y, piece_before.y);
    // A target placement of the current piece's kind was planned.
    assert_eq!(game.target_piece.kind, piece_before.kind);
    assert_ne!(game.target_piece.kind, NO_TARGET);

    // The plan is cached: another call leaves it untouched.
    let target = game.target_piece;
    let _ = game.bot(weights);
    assert_eq!(game.target_piece.rotation, target.rotation);
    assert_eq!(game.target_piece.x, target.x);
    assert_eq!(game.target_piece.y, target.y);
}

#[test]
fn test_bot_picks_earliest_best_placement() {
    // With all weights zero, every reachable two-ply board scores the same
    // base fitness, so the strict comparison keeps the earliest-enumerated
    // placement: rotation 0 and the leftmost column where the S piece fits
    // (column -1, occupying columns 0 and 1), dropped to the floor.
    let mut game = Game::new();
    let _ = game.bot([0; 6]);
    assert_eq!(game.target_piece.kind, 0);
    assert_eq!(game.target_piece.rotation, 0);
    assert_eq!(game.target_piece.y, -1);
    assert_eq!(game.target_piece.x, HEIGHT as i8 - 3);
}
