use tetris::board::{Game, Piece, HEIGHT, WIDTH};

#[test]
fn test_rotate() {
    let idx = Game::rotate(0u8, 0u8, 0u8);
    assert_eq!(idx, 0usize);

    let idx = Game::rotate(3u8, 1u8, 1u8);
    assert_eq!(idx, 11usize);

    let idx = Game::rotate(3u8, 1u8, 2u8);
    assert_eq!(idx, 2usize);

    let idx = Game::rotate(3u8, 1u8, 3u8);
    assert_eq!(idx, 4usize);
}

#[test]
fn test_rotate_bijection_all_quadrants() {
    for rot in 0u8..4u8 {
        let mut seen = [false; 16];
        for x in 0u8..4u8 {
            for y in 0u8..4u8 {
                let idx = Game::rotate(x, y, rot);
                assert!(idx < 16);
                assert!(!seen[idx], "index {} hit twice in quadrant {}", idx, rot);
                seen[idx] = true;
            }
        }
        assert!(seen.iter().all(|&s| s));
    }
}

#[test]
fn test_does_piece_fit() {
    let mut game = Game::new();
    game.board[HEIGHT - 1][0] = 1;

    assert_eq!(game.does_piece_fit(3, 0, -2, 0), false);
    assert_eq!(game.does_piece_fit(3, 0, 0, -2), false);
    // The L mask occupies columns 1..3 of rows 0..3 only, so at (17, 0) it
    // rests fully on the board and misses the block at (19, 0).
    assert_eq!(game.does_piece_fit(3, 0, HEIGHT as i8 - 3, 0), true);
}

#[test]
fn test_fits_rejects_out_of_bounds() {
    let game = Game::new();
    for kind in 0usize..7 {
        for rotation in 0u8..4 {
            // Every occupied mask cell would land on a negative row.
            assert!(!game.does_piece_fit(kind, rotation, -4, 5));
            // Every occupied mask cell would land at or below the floor.
            assert!(!game.does_piece_fit(kind, rotation, HEIGHT as i8, 5));
            // Every occupied mask cell would land in a negative column.
            assert!(!game.does_piece_fit(kind, rotation, 5, -4));
            // Every occupied mask cell would land beyond the right edge.
            assert!(!game.does_piece_fit(kind, rotation, 5, WIDTH as i8));
        }
    }
}

#[test]
fn test_find_and_remove_solved_lines() {
    let mut game = Game::new();
    game.board[HEIGHT - 1][0] = 1;

    game.find_and_remove_solved_lines();
    assert_eq!(game.score, 0);

    for idx in 0..WIDTH {
        game.board[HEIGHT - 1][idx] = 1;
    }

    game.curr_piece.x = HEIGHT as i8 - 3;

    game.find_and_remove_solved_lines();
    assert_eq!(game.board[HEIGHT - 1], vec![0u8; WIDTH]);
    assert_eq!(game.score, 10);

    for idx in 0..WIDTH {
        game.board[HEIGHT - 1][idx] = 1;
        game.board[HEIGHT - 2][idx] = 1;
    }

    game.find_and_remove_solved_lines();
    assert_eq!(game.board[HEIGHT - 1], vec![0u8; WIDTH]);
    assert_eq!(game.board[HEIGHT - 2], vec![0u8; WIDTH]);
    assert_eq!(game.score, 30);
}

#[test]
fn test_line_clear_ignores_rows_outside_span() {
    let mut game = Game::new();
    // Fill the top row completely; the piece's span is at the bottom.
    for idx in 0..WIDTH {
        game.board[0][idx] = 1;
    }
    game.curr_piece.x = HEIGHT as i8 - 4;

    game.find_and_remove_solved_lines();

    // The filled row lies outside the piece's 4-row span: no clear happens.
    assert_eq!(game.score, 0);
    assert_eq!(game.board[0], vec![1u8; WIDTH]);
}

#[test]
fn test_single_row_clear_compaction() {
    let mut game = Game::new();
    // A marker block two rows above the full row.
    game.board[HEIGHT - 3][4] = 5;
    for idx in 0..WIDTH {
        game.board[HEIGHT - 1][idx] = 2;
    }
    game.curr_piece.x = HEIGHT as i8 - 4;

    game.find_and_remove_solved_lines();

    assert_eq!(game.score, 10);
    // Everything above the cleared row shifted down by one.
    assert_eq!(game.board[HEIGHT - 2][4], 5);
    assert_eq!(game.board[HEIGHT - 3][4], 0);
    // The vacated top row is empty.
    assert_eq!(game.board[0], vec![0u8; WIDTH]);
}

#[test]
fn test_double_row_clear_compaction() {
    let mut game = Game::new();
    game.board[HEIGHT - 5][7] = 3;
    for idx in 0..WIDTH {
        game.board[HEIGHT - 1][idx] = 1;
        game.board[HEIGHT - 2][idx] = 1;
    }
    game.curr_piece.x = HEIGHT as i8 - 4;

    game.find_and_remove_solved_lines();

    // Two simultaneous rows: 20 points, rows above shift down by two.
    assert_eq!(game.score, 20);
    assert_eq!(game.board[HEIGHT - 3][7], 3);
    assert_eq!(game.board[HEIGHT - 5][7], 0);
    assert_eq!(game.board[HEIGHT - 1], vec![0u8; WIDTH]);
    assert_eq!(game.board[HEIGHT - 2], vec![0u8; WIDTH]);
}

#[test]
fn test_add_current_piece() {
    let mut game = Game::new();

    game.add_current_piece();
    assert_eq!(game.board[0][6], 1);

    game.remove_current_piece();
    assert_eq!(game.board[0][6], 0);
}

#[test]
fn test_piece_movement() {
    let mut game = Game::new();
    let y0 = game.curr_piece.y;
    assert!(game.move_piece_left());
    assert_eq!(game.curr_piece.y, y0 - 1);
    assert!(game.move_piece_right());
    assert_eq!(game.curr_piece.y, y0);
    assert!(game.move_piece_down());
    assert_eq!(game.curr_piece.x, 1);
    assert!(game.rotate_piece());
    assert_eq!(game.curr_piece.rotation, 1);

    // A piece resting on the floor cannot move further down.
    game.curr_piece = Piece { kind: 4, rotation: 0, x: HEIGHT as i8 - 3, y: 4 };
    assert!(!game.move_piece_down());
    assert_eq!(game.curr_piece.x, HEIGHT as i8 - 3);
}
