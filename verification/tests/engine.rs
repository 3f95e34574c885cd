use game2048::{Game, Mode, Piece, Time, UpgradeError};

/// A game whose board holds the given ranks, line by line, with zeroed
/// score, counters and clock.
fn game_from(ranks: [[u8; 4]; 4]) -> Game {
    let mut board: Vec<Piece> = Vec::new();
    for x in 0..4usize {
        for y in 0..4usize {
            board.push(Piece { scale: ranks[x][y], x: x as u8, y: y as u8 });
        }
    }
    Game {
        mode: Mode::Normal,
        board,
        score: 0,
        moves: 0,
        time: Time { hours: 0, minutes: 0, seconds: 0 },
    }
}

fn ranks_of(game: &Game) -> [[u8; 4]; 4] {
    let mut out = [[0u8; 4]; 4];
    for x in 0..4usize {
        for y in 0..4usize {
            out[x][y] = game.board[4 * x + y].scale;
        }
    }
    out
}

fn occupied(game: &Game) -> usize {
    game.board.iter().filter(|p| p.scale != 0).count()
}

#[test]
fn vert_flip_moves_and_relabels_tiles() {
    let mut g = game_from([[7, 0, 0, 0], [0, 5, 0, 0], [0; 4], [0; 4]]);
    g.vert_flip();
    assert_eq!(g.board[3].scale, 7);
    assert_eq!(g.board[3].x, 0);
    assert_eq!(g.board[3].y, 3);
    assert_eq!(g.board[4 + 2].scale, 5);
    assert_eq!(g.board[4 + 2].y, 2);
}

#[test]
fn diag_flip_moves_and_relabels_tiles() {
    let mut g = game_from([[0, 6, 0, 0], [0; 4], [0; 4], [0; 4]]);
    g.diag_flip();
    assert_eq!(g.board[4].scale, 6);
    assert_eq!(g.board[4].x, 1);
    assert_eq!(g.board[4].y, 0);
}

#[test]
fn vert_flip_is_an_involution() {
    let mut g = game_from([[1, 2, 0, 3], [0, 4, 5, 0], [6, 0, 0, 7], [0, 0, 8, 0]]);
    let before = g.board.clone();
    g.vert_flip();
    g.vert_flip();
    assert_eq!(g.board, before);
}

#[test]
fn diag_flip_is_an_involution() {
    let mut g = game_from([[1, 2, 0, 3], [0, 4, 5, 0], [6, 0, 0, 7], [0, 0, 8, 0]]);
    let before = g.board.clone();
    g.diag_flip();
    g.diag_flip();
    assert_eq!(g.board, before);
}

#[test]
fn compress_reaches_a_stable_line() {
    let mut g = game_from([[0, 1, 0, 1], [0; 4], [0; 4], [0; 4]]);
    assert!(g.compressible(0));
    let before = occupied(&g);
    g.compress(0);
    assert_eq!(ranks_of(&g)[0], [2, 0, 0, 0]);
    assert_eq!(g.score, 4);
    assert!(!g.compressible(0));
    assert!(occupied(&g) <= before);
}

#[test]
fn merge_pair_scores_the_merged_value() {
    // ranks 1,1 are tiles 2,2: they merge into 4 and score 4
    let mut g = game_from([[1, 1, 0, 0], [0; 4], [0; 4], [0; 4]]);
    g.up();
    assert_eq!(g.board[0].scale, 2);
    assert_eq!(g.score, 4);
    assert_eq!(g.moves, 1);
    // the merged tile plus exactly one spawned tile of rank 1 or 2
    assert_eq!(occupied(&g), 2);
    let spawned: Vec<&Piece> = g
        .board
        .iter()
        .enumerate()
        .filter(|(i, p)| *i != 0 && p.scale != 0)
        .map(|(_, p)| p)
        .collect();
    assert_eq!(spawned.len(), 1);
    assert!(spawned[0].scale == 1 || spawned[0].scale == 2);
}

#[test]
fn stable_board_makes_the_move_a_no_op() {
    // ranks 1,2,3,4 are tiles 2,4,8,16: nothing can slide or merge
    let g0 = game_from([[1, 2, 3, 4], [0; 4], [0; 4], [0; 4]]);
    let mut g = game_from([[1, 2, 3, 4], [0; 4], [0; 4], [0; 4]]);
    g.up();
    // byte for byte: every piece, stored coordinates included, and no spawn
    assert_eq!(g.board, g0.board);
    assert_eq!(g.score, 0);
    assert_eq!(g.moves, 0);
}

#[test]
fn four_equal_tiles_cascade_into_one() {
    // ranks 1,1,1,1 are tiles 2,2,2,2: two merges to 4,4, then one to 8
    let mut g = game_from([[1, 1, 1, 1], [0; 4], [0; 4], [0; 4]]);
    g.auto_up();
    assert_eq!(ranks_of(&g)[0], [3, 0, 0, 0]);
    assert_eq!(g.score, 4 + 4 + 8);
}

#[test]
fn score_never_decreases_over_moves() {
    let mut g = game_from([[1, 1, 2, 2], [3, 3, 0, 0], [0; 4], [1, 0, 1, 0]]);
    let mut last = g.score;
    for turn in 0..20 {
        match turn % 4 {
            0 => g.up(),
            1 => g.right(),
            2 => g.down(),
            _ => g.left(),
        }
        assert!(g.score >= last);
        last = g.score;
    }
}

#[test]
fn spawner_rejects_a_full_board() {
    let mut ranks = [[0u8; 4]; 4];
    let mut r = 1u8;
    for x in 0..4usize {
        for y in 0..4usize {
            ranks[x][y] = r;
            r += 1;
        }
    }
    let mut g = game_from(ranks);
    let before = g.board.clone();
    let spawned = g.summon();
    assert!(!spawned);
    assert_eq!(g.board, before);
}

#[test]
fn spawner_fills_the_single_empty_cell() {
    let mut ranks = [[0u8; 4]; 4];
    let mut r = 1u8;
    for x in 0..4usize {
        for y in 0..4usize {
            ranks[x][y] = r;
            r += 1;
        }
    }
    ranks[3][3] = 0;
    let mut g = game_from(ranks);
    let spawned = g.summon();
    assert!(spawned);
    let p = g.piece_at(3, 3);
    assert!(p.scale == 1 || p.scale == 2);
    for x in 0..4u8 {
        for y in 0..4u8 {
            if (x, y) != (3, 3) {
                assert_eq!(g.piece_at(x, y).scale, ranks[x as usize][y as usize]);
            }
        }
    }
}

#[test]
fn restart_returns_to_a_fresh_normal_game() {
    let mut g = game_from([[1, 1, 2, 2], [0; 4], [0; 4], [0; 4]]);
    g.up();
    g.time.tick();
    g.switch_mode();
    g.restart();
    assert_eq!(g.score, 0);
    assert_eq!(g.moves, 0);
    assert_eq!(g.time.current(), "0:0:0");
    assert_eq!(occupied(&g), 1);
    assert!(seed_rank(&g) == 1 || seed_rank(&g) == 2);
    assert_eq!(g.mode, Mode::Normal);
}

fn seed_rank(game: &Game) -> u8 {
    game.board.iter().map(|p| p.scale).max().unwrap()
}

#[test]
fn new_games_hold_one_seeded_tile() {
    let g = Game::default();
    assert_eq!(occupied(&g), 1);
    assert!(seed_rank(&g) == 1 || seed_rank(&g) == 2);
    assert_eq!(g.mode, Mode::Normal);
    let r = Game::reverse_default();
    assert_eq!(occupied(&r), 1);
    assert!(seed_rank(&r) == 1 || seed_rank(&r) == 2);
    assert_eq!(r.mode, Mode::Reverse);
}

#[test]
fn switch_mode_seeds_the_other_variant() {
    let mut g = Game::default();
    g.switch_mode();
    assert_eq!(g.mode, Mode::Reverse);
    assert_eq!(occupied(&g), 1);
    assert_eq!(g.score, 0);
    g.switch_mode();
    assert_eq!(g.mode, Mode::Normal);
}

#[test]
fn upgrade_rejects_an_occupied_cell() {
    let mut g = game_from([[0, 3, 0, 0], [0; 4], [0; 4], [0; 4]]);
    let before = g.board.clone();
    let target = g.piece_at(0, 1);
    assert_eq!(g.upgrade(&target), Err(UpgradeError::Occupied));
    assert_eq!(g.board, before);
    assert_eq!(g.score, 0);
}

#[test]
fn upgrade_rejects_coordinates_off_the_board() {
    let mut g = game_from([[0; 4]; 4]);
    let target = Piece { scale: 0, x: 7, y: 0 };
    assert_eq!(g.upgrade(&target), Err(UpgradeError::OutOfBounds));
    assert_eq!(occupied(&g), 0);
}

#[test]
fn upgrade_places_a_tile_and_the_engine_moves_it() {
    let mut g = game_from([[0; 4]; 4]);
    let target = Piece { scale: 0, x: 2, y: 2 };
    assert_eq!(g.upgrade(&target), Ok(()));
    // the placed rank-1 tile is the only tile, moved off the centre cell
    assert_eq!(occupied(&g), 1);
    assert_eq!(g.piece_at(2, 2).scale, 0);
    assert_eq!(g.board.iter().map(|p| p.scale as u32).sum::<u32>(), 1);
    assert_eq!(g.score, 0);
}

#[test]
fn random_move_makes_progress_when_it_can() {
    let mut g = game_from([[0; 4], [0, 0, 5, 0], [0; 4], [0; 4]]);
    g.move_random();
    assert_eq!(g.piece_at(1, 2).scale, 0);
    assert_eq!(occupied(&g), 1);
}

#[test]
fn clock_carries_seconds_into_minutes_and_hours() {
    let mut t = Time { hours: 0, minutes: 0, seconds: 59 };
    t.tick();
    assert_eq!((t.hours, t.minutes, t.seconds), (0, 1, 0));
    let mut u = Time { hours: 0, minutes: 59, seconds: 59 };
    u.tick();
    assert_eq!((u.hours, u.minutes, u.seconds), (1, 0, 0));
    let mut v = Time { hours: 2, minutes: 3, seconds: 4 };
    v.tick();
    assert_eq!(v.current(), "2:3:5");
}

#[test]
fn pieces_show_their_power_of_two() {
    let p = Piece { scale: 5, x: 0, y: 0 };
    assert_eq!(p.as_number(), 32);
    assert_eq!(p.as_string(), "32");
    let e = Piece { scale: 0, x: 1, y: 2 };
    assert_eq!(e.as_number(), 1);
    assert_eq!(e.as_string(), "");
}

#[test]
fn modes_show_their_names() {
    assert_eq!(Mode::Normal.to_string(), "Normal");
    assert_eq!(Mode::Reverse.to_string(), "Reverse");
}

#[test]
fn directional_moves_agree_with_the_canonical_pass() {
    // ranks 1,1 in the first column: moving left merges them at the top
    let mut g = game_from([[1, 0, 0, 0], [1, 0, 0, 0], [0; 4], [0; 4]]);
    g.left();
    assert_eq!(g.piece_at(0, 0).scale, 2);
    assert_eq!(g.score, 4);
    assert_eq!(g.moves, 1);
    assert_eq!(occupied(&g), 2);

    // the same pair moved right gathers at the bottom of the column
    let mut h = game_from([[1, 0, 0, 0], [1, 0, 0, 0], [0; 4], [0; 4]]);
    h.right();
    assert_eq!(h.piece_at(3, 0).scale, 2);
    assert_eq!(h.score, 4);

    // and moved down it gathers at the end of the line
    let mut v = game_from([[1, 1, 0, 0], [0; 4], [0; 4], [0; 4]]);
    v.down();
    assert_eq!(v.piece_at(0, 3).scale, 2);
    assert_eq!(v.score, 4);
}
