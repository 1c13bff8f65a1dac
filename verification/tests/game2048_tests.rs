use retrohub::game2048::Game2048;

fn game_with(grid: [[u16; 4]; 4]) -> Game2048 {
    let mut g = Game2048::new();
    g.grid = grid;
    g.score = 0;
    g.best_tile = 0;
    g.won = false;
    g.game_over = false;
    g.keep_playing = false;
    g.has_undo = false;
    g
}

fn tiles(g: &Game2048) -> u32 {
    g.grid.iter().flatten().map(|&t| t as u32).sum()
}

#[test]
fn new_game_has_two_tiles() {
    let g = Game2048::new();
    let n = g.grid.iter().flatten().filter(|&&t| t != 0).count();
    assert_eq!(n, 2);
    for &t in g.grid.iter().flatten() {
        assert!(t == 0 || t == 2 || t == 4);
    }
    assert_eq!(g.id(), "2048");
}

#[test]
fn slide_left_merges_pairs() {
    let mut g = game_with([[2, 2, 2, 2], [0, 0, 0, 2], [4, 0, 4, 8], [0, 0, 0, 0]]);
    let moved = g.slide_left();
    assert!(moved);
    assert_eq!(g.grid[0], [4, 4, 0, 0]);
    assert_eq!(g.grid[1], [2, 0, 0, 0]);
    assert_eq!(g.grid[2], [8, 8, 0, 0]);
    assert_eq!(g.score, 4 + 4 + 8);
    assert_eq!(g.best_tile, 8);
}

#[test]
fn merged_tile_does_not_merge_again_in_the_same_slide() {
    let mut g = game_with([[2, 2, 4, 0], [0; 4], [0; 4], [0; 4]]);
    assert!(g.slide_left());
    assert_eq!(g.grid, [[4, 4, 0, 0], [0; 4], [0; 4], [0; 4]]);
    assert_eq!(g.score, 4);
    let mut h = game_with([[2, 2, 2, 2], [4, 4, 8, 0], [0; 4], [0; 4]]);
    assert!(h.slide_left());
    assert_eq!(h.grid[0], [4, 4, 0, 0]);
    assert_eq!(h.grid[1], [8, 8, 0, 0]);
    assert_eq!(h.score, 4 + 4 + 8);
}

#[test]
fn slide_keeps_tile_sum() {
    let mut g = game_with([[2, 2, 4, 8], [16, 16, 2, 0], [0, 2, 0, 2], [4, 4, 4, 4]]);
    let before = tiles(&g);
    g.slide_left();
    assert_eq!(tiles(&g), before);
    g.slide_up();
    assert_eq!(tiles(&g), before);
}

#[test]
fn blocked_slide_does_not_move() {
    let mut g = game_with([[2, 4, 0, 0], [0; 4], [0; 4], [0; 4]]);
    assert!(!g.slide_left());
    assert_eq!(g.grid[0], [2, 4, 0, 0]);
}

#[test]
fn other_directions() {
    let mut g = game_with([[2, 2, 0, 0], [0; 4], [0; 4], [2, 0, 0, 0]]);
    assert!(g.slide_right());
    assert_eq!(g.grid[0], [0, 0, 0, 4]);
    assert_eq!(g.grid[3], [0, 0, 0, 2]);
    assert!(g.slide_down());
    assert_eq!(g.grid[3][3], 2);
    assert_eq!(g.grid[2][3], 4);
    assert_eq!(g.grid[0][3], 0);
    let mut h = game_with([[0; 4], [0; 4], [2, 0, 0, 0], [2, 0, 0, 0]]);
    assert!(h.slide_up());
    assert_eq!(h.grid[0][0], 4);
}

#[test]
fn four_rotations_give_the_grid_back() {
    let grid = [[2, 4, 8, 16], [32, 64, 0, 2], [0, 0, 4, 0], [8, 0, 0, 2]];
    let mut g = game_with(grid);
    g.rotate_cw();
    assert_eq!(g.grid[0], [8, 0, 32, 2]);
    g.rotate_cw();
    g.rotate_cw();
    g.rotate_cw();
    assert_eq!(g.grid, grid);
}

#[test]
fn can_move_detects_dead_grid() {
    let g = game_with([[2, 4, 2, 4], [4, 2, 4, 2], [2, 4, 2, 4], [4, 2, 4, 2]]);
    assert!(!g.can_move());
    let h = game_with([[2, 4, 2, 4], [4, 2, 4, 2], [2, 4, 2, 4], [4, 2, 4, 4]]);
    assert!(h.can_move());
}

#[test]
fn spawn_at_chosen_cell() {
    let mut g = game_with([[2, 0, 0, 0], [0; 4], [0; 4], [0; 4]]);
    g.spawn_tile_at(0, true);
    assert_eq!(g.grid[0], [2, 2, 0, 0]);
    g.spawn_tile_at(2, false);
    assert_eq!(g.grid[1], [4, 0, 0, 0]);
}

#[test]
fn spawn_tile_fills_one_empty_cell() {
    let mut g = game_with([[2, 0, 0, 0], [0; 4], [0; 4], [0; 4]]);
    g.spawn_tile();
    let n = g.grid.iter().flatten().filter(|&&t| t != 0).count();
    assert_eq!(n, 2);
    assert_eq!(g.grid[0][0], 2);
}

#[test]
fn undo_restores_grid_and_score() {
    let grid = [[2, 2, 0, 0], [0; 4], [0; 4], [0; 4]];
    let mut g = game_with(grid);
    g.handle_key(37, '\0');
    assert_eq!(g.score, 4);
    assert!(g.has_undo);
    g.handle_key(117, 'u');
    assert_eq!(g.grid, grid);
    assert_eq!(g.score, 0);
    assert!(!g.has_undo);
    g.handle_key(117, 'u');
    assert_eq!(g.grid, grid);
}

#[test]
fn reaching_2048_wins_and_space_keeps_playing() {
    let mut g = game_with([[1024, 1024, 0, 0], [0; 4], [0; 4], [0; 4]]);
    g.handle_key(37, '\0');
    assert!(g.won);
    assert_eq!(g.best_tile, 2048);
    g.handle_key(32, ' ');
    assert!(g.keep_playing);
}

#[test]
fn restart_key() {
    let mut g = game_with([[1024, 1024, 0, 0], [0; 4], [0; 4], [0; 4]]);
    g.score = 500;
    g.handle_key(114, 'r');
    assert_eq!(g.score, 0);
    assert!(!g.game_over);
    assert!(!g.has_undo);
    assert!(g.slide_fits(37) && g.slide_fits(38) && g.slide_fits(39) && g.slide_fits(40));
}

#[test]
fn r_restarts_with_two_fresh_tiles() {
    let mut g = game_with([[1024, 1024, 0, 0], [2, 4, 8, 16], [0, 0, 0, 0], [0, 0, 0, 2]]);
    g.handle_key(37, '\0');
    assert!(g.won);
    assert!(g.has_undo);
    g.high_score = 5000;
    g.handle_key(114, 'r');
    let n = g.grid.iter().flatten().filter(|&&t| t != 0).count();
    assert_eq!(n, 2);
    for &t in g.grid.iter().flatten() {
        assert!(t == 0 || t == 2 || t == 4);
    }
    assert_eq!(g.score, 0);
    assert_eq!(g.best_tile, 0);
    assert!(!g.won && !g.keep_playing && !g.game_over && !g.has_undo);
    assert_eq!(g.high_score, 5000);
}

#[test]
fn right_slide_is_the_mirrored_left_slide() {
    let grid = [[2, 2, 4, 0], [0, 8, 8, 8], [16, 0, 0, 16], [2, 4, 2, 4]];
    let mut mirrored = grid;
    for row in mirrored.iter_mut() {
        row.reverse();
    }
    let mut a = game_with(grid);
    let mut b = game_with(mirrored);
    let ma = a.slide_right();
    let mb = b.slide_left();
    assert_eq!(ma, mb);
    let mut back = b.grid;
    for row in back.iter_mut() {
        row.reverse();
    }
    assert_eq!(a.grid, back);
    assert_eq!(a.grid, [[0, 0, 4, 4], [0, 0, 8, 16], [0, 0, 0, 32], [2, 4, 2, 4]]);
    assert_eq!((a.score, a.best_tile, a.won), (b.score, b.best_tile, b.won));
    assert_eq!(a.score, 4 + 16 + 32);
}

#[test]
fn can_move_exactly_when_some_slide_moves() {
    let stuck = [[2, 4, 2, 4], [4, 2, 4, 2], [2, 4, 2, 4], [4, 2, 4, 2]];
    let g = game_with(stuck);
    assert!(!g.can_move());
    let mut l = game_with(stuck);
    let mut r = game_with(stuck);
    let mut u = game_with(stuck);
    let mut d = game_with(stuck);
    assert!(!l.slide_left() && !r.slide_right() && !u.slide_up() && !d.slide_down());

    let pair = [[2, 4, 2, 4], [4, 2, 4, 2], [2, 4, 2, 4], [4, 2, 8, 8]];
    let g = game_with(pair);
    assert!(g.can_move());
    let mut l = game_with(pair);
    let mut u = game_with(pair);
    assert!(l.slide_left());
    assert!(!u.slide_up());
}

#[test]
fn big_tiles_block_only_the_overflowing_merge() {
    let mut g = game_with([[32768, 32768, 0, 0], [2, 0, 0, 0], [0; 4], [0; 4]]);
    assert!(!g.slide_fits(37));
    assert!(!g.slide_fits(39));
    assert!(g.slide_fits(38));
    assert!(g.slide_fits(40));
    g.handle_key(40, '\0');
    assert_eq!((g.grid[2][0], g.grid[3][0]), (32768, 2));
    assert_eq!(g.grid[3][1], 32768);
    let mut h = game_with([[16384, 16384, 0, 0], [0; 4], [0; 4], [0; 4]]);
    assert!(h.slide_fits(37));
    h.handle_key(37, '\0');
    assert_eq!(h.grid[0][0], 32768);
    assert_eq!(h.score, 32768);
}

#[test]
fn the_score_must_stay_an_i32() {
    let mut g = game_with([[2, 2, 0, 0], [0; 4], [0; 4], [0; 4]]);
    g.score = i32::MAX - 4;
    assert!(g.slide_fits(37));
    g.score = i32::MAX - 3;
    assert!(!g.slide_fits(37));
    assert!(g.slide_fits(38));
    g.handle_key(38, '\0');
    assert_eq!(g.score, i32::MAX - 3);
}
