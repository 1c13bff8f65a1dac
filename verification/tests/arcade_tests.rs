use retrohub::breakout::{BreakoutGame, SpaceAction, PADDLE_NORMAL, PADDLE_WIDE};
use retrohub::pong::PongGame;

fn breakout() -> BreakoutGame {
    let mut g = BreakoutGame::new();
    g.set_terminal_size(40, 20);
    g.init();
    g
}

#[test]
fn breakout_init_builds_the_wall() {
    let g = breakout();
    assert_eq!(g.brick_rows, 4);
    assert_eq!(g.brick_cols, 19);
    assert_eq!(g.bricks.len(), 4);
    assert!(g.bricks.iter().all(|r| r.len() == 19 && r.iter().all(|&b| b == 1)));
    assert_eq!(g.paddle_x, 17);
    assert_eq!(g.paddle_w, PADDLE_NORMAL);
    assert_eq!(g.paddle_y(), 18);
    assert_eq!((g.lives, g.score, g.level), (3, 0, 1));
    assert_eq!(g.id(), "breakout");
}

#[test]
fn breakout_tables() {
    assert_eq!(BreakoutGame::brick_score(0), 50);
    assert_eq!(BreakoutGame::brick_score(4), 10);
    assert_eq!(BreakoutGame::brick_score(9), 5);
    assert_eq!(BreakoutGame::rows_for_level(1), 4);
    assert_eq!(BreakoutGame::rows_for_level(2), 5);
    assert_eq!(BreakoutGame::rows_for_level(7), 6);
    assert_eq!(BreakoutGame::brick_x(3), 7);
    assert_eq!(BreakoutGame::brick_y(2), 4);
}

#[test]
fn breakout_hitting_a_brick() {
    let mut g = breakout();
    assert_eq!(g.hit_brick(7, 3), Some((1, 3)));
    assert_eq!(g.bricks[1][3], 0);
    assert_eq!(g.score, 40);
    assert_eq!(g.hit_brick(7, 3), None);
    assert_eq!(g.hit_brick(8, 3), None);
    assert_eq!(g.score, 40);
}

#[test]
fn breakout_clearing_and_next_level() {
    let mut g = breakout();
    assert!(!g.all_cleared());
    for row in 0..g.brick_rows {
        for col in 0..g.brick_cols {
            let hit = g.hit_brick(BreakoutGame::brick_x(col), BreakoutGame::brick_y(row));
            assert_eq!(hit, Some((row, col)));
        }
    }
    assert!(g.all_cleared());
    assert_eq!(g.score, 19 * (50 + 40 + 30 + 20));
    g.next_level();
    assert_eq!(g.level, 2);
    assert_eq!(g.brick_rows, 5);
    assert!(!g.all_cleared());
}

#[test]
fn breakout_paddle_and_keys() {
    let mut g = breakout();
    assert!(g.on_paddle(17, 18));
    assert!(g.on_paddle(23, 19));
    assert!(!g.on_paddle(24, 18));
    assert!(!g.on_paddle(20, 17));
    g.handle_key(37, '\0');
    assert_eq!(g.paddle_x, 15);
    g.handle_key(65, 'A');
    assert_eq!(g.paddle_x, 13);
    g.handle_key(68, 'D');
    assert_eq!(g.paddle_x, 15);
    for _ in 0..30 {
        g.handle_key(39, '\0');
    }
    assert_eq!(g.paddle_x, 40 - PADDLE_NORMAL);
    g.widen();
    assert_eq!(g.paddle_w, PADDLE_WIDE);
    assert_eq!(g.paddle_x, 40 - PADDLE_WIDE);
    g.narrow();
    assert_eq!(g.paddle_w, PADDLE_NORMAL);
    assert_eq!(g.handle_key(32, ' '), Some(SpaceAction::Launch));
    assert!(g.ball_launched);
    assert_eq!(g.handle_key(32, ' '), Some(SpaceAction::TogglePause));
    assert!(g.paused);
}

#[test]
fn breakout_lives() {
    let mut g = breakout();
    g.extra_life();
    assert_eq!(g.lives, 4);
    assert!(g.lose_ball());
    assert!(g.lose_ball());
    assert!(g.lose_ball());
    assert!(!g.lose_ball());
    assert!(g.game_over);
    assert_eq!(g.handle_key(32, ' '), Some(SpaceAction::Restart));
    assert_eq!(g.lives, 3);
    assert!(!g.game_over);
}

#[test]
fn pong_match_to_five() {
    let mut g = PongGame::new();
    g.set_terminal_size(10, 5);
    assert_eq!((g.w, g.h), (20, 10));
    g.set_terminal_size(80, 24);
    g.init();
    assert_eq!((g.paddle1_y, g.paddle2_y), (10, 10));
    assert_eq!(g.id(), "pong");
    for _ in 0..4 {
        assert!(g.score_point(false));
    }
    assert!(g.score_point(true));
    assert!(!g.score_point(false));
    assert!(g.game_over);
    assert_eq!((g.score1, g.score2), (5, 1));
    assert!(g.handle_key(32, ' '));
    assert_eq!((g.score1, g.score2), (0, 0));
    assert!(!g.game_over);
}

#[test]
fn pong_paddles_stay_on_the_field() {
    let mut g = PongGame::new();
    g.init();
    for _ in 0..20 {
        g.handle_key(40, '\0');
    }
    assert_eq!(g.paddle1_y, 19);
    for _ in 0..20 {
        g.handle_key(87, 'w');
    }
    assert_eq!(g.paddle1_y, 0);
    g.set_ai_paddle(100);
    assert_eq!(g.paddle2_y, 19);
    g.set_ai_paddle(3);
    assert_eq!(g.paddle2_y, 3);
    assert!(!g.handle_key(32, ' '));
    assert!(g.paused);
}

#[test]
fn pong_lowercase_w_and_s_move_the_paddle() {
    let mut g = PongGame::new();
    g.init();
    let y = g.paddle1_y;
    g.handle_key(119, 'w');
    assert_eq!(g.paddle1_y, y - 2);
    g.handle_key(115, 's');
    g.handle_key(115, 's');
    assert_eq!(g.paddle1_y, y + 2);
    g.handle_key(83, 'S');
    assert_eq!(g.paddle1_y, y + 4);
    g.handle_key(120, 'x');
    assert_eq!(g.paddle1_y, y + 4);
}

#[test]
fn breakout_lowercase_a_and_d_move_the_paddle() {
    let mut g = breakout();
    let x = g.paddle_x;
    assert_eq!(g.handle_key(97, 'a'), None);
    assert_eq!(g.paddle_x, x - 2);
    assert_eq!(g.handle_key(100, 'd'), None);
    assert_eq!(g.handle_key(100, 'd'), None);
    assert_eq!(g.paddle_x, x + 2);
    assert_eq!(g.handle_key(115, 's'), None);
    assert_eq!(g.paddle_x, x + 2);
}
