use retrohub::snake::SnakeGame;

fn started() -> SnakeGame {
    let mut g = SnakeGame::new();
    g.set_terminal_size(40, 20);
    g.init();
    g
}

#[test]
fn reset_puts_snake_in_the_middle() {
    let g = started();
    assert_eq!(g.snake, vec![(20, 10), (19, 10), (18, 10)]);
    assert_eq!(g.dir, (1, 0));
    assert_eq!(g.score, 0);
    assert_eq!(g.level, 1);
    let (fx, fy) = g.food;
    assert!(fx >= 1 && fx <= 38 && fy >= 1 && fy <= 18);
    assert!(!g.snake.contains(&g.food));
    assert_eq!(g.id(), "snake");
}

#[test]
fn minimum_field() {
    let mut g = SnakeGame::new();
    g.set_terminal_size(3, 4);
    assert_eq!((g.w, g.h), (16, 10));
}

#[test]
fn moving_keeps_length() {
    let mut g = started();
    g.food = (1, 1);
    let ate = g.step();
    assert!(!ate);
    assert_eq!(g.snake, vec![(21, 10), (20, 10), (19, 10)]);
}

#[test]
fn eating_grows_and_scores() {
    let mut g = started();
    g.food = (21, 10);
    let ate = g.step();
    assert!(ate);
    assert_eq!(g.snake.len(), 4);
    assert_eq!(g.snake[0], (21, 10));
    assert_eq!(g.score, 10);
    assert_eq!(g.level, 2);
    assert!(!g.snake.contains(&g.food));
}

#[test]
fn no_reversal_and_turning() {
    let mut g = started();
    g.food = (1, 1);
    g.handle_key(37, '\0');
    assert_eq!(g.next_dir, (1, 0));
    g.handle_key(38, '\0');
    assert_eq!(g.next_dir, (0, -1));
    g.step();
    assert_eq!(g.snake[0], (20, 9));
    assert_eq!(g.dir, (0, -1));
}

#[test]
fn wall_ends_the_game() {
    let mut g = started();
    g.food = (1, 1);
    g.handle_key(38, '\0');
    for _ in 0..10 {
        g.step();
    }
    assert!(!g.game_over);
    g.step();
    assert!(g.game_over);
    let len = g.snake.len();
    g.step();
    assert_eq!(g.snake.len(), len);
    g.handle_key(32, ' ');
    assert!(!g.game_over);
    assert_eq!(g.snake.len(), 3);
}

#[test]
fn running_into_itself_ends_the_game() {
    let mut g = started();
    g.snake = vec![(10, 10), (11, 10), (11, 11), (10, 11), (9, 11)];
    g.dir = (0, 1);
    g.next_dir = (0, 1);
    g.food = (1, 1);
    g.step();
    assert!(g.game_over);
}

#[test]
fn pause_stops_moves() {
    let mut g = started();
    g.handle_key(32, ' ');
    assert!(g.paused);
    let before = g.snake.clone();
    assert!(!g.step());
    assert_eq!(g.snake, before);
}

#[test]
fn food_fills_the_last_free_cell() {
    let mut g = SnakeGame::new();
    g.init();
    // cover every inner cell but (5, 5)
    let mut body = Vec::new();
    for y in 1..=22u16 {
        for x in 1..=78u16 {
            if (x, y) != (5, 5) {
                body.push((x, y));
            }
        }
    }
    g.snake = body;
    g.spawn_food();
    assert_eq!(g.food, (5, 5));
    assert!(!g.game_over);
    g.snake.push((5, 5));
    g.spawn_food();
    assert!(g.game_over);
}

#[test]
fn lowercase_wasd_steers() {
    let mut g = started();
    assert_eq!(g.dir, (1, 0));
    g.handle_key(119, 'w');
    assert_eq!(g.next_dir, (0, -1));
    g.handle_key(115, 's');
    assert_eq!(g.next_dir, (0, 1));
    g.handle_key(97, 'a');
    assert_eq!(g.next_dir, (0, 1));
    g.handle_key(100, 'd');
    assert_eq!(g.next_dir, (1, 0));
}
