use retrohub::tetris::{
    base_shape, clear_lines, collides, get_rotated, ghost_y, line_score, lock_piece, rotated_cells, Piece, TetrisGame, Well,
};

#[test]
fn shapes() {
    let i = base_shape(1);
    assert_eq!(i[1], [true, true, true, true]);
    let o = base_shape(2);
    assert_eq!(o[1], [false, true, true, false]);
    assert_eq!(o[2], [false, true, true, false]);
}

#[test]
fn rotation_four_times_is_identity() {
    for t in 1..=7u8 {
        let c = base_shape(t);
        let r = rotated_cells(&rotated_cells(&rotated_cells(&rotated_cells(&c))));
        assert_eq!(r, c);
        assert_eq!(get_rotated(&c, 4), c);
        assert_eq!(get_rotated(&c, 1), rotated_cells(&c));
    }
    let i = base_shape(1);
    let r = rotated_cells(&i);
    assert_eq!(r[0], [false, false, true, false]);
}

#[test]
fn collisions_with_walls_floor_and_blocks() {
    let mut grid: Well = [[0; 10]; 20];
    let i = base_shape(1);
    assert!(!collides(&grid, &i, 0, 0));
    assert!(collides(&grid, &i, -1, 0));
    assert!(collides(&grid, &i, 7, 0));
    assert!(!collides(&grid, &i, 6, 0));
    assert!(collides(&grid, &i, 0, 19));
    assert!(!collides(&grid, &i, 0, 18));
    grid[5][2] = 3;
    assert!(collides(&grid, &i, 0, 4));
}

#[test]
fn ghost_drops_to_floor() {
    let grid: Well = [[0; 10]; 20];
    let i = base_shape(1);
    assert_eq!(ghost_y(&grid, &i, 3, 0), 18);
}

#[test]
fn clearing_full_rows() {
    let mut grid: Well = [[0; 10]; 20];
    grid[19] = [1; 10];
    grid[18] = [1, 1, 1, 1, 1, 0, 1, 1, 1, 1];
    grid[17] = [2; 10];
    let n = clear_lines(&mut grid);
    assert_eq!(n, 2);
    assert_eq!(grid[19], [1, 1, 1, 1, 1, 0, 1, 1, 1, 1]);
    assert_eq!(grid[18], [0; 10]);
    for row in grid.iter() {
        assert!(row.iter().any(|&c| c == 0));
    }
}

#[test]
fn locking_writes_the_type() {
    let mut grid: Well = [[0; 10]; 20];
    let p = Piece { typ: 2, rotation: 0, x: 0, y: 18, cells: base_shape(2) };
    lock_piece(&mut grid, &p);
    assert_eq!(grid[19][1], 2);
    assert_eq!(grid[19][2], 2);
    assert_eq!(grid[19][0], 0);
}

#[test]
fn line_scores() {
    assert_eq!(line_score(1, 1), 100);
    assert_eq!(line_score(2, 1), 300);
    assert_eq!(line_score(3, 2), 1000);
    assert_eq!(line_score(4, 3), 2400);
    assert_eq!(line_score(0, 5), 0);
}

#[test]
fn new_game_and_hard_drop() {
    let mut g = TetrisGame::new();
    g.init();
    assert_eq!(g.id(), "tetris");
    assert!(!g.game_over);
    assert_eq!(g.score, 0);
    assert_eq!(g.level, 1);
    assert!(g.current.typ >= 1 && g.current.typ <= 7);
    let filled_before: usize = g.grid.iter().flatten().filter(|&&c| c != 0).count();
    assert_eq!(filled_before, 0);
    g.handle_key(32, ' ');
    let filled: usize = g.grid.iter().flatten().filter(|&&c| c != 0).count();
    assert_eq!(filled, 4);
    assert!(g.score >= 2 * 16);
}

#[test]
fn pause_and_hold() {
    let mut g = TetrisGame::new();
    g.init();
    g.handle_key(80, 'p');
    assert!(g.paused);
    let x = g.current.x;
    g.handle_key(37, '\0');
    assert_eq!(g.current.x, x);
    g.handle_key(80, 'p');
    assert!(!g.paused);
    let t = g.current.typ;
    g.handle_key(67, 'c');
    assert_eq!(g.held, Some(t));
    assert!(g.hold_used);
}

#[test]
fn hold_swaps_with_the_held_piece() {
    let mut g = TetrisGame::new();
    let first = g.current.typ;
    let next = g.next_queue[0].typ;
    g.handle_key(67, 'c');
    assert_eq!(g.held, Some(first));
    assert_eq!(g.current.typ, next);
    assert_eq!((g.current.x, g.current.y, g.current.rotation), (3, 0, 0));
    g.handle_key(67, 'c');
    assert_eq!(g.held, Some(first));
    assert_eq!(g.current.typ, next);
    g.handle_key(32, ' ');
    assert!(!g.hold_used);
    let after_drop = g.current.typ;
    g.handle_key(67, 'C');
    assert_eq!(g.held, Some(after_drop));
    assert_eq!(g.current.typ, first);
    assert_eq!(g.current.cells, base_shape(first));
    assert_eq!((g.current.x, g.current.y, g.current.rotation), (3, 0, 0));
}

#[test]
fn hard_drop_brings_in_the_next_piece() {
    let mut g = TetrisGame::new();
    let next = g.next_queue[0].typ;
    let second = g.next_queue[1].typ;
    g.handle_key(32, ' ');
    assert_eq!(g.current.typ, next);
    assert_eq!(g.next_queue[0].typ, second);
    assert_eq!((g.current.x, g.current.y, g.current.rotation), (3, 0, 0));
    assert_eq!(g.current.cells, base_shape(next));
    assert!(!g.game_over);
}

#[test]
fn counters_may_run_up_to_the_i32_limit() {
    let mut g = TetrisGame::new();
    g.score = i32::MAX - 1;
    assert!(g.key_room(40, '\0'));
    g.handle_key(40, '\0');
    assert_eq!(g.score, i32::MAX);
    assert!(!g.key_room(40, '\0'));
    assert!(!g.key_room(32, ' '));
    assert!(g.key_room(37, '\0'));
    assert!(g.tick_room());
    let mut h = TetrisGame::new();
    h.score = 2_000_000_000;
    h.lines = 500_000_000;
    h.level = 1;
    assert!(h.key_room(32, ' '));
    h.handle_key(32, ' ');
    assert!(h.score > 2_000_000_000);
}
