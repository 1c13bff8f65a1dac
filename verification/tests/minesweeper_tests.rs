use retrohub::minesweeper::{diff_label, MinesweeperGame, MINE};

fn count_mines(g: &MinesweeperGame) -> usize {
    let mut n = 0;
    for y in 0..g.height as usize {
        for x in 0..g.width as usize {
            if g.grid[y][x] == MINE {
                n += 1;
            }
        }
    }
    n
}

#[test]
fn new_game_is_baby_size() {
    let g = MinesweeperGame::new();
    assert_eq!((g.width, g.height, g.mines), (6, 6, 4));
    assert!(g.first_click);
    assert_eq!(g.id(), "minesweeper");
    assert_eq!(diff_label(0), "Baby");
    assert_eq!(diff_label(4), "Expert");
}

#[test]
fn sizes_for_terminals() {
    let mut g = MinesweeperGame::new();
    g.diff = 4;
    assert_eq!(g.calc_size(80, 24), (24, 20, 99));
    assert_eq!(g.calc_size(30, 12), (14, 8, 56));
    assert_eq!(g.calc_size(0, 0), (4, 4, 1));
    g.diff = 2;
    g.set_terminal_size(100, 40);
    assert_eq!((g.width, g.height, g.mines), (10, 10, 15));
}

#[test]
fn first_dig_places_mines_away_from_the_cursor() {
    for _ in 0..20 {
        let mut g = MinesweeperGame::new();
        g.init();
        g.cursor_x = 2;
        g.cursor_y = 2;
        g.handle_key(10, '\n');
        assert!(!g.first_click);
        assert!(g.timer_running || g.won);
        assert_eq!(count_mines(&g), 4);
        for y in 1..=3 {
            for x in 1..=3 {
                assert_ne!(g.grid[y][x], MINE);
            }
        }
        assert!(!(g.game_over && !g.won));
        assert!(g.revealed[2][2]);
        // counts are right
        for y in 0..6i32 {
            for x in 0..6i32 {
                if g.grid[y as usize][x as usize] != MINE {
                    let mut n = 0;
                    for dy in -1..=1 {
                        for dx in -1..=1 {
                            let (nx, ny) = (x + dx, y + dy);
                            if (dx, dy) != (0, 0) && nx >= 0 && ny >= 0 && nx < 6 && ny < 6
                                && g.grid[ny as usize][nx as usize] == MINE
                            {
                                n += 1;
                            }
                        }
                    }
                    assert_eq!(g.grid[y as usize][x as usize], n);
                }
            }
        }
    }
}

fn fixed_game() -> MinesweeperGame {
    // 4x4 field, one mine in the corner (3, 3).
    let mut g = MinesweeperGame::new();
    g.width = 4;
    g.height = 4;
    g.mines = 1;
    g.first_click = false;
    g.grid[3][3] = MINE;
    g.grid[2][2] = 1;
    g.grid[2][3] = 1;
    g.grid[3][2] = 1;
    g
}

#[test]
fn digging_a_zero_opens_the_region() {
    let mut g = fixed_game();
    g.handle_key(10, '\n');
    let opened = (0..4).flat_map(|y| (0..4).map(move |x| (x, y))).filter(|&(x, y)| g.revealed[y][x]).count();
    assert_eq!(opened, 15);
    assert!(!g.revealed[3][3]);
    assert!(g.won);
    assert!(g.game_over);
    assert!(g.flagged[3][3]);
}

#[test]
fn digging_a_mine_loses() {
    let mut g = fixed_game();
    g.cursor_x = 3;
    g.cursor_y = 3;
    g.handle_key(32, ' ');
    assert!(g.game_over);
    assert!(!g.won);
    // after the end, a dig starts a new round
    g.handle_key(10, '\n');
    assert!(!g.game_over);
    assert!(g.first_click);
}

#[test]
fn flags_toggle_and_block_digging() {
    let mut g = fixed_game();
    g.handle_key(102, 'f');
    assert!(g.flag_mode);
    g.handle_key(10, '\n');
    assert!(g.flagged[0][0]);
    g.handle_key(102, 'f');
    g.handle_key(10, '\n');
    assert!(!g.revealed[0][0]);
    g.handle_key(102, 'f');
    g.handle_key(10, '\n');
    assert!(!g.flagged[0][0]);
}

#[test]
fn flags_on_all_mines_win() {
    let mut g = fixed_game();
    g.cursor_x = 3;
    g.cursor_y = 3;
    g.flag_mode = true;
    g.handle_key(10, '\n');
    assert!(g.won);
}

#[test]
fn chord_opens_neighbours_when_flags_match() {
    let mut g = fixed_game();
    g.revealed[2][2] = true;
    g.flagged[3][3] = true;
    g.cursor_x = 2;
    g.cursor_y = 2;
    g.handle_key(10, '\n');
    assert!(g.revealed[1][1]);
    assert!(g.revealed[2][3]);
    assert!(!g.revealed[3][3]);
}

#[test]
fn cursor_stays_on_the_field() {
    let mut g = fixed_game();
    g.handle_key(38, '\0');
    g.handle_key(37, '\0');
    assert_eq!((g.cursor_x, g.cursor_y), (0, 0));
    for _ in 0..10 {
        g.handle_key(39, '\0');
        g.handle_key(40, '\0');
    }
    assert_eq!((g.cursor_x, g.cursor_y), (3, 3));
}

#[test]
fn difficulty_keys() {
    let mut g = MinesweeperGame::new();
    g.handle_key(51, '3');
    assert_eq!(g.diff, 2);
    assert_eq!((g.width, g.height, g.mines), (10, 10, 15));
    assert!(g.first_click);
    g.handle_key(53, '5');
    assert_eq!((g.width, g.height, g.mines), (24, 20, 99));
}

#[test]
fn room_for_the_mines_around_the_first_dig() {
    let mut g = MinesweeperGame::new();
    g.diff = 4;
    g.set_terminal_size(10, 8);
    assert_eq!((g.width, g.height, g.mines), (4, 4, 8));
    g.init();
    g.cursor_x = 1;
    g.cursor_y = 1;
    // 16 cells, 9 kept clear around the cursor: 7 left for 8 mines.
    assert!(!g.mine_room());
    g.cursor_x = 0;
    g.cursor_y = 0;
    // In a corner only 4 cells are kept clear: 12 left.
    assert!(g.mine_room());
    g.handle_key(10, '\n');
    assert_eq!(count_mines(&g), 8);
}
