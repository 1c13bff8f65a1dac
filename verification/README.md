# retrohub

A terminal arcade — Pong, Snake, Chess, Tetris, Breakout, Minesweeper,
Sudoku and 2048 — whose game rules are a Verus-verified library.

- `src/` is the library: each game's rules (chess move generation and
  search, 2048 slides, Tetris wells, Minesweeper flood fill, the Sudoku
  backtracking solver and generator, Snake moves, the Breakout and Pong
  boards), the settings, save, art, achievement and score tables, themes,
  menus, layout and key codes, and the navigation step (`src/nav.rs`) that
  decides what each key does to the splash, settings, menu and open games.
  `src/chess_minimax.rs` states the plain minimax value and proves that the
  alpha-beta search with its full window computes it. Every function carries a contract that Verus
  proves; the `law_*` proof functions state properties across calls.
  Randomness comes from `rand` through the wrappers in `src/rng.rs`.
- `app/` is the program: the terminal (crossterm, ratatui), the main loop
  that performs what the navigation step decides, drawing, and what runs on a floating-point clock (ball flight, timers,
  animations).
- `tests/` runs the library on concrete games.
