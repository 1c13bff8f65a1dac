//! Game logic of a terminal arcade: chess, 2048, Tetris, Minesweeper, Sudoku,
//! Snake and Breakout rules, and the managers and menus around them.
pub mod rng;
pub mod chess_rules;
pub mod chess_search;
pub mod chess;
pub mod game2048;
pub mod tetris;
pub mod minesweeper;
pub mod sudoku;
pub mod snake;
pub mod store;
pub mod settings;
pub mod save;
pub mod resources;
pub mod achievements;
pub mod leaderboard;
pub mod theme;
pub mod engine;
pub mod layout;
pub mod menu;
pub mod breakout;
pub mod pong;
pub mod nav;
pub mod chess_minimax;
pub mod chess_laws;
