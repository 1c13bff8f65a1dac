//! The engine's vocabulary: scene kinds and actions, input events and key
//! codes, sound switch, and the list of games.
use vstd::prelude::*;

verus! {

#[derive(Clone, Copy, Debug, PartialEq, Eq, Structural)]
pub enum SceneType {
    Splash,
    MainMenu,
    Game,
    Settings,
    Achievements,
    Leaderboard,
    Exit,
}

#[derive(Clone, Copy, Debug, PartialEq, Eq, Structural)]
pub enum SceneAction {
    Enter,
    Exit,
    Pause,
    Resume,
}

#[derive(Clone, Copy, Debug, PartialEq, Eq, Structural)]
pub enum GameAction {
    Start,
    Stop,
    Pause,
    Resume,
    Score,
    GameOver,
    LevelUp,
}

/// The easing curves an animation can follow.
#[derive(Clone, Copy, Debug, PartialEq, Eq, Structural)]
pub enum Easing {
    Linear,
    EaseOutQuad,
    EaseInOutQuad,
    EaseOutElastic,
    EaseOutBounce,
}

/// What one poll of the terminal gives: a key with its code and character,
/// a new size, or nothing.
#[derive(Clone, Copy, Debug, PartialEq, Eq, Structural)]
pub enum InputEvent {
    Key(i32, char),
    Resize(u16, u16),
    Nothing,
}

/// A key as the terminal reports it.
#[derive(Clone, Copy, Debug, PartialEq, Eq, Structural)]
pub enum Key {
    Up,
    Down,
    Left,
    Right,
    Enter,
    Esc,
    Backspace,
    Tab,
    BackTab,
    Delete,
    Home,
    End,
    PageUp,
    PageDown,
    /// A function key, `F(1)` for F1.
    F(u8),
    Char(char),
    /// Any key without a code of its own.
    Other,
}

/// The code and character of a key: browser-style codes for arrows and the
/// like (38 up, 40 down, 37 left, 39 right, 10 Enter, 27 Esc, 8 Backspace, 9
/// Tab, 127 Delete, 36 Home, 35 End, 33 and 34 Page Up and Down), 111 + n for
/// Fn, a character's own code point, and -1 for anything else.
pub open spec fn key_spec(k: Key) -> (i32, char) {
    match k {
        Key::Up => (38, '\0'),
        Key::Down => (40, '\0'),
        Key::Left => (37, '\0'),
        Key::Right => (39, '\0'),
        Key::Enter => (10, '\n'),
        Key::Esc => (27, '\0'),
        Key::Backspace => (8, '\0'),
        Key::Tab => (9, '\t'),
        Key::BackTab => (9, '\t'),
        Key::Delete => (127, '\0'),
        Key::Home => (36, '\0'),
        Key::End => (35, '\0'),
        Key::PageUp => (33, '\0'),
        Key::PageDown => (34, '\0'),
        Key::F(n) => ((111 + n) as i32, '\0'),
        Key::Char(c) => (c as i32, c),
        Key::Other => (-1i32, '\0'),
    }
}

/// See `key_spec`.
pub fn key_code(k: Key) -> (r: (i32, char))
    ensures
        r == key_spec(k),
{
    match k {
        Key::Up => (38, '\0'),
        Key::Down => (40, '\0'),
        Key::Left => (37, '\0'),
        Key::Right => (39, '\0'),
        Key::Enter => (10, '\n'),
        Key::Esc => (27, '\0'),
        Key::Backspace => (8, '\0'),
        Key::Tab => (9, '\t'),
        Key::BackTab => (9, '\t'),
        Key::Delete => (127, '\0'),
        Key::Home => (36, '\0'),
        Key::End => (35, '\0'),
        Key::PageUp => (33, '\0'),
        Key::PageDown => (34, '\0'),
        Key::F(n) => (111 + n as i32, '\0'),
        Key::Char(c) => (c as i32, c),
        Key::Other => (-1, '\0'),
    }
}

pub struct AudioManager {
    pub enabled: bool,
}

impl AudioManager {
    /// Sound on.
    pub fn new() -> (a: Self)
        ensures
            a.enabled,
    {
        AudioManager { enabled: true }
    }
}

/// The number of games.
pub const GAME_COUNT: usize = 8;

/// The id and display name of game `i`, in menu order.
pub open spec fn game_entry(i: int) -> (Seq<char>, Seq<char>) {
    if i == 0 {
        ("pong"@, "Pong"@)
    } else if i == 1 {
        ("snake"@, "Snake"@)
    } else if i == 2 {
        ("chess"@, "Chess"@)
    } else if i == 3 {
        ("tetris"@, "Tetris"@)
    } else if i == 4 {
        ("breakout"@, "Breakout"@)
    } else if i == 5 {
        ("minesweeper"@, "Minesweeper"@)
    } else if i == 6 {
        ("sudoku"@, "Sudoku"@)
    } else {
        ("2048"@, "2048"@)
    }
}

pub struct GameRegistry {
    /// Id and display name of each game, in menu order.
    pub games: Vec<(&'static str, &'static str)>,
}

impl GameRegistry {
    /// The eight games.
    pub fn new() -> (r: Self)
        ensures
            r.games@.len() == GAME_COUNT,
            forall|i: int|
                0 <= i < GAME_COUNT ==> (#[trigger] r.games@[i]).0@ == game_entry(i).0 && r.games@[i].1@
                    == game_entry(i).1,
    {
        let games = vec![
            ("pong", "Pong"),
            ("snake", "Snake"),
            ("chess", "Chess"),
            ("tetris", "Tetris"),
            ("breakout", "Breakout"),
            ("minesweeper", "Minesweeper"),
            ("sudoku", "Sudoku"),
            ("2048", "2048"),
        ];
        GameRegistry { games }
    }
}

} // verus!
