//! Breakout's board: paddle, bricks, lives, score and level. The balls and
//! power-ups move in real time with the caller, which asks the board what a
//! ball's cell hits and tells it what happened.
use vstd::prelude::*;

verus! {

pub const PADDLE_NORMAL: u16 = 7;
pub const PADDLE_WIDE: u16 = 11;
pub const BRICK_TOP: u16 = 2;
pub const BRICK_GAP: u16 = 2;
pub const BRICK_LEFT: u16 = 1;
pub const MAX_BALLS: usize = 10;

/// What Space did.
#[derive(Clone, Copy, Debug, PartialEq, Eq, Structural)]
pub enum SpaceAction {
    /// A new game started: the balls go back on the paddle.
    Restart,
    /// The ball left the paddle: the caller gives it a velocity.
    Launch,
    /// Pause switched.
    TogglePause,
}

pub struct BreakoutGame {
    pub paddle_x: u16,
    pub paddle_w: u16,
    pub ball_launched: bool,
    /// `bricks[row][col]` is 1 while the brick stands.
    pub bricks: Vec<Vec<u8>>,
    pub brick_rows: u16,
    pub brick_cols: u16,
    pub lives: i32,
    pub score: i32,
    pub level: i32,
    pub w: u16,
    pub h: u16,
    pub game_over: bool,
    pub paused: bool,
}

/// Points for a brick of row `row`.
pub open spec fn brick_score_spec(row: int) -> i32 {
    if row == 0 {
        50
    } else if row == 1 {
        40
    } else if row == 2 {
        30
    } else if row == 3 {
        20
    } else if row == 4 {
        10
    } else {
        5
    }
}

/// Brick rows on level `level`.
pub open spec fn rows_for_level_spec(level: int) -> u16 {
    if level == 1 {
        4
    } else if level == 2 {
        5
    } else {
        6
    }
}

/// Brick columns on a field `w` wide: one per two columns inside the walls,
/// at least one.
pub open spec fn cols_for_width(w: int) -> u16 {
    let c = (if w >= 2 {
        w - 2
    } else {
        0
    }) / 2;
    if c == 0 {
        1
    } else {
        c as u16
    }
}

/// The row of screen lines of brick row `row`.
pub open spec fn brick_y_spec(row: int) -> int {
    BRICK_TOP + row
}

/// The screen column of brick column `col`.
pub open spec fn brick_x_spec(col: int) -> int {
    BRICK_LEFT + col * BRICK_GAP
}

impl BreakoutGame {
    /// Size and counts the arithmetic needs: the field at least 20x12, the
    /// paddle on it, the brick grid as wide and tall as its counts.
    pub open spec fn wf(&self) -> bool {
        &&& self.w >= 20 && self.h >= 12
        &&& (self.paddle_w == PADDLE_NORMAL || self.paddle_w == PADDLE_WIDE)
        &&& self.bricks@.len() == self.brick_rows
        &&& self.brick_rows <= 6
        &&& forall|r: int| 0 <= r < self.bricks@.len() ==> (#[trigger] self.bricks@[r])@.len() == self.brick_cols
        &&& self.brick_cols <= 32767
    }

    /// The brick at `(row, col)` stands.
    pub open spec fn live(&self, row: int, col: int) -> bool {
        0 <= row < self.brick_rows && 0 <= col < self.brick_cols && row < self.bricks@.len() && col
            < self.bricks@[row]@.len() && self.bricks@[row]@[col] != 0
    }

    /// A board waiting for `init`: level 1, three lives, an 80x24 field.
    pub fn new() -> (g: Self)
        ensures
            g.paddle_x == 0 && g.paddle_w == PADDLE_NORMAL && !g.ball_launched,
            g.bricks@.len() == 0 && g.brick_rows == 4 && g.brick_cols == 0,
            g.lives == 3 && g.score == 0 && g.level == 1,
            g.w == 80 && g.h == 24,
            !g.game_over && !g.paused,
    {
        BreakoutGame {
            paddle_x: 0,
            paddle_w: PADDLE_NORMAL,
            ball_launched: false,
            bricks: Vec::new(),
            brick_rows: 4,
            brick_cols: 0,
            lives: 3,
            score: 0,
            level: 1,
            w: 80,
            h: 24,
            game_over: false,
            paused: false,
        }
    }

    /// The scene id.
    pub fn id(&self) -> (r: &'static str)
        ensures
            r@ == seq!['b', 'r', 'e', 'a', 'k', 'o', 'u', 't'],
    {
        proof {
            reveal_strlit("breakout");
        }
        "breakout"
    }

    /// The paddle's screen row: two above the bottom.
    pub fn paddle_y(&self) -> (r: u16)
        ensures
            r == if self.h >= 2 {
                self.h - 2
            } else {
                0
            },
    {
        self.h.saturating_sub(2)
    }

    /// See `brick_y_spec`.
    pub fn brick_y(row: u16) -> (r: u16)
        requires
            row <= 65533,
        ensures
            r == brick_y_spec(row as int),
    {
        BRICK_TOP + row
    }

    /// See `brick_x_spec`.
    pub fn brick_x(col: u16) -> (r: u16)
        requires
            col <= 32767,
        ensures
            r == brick_x_spec(col as int),
    {
        BRICK_LEFT + col * BRICK_GAP
    }

    /// See `brick_score_spec`.
    pub fn brick_score(row: u16) -> (r: i32)
        ensures
            r == brick_score_spec(row as int),
    {
        match row {
            0 => 50,
            1 => 40,
            2 => 30,
            3 => 20,
            4 => 10,
            _ => 5,
        }
    }

    /// See `rows_for_level_spec`.
    pub fn rows_for_level(level: i32) -> (r: u16)
        ensures
            r == rows_for_level_spec(level as int),
    {
        match level {
            1 => 4,
            2 => 5,
            _ => 6,
        }
    }

    /// A full wall of bricks for the current level and width.
    pub fn reset_level(&mut self)
        requires
            old(self).w >= 20 && old(self).h >= 12,
            old(self).paddle_w == PADDLE_NORMAL || old(self).paddle_w == PADDLE_WIDE,
        ensures
            final(self).wf(),
            final(self).brick_rows == rows_for_level_spec(old(self).level as int),
            final(self).brick_cols == cols_for_width(old(self).w as int),
            forall|r: int, c: int|
                0 <= r < final(self).brick_rows && 0 <= c < final(self).brick_cols ==> #[trigger] final(self).bricks@[r]@[c]
                    == 1,
            final(self).paddle_x == old(self).paddle_x && final(self).paddle_w == old(self).paddle_w,
            final(self).ball_launched == old(self).ball_launched,
            final(self).lives == old(self).lives && final(self).score == old(self).score,
            final(self).level == old(self).level && final(self).w == old(self).w && final(self).h == old(self).h,
            final(self).game_over == old(self).game_over && final(self).paused == old(self).paused,
    {
        self.brick_rows = Self::rows_for_level(self.level);
        self.brick_cols = (self.w.saturating_sub(2)) / BRICK_GAP;
        if self.brick_cols == 0 {
            self.brick_cols = 1;
        }
        let mut bricks: Vec<Vec<u8>> = Vec::new();
        let mut r: u16 = 0;
        while r < self.brick_rows
            invariant
                r <= self.brick_rows,
                bricks@.len() == r,
                forall|i: int| 0 <= i < r ==> (#[trigger] bricks@[i])@.len() == self.brick_cols,
                forall|i: int, c: int| 0 <= i < r && 0 <= c < self.brick_cols ==> #[trigger] bricks@[i]@[c] == 1,
            decreases self.brick_rows - r,
        {
            let mut row: Vec<u8> = Vec::new();
            let mut c: u16 = 0;
            while c < self.brick_cols
                invariant
                    c <= self.brick_cols,
                    row@.len() == c,
                    forall|j: int| 0 <= j < c ==> #[trigger] row@[j] == 1,
                decreases self.brick_cols - c,
            {
                row.push(1);
                c += 1;
            }
            bricks.push(row);
            r += 1;
        }
        self.bricks = bricks;
    }

    /// Fits the field to a terminal of `w` by `h` cells, at least 20x12.
    pub fn set_terminal_size(&mut self, w: u16, h: u16)
        ensures
            final(self).w == if w >= 20 {
                w
            } else {
                20
            },
            final(self).h == if h >= 12 {
                h
            } else {
                12
            },
            *final(self) == (BreakoutGame { w: final(self).w, h: final(self).h, ..*old(self) }),
    {
        self.w = if w >= 20 {
            w
        } else {
            20
        };
        self.h = if h >= 12 {
            h
        } else {
            12
        };
    }

    /// `f` is this game started over on the same field: the paddle centred
    /// at its normal width, three lives, score 0, level 1, a full wall of
    /// four rows, nothing paused or launched.
    pub open spec fn restart_rel(&self, f: &Self) -> bool {
        &&& f.paddle_x == self.w / 2 - PADDLE_NORMAL / 2
        &&& f.paddle_w == PADDLE_NORMAL
        &&& f.lives == 3 && f.score == 0 && f.level == 1
        &&& !f.game_over && !f.paused && !f.ball_launched
        &&& f.brick_rows == 4 && f.brick_cols == cols_for_width(self.w as int)
        &&& forall|r: int, c: int|
            0 <= r < f.brick_rows && 0 <= c < f.brick_cols ==> #[trigger] f.bricks@[r]@[c] == 1
        &&& f.w == self.w && f.h == self.h
    }

    /// A new game: the normal paddle centred, three lives, score 0, level 1,
    /// a full wall, the ball on the paddle.
    pub fn init(&mut self)
        requires
            old(self).w >= 20 && old(self).h >= 12,
        ensures
            final(self).wf(),
            old(self).restart_rel(&*final(self)),
    {
        self.paddle_x = self.w / 2 - PADDLE_NORMAL / 2;
        self.paddle_w = PADDLE_NORMAL;
        self.lives = 3;
        self.score = 0;
        self.level = 1;
        self.game_over = false;
        self.paused = false;
        self.reset_level();
        self.ball_launched = false;
    }

    /// Whether a ball in cell `(bx, by)` is on the paddle: within its
    /// columns, on or below its row.
    pub fn on_paddle(&self, bx: u16, by: u16) -> (r: bool)
        ensures
            r == (self.paddle_x <= bx < self.paddle_x + self.paddle_w && by >= (if self.h >= 2 {
                self.h - 2
            } else {
                0
            })),
    {
        let py = self.paddle_y();
        bx >= self.paddle_x && (bx as u32) < self.paddle_x as u32 + self.paddle_w as u32 && by >= py
    }

    /// Left and Right (or A and D, either case) move the paddle two columns, within the
    /// field. Space restarts a finished game, launches a ball resting on the
    /// paddle, or else switches pause; it says which.
    pub fn handle_key(&mut self, key: i32, ch: char) -> (action: Option<SpaceAction>)
        requires
            old(self).wf(),
        ensures
            final(self).wf(),
            (key == 37 || key == 65 || key == 97) ==> action is None && final(self).paddle_x == (if old(self).paddle_x >= 2 {
                old(self).paddle_x - 2
            } else {
                0
            }),
            (key == 39 || key == 68 || key == 100) ==> action is None && final(self).paddle_x == (if old(self).paddle_x + 2 <= (
            old(self).w - old(self).paddle_w) {
                old(self).paddle_x + 2
            } else if old(self).w >= old(self).paddle_w {
                old(self).w - old(self).paddle_w
            } else {
                0
            }),
            key == 37 || key == 65 || key == 97 || key == 39 || key == 68 || key == 100 ==> *final(self) == (BreakoutGame {
                paddle_x: final(self).paddle_x,
                ..*old(self)
            }),
            key == 32 && old(self).game_over ==> action == Some(SpaceAction::Restart) && old(self).restart_rel(
                &*final(self),
            ),
            key == 32 && !old(self).game_over && !old(self).ball_launched ==> action == Some(SpaceAction::Launch)
                && *final(self) == (BreakoutGame { ball_launched: true, ..*old(self) }),
            key == 32 && !old(self).game_over && old(self).ball_launched ==> action == Some(
                SpaceAction::TogglePause,
            ) && *final(self) == (BreakoutGame { paused: !old(self).paused, ..*old(self) }),
            key != 37 && key != 65 && key != 97 && key != 39 && key != 68 && key != 100 && key != 32
                ==> action is None && *final(self)
                == *old(self),
    {
        if key == 37 || key == 65 || key == 97 {
            self.paddle_x = self.paddle_x.saturating_sub(2);
            None
        } else if key == 39 || key == 68 || key == 100 {
            let limit = self.w.saturating_sub(self.paddle_w);
            let n = self.paddle_x as u32 + 2;
            self.paddle_x = if n <= limit as u32 {
                n as u16
            } else {
                limit
            };
            None
        } else if key == 32 {
            if self.game_over {
                self.init();
                Some(SpaceAction::Restart)
            } else if !self.ball_launched {
                self.ball_launched = true;
                Some(SpaceAction::Launch)
            } else {
                self.paused = !self.paused;
                Some(SpaceAction::TogglePause)
            }
        } else {
            None
        }
    }

    /// The wide paddle (from a power-up), pulled back onto the field.
    pub fn widen(&mut self)
        requires
            old(self).wf(),
        ensures
            final(self).wf(),
            *final(self) == (BreakoutGame { paddle_w: PADDLE_WIDE, paddle_x: final(self).paddle_x, ..*old(self) }),
            final(self).paddle_x == if old(self).paddle_x + PADDLE_WIDE > old(self).w {
                (old(self).w - PADDLE_WIDE) as u16
            } else {
                old(self).paddle_x
            },
    {
        self.paddle_w = PADDLE_WIDE;
        if self.paddle_x as u32 + self.paddle_w as u32 > self.w as u32 {
            self.paddle_x = self.w.saturating_sub(self.paddle_w);
        }
    }

    /// The normal paddle again (the power-up ran out), pulled back onto the
    /// field.
    pub fn narrow(&mut self)
        requires
            old(self).wf(),
        ensures
            final(self).wf(),
            *final(self) == (BreakoutGame { paddle_w: PADDLE_NORMAL, paddle_x: final(self).paddle_x, ..*old(self) }),
            final(self).paddle_x == if old(self).paddle_x + PADDLE_NORMAL > old(self).w {
                (old(self).w - PADDLE_NORMAL) as u16
            } else {
                old(self).paddle_x
            },
    {
        self.paddle_w = PADDLE_NORMAL;
        if self.paddle_x as u32 + self.paddle_w as u32 > self.w as u32 {
            self.paddle_x = self.w.saturating_sub(self.paddle_w);
        }
    }

    /// One more life (from a power-up).
    pub fn extra_life(&mut self)
        requires
            old(self).lives < i32::MAX,
        ensures
            *final(self) == (BreakoutGame { lives: (old(self).lives + 1) as i32, ..*old(self) }),
    {
        self.lives = self.lives + 1;
    }

    /// Breaks the standing brick drawn at `(bix, biy)`, if there is one, and
    /// scores it; returns its row and column.
    pub fn hit_brick(&mut self, bix: u16, biy: u16) -> (r: Option<(u16, u16)>)
        requires
            old(self).wf(),
            old(self).score <= i32::MAX - 50,
        ensures
            final(self).wf(),
            match r {
                Some((row, col)) => {
                    &&& old(self).live(row as int, col as int)
                    &&& brick_x_spec(col as int) == bix && brick_y_spec(row as int) == biy
                    &&& final(self).score == old(self).score + brick_score_spec(row as int)
                    &&& final(self).bricks@.len() == old(self).bricks@.len()
                    &&& final(self).bricks@[row as int]@ == old(self).bricks@[row as int]@.update(col as int, 0)
                    &&& forall|i: int| 0 <= i < old(self).bricks@.len() && i != row ==> #[trigger] final(self).bricks@[i]
                        == old(self).bricks@[i]
                },
                None => {
                    &&& forall|row: int, col: int|
                        #[trigger] old(self).live(row, col) ==> !(brick_x_spec(col) == bix && brick_y_spec(row) == biy)
                    &&& final(self).bricks == old(self).bricks
                    &&& final(self).score == old(self).score
                },
            },
            final(self).lives == old(self).lives && final(self).level == old(self).level,
            final(self).paddle_x == old(self).paddle_x && final(self).paddle_w == old(self).paddle_w,
            final(self).brick_rows == old(self).brick_rows && final(self).brick_cols == old(self).brick_cols,
            final(self).w == old(self).w && final(self).h == old(self).h,
            final(self).game_over == old(self).game_over && final(self).paused == old(self).paused,
            final(self).ball_launched == old(self).ball_launched,
    {
        let mut row: u16 = 0;
        while row < self.brick_rows
            invariant
                self.wf(),
                *self == *old(self),
                old(self).score <= i32::MAX - 50,
                row <= self.brick_rows,
                forall|rr: int, cc: int| #[trigger] self.live(rr, cc) && rr < row ==> !(brick_x_spec(cc) == bix
                    && brick_y_spec(rr) == biy),
            decreases self.brick_rows - row,
        {
            let mut col: u16 = 0;
            while col < self.brick_cols
                invariant
                    self.wf(),
                    *self == *old(self),
                    old(self).score <= i32::MAX - 50,
                    row < self.brick_rows,
                    col <= self.brick_cols,
                    forall|rr: int, cc: int|
                        #[trigger] self.live(rr, cc) && (rr < row || (rr == row && cc < col)) ==> !(brick_x_spec(cc)
                            == bix && brick_y_spec(rr) == biy),
                decreases self.brick_cols - col,
            {
                let r = row as usize;
                let c = col as usize;
                if r < self.bricks.len() && c < self.bricks[r].len() && self.bricks[r][c] != 0 {
                    if Self::brick_x(col) == bix && Self::brick_y(row) == biy {
                        let ghost before = self.bricks@;
                        self.bricks[r].set(c, 0);
                        self.score = self.score + Self::brick_score(row);
                        proof {
                            assert forall|i: int| 0 <= i < self.bricks@.len() implies (#[trigger] self.bricks@[i])@.len()
                                == self.brick_cols by {
                                if i != r {
                                    assert(self.bricks@[i] == before[i]);
                                }
                            }
                        }
                        return Some((row, col));
                    }
                }
                col += 1;
            }
            row += 1;
        }
        None
    }

    /// Every brick is down.
    pub fn all_cleared(&self) -> (r: bool)
        requires
            self.wf(),
        ensures
            r == forall|row: int, col: int| !#[trigger] self.live(row, col),
    {
        let mut row: usize = 0;
        while row < self.bricks.len()
            invariant
                self.wf(),
                row <= self.bricks@.len(),
                forall|rr: int, cc: int| #[trigger] self.live(rr, cc) ==> rr >= row,
            decreases self.bricks@.len() - row,
        {
            let mut col: usize = 0;
            while col < self.bricks[row].len()
                invariant
                    self.wf(),
                    row < self.bricks@.len(),
                    col <= self.bricks@[row as int]@.len(),
                    forall|rr: int, cc: int| #[trigger] self.live(rr, cc) ==> rr > row || (rr == row && cc >= col),
                decreases self.bricks@[row as int]@.len() - col,
            {
                if self.bricks[row][col] != 0 {
                    assert(self.live(row as int, col as int));
                    return false;
                }
                col += 1;
            }
            row += 1;
        }
        true
    }

    /// The last ball is lost: one life fewer; with none left the game is
    /// over, else the next ball waits on the paddle. Returns whether play
    /// goes on.
    pub fn lose_ball(&mut self) -> (goes_on: bool)
        requires
            old(self).lives > i32::MIN,
        ensures
            final(self).lives == old(self).lives - 1,
            goes_on == (final(self).lives > 0),
            final(self).game_over == (old(self).game_over || !goes_on),
            goes_on ==> *final(self) == (BreakoutGame {
                lives: final(self).lives,
                ball_launched: false,
                ..*old(self)
            }),
            !goes_on ==> *final(self) == (BreakoutGame { lives: final(self).lives, game_over: true, ..*old(self) }),
    {
        self.lives = self.lives - 1;
        if self.lives <= 0 {
            self.game_over = true;
            false
        } else {
            self.ball_launched = false;
            true
        }
    }

    /// On to the next level: a new, fuller wall and the ball on the paddle.
    pub fn next_level(&mut self)
        requires
            old(self).wf(),
            old(self).level < i32::MAX,
        ensures
            final(self).wf(),
            final(self).level == old(self).level + 1,
            final(self).brick_rows == rows_for_level_spec(old(self).level + 1),
            forall|r: int, c: int|
                0 <= r < final(self).brick_rows && 0 <= c < final(self).brick_cols ==> #[trigger] final(self).bricks@[r]@[c]
                    == 1,
            !final(self).ball_launched,
            final(self).lives == old(self).lives && final(self).score == old(self).score,
    {
        self.level = self.level + 1;
        self.reset_level();
        self.ball_launched = false;
    }
}

} // verus!
