//! Pong's board: paddles, score and match state. The ball flies in real
//! time with the caller, which reports each point.
use vstd::prelude::*;

verus! {

/// Points that win the match.
pub const WINNING_SCORE: i32 = 5;

pub struct PongGame {
    pub paddle1_y: u16,
    pub paddle2_y: u16,
    pub score1: i32,
    pub score2: i32,
    pub ai: bool,
    pub game_over: bool,
    pub paused: bool,
    pub w: u16,
    pub h: u16,
}

impl PongGame {
    /// Field at least 20x10; scores up to the winning score, and below it
    /// while the match goes on.
    pub open spec fn wf(&self) -> bool {
        &&& self.w >= 20 && self.h >= 10
        &&& 0 <= self.score1 <= WINNING_SCORE && 0 <= self.score2 <= WINNING_SCORE
        &&& !self.game_over ==> self.score1 < WINNING_SCORE && self.score2 < WINNING_SCORE
    }

    /// A match against the computer on an 80x24 field, not yet started.
    pub fn new() -> (g: Self)
        ensures
            g.wf(),
            g.paddle1_y == 10 && g.paddle2_y == 10 && g.score1 == 0 && g.score2 == 0,
            g.ai && !g.game_over && !g.paused && g.w == 80 && g.h == 24,
    {
        PongGame {
            paddle1_y: 10,
            paddle2_y: 10,
            score1: 0,
            score2: 0,
            ai: true,
            game_over: false,
            paused: false,
            w: 80,
            h: 24,
        }
    }

    /// The scene id.
    pub fn id(&self) -> (r: &'static str)
        ensures
            r@ == seq!['p', 'o', 'n', 'g'],
    {
        proof {
            reveal_strlit("pong");
        }
        "pong"
    }

    /// A new match: both paddles centred, no points.
    pub fn init(&mut self)
        requires
            old(self).h >= 10,
        ensures
            *final(self) == (PongGame {
                paddle1_y: (old(self).h / 2 - 2) as u16,
                paddle2_y: (old(self).h / 2 - 2) as u16,
                score1: 0,
                score2: 0,
                game_over: false,
                paused: false,
                ..*old(self)
            }),
    {
        let center = self.h / 2 - 2;
        self.paddle1_y = center;
        self.paddle2_y = center;
        self.score1 = 0;
        self.score2 = 0;
        self.game_over = false;
        self.paused = false;
    }

    /// Fits the field to a terminal of `w` by `h` cells, at least 20x10.
    pub fn set_terminal_size(&mut self, w: u16, h: u16)
        ensures
            *final(self) == (PongGame {
                w: if w >= 20 {
                    w
                } else {
                    20
                },
                h: if h >= 10 {
                    h
                } else {
                    10
                },
                ..*old(self)
            }),
    {
        self.w = if w >= 20 {
            w
        } else {
            20
        };
        self.h = if h >= 10 {
            h
        } else {
            10
        };
    }

    /// Up or W (either case) and Down or S (either case) move the left
    /// paddle two rows, within the field; Space restarts a finished match (true: the caller serves a new
    /// ball) or else switches pause.
    pub fn handle_key(&mut self, key: i32, ch: char) -> (restarted: bool)
        requires
            old(self).wf(),
        ensures
            final(self).wf(),
            (key == 38 || key == 87 || key == 119) ==> !restarted && *final(self) == (PongGame {
                paddle1_y: if old(self).paddle1_y >= 2 {
                    (old(self).paddle1_y - 2) as u16
                } else {
                    0
                },
                ..*old(self)
            }),
            (key == 40 || key == 83 || key == 115) ==> !restarted && *final(self) == (PongGame {
                paddle1_y: if old(self).paddle1_y + 2 < old(self).h - 5 {
                    (old(self).paddle1_y + 2) as u16
                } else {
                    (old(self).h - 5) as u16
                },
                ..*old(self)
            }),
            key == 32 && old(self).game_over ==> restarted && *final(self) == (PongGame {
                paddle1_y: (old(self).h / 2 - 2) as u16,
                paddle2_y: (old(self).h / 2 - 2) as u16,
                score1: 0,
                score2: 0,
                game_over: false,
                paused: false,
                ..*old(self)
            }),
            key == 32 && !old(self).game_over ==> !restarted && *final(self) == (PongGame {
                paused: !old(self).paused,
                ..*old(self)
            }),
            key != 38 && key != 87 && key != 119 && key != 40 && key != 83 && key != 115 && key != 32
                ==> !restarted && *final(self)
                == *old(self),
    {
        if key == 38 || key == 87 || key == 119 {
            self.paddle1_y = self.paddle1_y.saturating_sub(2);
            false
        } else if key == 40 || key == 83 || key == 115 {
            let limit = self.h - 5;
            self.paddle1_y = if self.paddle1_y < limit - 2 {
                self.paddle1_y + 2
            } else {
                limit
            };
            false
        } else if key == 32 {
            if self.game_over {
                self.init();
                true
            } else {
                self.paused = !self.paused;
                false
            }
        } else {
            false
        }
    }

    /// A point for the right player (`right`) or the left one; the fifth
    /// point ends the match. Returns whether play goes on with a new ball.
    pub fn score_point(&mut self, right: bool) -> (goes_on: bool)
        requires
            old(self).wf(),
            !old(self).game_over,
        ensures
            final(self).wf(),
            right ==> final(self).score2 == old(self).score2 + 1 && final(self).score1 == old(self).score1,
            !right ==> final(self).score1 == old(self).score1 + 1 && final(self).score2 == old(self).score2,
            final(self).game_over == !goes_on,
            goes_on == (final(self).score1 < WINNING_SCORE && final(self).score2 < WINNING_SCORE),
            final(self).paddle1_y == old(self).paddle1_y && final(self).paddle2_y == old(self).paddle2_y,
    {
        if right {
            self.score2 += 1;
            if self.score2 >= WINNING_SCORE {
                self.game_over = true;
                return false;
            }
        } else {
            self.score1 += 1;
            if self.score1 >= WINNING_SCORE {
                self.game_over = true;
                return false;
            }
        }
        true
    }

    /// Moves the computer's paddle to row `y`, kept on the field.
    pub fn set_ai_paddle(&mut self, y: u16)
        requires
            old(self).wf(),
        ensures
            *final(self) == (PongGame {
                paddle2_y: if y <= old(self).h - 5 {
                    y
                } else {
                    (old(self).h - 5) as u16
                },
                ..*old(self)
            }),
    {
        let limit = self.h - 5;
        self.paddle2_y = if y <= limit {
            y
        } else {
            limit
        };
    }
}

} // verus!
