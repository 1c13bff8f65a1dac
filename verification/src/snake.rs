//! Snake on a walled field: the snake moves one cell per tick, grows on
//! food, and dies on the wall or on itself. The tick's clock lives with the
//! caller; `step` is one move.
use vstd::prelude::*;
use crate::rng::random_index;

verus! {

pub struct SnakeGame {
    /// Head first.
    pub snake: Vec<(u16, u16)>,
    pub dir: (i32, i32),
    pub next_dir: (i32, i32),
    pub food: (u16, u16),
    pub w: u16,
    pub h: u16,
    pub score: i32,
    pub level: i32,
    pub game_over: bool,
    pub paused: bool,
    pub growing: bool,
}

/// One of the four unit steps.
pub open spec fn unit_dir(d: (i32, i32)) -> bool {
    (d.0 == 0 && (d.1 == 1 || d.1 == -1)) || (d.1 == 0 && (d.0 == 1 || d.0 == -1))
}

impl SnakeGame {
    /// Field at least 16x10; a snake of at least one cell, all on the
    /// field; unit directions.
    pub open spec fn wf(&self) -> bool {
        &&& self.w >= 16 && self.h >= 10
        &&& self.snake@.len() >= 1
        &&& forall|k: int|
            0 <= k < self.snake@.len() ==> (#[trigger] self.snake@[k]).0 < self.w && self.snake@[k].1 < self.h
        &&& unit_dir(self.dir) && unit_dir(self.next_dir)
        &&& self.score >= 0 && self.level >= 1
    }

    /// The field is at least 16x10.
    pub open spec fn sized(&self) -> bool {
        self.w >= 16 && self.h >= 10
    }

    /// The snake covers `(x, y)`.
    pub open spec fn covers(&self, x: int, y: int) -> bool {
        exists|k: int| 0 <= k < self.snake@.len() && #[trigger] self.snake@[k] == (x as u16, y as u16)
    }

    /// A cell where food may go: inside the walls, off the snake.
    pub open spec fn food_spot(&self, x: int, y: int) -> bool {
        1 <= x <= self.w - 2 && 1 <= y <= self.h - 2 && !self.covers(x, y)
    }

    /// `t` is this game after new food was placed: on a free spot inside the
    /// walls if there is one, else the game is over.
    pub open spec fn spawn_rel(&self, t: &Self) -> bool {
        if exists|x: int, y: int| #[trigger] self.food_spot(x, y) {
            &&& self.food_spot(t.food.0 as int, t.food.1 as int)
            &&& *t == (SnakeGame { food: t.food, ..*self })
        } else {
            *t == (SnakeGame { game_over: true, ..*self })
        }
    }

    /// Whether the snake covers `(x, y)`.
    pub fn occupied(&self, x: u16, y: u16) -> (r: bool)
        ensures
            r == self.covers(x as int, y as int),
    {
        let mut k: usize = 0;
        while k < self.snake.len()
            invariant
                k <= self.snake@.len(),
                forall|j: int| 0 <= j < k ==> #[trigger] self.snake@[j] != (x, y),
            decreases self.snake@.len() - k,
        {
            let (sx, sy) = self.snake[k];
            if sx == x && sy == y {
                assert(self.snake@[k as int] == (x, y));
                return true;
            }
            k += 1;
        }
        false
    }

    /// Places food on a random free cell inside the walls: up to 1000 random
    /// tries, then the first free cell row by row; with none free the game
    /// is over.
    pub fn spawn_food(&mut self)
        ensures
            old(self).spawn_rel(&*final(self)),
    {
        let fw = self.w.saturating_sub(2);
        let fh = self.h.saturating_sub(2);
        if fw < 1 || fh < 1 {
            self.game_over = true;
            return;
        }
        let mut attempt: u32 = 0;
        while attempt < 1000
            invariant
                *self == *old(self),
                fw == self.w - 2,
                fh == self.h - 2,
                fw >= 1 && fh >= 1,
            decreases 1000 - attempt,
        {
            let fx = (random_index(fw as usize) + 1) as u16;
            let fy = (random_index(fh as usize) + 1) as u16;
            if !self.occupied(fx, fy) {
                assert(self.food_spot(fx as int, fy as int));
                self.food = (fx, fy);
                return;
            }
            attempt += 1;
        }
        let mut fy: u16 = 1;
        while fy <= fh
            invariant
                *self == *old(self),
                fw == self.w - 2,
                fh == self.h - 2,
                fw >= 1 && fh >= 1,
                1 <= fy <= fh + 1,
                forall|x: int, y: int| 1 <= y < fy && #[trigger] self.food_spot(x, y) ==> false,
            decreases fh + 1 - fy,
        {
            let mut fx: u16 = 1;
            while fx <= fw
                invariant
                    *self == *old(self),
                    fw == self.w - 2,
                    fh == self.h - 2,
                    fw >= 1 && fh >= 1,
                    1 <= fy <= fh,
                    1 <= fx <= fw + 1,
                    forall|x: int, y: int| (1 <= y < fy || (y == fy && x < fx)) && #[trigger] self.food_spot(x, y)
                        ==> false,
                decreases fw + 1 - fx,
            {
                if !self.occupied(fx, fy) {
                    assert(self.food_spot(fx as int, fy as int));
                    self.food = (fx, fy);
                    return;
                }
                fx += 1;
            }
            fy += 1;
        }
        self.game_over = true;
    }
}

impl SnakeGame {
    /// `t` is this game after one move, and `ate` says whether the snake
    /// ate. Paused or over, nothing moves. Otherwise the queued direction
    /// takes effect; a head leaving the field or running into the snake ends
    /// the game; a head on the food adds `10 * level` points, raises the
    /// level, grows the snake by one and places new food; any other move
    /// drops the tail unless the snake was growing.
    pub open spec fn step_rel(&self, t: &Self, ate: bool) -> bool {
        if self.paused || self.game_over {
            !ate && *t == *self
        } else {
            let d = self.next_dir;
            let head = self.snake@[0];
            let nx = head.0 + d.0;
            let ny = head.1 + d.1;
            let moved = seq![(nx as u16, ny as u16)] + self.snake@;
            if nx < 0 || ny < 0 || nx >= self.w || ny >= self.h || self.covers(nx, ny) {
                !ate && *t == (SnakeGame { dir: d, game_over: true, ..*self })
            } else if nx == self.food.0 && ny == self.food.1 {
                &&& ate
                &&& t.snake@ == moved
                &&& !t.growing
                &&& (SnakeGame {
                    snake: t.snake,
                    dir: d,
                    score: (self.score + 10 * self.level) as i32,
                    level: (self.level + 1) as i32,
                    growing: true,
                    ..*self
                }).spawn_rel(&(SnakeGame { growing: true, ..*t }))
            } else {
                &&& !ate
                &&& t.snake@ == if self.growing {
                    moved
                } else {
                    moved.drop_last()
                }
                &&& *t == (SnakeGame { snake: t.snake, dir: d, growing: false, ..*self })
            }
        }
    }

    /// One move of the snake; returns whether it ate. The caller times the
    /// moves, and speeds them up after each meal.
    pub fn step(&mut self) -> (ate: bool)
        requires
            old(self).wf(),
            old(self).score + 10 * old(self).level <= i32::MAX,
            old(self).level < i32::MAX,
        ensures
            old(self).step_rel(&*final(self), ate),
            final(self).wf(),
    {
        if self.paused || self.game_over {
            return false;
        }
        let d = self.next_dir;
        self.dir = d;
        let (hx, hy) = self.snake[0];
        let nx = hx as i32 + d.0;
        let ny = hy as i32 + d.1;
        if nx < 0 || ny < 0 || nx >= self.w as i32 || ny >= self.h as i32 || self.occupied(nx as u16, ny as u16) {
            self.game_over = true;
            return false;
        }
        let ghost before = self.snake@;
        self.snake.insert(0, (nx as u16, ny as u16));
        assert(self.snake@ =~= seq![(nx as u16, ny as u16)] + before);
        let mut ate = false;
        if nx == self.food.0 as i32 && ny == self.food.1 as i32 {
            self.score = self.score + self.level * 10;
            self.growing = true;
            self.level = self.level + 1;
            self.spawn_food();
            ate = true;
        }
        if !self.growing {
            self.snake.pop();
        }
        self.growing = false;
        ate
    }

    /// `t` is this game reset to a new round: a three-cell snake heading
    /// right from the middle, score 0, level 1, and food placed.
    pub open spec fn reset_rel(&self, t: &Self) -> bool {
        let cx = self.w / 2;
        let cy = self.h / 2;
        &&& t.snake@ == seq![(cx as u16, cy as u16), ((cx - 1) as u16, cy as u16), ((cx - 2) as u16, cy as u16)]
        &&& (SnakeGame {
            snake: t.snake,
            dir: (1, 0),
            next_dir: (1, 0),
            score: 0,
            level: 1,
            game_over: false,
            paused: false,
            growing: false,
            ..*self
        }).spawn_rel(t)
    }

    /// Starts a new round.
    pub fn reset_state(&mut self)
        requires
            old(self).sized(),
        ensures
            old(self).reset_rel(&*final(self)),
            final(self).wf(),
    {
        let cx = self.w / 2;
        let cy = self.h / 2;
        self.snake = vec![(cx, cy), (cx - 1, cy), (cx - 2, cy)];
        self.dir = (1, 0);
        self.next_dir = (1, 0);
        self.score = 0;
        self.level = 1;
        self.game_over = false;
        self.paused = false;
        self.growing = false;
        self.spawn_food();
    }

    /// Starts a new round.
    pub fn init(&mut self)
        requires
            old(self).sized(),
        ensures
            old(self).reset_rel(&*final(self)),
            final(self).wf(),
    {
        self.reset_state();
    }

    /// The scene id.
    pub fn id(&self) -> (r: &'static str)
        ensures
            r@ == seq!['s', 'n', 'a', 'k', 'e'],
    {
        proof {
            reveal_strlit("snake");
        }
        "snake"
    }

    /// A game on an 80x24 field, not yet started: `init` starts it.
    pub fn new() -> (g: Self)
        ensures
            g.sized(),
            g.snake@.len() == 0,
            g.dir == (1i32, 0i32) && g.next_dir == (1i32, 0i32),
            g.food == (0u16, 0u16) && g.w == 80 && g.h == 24,
            g.score == 0 && g.level == 1,
            !g.game_over && !g.paused && !g.growing,
    {
        SnakeGame {
            snake: Vec::new(),
            dir: (1, 0),
            next_dir: (1, 0),
            food: (0, 0),
            w: 80,
            h: 24,
            score: 0,
            level: 1,
            game_over: false,
            paused: false,
            growing: false,
        }
    }

    /// Fits the field to a terminal of `w` by `h` cells, at least 16x10.
    pub fn set_terminal_size(&mut self, w: u16, h: u16)
        ensures
            *final(self) == (SnakeGame {
                w: if w >= 16 {
                    w
                } else {
                    16
                },
                h: if h >= 10 {
                    h
                } else {
                    10
                },
                ..*old(self)
            }),
            final(self).sized(),
    {
        self.w = if w >= 16 {
            w
        } else {
            16
        };
        self.h = if h >= 10 {
            h
        } else {
            10
        };
    }

    /// `t` is this game after the key `key`.
    pub open spec fn key_rel(&self, t: &Self, key: i32) -> bool {
        if key == 38 || key == 87 || key == 119 {
            *t == if self.dir != (0i32, 1i32) {
                SnakeGame { next_dir: (0i32, -1i32), ..*self }
            } else {
                *self
            }
        } else if key == 40 || key == 83 || key == 115 {
            *t == if self.dir != (0i32, -1i32) {
                SnakeGame { next_dir: (0, 1), ..*self }
            } else {
                *self
            }
        } else if key == 37 || key == 65 || key == 97 {
            *t == if self.dir != (1i32, 0i32) {
                SnakeGame { next_dir: (-1i32, 0i32), ..*self }
            } else {
                *self
            }
        } else if key == 39 || key == 68 || key == 100 {
            *t == if self.dir != (-1i32, 0i32) {
                SnakeGame { next_dir: (1, 0), ..*self }
            } else {
                *self
            }
        } else if key == 32 {
            if self.game_over {
                self.reset_rel(t)
            } else {
                *t == (SnakeGame { paused: !self.paused, ..*self })
            }
        } else {
            *t == *self
        }
    }

    /// Arrows or WASD (either case) queue a turn (never straight back); Space pauses, or
    /// restarts after the end.
    pub fn handle_key(&mut self, key: i32, ch: char)
        requires
            old(self).sized(),
        ensures
            old(self).key_rel(&*final(self), key),
            final(self).sized(),
            old(self).wf() ==> final(self).wf(),
    {
        if key == 38 || key == 87 || key == 119 {
            if !(self.dir.0 == 0 && self.dir.1 == 1) {
                self.next_dir = (0, -1);
            }
        } else if key == 40 || key == 83 || key == 115 {
            if !(self.dir.0 == 0 && self.dir.1 == -1) {
                self.next_dir = (0, 1);
            }
        } else if key == 37 || key == 65 || key == 97 {
            if !(self.dir.0 == 1 && self.dir.1 == 0) {
                self.next_dir = (-1, 0);
            }
        } else if key == 39 || key == 68 || key == 100 {
            if !(self.dir.0 == -1 && self.dir.1 == 0) {
                self.next_dir = (1, 0);
            }
        } else if key == 32 {
            if self.game_over {
                self.init();
            } else {
                self.paused = !self.paused;
            }
        }
    }
}

/// No cell of the snake appears twice.
pub open spec fn no_overlap(s: Seq<(u16, u16)>) -> bool {
    forall|i: int, j: int| 0 <= i < s.len() && 0 <= j < s.len() && i != j ==> #[trigger] s[i] != #[trigger] s[j]
}

/// The snake never overlaps itself: a move that would put the head on the
/// body ends the game instead.
pub proof fn law_no_overlap(g: SnakeGame, t: SnakeGame, ate: bool)
    requires
        g.wf(),
        no_overlap(g.snake@),
        g.step_rel(&t, ate),
    ensures
        no_overlap(t.snake@),
{
    if !(g.paused || g.game_over) {
        let d = g.next_dir;
        let head = g.snake@[0];
        let nx = head.0 + d.0;
        let ny = head.1 + d.1;
        let s = g.snake@;
        let moved = seq![(nx as u16, ny as u16)] + s;
        if !(nx < 0 || ny < 0 || nx >= g.w || ny >= g.h || g.covers(nx, ny)) {
            assert(no_overlap(moved)) by {
                assert forall|i: int, j: int| 0 <= i < moved.len() && 0 <= j < moved.len() && i != j implies #[trigger] moved[i]
                    != #[trigger] moved[j] by {
                    if i == 0 && moved[i] == moved[j] {
                        assert(s[j - 1] == (nx as u16, ny as u16));
                    } else if j == 0 && moved[i] == moved[j] {
                        assert(s[i - 1] == (nx as u16, ny as u16));
                    } else if i > 0 && j > 0 {
                        assert(moved[i] == s[i - 1] && moved[j] == s[j - 1]);
                    }
                }
            }
            assert forall|i: int, j: int|
                0 <= i < moved.drop_last().len() && 0 <= j < moved.drop_last().len() && i != j implies #[trigger] moved.drop_last()[i]
                != #[trigger] moved.drop_last()[j] by {
                assert(moved.drop_last()[i] == moved[i] && moved.drop_last()[j] == moved[j]);
            }
        }
    }
}

} // verus!
