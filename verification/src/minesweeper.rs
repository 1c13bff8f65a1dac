//! Minesweeper on a field of up to 24 columns by 20 rows. A cell holds its
//! number of neighbouring mines, or 9 for a mine.
use vstd::prelude::*;
use crate::rng::random_index;

verus! {

pub const MINE: u8 = 9;

pub type Field<T> = [[T; 24]; 20];

/// Difficulty `d` (0..=4): target width, target height, mines.
pub open spec fn diff_cfg(d: int) -> (int, int, int) {
    if d == 0 {
        (6, 6, 4)
    } else if d == 1 {
        (8, 8, 8)
    } else if d == 2 {
        (10, 10, 15)
    } else if d == 3 {
        (16, 16, 40)
    } else {
        (24, 20, 99)
    }
}

fn diff_config(d: usize) -> (r: (u16, u16, i32))
    requires
        d < 5,
    ensures
        r.0 == diff_cfg(d as int).0,
        r.1 == diff_cfg(d as int).1,
        r.2 == diff_cfg(d as int).2,
{
    match d {
        0 => (6, 6, 4),
        1 => (8, 8, 8),
        2 => (10, 10, 15),
        3 => (16, 16, 40),
        _ => (24, 20, 99),
    }
}

/// The label of difficulty `d`: Baby, Easy, Medium, Hard, and Expert for 4
/// and above.
pub open spec fn diff_label_spec(d: int) -> Seq<char> {
    if d == 0 {
        "Baby"@
    } else if d == 1 {
        "Easy"@
    } else if d == 2 {
        "Medium"@
    } else if d == 3 {
        "Hard"@
    } else {
        "Expert"@
    }
}

/// The label of difficulty `d`; see `diff_label_spec`.
pub fn diff_label(d: usize) -> (r: &'static str)
    ensures
        r@ == diff_label_spec(d as int),
{
    match d {
        0 => "Baby",
        1 => "Easy",
        2 => "Medium",
        3 => "Hard",
        _ => "Expert",
    }
}

pub open spec fn min(a: int, b: int) -> int {
    if a <= b {
        a
    } else {
        b
    }
}

pub open spec fn max(a: int, b: int) -> int {
    if a >= b {
        a
    } else {
        b
    }
}

/// The field size and mine count for difficulty `d` in an area of `aw` by
/// `ah` cells: two screen columns per cell, four rows of margin, at most the
/// difficulty's size, at most half the cells as mines; at least 4x4 and one
/// mine.
pub open spec fn size_for(d: int, aw: int, ah: int) -> (int, int, int) {
    let (tw, th, tm) = diff_cfg(d);
    let max_w = max(aw - 2, 0) / 2;
    let max_h = max(ah - 4, 0);
    let w = min(max_w, tw);
    let h = min(max_h, th);
    let m = min(tm, w * h / 2);
    (max(w, 4), max(h, 4), max(m, 1))
}

/// Whether `(x, y)` and `(nx, ny)` are distinct neighbours.
pub open spec fn adjacent(x: int, y: int, nx: int, ny: int) -> bool {
    -1 <= nx - x <= 1 && -1 <= ny - y <= 1 && !(nx == x && ny == y)
}

pub struct MinesweeperGame {
    pub width: u16,
    pub height: u16,
    pub grid: Field<u8>,
    pub revealed: Field<bool>,
    pub flagged: Field<bool>,
    pub cursor_x: u16,
    pub cursor_y: u16,
    pub mines: i32,
    pub flag_mode: bool,
    pub first_click: bool,
    pub game_over: bool,
    pub won: bool,
    pub timer_running: bool,
    pub game_started: bool,
    pub diff: usize,
}

impl MinesweeperGame {
    /// Field size within the arrays, at least 4x4; cursor on the field; a
    /// known difficulty.
    pub open spec fn wf(&self) -> bool {
        &&& 4 <= self.width <= 24
        &&& 4 <= self.height <= 20
        &&& self.cursor_x < self.width
        &&& self.cursor_y < self.height
        &&& self.diff < 5
    }

    /// In play: well formed, and once mines are placed the counts are right.
    pub open spec fn ready(&self) -> bool {
        self.wf() && (!self.first_click ==> self.counts_ok())
    }

    pub open spec fn in_field(&self, x: int, y: int) -> bool {
        0 <= x < self.width && 0 <= y < self.height
    }

    /// The scene id.
    pub fn id(&self) -> (r: &'static str)
        ensures
            r@ == seq!['m', 'i', 'n', 'e', 's', 'w', 'e', 'e', 'p', 'e', 'r'],
    {
        proof {
            reveal_strlit("minesweeper");
        }
        "minesweeper"
    }

    /// The easiest difficulty on its 6x6 field, nothing placed yet.
    pub fn new() -> (g: Self)
        ensures
            g.wf(),
            g.width == 6 && g.height == 6 && g.mines == 4 && g.diff == 0,
            g.cursor_x == 0 && g.cursor_y == 0,
            g.first_click && !g.flag_mode && !g.game_over && !g.won,
            !g.timer_running && !g.game_started,
            forall|y: int, x: int| 0 <= y < 20 && 0 <= x < 24 ==> g.grid[y][x] == 0 && !g.revealed[y][x]
                && !g.flagged[y][x],
    {
        MinesweeperGame {
            width: 6,
            height: 6,
            grid: [[0u8; 24]; 20],
            revealed: [[false; 24]; 20],
            flagged: [[false; 24]; 20],
            cursor_x: 0,
            cursor_y: 0,
            mines: 4,
            flag_mode: false,
            first_click: true,
            game_over: false,
            won: false,
            timer_running: false,
            game_started: false,
            diff: 0,
        }
    }

    /// See `size_for`.
    pub fn calc_size(&self, area_w: u16, area_h: u16) -> (r: (u16, u16, i32))
        requires
            self.diff < 5,
        ensures
            r.0 == size_for(self.diff as int, area_w as int, area_h as int).0,
            r.1 == size_for(self.diff as int, area_w as int, area_h as int).1,
            r.2 == size_for(self.diff as int, area_w as int, area_h as int).2,
            4 <= r.0 <= 24,
            4 <= r.1 <= 20,
    {
        let (tw, th, tm) = diff_config(self.diff);
        let max_w = (if area_w >= 2 {
            area_w - 2
        } else {
            0
        }) / 2;
        let max_h = if area_h >= 4 {
            area_h - 4
        } else {
            0
        };
        let w = if max_w <= tw {
            max_w
        } else {
            tw
        };
        let h = if max_h <= th {
            max_h
        } else {
            th
        };
        assert(w * h <= 480) by (nonlinear_arith)
            requires
                w <= 24,
                h <= 20,
        ;
        let half = (w * h / 2) as i32;
        let mines = if tm <= half {
            tm
        } else {
            half
        };
        (if w >= 4 {
            w
        } else {
            4
        }, if h >= 4 {
            h
        } else {
            4
        }, if mines >= 1 {
            mines
        } else {
            1
        })
    }

    /// Fits the field to a terminal of `w` by `h` cells.
    pub fn set_terminal_size(&mut self, w: u16, h: u16)
        requires
            old(self).diff < 5,
        ensures
            final(self).width == size_for(old(self).diff as int, w as int, h as int).0,
            final(self).height == size_for(old(self).diff as int, w as int, h as int).1,
            final(self).mines == size_for(old(self).diff as int, w as int, h as int).2,
            final(self).grid == old(self).grid && final(self).revealed == old(self).revealed,
            final(self).flagged == old(self).flagged,
            final(self).cursor_x == old(self).cursor_x && final(self).cursor_y == old(self).cursor_y,
            final(self).diff == old(self).diff && final(self).game_over == old(self).game_over,
            final(self).first_click == old(self).first_click && final(self).won == old(self).won,
    {
        let (nw, nh, nm) = self.calc_size(w, h);
        self.width = nw;
        self.height = nh;
        self.mines = nm;
    }

    /// Applies the chosen difficulty for an 80x24 terminal.
    pub fn apply_diff(&mut self)
        requires
            old(self).diff < 5,
        ensures
            *final(self) == (MinesweeperGame {
                width: size_for(old(self).diff as int, 80, 24).0 as u16,
                height: size_for(old(self).diff as int, 80, 24).1 as u16,
                mines: size_for(old(self).diff as int, 80, 24).2 as i32,
                ..*old(self)
            }),
            4 <= final(self).width <= 24 && 4 <= final(self).height <= 20,
    {
        let (w, h, m) = self.calc_size(80, 24);
        self.width = w;
        self.height = h;
        self.mines = m;
    }

    /// `t` is this game reset for a new round on the same size.
    pub open spec fn init_rel(&self, t: &Self) -> bool {
        &&& forall|y: int, x: int|
            0 <= y < 20 && 0 <= x < 24 ==> #[trigger] t.grid[y][x] == 0 && !t.revealed[y][x] && !t.flagged[y][x]
        &&& *t == (MinesweeperGame {
            grid: t.grid,
            revealed: t.revealed,
            flagged: t.flagged,
            cursor_x: 0,
            cursor_y: 0,
            first_click: true,
            game_over: false,
            won: false,
            timer_running: false,
            game_started: false,
            ..*self
        })
    }

    /// A new round on the current size: an empty, covered, unflagged field,
    /// cursor in the corner, mines placed on the first dig.
    pub fn init(&mut self)
        ensures
            old(self).init_rel(&*final(self)),
            4 <= old(self).width <= 24 && 4 <= old(self).height <= 20 && old(self).diff < 5
                ==> final(self).ready(),
    {
        self.grid = [[0u8; 24]; 20];
        self.revealed = [[false; 24]; 20];
        self.flagged = [[false; 24]; 20];
        self.cursor_x = 0;
        self.cursor_y = 0;
        self.first_click = true;
        self.game_over = false;
        self.won = false;
        self.timer_running = false;
        self.game_started = false;
    }
}

// ---------------------------------------------------------------------------
// Counting covered cells (for termination)
// ---------------------------------------------------------------------------

/// The number of covered cells among the first `n` cells of the arrays, in
/// row-major order.
pub open spec fn covered(r: Field<bool>, n: int) -> int
    decreases n,
{
    if n <= 0 {
        0
    } else {
        covered(r, n - 1) + if !r[(n - 1) / 24][(n - 1) % 24] {
            1int
        } else {
            0
        }
    }
}

proof fn lemma_covered_bounds(r: Field<bool>, n: int)
    requires
        n >= 0,
    ensures
        0 <= covered(r, n) <= n,
    decreases n,
{
    if n > 0 {
        lemma_covered_bounds(r, n - 1);
    }
}

/// Uncovering one covered cell lowers the count by one.
proof fn lemma_uncover(r: Field<bool>, r2: Field<bool>, x: int, y: int, n: int)
    requires
        0 <= x < 24,
        0 <= y < 20,
        0 <= n <= 480,
        !r[y][x],
        r2[y][x],
        forall|yy: int, xx: int|
            0 <= yy < 20 && 0 <= xx < 24 && !(yy == y && xx == x) ==> r2[yy][xx] == r[yy][xx],
    ensures
        covered(r2, n) == covered(r, n) - if y * 24 + x < n {
            1int
        } else {
            0
        },
    decreases n,
{
    if n > 0 {
        lemma_uncover(r, r2, x, y, n - 1);
        let i = n - 1;
        assert(0 <= i / 24 < 20 && 0 <= i % 24 < 24) by (nonlinear_arith)
            requires
                0 <= i < 480,
        ;
        assert((i / 24 == y && i % 24 == x) <==> i == y * 24 + x) by (nonlinear_arith)
            requires
                0 <= i < 480,
                0 <= x < 24,
                0 <= y < 20,
        ;
    }
}

// ---------------------------------------------------------------------------
// Mines
// ---------------------------------------------------------------------------

/// The 3x3 block around the first dig, with the game's wrapping arithmetic
/// (the row or column left of 0 is 65535, which no cell has).
pub open spec fn near_safe(x: int, y: int, sx: u16, sy: u16) -> bool {
    (x == sx || x == vstd::wrapping::u16_specs::wrapping_sub(sx, 1) || x == sx + 1) && (y == sy || y
        == vstd::wrapping::u16_specs::wrapping_sub(sy, 1) || y == sy + 1)
}

/// The 8 neighbour offsets, rows top to bottom, columns left to right.
pub open spec fn nb_off(i: int) -> (int, int) {
    if i == 0 {
        (-1, -1)
    } else if i == 1 {
        (0, -1)
    } else if i == 2 {
        (1, -1)
    } else if i == 3 {
        (-1, 0)
    } else if i == 4 {
        (1, 0)
    } else if i == 5 {
        (-1, 1)
    } else if i == 6 {
        (0, 1)
    } else {
        (1, 1)
    }
}

fn nb_offset(i: usize) -> (r: (i32, i32))
    requires
        i < 8,
    ensures
        r.0 == nb_off(i as int).0,
        r.1 == nb_off(i as int).1,
        adjacent(0, 0, r.0 as int, r.1 as int),
{
    match i {
        0 => (-1, -1),
        1 => (0, -1),
        2 => (1, -1),
        3 => (-1, 0),
        4 => (1, 0),
        5 => (-1, 1),
        6 => (0, 1),
        _ => (1, 1),
    }
}

pub proof fn lemma_nb_complete(dx: int, dy: int)
    requires
        adjacent(0, 0, dx, dy),
    ensures
        exists|i: int| 0 <= i < 8 && #[trigger] nb_off(i) == (dx, dy),
{
    if dy == -1 {
        assert(nb_off(dx + 1) == (dx, dy));
    } else if dy == 0 {
        if dx == -1 {
            assert(nb_off(3) == (dx, dy));
        } else {
            assert(nb_off(4) == (dx, dy));
        }
    } else {
        assert(nb_off(dx + 6) == (dx, dy));
    }
}

impl MinesweeperGame {
    /// A cell on the field, outside the safe block, without a mine.
    pub open spec fn free_for_mine(&self, x: int, y: int, sx: u16, sy: u16) -> bool {
        self.in_field(x, y) && !near_safe(x, y, sx, sy) && self.grid[y][x] != MINE
    }

    /// Mines among the first `i` neighbours of `(x, y)` on the field.
    pub open spec fn mines_around(&self, x: int, y: int, i: int) -> int
        decreases i,
    {
        if i <= 0 {
            0
        } else {
            let d = nb_off(i - 1);
            self.mines_around(x, y, i - 1) + if self.in_field(x + d.0, y + d.1) && self.grid[y
                + d.1][x + d.0] == MINE {
                1int
            } else {
                0
            }
        }
    }

    /// Whether a first dig at the cursor leaves room for all the mines (see
    /// `room_for_mines`).
    pub fn mine_room(&self) -> (r: bool)
        requires
            self.wf(),
        ensures
            r == self.room_for_mines(self.cursor_x, self.cursor_y),
    {
        let sx = self.cursor_x;
        let sy = self.cursor_y;
        let mut count: usize = 0;
        let mut i: usize = 0;
        while i < 480
            invariant
                self.wf(),
                sx == self.cursor_x && sy == self.cursor_y,
                i <= 480,
                count == self.free_list(sx, sy, i as int).len(),
                count <= i,
            decreases 480 - i,
        {
            let x = (i % 24) as u16;
            let y = (i / 24) as u16;
            if x < self.width && y < self.height {
                let near = (x == sx || x == sx.wrapping_sub(1) || (sx < u16::MAX && x == sx + 1)) && (y == sy
                    || y == sy.wrapping_sub(1) || (sy < u16::MAX && y == sy + 1));
                if !near && self.grid[y as usize][x as usize] != MINE {
                    count += 1;
                }
            }
            i += 1;
        }
        (self.mines as i64) <= (count as i64)
    }

    fn free_cells(&self, sx: u16, sy: u16) -> (r: Vec<(u16, u16)>)
        requires
            self.wf(),
        ensures
            forall|k: int| 0 <= k < r@.len() ==> self.free_for_mine(
                (#[trigger] r@[k]).0 as int,
                r@[k].1 as int,
                sx,
                sy,
            ),
            r@.len() == 0 ==> forall|x: int, y: int| !#[trigger] self.free_for_mine(x, y, sx, sy),
    {
        let mut r: Vec<(u16, u16)> = Vec::new();
        let mut y: u16 = 0;
        while y < self.height
            invariant
                self.wf(),
                y <= self.height,
                forall|k: int| 0 <= k < r@.len() ==> self.free_for_mine(
                    (#[trigger] r@[k]).0 as int,
                    r@[k].1 as int,
                    sx,
                    sy,
                ),
                r@.len() == 0 ==> forall|xx: int, yy: int| yy < y ==> !#[trigger] self.free_for_mine(xx, yy, sx, sy),
            decreases self.height - y,
        {
            let mut x: u16 = 0;
            while x < self.width
                invariant
                    self.wf(),
                    y < self.height,
                    x <= self.width,
                    forall|k: int| 0 <= k < r@.len() ==> self.free_for_mine(
                        (#[trigger] r@[k]).0 as int,
                        r@[k].1 as int,
                        sx,
                        sy,
                    ),
                    r@.len() == 0 ==> forall|xx: int, yy: int| (yy < y || (yy == y && xx < x)) ==> !#[trigger] self.free_for_mine(xx, yy, sx, sy),
                decreases self.width - x,
            {
                let near = (x == sx || x == sx.wrapping_sub(1) || (sx < u16::MAX && x == sx + 1)) && (
                y == sy || y == sy.wrapping_sub(1) || (sy < u16::MAX && y == sy + 1));
                if !near && self.grid[y as usize][x as usize] != MINE {
                    r.push((x, y));
                }
                x += 1;
            }
            y += 1;
        }
        r
    }

    fn count_mines_around(&self, x: u16, y: u16) -> (r: u8)
        requires
            self.wf(),
            x < self.width,
            y < self.height,
        ensures
            r == self.mines_around(x as int, y as int, 8),
            r <= 8,
    {
        let mut count: u8 = 0;
        let mut i: usize = 0;
        while i < 8
            invariant
                self.wf(),
                x < self.width,
                y < self.height,
                i <= 8,
                count == self.mines_around(x as int, y as int, i as int),
                count <= i,
            decreases 8 - i,
        {
            let (dx, dy) = nb_offset(i);
            let nx = x as i32 + dx;
            let ny = y as i32 + dy;
            if nx >= 0 && nx < self.width as i32 && ny >= 0 && ny < self.height as i32
                && self.grid[ny as usize][nx as usize] == MINE {
                count += 1;
            }
            i += 1;
        }
        count
    }

    /// Writes into every cell of the field without a mine the number of
    /// mines around it.
    pub fn fill_counts(&mut self)
        requires
            old(self).wf(),
        ensures
            forall|y: int, x: int|
                0 <= y < 20 && 0 <= x < 24 ==> #[trigger] final(self).grid[y][x] == if old(self).in_field(x, y)
                    && old(self).grid[y][x] != MINE {
                    old(self).mines_around(x, y, 8) as u8
                } else {
                    old(self).grid[y][x]
                },
            forall|y: int, x: int|
                0 <= y < 20 && 0 <= x < 24 ==> (#[trigger] final(self).grid[y][x] == MINE) == (old(
                    self,
                ).grid[y][x] == MINE),
            final(self).width == old(self).width && final(self).height == old(self).height,
            final(self).revealed == old(self).revealed && final(self).flagged == old(self).flagged,
            final(self).cursor_x == old(self).cursor_x && final(self).cursor_y == old(self).cursor_y,
            final(self).mines == old(self).mines && final(self).diff == old(self).diff,
            final(self).flag_mode == old(self).flag_mode && final(self).first_click == old(self).first_click,
            final(self).game_over == old(self).game_over && final(self).won == old(self).won,
            final(self).timer_running == old(self).timer_running,
            final(self).game_started == old(self).game_started,
    {
        let ghost o = *self;
        let mut y: u16 = 0;
        while y < self.height
            invariant
                self.wf(),
                y <= self.height,
                self.width == o.width && self.height == o.height && self.diff == o.diff,
                self.cursor_x == o.cursor_x && self.cursor_y == o.cursor_y,
                // mines never move, so counts read from the partly filled grid are the old ones
                forall|yy: int, xx: int| 0 <= yy < 20 && 0 <= xx < 24 ==> (#[trigger] self.grid[yy][xx]
                    == MINE) == (o.grid[yy][xx] == MINE),
                forall|yy: int, xx: int|
                    0 <= yy < 20 && 0 <= xx < 24 ==> #[trigger] self.grid[yy][xx] == if o.in_field(xx, yy)
                        && o.grid[yy][xx] != MINE && yy < y {
                        o.mines_around(xx, yy, 8) as u8
                    } else {
                        o.grid[yy][xx]
                    },
                self.revealed == o.revealed && self.flagged == o.flagged,
                self.mines == o.mines && self.flag_mode == o.flag_mode && self.first_click == o.first_click,
                self.game_over == o.game_over && self.won == o.won,
                self.timer_running == o.timer_running && self.game_started == o.game_started,
            decreases self.height - y,
        {
            let mut x: u16 = 0;
            while x < self.width
                invariant
                    self.wf(),
                    y < self.height,
                    x <= self.width,
                    self.width == o.width && self.height == o.height && self.diff == o.diff,
                    self.cursor_x == o.cursor_x && self.cursor_y == o.cursor_y,
                    forall|yy: int, xx: int| 0 <= yy < 20 && 0 <= xx < 24 ==> (#[trigger] self.grid[yy][xx]
                        == MINE) == (o.grid[yy][xx] == MINE),
                    forall|yy: int, xx: int|
                        0 <= yy < 20 && 0 <= xx < 24 ==> #[trigger] self.grid[yy][xx] == if o.in_field(xx, yy)
                            && o.grid[yy][xx] != MINE && (yy < y || (yy == y && xx < x)) {
                            o.mines_around(xx, yy, 8) as u8
                        } else {
                            o.grid[yy][xx]
                        },
                    self.revealed == o.revealed && self.flagged == o.flagged,
                    self.mines == o.mines && self.flag_mode == o.flag_mode && self.first_click == o.first_click,
                    self.game_over == o.game_over && self.won == o.won,
                    self.timer_running == o.timer_running && self.game_started == o.game_started,
                decreases self.width - x,
            {
                if self.grid[y as usize][x as usize] != MINE {
                    let count = self.count_mines_around(x, y);
                    proof {
                        assert forall|i: int| 0 <= i <= 8 implies #[trigger] self.mines_around(x as int, y as int, i)
                            == o.mines_around(x as int, y as int, i) by {
                            lemma_same_mines(*self, o, x as int, y as int, i);
                        }
                    }
                    self.grid[y as usize][x as usize] = count;
                }
                x += 1;
            }
            y += 1;
        }
    }

    /// `chosen` lists distinct free cells, as many as there are mines to
    /// place unless fewer cells are free, and `t` has mines exactly on the old
    /// mines and the chosen cells.
    pub open spec fn mines_chosen(&self, t: &Self, chosen: Seq<(int, int)>, sx: u16, sy: u16) -> bool {
        &&& chosen.len() == (if self.mines > 0 {
            self.mines as int
        } else {
            0
        })
        &&& chosen.no_duplicates()
        &&& forall|k: int|
            0 <= k < chosen.len() ==> self.free_for_mine((#[trigger] chosen[k]).0, chosen[k].1, sx, sy)
        &&& forall|y: int, x: int|
            0 <= y < 20 && 0 <= x < 24 ==> (#[trigger] t.grid[y][x] == MINE) == (self.grid[y][x] == MINE
                || chosen.contains((x, y)))
    }

    /// The free cells (see `free_for_mine`) among the first `n` cells of the
    /// 24-column grid in row-major order.
    pub open spec fn free_list(&self, sx: u16, sy: u16, n: int) -> Seq<(int, int)>
        decreases n,
    {
        if n <= 0 {
            Seq::empty()
        } else {
            let rest = self.free_list(sx, sy, n - 1);
            let (x, y) = ((n - 1) % 24, (n - 1) / 24);
            if self.free_for_mine(x, y, sx, sy) {
                rest.push((x, y))
            } else {
                rest
            }
        }
    }

    /// There are at least as many free cells as mines to place, for a first
    /// dig at `(sx, sy)`.
    pub open spec fn room_for_mines(&self, sx: u16, sy: u16) -> bool {
        self.mines <= self.free_list(sx, sy, 480).len()
    }

    proof fn lemma_free_list(&self, sx: u16, sy: u16, n: int)
        requires
            0 <= n <= 480,
        ensures
            self.free_list(sx, sy, n).no_duplicates(),
            forall|k: int|
                0 <= k < self.free_list(sx, sy, n).len() ==> 0 <= (#[trigger] self.free_list(sx, sy, n)[k]).0 < 24
                    && 0 <= self.free_list(sx, sy, n)[k].1 && self.free_list(sx, sy, n)[k].1 * 24
                    + self.free_list(sx, sy, n)[k].0 < n && self.free_for_mine(
                    self.free_list(sx, sy, n)[k].0,
                    self.free_list(sx, sy, n)[k].1,
                    sx,
                    sy,
                ),
            forall|x: int, y: int|
                0 <= x < 24 && 0 <= y && y * 24 + x < n && #[trigger] self.free_for_mine(x, y, sx, sy)
                    ==> self.free_list(sx, sy, n).contains((x, y)),
        decreases n,
    {
        if n > 0 {
            self.lemma_free_list(sx, sy, n - 1);
            let rest = self.free_list(sx, sy, n - 1);
            let (x0, y0) = ((n - 1) % 24, (n - 1) / 24);
            assert(y0 * 24 + x0 == n - 1);
            assert forall|x: int, y: int|
                0 <= x < 24 && 0 <= y && y * 24 + x < n && #[trigger] self.free_for_mine(x, y, sx, sy)
                    implies self.free_list(sx, sy, n).contains((x, y)) by {
                if y * 24 + x == n - 1 {
                    assert(x == x0 && y == y0);
                    assert(self.free_list(sx, sy, n).last() == (x, y));
                } else {
                    let k = choose|k: int| 0 <= k < rest.len() && rest[k] == (x, y);
                    assert(self.free_list(sx, sy, n)[k] == (x, y));
                }
            }
            if self.free_for_mine(x0, y0, sx, sy) {
                let fl = rest.push((x0, y0));
                assert forall|i: int, j: int| 0 <= i < j < fl.len() implies fl[i] != fl[j] by {
                    if j == rest.len() {
                        assert(fl[i].1 * 24 + fl[i].0 < n - 1);
                    }
                }
            }
        }
    }

    /// Every cell on the field without a mine holds its count of mines.
    pub open spec fn counts_ok(&self) -> bool {
        forall|y: int, x: int|
            0 <= y < 20 && 0 <= x < 24 && self.in_field(x, y) && self.grid[y][x] != MINE
                ==> #[trigger] self.grid[y][x] == self.mines_around(x, y, 8)
    }

    /// `t` is this game after mines were placed for a first dig at
    /// `(sx, sy)`: only the grid changed, the mines are some choice of free
    /// cells, and the counts are filled in.
    pub open spec fn placed_rel(&self, t: &Self, sx: u16, sy: u16) -> bool {
        &&& exists|chosen: Seq<(int, int)>| #[trigger] self.mines_chosen(t, chosen, sx, sy)
        &&& t.counts_ok()
        &&& *t == (MinesweeperGame { grid: t.grid, ..*self })
    }

    /// Places mines on the first dig: one at a time on a random cell that is
    /// on the field, has no mine and lies outside the 3x3 block around
    /// `(safe_x, safe_y)`, until `mines` are placed (there must be room for
    /// them); then fills in the counts. `chosen` below is the random part.
    pub fn place_mines(&mut self, safe_x: u16, safe_y: u16)
        requires
            old(self).wf(),
            old(self).room_for_mines(safe_x, safe_y),
        ensures
            old(self).placed_rel(&*final(self), safe_x, safe_y),
    {
        let ghost o = *self;
        let ghost mut chosen: Seq<(int, int)> = Seq::empty();
        let mut placed: i32 = 0;
        while placed < self.mines
            invariant
                self.wf(),
                0 <= placed,
                placed <= self.mines || placed == 0,
                placed == chosen.len(),
                self.width == o.width && self.height == o.height && self.diff == o.diff,
                self.cursor_x == o.cursor_x && self.cursor_y == o.cursor_y,
                chosen.no_duplicates(),
                forall|k: int| 0 <= k < chosen.len() ==> o.free_for_mine((#[trigger] chosen[k]).0, chosen[k].1, safe_x, safe_y),
                forall|y: int, x: int|
                    0 <= y < 20 && 0 <= x < 24 ==> (#[trigger] self.grid[y][x] == MINE) == (o.grid[y][x]
                        == MINE || chosen.contains((x, y))),
                forall|y: int, x: int|
                    0 <= y < 20 && 0 <= x < 24 && !(o.grid[y][x] == MINE || chosen.contains((x, y))) ==> #[trigger] self.grid[y][x] == o.grid[y][x],
                self.revealed == o.revealed && self.flagged == o.flagged,
                self.mines == o.mines && self.flag_mode == o.flag_mode && self.first_click == o.first_click,
                self.game_over == o.game_over && self.won == o.won,
                self.timer_running == o.timer_running && self.game_started == o.game_started,
            ensures
                placed < self.mines ==> forall|x: int, y: int|
                    !(o.free_for_mine(x, y, safe_x, safe_y) && !chosen.contains((x, y))),
            decreases self.mines - placed,
        {
            let cells = self.free_cells(safe_x, safe_y);
            if cells.len() == 0 {
                proof {
                    assert forall|x: int, y: int| !(o.free_for_mine(x, y, safe_x, safe_y) && !chosen.contains((x, y))) by {
                        if o.free_for_mine(x, y, safe_x, safe_y) && !chosen.contains((x, y)) {
                            assert(self.free_for_mine(x, y, safe_x, safe_y));
                        }
                    }
                }
                break;
            }
            let k = random_index(cells.len());
            let (x, y) = cells[k];
            assert(self.free_for_mine(x as int, y as int, safe_x, safe_y));
            assert(!chosen.contains((x as int, y as int)));
            let ghost before = *self;
            let ghost p = (x as int, y as int);
            self.grid[y as usize][x as usize] = MINE;
            proof {
                assert forall|q: (int, int)| chosen.push(p).contains(q) <==> (chosen.contains(q) || q == p) by {
                    if chosen.push(p).contains(q) {
                        let j = choose|j: int| 0 <= j < chosen.push(p).len() && chosen.push(p)[j] == q;
                        if j < chosen.len() {
                            assert(chosen.contains(q));
                        }
                    }
                    if chosen.contains(q) {
                        let j = choose|j: int| 0 <= j < chosen.len() && chosen[j] == q;
                        assert(chosen.push(p)[j] == q);
                    }
                    if q == p {
                        assert(chosen.push(p)[chosen.len() as int] == q);
                    }
                }
                assert(chosen.push(p).no_duplicates()) by {
                    assert forall|i: int, j: int| 0 <= i < j < chosen.push(p).len() implies chosen.push(p)[i]
                        != chosen.push(p)[j] by {
                        if j == chosen.len() {
                            assert(chosen.contains(chosen[i]));
                        }
                    }
                }
                chosen = chosen.push(p);
            }
            placed += 1;
        }
        let ghost mid = *self;
        self.fill_counts();
        proof {
            assert forall|y: int, x: int|
                0 <= y < 20 && 0 <= x < 24 && self.in_field(x, y) && self.grid[y][x] != MINE
                    implies #[trigger] self.grid[y][x] == self.mines_around(x, y, 8) by {
                lemma_same_mines(*self, mid, x, y, 8);
                lemma_mines_around_bound(mid, x, y, 8);
            }
            if placed < o.mines {
                // Every free cell was chosen, so there are fewer free cells
                // than mines.
                let fl = o.free_list(safe_x, safe_y, 480);
                o.lemma_free_list(safe_x, safe_y, 480);
                assert forall|q: (int, int)| fl.to_set().contains(q) implies chosen.to_set().contains(q) by {
                    let k = choose|k: int| 0 <= k < fl.len() && fl[k] == q;
                    assert(fl[k] == q);
                    assert(o.free_for_mine(q.0, q.1, safe_x, safe_y));
                }
                fl.unique_seq_to_set();
                chosen.unique_seq_to_set();
                vstd::set_lib::lemma_len_subset(fl.to_set(), chosen.to_set());
                assert(false);
            }
            assert(o.mines_chosen(&*self, chosen, safe_x, safe_y));
        }
    }
}

// ---------------------------------------------------------------------------
// Revealing
// ---------------------------------------------------------------------------

impl MinesweeperGame {
    /// A cell that a dig can uncover: on the field, covered, not flagged.
    pub open spec fn revealable(&self, x: int, y: int) -> bool {
        self.in_field(x, y) && !self.revealed[y][x] && !self.flagged[y][x]
    }

    /// A revealable cell with no mine around it: uncovering it uncovers its
    /// neighbours too.
    pub open spec fn opener(&self, x: int, y: int) -> bool {
        self.revealable(x, y) && self.grid[y][x] == 0
    }

    /// No cell marked 0 on the field touches a mine on the field.
    pub open spec fn zero_safe(&self) -> bool {
        forall|x: int, y: int, nx: int, ny: int|
            #![trigger self.grid[y][x], self.grid[ny][nx]]
            self.in_field(x, y) && self.grid[y][x] == 0 && self.in_field(nx, ny) && adjacent(x, y, nx, ny)
                ==> self.grid[ny][nx] != MINE
    }

    /// Step `i` of a path: its cell opens, and the next cell is a neighbour.
    pub open spec fn link(&self, p: Seq<(int, int)>, i: int) -> bool {
        self.opener(p[i].0, p[i].1) && adjacent(p[i].0, p[i].1, p[i + 1].0, p[i + 1].1)
    }

    /// A chain of opening neighbours from `(x, y)` that ends on a revealable
    /// cell.
    pub open spec fn is_path(&self, p: Seq<(int, int)>, x: int, y: int) -> bool {
        &&& p.len() >= 1
        &&& p[0] == (x, y)
        &&& forall|i: int| 0 <= i < p.len() - 1 ==> #[trigger] self.link(p, i)
        &&& self.revealable(p.last().0, p.last().1)
    }

    /// Digging at `(x, y)` uncovers `(cx, cy)`.
    pub open spec fn reaches(&self, x: int, y: int, cx: int, cy: int) -> bool {
        exists|p: Seq<(int, int)>| #[trigger] self.is_path(p, x, y) && p.last() == (cx, cy)
    }

    /// `t` is this game after a dig at `(x, y)`: every cell the dig reaches is
    /// uncovered, and the game is lost if the dug cell holds a mine.
    pub open spec fn reveal_rel(&self, t: &Self, x: int, y: int) -> bool {
        &&& forall|yy: int, xx: int|
            0 <= yy < 20 && 0 <= xx < 24 ==> #[trigger] t.revealed[yy][xx] == (self.revealed[yy][xx]
                || self.reaches(x, y, xx, yy))
        &&& t.game_over == (self.game_over || (self.revealable(x, y) && self.grid[y][x] == MINE))
        &&& *t == (MinesweeperGame { revealed: t.revealed, game_over: t.game_over, ..*self })
    }
}

/// Pushes the neighbours of `(x, y)` that lie on a `w` by `h` field.
fn push_neighbours(stack: &mut Vec<(u16, u16)>, x: u16, y: u16, w: u16, h: u16)
    requires
        x < w <= 24,
        y < h <= 20,
    ensures
        final(stack)@.len() >= old(stack)@.len(),
        final(stack)@.len() <= old(stack)@.len() + 8,
        final(stack)@.subrange(0, old(stack)@.len() as int) == old(stack)@,
        forall|k: int|
            old(stack)@.len() <= k < final(stack)@.len() ==> (#[trigger] final(stack)@[k]).0 < w
                && final(stack)@[k].1 < h && adjacent(
                x as int,
                y as int,
                final(stack)@[k].0 as int,
                final(stack)@[k].1 as int,
            ),
        forall|i: int|
            0 <= i < 8 && 0 <= x + nb_off(i).0 < w && 0 <= y + nb_off(i).1 < h
                ==> final(stack)@.contains(((x + #[trigger] nb_off(i).0) as u16, (y + nb_off(i).1) as u16)),
{
    let ghost start = stack@;
    let mut i: usize = 0;
    while i < 8
        invariant
            x < w <= 24,
            y < h <= 20,
            i <= 8,
            start.len() <= stack@.len() <= start.len() + i,
            stack@.subrange(0, start.len() as int) == start,
            forall|k: int|
                start.len() <= k < stack@.len() ==> (#[trigger] stack@[k]).0 < w && stack@[k].1 < h
                    && adjacent(x as int, y as int, stack@[k].0 as int, stack@[k].1 as int),
            forall|j: int|
                0 <= j < i && 0 <= x + nb_off(j).0 < w && 0 <= y + nb_off(j).1 < h
                    ==> stack@.contains(((x + #[trigger] nb_off(j).0) as u16, (y + nb_off(j).1) as u16)),
        decreases 8 - i,
    {
        let (dx, dy) = nb_offset(i);
        let nx = x as i32 + dx;
        let ny = y as i32 + dy;
        if nx >= 0 && nx < w as i32 && ny >= 0 && ny < h as i32 {
            let ghost before = stack@;
            stack.push((nx as u16, ny as u16));
            proof {
                assert(stack@[stack@.len() - 1] == (nx as u16, ny as u16));
                assert forall|j: int|
                    0 <= j <= i && 0 <= x + nb_off(j).0 < w && 0 <= y + nb_off(j).1 < h
                        implies stack@.contains(((x + #[trigger] nb_off(j).0) as u16, (y + nb_off(j).1) as u16)) by {
                    if j < i {
                        let q = ((x + nb_off(j).0) as u16, (y + nb_off(j).1) as u16);
                        assert(before.contains(q));
                        let t = choose|t: int| 0 <= t < before.len() && before[t] == q;
                        assert(stack@[t] == q);
                    } else {
                        assert(stack@[stack@.len() - 1] == ((x + nb_off(j).0) as u16, (y + nb_off(j).1) as u16));
                    }
                }
                assert(stack@.subrange(0, start.len() as int) =~= start);
            }
        }
        i += 1;
    }
}

/// The `i`-th neighbour of `(qx, qy)` is off the field, uncovered, flagged or
/// waiting on the stack.
pub open spec fn handled(s: MinesweeperGame, o: MinesweeperGame, st: Seq<(u16, u16)>, qx: int, qy: int, i: int) -> bool {
    let nx = qx + nb_off(i).0;
    let ny = qy + nb_off(i).1;
    !o.in_field(nx, ny) || s.revealed[ny][nx] || o.flagged[ny][nx] || st.contains((nx as u16, ny as u16))
}

proof fn lemma_reach_self(g: MinesweeperGame, x: int, y: int)
    requires
        g.revealable(x, y),
    ensures
        g.reaches(x, y, x, y),
{
    let p = seq![(x, y)];
    assert(g.is_path(p, x, y));
}

proof fn lemma_reach_none(g: MinesweeperGame, x: int, y: int, cx: int, cy: int)
    requires
        !g.revealable(x, y),
    ensures
        !g.reaches(x, y, cx, cy),
{
    if g.reaches(x, y, cx, cy) {
        let p = choose|p: Seq<(int, int)>| #[trigger] g.is_path(p, x, y) && p.last() == (cx, cy);
        if p.len() > 1 {
            assert(g.link(p, 0));
        }
    }
}

/// From a cell that does not open, a dig reaches only that cell.
proof fn lemma_reach_only(g: MinesweeperGame, x: int, y: int, cx: int, cy: int)
    requires
        g.revealable(x, y),
        g.grid[y][x] != 0,
    ensures
        g.reaches(x, y, cx, cy) <==> (cx == x && cy == y),
{
    lemma_reach_self(g, x, y);
    if g.reaches(x, y, cx, cy) {
        let p = choose|p: Seq<(int, int)>| #[trigger] g.is_path(p, x, y) && p.last() == (cx, cy);
        if p.len() > 1 {
            assert(g.link(p, 0));
        }
    }
}

proof fn lemma_reach_extend(g: MinesweeperGame, x: int, y: int, q: (int, int), e: (int, int))
    requires
        g.reaches(x, y, q.0, q.1),
        g.opener(q.0, q.1),
        adjacent(q.0, q.1, e.0, e.1),
        g.revealable(e.0, e.1),
    ensures
        g.reaches(x, y, e.0, e.1),
{
    let p = choose|p: Seq<(int, int)>| #[trigger] g.is_path(p, x, y) && p.last() == q;
    let p2 = p.push(e);
    assert forall|i: int| 0 <= i < p2.len() - 1 implies #[trigger] g.link(p2, i) by {
        if i < p.len() - 1 {
            assert(g.link(p, i));
        }
    }
    assert(g.is_path(p2, x, y));
}

/// Once nothing waits on the stack, every cell on a path from an uncovered
/// start is uncovered.
proof fn lemma_complete(s: MinesweeperGame, o: MinesweeperGame, p: Seq<(int, int)>, x: int, y: int, k: int)
    requires
        o.wf(),
        o.is_path(p, x, y),
        0 <= k < p.len(),
        s.revealed[y][x],
        forall|qx: int, qy: int, i: int|
            0 <= qy < 20 && 0 <= qx < 24 && 0 <= i < 8 && s.revealed[qy][qx] && o.opener(qx, qy)
                ==> #[trigger] handled(s, o, Seq::empty(), qx, qy, i),
    ensures
        s.revealed[p[k].1][p[k].0],
    decreases k,
{
    if k > 0 {
        lemma_complete(s, o, p, x, y, k - 1);
        assert(o.link(p, k - 1));
        let q = p[k - 1];
        let e = p[k];
        lemma_nb_complete(e.0 - q.0, e.1 - q.1);
        let i = choose|i: int| 0 <= i < 8 && #[trigger] nb_off(i) == (e.0 - q.0, e.1 - q.1);
        assert(handled(s, o, Seq::empty(), q.0, q.1, i));
        if k < p.len() - 1 {
            assert(o.link(p, k));
        }
    }
}

impl MinesweeperGame {
    /// Digs at `(x, y)`: uncovers the cell if it is on the field, covered and
    /// not flagged; a mine there ends the game; a cell with no mine around it
    /// uncovers its neighbours in turn.
    pub fn uncover(&mut self, x: u16, y: u16)
        requires
            old(self).wf(),
            old(self).zero_safe(),
        ensures
            old(self).reveal_rel(&*final(self), x as int, y as int),
    {
        let ghost o = *self;
        if x >= self.width || y >= self.height || self.revealed[y as usize][x as usize]
            || self.flagged[y as usize][x as usize] {
            proof {
                assert forall|yy: int, xx: int| 0 <= yy < 20 && 0 <= xx < 24 implies !o.reaches(x as int, y as int, xx, yy) by {
                    lemma_reach_none(o, x as int, y as int, xx, yy);
                }
            }
            return;
        }
        self.revealed[y as usize][x as usize] = true;
        if self.grid[y as usize][x as usize] != 0 {
            if self.grid[y as usize][x as usize] == MINE {
                self.game_over = true;
            }
            proof {
                assert forall|yy: int, xx: int| 0 <= yy < 20 && 0 <= xx < 24 implies #[trigger] self.revealed[yy][xx]
                    == (o.revealed[yy][xx] || o.reaches(x as int, y as int, xx, yy)) by {
                    lemma_reach_only(o, x as int, y as int, xx, yy);
                }
            }
            return;
        }
        proof {
            lemma_reach_self(o, x as int, y as int);
        }
        let mut stack: Vec<(u16, u16)> = Vec::new();
        push_neighbours(&mut stack, x, y, self.width, self.height);
        let ghost mut parents: Seq<(int, int)> = Seq::new(stack@.len(), |k: int| (x as int, y as int));
        proof {
            assert forall|qx: int, qy: int, i: int|
                0 <= qy < 20 && 0 <= qx < 24 && 0 <= i < 8 && self.revealed[qy][qx] && o.opener(qx, qy)
                    implies #[trigger] handled(*self, o, stack@, qx, qy, i) by {
                assert(qx == x && qy == y);
            }
            lemma_covered_bounds(self.revealed, 480);
        }
        while stack.len() > 0
            invariant
                o.wf(),
                o.zero_safe(),
                *self == (MinesweeperGame { revealed: self.revealed, ..o }),
                o.opener(x as int, y as int),
                self.revealed[y as int][x as int],
                parents.len() == stack@.len(),
                forall|k: int|
                    0 <= k < stack@.len() ==> o.in_field((#[trigger] stack@[k]).0 as int, stack@[k].1 as int)
                        && o.reaches(x as int, y as int, parents[k].0, parents[k].1) && o.opener(
                        parents[k].0,
                        parents[k].1,
                    ) && adjacent(parents[k].0, parents[k].1, stack@[k].0 as int, stack@[k].1 as int),
                forall|yy: int, xx: int|
                    0 <= yy < 20 && 0 <= xx < 24 ==> (o.revealed[yy][xx] ==> #[trigger] self.revealed[yy][xx]),
                forall|yy: int, xx: int|
                    0 <= yy < 20 && 0 <= xx < 24 ==> (#[trigger] self.revealed[yy][xx] ==> (o.revealed[yy][xx]
                        || o.reaches(x as int, y as int, xx, yy))),
                forall|qx: int, qy: int, i: int|
                    0 <= qy < 20 && 0 <= qx < 24 && 0 <= i < 8 && self.revealed[qy][qx] && o.opener(qx, qy)
                        ==> #[trigger] handled(*self, o, stack@, qx, qy, i),
            decreases covered(self.revealed, 480), stack@.len(),
        {
            let ghost st = stack@;
            let ghost before = *self;
            let e = stack.pop().unwrap();
            let ghost q = parents.last();
            proof {
                assert(st[st.len() - 1] == e);
                parents = parents.drop_last();
                assert forall|k: int| 0 <= k < stack@.len() implies #[trigger] stack@[k] == st[k] by {}
            }
            let (cx, cy) = e;
            if self.revealed[cy as usize][cx as usize] || self.flagged[cy as usize][cx as usize] {
                proof {
                    assert forall|qx: int, qy: int, i: int|
                        0 <= qy < 20 && 0 <= qx < 24 && 0 <= i < 8 && self.revealed[qy][qx] && o.opener(qx, qy)
                            implies #[trigger] handled(*self, o, stack@, qx, qy, i) by {
                        assert(handled(before, o, st, qx, qy, i));
                        let nx = qx + nb_off(i).0;
                        let ny = qy + nb_off(i).1;
                        let n16 = (nx as u16, ny as u16);
                        if o.in_field(nx, ny) && !self.revealed[ny][nx] && !o.flagged[ny][nx] {
                            let t = choose|t: int| 0 <= t < st.len() && st[t] == n16;
                            if t == st.len() - 1 {
                                assert(false);
                            } else {
                                assert(stack@[t] == n16);
                            }
                        }
                    }
                }
            } else {
                proof {
                    lemma_reach_extend(o, x as int, y as int, q, (cx as int, cy as int));
                    assert(o.grid[cy as int][cx as int] != MINE);
                }
                self.revealed[cy as usize][cx as usize] = true;
                proof {
                    lemma_uncover(before.revealed, self.revealed, cx as int, cy as int, 480);
                    lemma_covered_bounds(self.revealed, 480);
                }
                let ghost popped = stack@;
                if self.grid[cy as usize][cx as usize] == 0 {
                    push_neighbours(&mut stack, cx, cy, self.width, self.height);
                    proof {
                        parents = parents + Seq::new((stack@.len() - popped.len()) as nat, |k: int| (cx as int, cy as int));
                    }
                }
                proof {
                    assert forall|k: int| 0 <= k < popped.len() implies #[trigger] stack@[k] == popped[k] by {
                        assert(stack@.subrange(0, popped.len() as int)[k] == popped[k]);
                    }
                    assert forall|qx: int, qy: int, i: int|
                        0 <= qy < 20 && 0 <= qx < 24 && 0 <= i < 8 && self.revealed[qy][qx] && o.opener(qx, qy)
                            implies #[trigger] handled(*self, o, stack@, qx, qy, i) by {
                        let nx = qx + nb_off(i).0;
                        let ny = qy + nb_off(i).1;
                        let n16 = (nx as u16, ny as u16);
                        if qx == cx && qy == cy {
                            if o.in_field(nx, ny) {
                                assert(stack@.contains(((cx + nb_off(i).0) as u16, (cy + nb_off(i).1) as u16)));
                            }
                        } else {
                            assert(handled(before, o, st, qx, qy, i));
                            if o.in_field(nx, ny) && !self.revealed[ny][nx] && !o.flagged[ny][nx] {
                                let t = choose|t: int| 0 <= t < st.len() && st[t] == n16;
                                if t == st.len() - 1 {
                                    assert(false);
                                } else {
                                    assert(stack@[t] == n16);
                                }
                            }
                        }
                    }
                }
            }
        }
        proof {
            assert(stack@ =~= Seq::<(u16, u16)>::empty());
            assert forall|yy: int, xx: int| 0 <= yy < 20 && 0 <= xx < 24 implies #[trigger] self.revealed[yy][xx]
                == (o.revealed[yy][xx] || o.reaches(x as int, y as int, xx, yy)) by {
                if o.reaches(x as int, y as int, xx, yy) {
                    let p = choose|p: Seq<(int, int)>| #[trigger] o.is_path(p, x as int, y as int) && p.last() == (xx, yy);
                    lemma_complete(*self, o, p, x as int, y as int, p.len() - 1);
                }
            }
        }
    }
}

/// A mine among the first `k` neighbours makes the count positive.
proof fn lemma_mines_around_pos(g: MinesweeperGame, x: int, y: int, j: int, k: int)
    requires
        0 <= j < k,
        g.in_field(x + nb_off(j).0, y + nb_off(j).1),
        g.grid[y + nb_off(j).1][x + nb_off(j).0] == MINE,
    ensures
        g.mines_around(x, y, k) >= 1,
    decreases k,
{
    lemma_mines_around_bound(g, x, y, k - 1);
    if j < k - 1 {
        lemma_mines_around_pos(g, x, y, j, k - 1);
    }
}

/// With the counts filled in, a cell marked 0 touches no mine.
pub proof fn lemma_counts_zero_safe(g: MinesweeperGame)
    requires
        g.wf(),
        g.counts_ok(),
    ensures
        g.zero_safe(),
{
    assert forall|x: int, y: int, nx: int, ny: int|
        #![trigger g.grid[y][x], g.grid[ny][nx]]
        g.in_field(x, y) && g.grid[y][x] == 0 && g.in_field(nx, ny) && adjacent(x, y, nx, ny)
            implies g.grid[ny][nx] != MINE by {
        if g.grid[ny][nx] == MINE {
            assert(g.grid[y][x] == g.mines_around(x, y, 8));
            lemma_nb_complete(nx - x, ny - y);
            let j = choose|j: int| 0 <= j < 8 && #[trigger] nb_off(j) == (nx - x, ny - y);
            lemma_mines_around_pos(g, x, y, j, 8);
        }
    }
}

impl MinesweeperGame {
    /// Flags among the first `i` neighbours of `(x, y)` on the field.
    pub open spec fn flags_around(&self, x: int, y: int, i: int) -> int
        decreases i,
    {
        if i <= 0 {
            0
        } else {
            let d = nb_off(i - 1);
            self.flags_around(x, y, i - 1) + if self.in_field(x + d.0, y + d.1) && self.flagged[y
                + d.1][x + d.0] {
                1int
            } else {
                0
            }
        }
    }

    /// `s` runs a dig on each neighbour of `(x, y)` in turn, from `s[0]`.
    pub open spec fn chord_chain(s: Seq<Self>, x: int, y: int) -> bool {
        &&& s.len() == 9
        &&& forall|i: int| 0 <= i < 8 ==> #[trigger] s[i].reveal_rel(&s[i + 1], x + nb_off(i).0, y + nb_off(i).1)
    }

    /// A dig on an uncovered number whose flags around match it: `t` is this
    /// game after digging each neighbour in turn; otherwise nothing changes.
    pub open spec fn chord_rel(&self, t: &Self, x: int, y: int) -> bool {
        let c = self.grid[y][x];
        if !self.revealed[y][x] || c == 0 || c == MINE || self.flags_around(x, y, 8) != c {
            *t == *self
        } else {
            exists|s: Seq<Self>| #[trigger] Self::chord_chain(s, x, y) && s[0] == *self && s[8] == *t
        }
    }

    fn count_flags_around(&self, x: u16, y: u16) -> (r: u8)
        requires
            self.wf(),
            x < self.width,
            y < self.height,
        ensures
            r == self.flags_around(x as int, y as int, 8),
    {
        let mut count: u8 = 0;
        let mut i: usize = 0;
        while i < 8
            invariant
                self.wf(),
                x < self.width,
                y < self.height,
                i <= 8,
                count == self.flags_around(x as int, y as int, i as int),
                count <= i,
            decreases 8 - i,
        {
            let (dx, dy) = nb_offset(i);
            let nx = x as i32 + dx;
            let ny = y as i32 + dy;
            if nx >= 0 && nx < self.width as i32 && ny >= 0 && ny < self.height as i32
                && self.flagged[ny as usize][nx as usize] {
                count += 1;
            }
            i += 1;
        }
        count
    }

    /// Digging on an uncovered number with as many flags around it as its
    /// count digs all its neighbours.
    pub fn chord(&mut self, x: u16, y: u16)
        requires
            old(self).wf(),
            old(self).zero_safe(),
            x < old(self).width,
            y < old(self).height,
        ensures
            old(self).chord_rel(&*final(self), x as int, y as int),
            *final(self) == (MinesweeperGame {
                revealed: final(self).revealed,
                game_over: final(self).game_over,
                ..*old(self)
            }),
    {
        if !self.revealed[y as usize][x as usize] {
            return;
        }
        let cell = self.grid[y as usize][x as usize];
        if cell == 0 || cell == MINE {
            return;
        }
        let flag_count = self.count_flags_around(x, y);
        if flag_count != cell {
            return;
        }
        let ghost o = *self;
        let ghost mut states: Seq<Self> = seq![*self];
        let mut i: usize = 0;
        while i < 8
            invariant
                o.wf(),
                o.zero_safe(),
                x < o.width,
                y < o.height,
                i <= 8,
                states.len() == i + 1,
                states[0] == o,
                states[i as int] == *self,
                self.wf(),
                self.zero_safe(),
                *self == (MinesweeperGame { revealed: self.revealed, game_over: self.game_over, ..o }),
                forall|j: int| 0 <= j < i ==> #[trigger] states[j].reveal_rel(&states[j + 1], x + nb_off(j).0, y + nb_off(j).1),
            decreases 8 - i,
        {
            let (dx, dy) = nb_offset(i);
            let nx = x as i32 + dx;
            let ny = y as i32 + dy;
            let ghost before = *self;
            if nx >= 0 && ny >= 0 {
                self.uncover(nx as u16, ny as u16);
            } else {
                proof {
                    assert forall|yy: int, xx: int| 0 <= yy < 20 && 0 <= xx < 24 implies !before.reaches(nx as int, ny as int, xx, yy) by {
                        lemma_reach_none(before, nx as int, ny as int, xx, yy);
                    }
                }
            }
            proof {
                assert(before.reveal_rel(&*self, x + nb_off(i as int).0, y + nb_off(i as int).1));
                states = states.push(*self);
                assert forall|j: int| 0 <= j <= i implies #[trigger] states[j].reveal_rel(&states[j + 1], x + nb_off(j).0, y + nb_off(j).1) by {
                    if j < i {
                        assert(states[j] == states.drop_last()[j]);
                    }
                }
            }
            i += 1;
        }
        proof {
            assert(Self::chord_chain(states, x as int, y as int));
        }
    }
}

impl MinesweeperGame {
    /// Every cell on the field without a mine is uncovered.
    pub open spec fn all_clear(&self) -> bool {
        forall|y: int, x: int| 0 <= y < 20 && 0 <= x < 24 && self.in_field(x, y) ==> #[trigger] self.grid[y][x] == MINE
            || self.revealed[y][x]
    }

    /// The flags on the field lie exactly on the mines.
    pub open spec fn flags_right(&self) -> bool {
        forall|y: int, x: int|
            0 <= y < 20 && 0 <= x < 24 && self.in_field(x, y) ==> (#[trigger] self.grid[y][x] == MINE)
                == self.flagged[y][x]
    }

    /// The round is won now.
    pub open spec fn wins(&self) -> bool {
        (self.all_clear() || self.flags_right()) && !self.game_over
    }

    /// `t` is this game after the win check: a win ends the round, stops the
    /// clock and flags every mine; otherwise nothing changes.
    pub open spec fn check_rel(&self, t: &Self) -> bool {
        if self.wins() {
            &&& forall|y: int, x: int|
                0 <= y < 20 && 0 <= x < 24 ==> #[trigger] t.flagged[y][x] == (self.flagged[y][x] || (
                self.in_field(x, y) && self.grid[y][x] == MINE))
            &&& *t == (MinesweeperGame {
                flagged: t.flagged,
                won: true,
                game_over: true,
                timer_running: false,
                ..*self
            })
        } else {
            *t == *self
        }
    }

    /// Ends the round as won when every safe cell is uncovered, or when the
    /// flags lie exactly on the mines.
    pub fn check_win(&mut self)
        requires
            old(self).wf(),
        ensures
            old(self).check_rel(&*final(self)),
    {
        let mut all_revealed = true;
        let mut all_mines_flagged = true;
        let mut wrong_flags = false;
        let mut y: u16 = 0;
        while y < self.height
            invariant
                self.wf(),
                y <= self.height,
                all_revealed == (forall|yy: int, xx: int|
                    0 <= yy < y && 0 <= xx < self.width ==> #[trigger] self.grid[yy][xx] == MINE
                        || self.revealed[yy][xx]),
                all_mines_flagged == (forall|yy: int, xx: int|
                    0 <= yy < y && 0 <= xx < self.width ==> (#[trigger] self.grid[yy][xx] == MINE
                        ==> self.flagged[yy][xx])),
                wrong_flags == (exists|yy: int, xx: int|
                    0 <= yy < y && 0 <= xx < self.width && #[trigger] self.grid[yy][xx] != MINE
                        && self.flagged[yy][xx]),
            decreases self.height - y,
        {
            let mut x: u16 = 0;
            while x < self.width
                invariant
                    self.wf(),
                    y < self.height,
                    x <= self.width,
                    all_revealed == (forall|yy: int, xx: int|
                        ((0 <= yy < y && 0 <= xx < self.width) || (yy == y && 0 <= xx < x))
                            ==> #[trigger] self.grid[yy][xx] == MINE || self.revealed[yy][xx]),
                    all_mines_flagged == (forall|yy: int, xx: int|
                        ((0 <= yy < y && 0 <= xx < self.width) || (yy == y && 0 <= xx < x))
                            ==> (#[trigger] self.grid[yy][xx] == MINE ==> self.flagged[yy][xx])),
                    wrong_flags == (exists|yy: int, xx: int|
                        ((0 <= yy < y && 0 <= xx < self.width) || (yy == y && 0 <= xx < x))
                            && #[trigger] self.grid[yy][xx] != MINE && self.flagged[yy][xx]),
                decreases self.width - x,
            {
                let is_mine = self.grid[y as usize][x as usize] == MINE;
                let is_revealed = self.revealed[y as usize][x as usize];
                let is_flagged = self.flagged[y as usize][x as usize];
                if !is_mine && !is_revealed {
                    all_revealed = false;
                }
                if is_mine && !is_flagged {
                    all_mines_flagged = false;
                }
                if !is_mine && is_flagged {
                    wrong_flags = true;
                }
                x += 1;
            }
            y += 1;
        }
        proof {
            assert(all_revealed == self.all_clear());
            if all_mines_flagged && !wrong_flags {
                assert forall|yy: int, xx: int|
                    0 <= yy < 20 && 0 <= xx < 24 && self.in_field(xx, yy) implies (#[trigger] self.grid[yy][xx]
                        == MINE) == self.flagged[yy][xx] by {
                    if self.grid[yy][xx] != MINE && self.flagged[yy][xx] {
                        assert(wrong_flags);
                    }
                }
            }
            if self.flags_right() {
                assert(all_mines_flagged);
                if wrong_flags {
                    let (yy, xx) = choose|yy: int, xx: int|
                        0 <= yy < self.height && 0 <= xx < self.width && #[trigger] self.grid[yy][xx] != MINE
                            && self.flagged[yy][xx];
                    assert(self.in_field(xx, yy));
                }
            }
        }
        if (all_revealed || (all_mines_flagged && !wrong_flags)) && !self.game_over {
            self.won = true;
            self.game_over = true;
            self.timer_running = false;
            let ghost o = *self;
            let mut y: u16 = 0;
            while y < self.height
                invariant
                    o.wf(),
                    y <= o.height,
                    *self == (MinesweeperGame { flagged: self.flagged, ..o }),
                    forall|yy: int, xx: int|
                        0 <= yy < 20 && 0 <= xx < 24 ==> #[trigger] self.flagged[yy][xx] == (o.flagged[yy][xx] || (
                        yy < y && o.in_field(xx, yy) && o.grid[yy][xx] == MINE)),
                decreases o.height - y,
            {
                let mut x: u16 = 0;
                while x < self.width
                    invariant
                        o.wf(),
                        y < o.height,
                        x <= o.width,
                        *self == (MinesweeperGame { flagged: self.flagged, ..o }),
                        forall|yy: int, xx: int|
                            0 <= yy < 20 && 0 <= xx < 24 ==> #[trigger] self.flagged[yy][xx] == (o.flagged[yy][xx]
                                || ((yy < y || (yy == y && xx < x)) && o.in_field(xx, yy) && o.grid[yy][xx]
                                == MINE)),
                    decreases o.width - x,
                {
                    if self.grid[y as usize][x as usize] == MINE {
                        self.flagged[y as usize][x as usize] = true;
                    }
                    x += 1;
                }
                y += 1;
            }
        }
    }
}

impl MinesweeperGame {
    /// `m` is this game after acting on the cursor cell: toggling its flag in
    /// flag mode, else a chord on an uncovered cell or a dig on a covered one.
    pub open spec fn action_rel(&self, m: &Self) -> bool {
        let cx = self.cursor_x as int;
        let cy = self.cursor_y as int;
        if self.flag_mode {
            &&& forall|y: int, x: int|
                0 <= y < 20 && 0 <= x < 24 ==> #[trigger] m.flagged[y][x] == if y == cy && x == cx {
                    !self.flagged[y][x]
                } else {
                    self.flagged[y][x]
                }
            &&& *m == (MinesweeperGame { flagged: m.flagged, ..*self })
        } else if self.revealed[cy][cx] {
            self.chord_rel(m, cx, cy)
        } else {
            self.reveal_rel(m, cx, cy)
        }
    }

    /// `t` is this game after the action on the cursor cell and, unless the
    /// round ended, the win check.
    pub open spec fn dig_rel(&self, t: &Self) -> bool {
        exists|m: Self|
            #[trigger] self.action_rel(&m) && if m.game_over {
                *t == m
            } else {
                m.check_rel(t)
            }
    }

    /// The cursor action once mines are placed.
    fn dig(&mut self)
        requires
            old(self).ready(),
            !old(self).first_click,
        ensures
            old(self).dig_rel(&*final(self)),
            final(self).ready(),
            !final(self).first_click,
            final(self).grid == old(self).grid,
    {
        proof {
            lemma_counts_zero_safe(*self);
        }
        let ghost o = *self;
        let cx = self.cursor_x;
        let cy = self.cursor_y;
        if self.flag_mode {
            let f = self.flagged[cy as usize][cx as usize];
            self.flagged[cy as usize][cx as usize] = !f;
        } else if self.revealed[cy as usize][cx as usize] {
            self.chord(cx, cy);
        } else {
            self.uncover(cx, cy);
        }
        let ghost m = *self;
        assert(o.action_rel(&m));
        if !self.game_over {
            self.check_win();
        }
        proof {
            lemma_counts_kept(o, *self);
        }
    }

    /// `t` is this game after the key `key`.
    pub open spec fn key_rel(&self, t: &Self, key: i32) -> bool {
        if key == 38 {
            *t == (MinesweeperGame {
                cursor_y: if self.cursor_y > 0 {
                    (self.cursor_y - 1) as u16
                } else {
                    0
                },
                ..*self
            })
        } else if key == 40 {
            *t == (MinesweeperGame {
                cursor_y: if self.cursor_y + 1 < self.height - 1 {
                    (self.cursor_y + 1) as u16
                } else {
                    (self.height - 1) as u16
                },
                ..*self
            })
        } else if key == 37 {
            *t == (MinesweeperGame {
                cursor_x: if self.cursor_x > 0 {
                    (self.cursor_x - 1) as u16
                } else {
                    0
                },
                ..*self
            })
        } else if key == 39 {
            *t == (MinesweeperGame {
                cursor_x: if self.cursor_x + 1 < self.width - 1 {
                    (self.cursor_x + 1) as u16
                } else {
                    (self.width - 1) as u16
                },
                ..*self
            })
        } else if key == 10 || key == 32 {
            if self.game_over {
                self.init_rel(t)
            } else if self.first_click {
                exists|m: Self|
                    #[trigger] self.placed_rel(&m, self.cursor_x, self.cursor_y) && (MinesweeperGame {
                        first_click: false,
                        timer_running: true,
                        ..m
                    }).dig_rel(t)
            } else {
                self.dig_rel(t)
            }
        } else if key == 102 {
            *t == (MinesweeperGame { flag_mode: !self.flag_mode, ..*self })
        } else if 49 <= key <= 53 {
            (MinesweeperGame {
                diff: (key - 49) as usize,
                width: size_for(key - 49, 80, 24).0 as u16,
                height: size_for(key - 49, 80, 24).1 as u16,
                mines: size_for(key - 49, 80, 24).2 as i32,
                ..*self
            }).init_rel(t)
        } else {
            *t == *self
        }
    }

    /// Arrows move the cursor; Enter or Space digs (or flags in flag mode),
    /// placing the mines on the first dig and starting a new round after the
    /// end; `f` toggles flag mode; `1`..`5` pick a difficulty.
    pub fn handle_key(&mut self, key: i32, ch: char)
        requires
            old(self).ready(),
            (key == 10 || key == 32) && !old(self).game_over && old(self).first_click ==> old(
                self,
            ).room_for_mines(old(self).cursor_x, old(self).cursor_y),
        ensures
            old(self).key_rel(&*final(self), key),
            final(self).ready(),
    {
        let ghost o = *self;
        match key {
            38 => {
                self.cursor_y = self.cursor_y.saturating_sub(1);
            },
            40 => {
                let n = self.cursor_y + 1;
                self.cursor_y = if n < self.height - 1 {
                    n
                } else {
                    self.height - 1
                };
            },
            37 => {
                self.cursor_x = self.cursor_x.saturating_sub(1);
            },
            39 => {
                let n = self.cursor_x + 1;
                self.cursor_x = if n < self.width - 1 {
                    n
                } else {
                    self.width - 1
                };
            },
            10 | 32 => {
                if self.game_over {
                    self.init();
                    return;
                }
                if self.first_click {
                    let ghost o = *self;
                    self.place_mines(self.cursor_x, self.cursor_y);
                    let ghost m = *self;
                    self.first_click = false;
                    self.timer_running = true;
                    proof {
                        lemma_counts_kept(m, *self);
                    }
                    self.dig();
                    assert(o.placed_rel(&m, o.cursor_x, o.cursor_y));
                } else {
                    self.dig();
                }
            },
            102 => {
                self.flag_mode = !self.flag_mode;
            },
            49 | 50 | 51 | 52 | 53 => {
                self.diff = (key - 49) as usize;
                self.apply_diff();
                self.init();
            },
            _ => {},
        }
        proof {
            if !self.first_click && self.grid == o.grid && self.width == o.width && self.height == o.height {
                lemma_counts_kept(o, *self);
            }
        }
    }
}

/// The counts stay right while the grid and the field size stay.
proof fn lemma_counts_kept(a: MinesweeperGame, b: MinesweeperGame)
    requires
        a.counts_ok(),
        a.grid == b.grid,
        a.width == b.width,
        a.height == b.height,
        a.width <= 24 && a.height <= 20,
    ensures
        b.counts_ok(),
{
    assert forall|y: int, x: int|
        0 <= y < 20 && 0 <= x < 24 && b.in_field(x, y) && b.grid[y][x] != MINE
            implies #[trigger] b.grid[y][x] == b.mines_around(x, y, 8) by {
        assert(a.grid[y][x] == a.mines_around(x, y, 8));
        lemma_same_mines(a, b, x, y, 8);
    }
}

proof fn lemma_mines_around_bound(g: MinesweeperGame, x: int, y: int, i: int)
    requires
        0 <= i,
    ensures
        0 <= g.mines_around(x, y, i) <= i,
    decreases i,
{
    if i > 0 {
        lemma_mines_around_bound(g, x, y, i - 1);
    }
}

/// Two fields with the same size and the same mines count the same mines.
proof fn lemma_same_mines(a: MinesweeperGame, b: MinesweeperGame, x: int, y: int, i: int)
    requires
        a.width == b.width,
        a.height == b.height,
        forall|yy: int, xx: int| 0 <= yy < 20 && 0 <= xx < 24 ==> (#[trigger] a.grid[yy][xx] == MINE) == (
        b.grid[yy][xx] == MINE),
        a.width <= 24 && a.height <= 20,
    ensures
        a.mines_around(x, y, i) == b.mines_around(x, y, i),
    decreases i,
{
    if i > 0 {
        lemma_same_mines(a, b, x, y, i - 1);
    }
}

/// The first dig never hits a mine: on a covered cursor cell with no mine
/// yet, digging (not flagging) can end the round only as a win.
pub proof fn law_first_dig_safe(g: MinesweeperGame, t: MinesweeperGame)
    requires
        g.ready(),
        g.first_click,
        !g.game_over,
        !g.flag_mode,
        !g.revealed[g.cursor_y as int][g.cursor_x as int],
        g.grid[g.cursor_y as int][g.cursor_x as int] != MINE,
        g.key_rel(&t, 10),
    ensures
        t.game_over ==> t.won,
{
    let cx = g.cursor_x;
    let cy = g.cursor_y;
    let m = choose|m: MinesweeperGame|
        #[trigger] g.placed_rel(&m, cx, cy) && (MinesweeperGame {
            first_click: false,
            timer_running: true,
            ..m
        }).dig_rel(&t);
    let m2 = MinesweeperGame { first_click: false, timer_running: true, ..m };
    let chosen = choose|chosen: Seq<(int, int)>| #[trigger] g.mines_chosen(&m, chosen, cx, cy);
    if chosen.contains((cx as int, cy as int)) {
        let k = choose|k: int| 0 <= k < chosen.len() && chosen[k] == (cx as int, cy as int);
        assert(g.free_for_mine(chosen[k].0, chosen[k].1, cx, cy));
    }
    assert(m.grid[cy as int][cx as int] != MINE);
    let a = choose|a: MinesweeperGame| #[trigger] m2.action_rel(&a) && if a.game_over {
        t == a
    } else {
        a.check_rel(&t)
    };
    assert(!a.game_over);
}

/// A round is won by flags only when the flags lie exactly on the mines: if
/// `check_win` (`check_rel`) makes the round won while a safe cell of the
/// field is still covered, then every flagged cell of the field holds a
/// mine and every mine is flagged, before and after.
pub proof fn law_flag_win_needs_exact_flags(g: MinesweeperGame, t: MinesweeperGame, sx: int, sy: int)
    requires
        g.check_rel(&t),
        !g.won,
        t.won,
        0 <= sy < 20 && 0 <= sx < 24,
        g.in_field(sx, sy),
        g.grid[sy][sx] != MINE,
        !g.revealed[sy][sx],
    ensures
        forall|y: int, x: int|
            0 <= y < 20 && 0 <= x < 24 && g.in_field(x, y) ==> (#[trigger] g.flagged[y][x] <==> g.grid[y][x]
                == MINE),
        forall|y: int, x: int|
            0 <= y < 20 && 0 <= x < 24 && g.in_field(x, y) ==> (#[trigger] t.flagged[y][x] <==> g.grid[y][x]
                == MINE),
{
    assert(g.wins());
    assert(!g.all_clear()) by {
        assert(!(g.grid[sy][sx] == MINE || g.revealed[sy][sx]));
    }
}

/// A round still in play is won, and ends, once every safe cell of the field
/// is uncovered, or once the flags of the field lie exactly on its mines.
pub proof fn law_win_when_cleared_or_flagged(g: MinesweeperGame, t: MinesweeperGame)
    requires
        g.check_rel(&t),
        !g.game_over,
        (forall|y: int, x: int|
            0 <= y < 20 && 0 <= x < 24 && g.in_field(x, y) ==> #[trigger] g.grid[y][x] == MINE || g.revealed[y][x])
            || (forall|y: int, x: int|
            0 <= y < 20 && 0 <= x < 24 && g.in_field(x, y) ==> (#[trigger] g.flagged[y][x] <==> g.grid[y][x]
                == MINE)),
    ensures
        t.won,
        t.game_over,
{
}

} // verus!
