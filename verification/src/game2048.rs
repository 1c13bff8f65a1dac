//! 2048: slide the tiles of a 4x4 grid; equal tiles that meet merge.
use vstd::prelude::*;
use crate::rng::{random_index, random_ratio};

verus! {

/// A grid as rows of tiles, `g[y][x]`.
pub open spec fn gv(g: [[u16; 4]; 4]) -> Seq<Seq<u16>> {
    Seq::new(4, |y: int| g[y]@)
}

// ---------------------------------------------------------------------------
// Sliding one row to the left
// ---------------------------------------------------------------------------

/// The tiles of the first `n` cells of `row`, packed to the left, and
/// whether the last packed tile was made by a merge: each non-zero tile
/// merges into the last packed tile when the two are equal and that tile was
/// not itself made by a merge in this slide; otherwise it is placed after it.
pub open spec fn packed(row: Seq<u16>, n: int) -> (Seq<int>, bool)
    decreases n,
{
    if n <= 0 {
        (Seq::empty(), false)
    } else {
        let (acc, fresh) = packed(row, n - 1);
        let t = row[n - 1] as int;
        if t == 0 {
            (acc, fresh)
        } else if acc.len() > 0 && acc.last() == t && !fresh {
            (acc.update(acc.len() - 1, 2 * t), true)
        } else {
            (acc.push(t), false)
        }
    }
}

/// The packed tiles of the first `n` cells (see `packed`).
pub open spec fn merged(row: Seq<u16>, n: int) -> Seq<int> {
    packed(row, n).0
}

/// Whether the `n`-th cell merges into the last packed tile.
pub open spec fn merges_at(row: Seq<u16>, n: int) -> bool {
    let acc = merged(row, n - 1);
    row[n - 1] != 0 && acc.len() > 0 && acc.last() == row[n - 1] && !packed(row, n - 1).1
}

/// The points scored by the first `n` cells: the value of every merged tile.
pub open spec fn row_gain(row: Seq<u16>, n: int) -> int
    decreases n,
{
    if n <= 0 {
        0
    } else {
        row_gain(row, n - 1) + if merges_at(row, n) {
            2 * row[n - 1]
        } else {
            0
        }
    }
}

/// The largest merged tile among the first `n` cells (0 without a merge).
pub open spec fn row_best(row: Seq<u16>, n: int) -> int
    decreases n,
{
    if n <= 0 {
        0
    } else {
        let b = row_best(row, n - 1);
        if merges_at(row, n) && 2 * row[n - 1] > b {
            2 * row[n - 1]
        } else {
            b
        }
    }
}

/// Whether a merge among the first `n` cells makes a 2048 tile.
pub open spec fn row_2048(row: Seq<u16>, n: int) -> bool
    decreases n,
{
    if n <= 0 {
        false
    } else {
        row_2048(row, n - 1) || (merges_at(row, n) && 2 * row[n - 1] == 2048)
    }
}

/// The row after sliding left: the packed tiles, then empty cells.
pub open spec fn slid_row(row: Seq<u16>) -> Seq<u16> {
    let m = merged(row, 4);
    Seq::new(4, |i: int| if i < m.len() {
        m[i] as u16
    } else {
        0u16
    })
}

/// No merge among the first `n` cells involves a tile of 32768 or more, so
/// every merged tile fits in a `u16`.
pub open spec fn fits_upto(row: Seq<u16>, n: int) -> bool {
    forall|m: int| 1 <= m <= n && #[trigger] merges_at(row, m) ==> row[m - 1] < 32768
}

/// No merge of the row overflows a `u16` tile.
pub open spec fn fits_row(row: Seq<u16>) -> bool {
    fits_upto(row, 4)
}

pub open spec fn fits_grid(g: Seq<Seq<u16>>) -> bool {
    forall|y: int| 0 <= y < 4 ==> #[trigger] fits_row(g[y])
}

proof fn lemma_merged_bounds(row: Seq<u16>, n: int)
    requires
        0 <= n <= 4,
        row.len() == 4,
        fits_upto(row, n),
    ensures
        merged(row, n).len() <= n,
        forall|k: int| 0 <= k < merged(row, n).len() ==> 0 < #[trigger] merged(row, n)[k] < 65536,
        0 <= row_gain(row, n) <= 65536 * n,
        0 <= row_best(row, n) < 65536,
    decreases n,
{
    if n > 0 {
        assert(fits_upto(row, n - 1));
        lemma_merged_bounds(row, n - 1);
        if merges_at(row, n) {
            assert(row[n - 1] < 32768);
        }
    }
}

fn slide_row(row: [u16; 4]) -> (r: ([u16; 4], u32, u16, bool))
    requires
        fits_row(row@),
    ensures
        r.0@ == slid_row(row@),
        r.1 == row_gain(row@, 4),
        r.2 == row_best(row@, 4),
        r.3 == row_2048(row@, 4),
{
    let mut new = [0u16; 4];
    let mut pos: usize = 0;
    let mut gain: u32 = 0;
    let mut best: u16 = 0;
    let mut hit = false;
    let mut fresh = false;
    let mut i: usize = 0;
    while i < 4
        invariant
            i <= 4,
            fits_row(row@),
            fresh == packed(row@, i as int).1,
            pos == merged(row@, i as int).len(),
            pos <= i,
            forall|k: int| 0 <= k < pos ==> new@[k] == #[trigger] merged(row@, i as int)[k],
            forall|k: int| pos <= k < 4 ==> new@[k] == 0,
            gain == row_gain(row@, i as int),
            best == row_best(row@, i as int),
            hit == row_2048(row@, i as int),
        decreases 4 - i,
    {
        proof {
            lemma_merged_bounds(row@, i as int);
            lemma_merged_bounds(row@, i + 1);
        }
        let t = row[i];
        if t != 0 {
            if pos > 0 && new[pos - 1] == t && !fresh {
                new[pos - 1] = t * 2;
                fresh = true;
                gain += (t * 2) as u32;
                if t * 2 > best {
                    best = t * 2;
                }
                if t * 2 == 2048 {
                    hit = true;
                }
            } else {
                new[pos] = t;
                pos += 1;
                fresh = false;
            }
        }
        i += 1;
    }
    assert(new@ =~= slid_row(row@));
    (new, gain, best, hit)
}

// ---------------------------------------------------------------------------
// The grid
// ---------------------------------------------------------------------------

/// Every row slid left.
pub open spec fn slid(g: Seq<Seq<u16>>) -> Seq<Seq<u16>> {
    Seq::new(4, |y: int| slid_row(g[y]))
}

/// The points scored by sliding the first `n` rows.
pub open spec fn grid_gain(g: Seq<Seq<u16>>, n: int) -> int
    decreases n,
{
    if n <= 0 {
        0
    } else {
        grid_gain(g, n - 1) + row_gain(g[n - 1], 4)
    }
}

/// The largest tile merged in the first `n` rows (0 without a merge).
pub open spec fn grid_best(g: Seq<Seq<u16>>, n: int) -> int
    decreases n,
{
    if n <= 0 {
        0
    } else if row_best(g[n - 1], 4) > grid_best(g, n - 1) {
        row_best(g[n - 1], 4)
    } else {
        grid_best(g, n - 1)
    }
}

pub open spec fn grid_2048(g: Seq<Seq<u16>>, n: int) -> bool
    decreases n,
{
    if n <= 0 {
        false
    } else {
        grid_2048(g, n - 1) || row_2048(g[n - 1], 4)
    }
}

/// The grid turned a quarter clockwise: row `r`, column `c` of the result is
/// row `3 - c`, column `r` of the input.
pub open spec fn rot(g: Seq<Seq<u16>>) -> Seq<Seq<u16>> {
    Seq::new(4, |r: int| Seq::new(4, |c: int| g[3 - c][r]))
}

/// A move is a left slide of the grid turned so that the direction points
/// left: 37 left, 39 right (half turn), 38 up (three quarters), 40 down (one
/// quarter); the grid is then turned back.
pub open spec fn turns(dir: i32) -> int {
    if dir == 39 {
        2
    } else if dir == 38 {
        3
    } else if dir == 40 {
        1
    } else {
        0
    }
}

pub open spec fn rot_n(g: Seq<Seq<u16>>, n: int) -> Seq<Seq<u16>>
    decreases n,
{
    if n <= 0 {
        g
    } else {
        rot(rot_n(g, n - 1))
    }
}

/// Whether any cell is empty or equals its right or lower neighbour.
pub open spec fn movable(g: Seq<Seq<u16>>) -> bool {
    exists|y: int, x: int|
        0 <= y < 4 && 0 <= x < 4 && (#[trigger] g[y][x] == 0 || (x < 3 && g[y][x] == g[y][x + 1])
            || (y < 3 && g[y][x] == g[y + 1][x]))
}

/// The empty cells as `(x, y)`, rows top to bottom, columns left to right,
/// among the first `n` cells in that order.
pub open spec fn empties(g: Seq<Seq<u16>>, n: int) -> Seq<(usize, usize)>
    decreases n,
{
    if n <= 0 {
        Seq::empty()
    } else {
        let x = (n - 1) % 4;
        let y = (n - 1) / 4;
        empties(g, n - 1) + if g[y][x] == 0 {
            seq![(x as usize, y as usize)]
        } else {
            Seq::empty()
        }
    }
}

pub open spec fn set_tile(g: Seq<Seq<u16>>, x: int, y: int, v: u16) -> Seq<Seq<u16>> {
    g.update(y, g[y].update(x, v))
}

/// `after` is `before` with a 2 or a 4 placed on one of its empty cells, or
/// `before` itself when no cell is empty.
pub open spec fn spawned(before: Seq<Seq<u16>>, after: Seq<Seq<u16>>) -> bool {
    let e = empties(before, 16);
    if e.len() == 0 {
        after == before
    } else {
        exists|k: int, v: u16|
            0 <= k < e.len() && (v == 2 || v == 4) && after == set_tile(
                before,
                e[k].0 as int,
                e[k].1 as int,
                v,
            )
    }
}

pub struct Game2048 {
    pub grid: [[u16; 4]; 4],
    pub score: i32,
    pub high_score: i32,
    pub best_tile: u16,
    pub game_over: bool,
    pub won: bool,
    pub keep_playing: bool,
    pub undo_grid: [[u16; 4]; 4],
    pub undo_score: i32,
    pub has_undo: bool,
}

/// The slide after `k` quarter turns fits the machine: every merged tile in
/// a `u16` and the score after it in an `i32`.
pub open spec fn move_fits(g: Seq<Seq<u16>>, score: int, k: int) -> bool {
    fits_grid(rot_n(g, k)) && score + grid_gain(rot_n(g, k), 4) <= i32::MAX
}

/// The points of the first `y` rows never exceed those of all four.
proof fn lemma_gain_prefix(g: Seq<Seq<u16>>, y: int)
    requires
        0 <= y <= 4,
        fits_grid(g),
        square4(g),
    ensures
        0 <= grid_gain(g, y) <= grid_gain(g, 4),
        grid_gain(g, 4) <= 1048576,
    decreases 4 - y,
{
    assert forall|j: int| 0 <= j < 4 implies 0 <= #[trigger] row_gain(g[j], 4) <= 65536 * 4 by {
        assert(fits_row(g[j]));
        lemma_merged_bounds(g[j], 4);
    }
    reveal_with_fuel(grid_gain, 5);
}

/// Whether the row's merges fit in `u16` tiles, and then its points.
fn row_fits(row: [u16; 4]) -> (r: (bool, u32))
    ensures
        r.0 == fits_row(row@),
        r.0 ==> r.1 == row_gain(row@, 4) && r.1 <= 262144,
{
    let mut acc = [0u32; 4];
    let mut pos: usize = 0;
    let mut fresh = false;
    let mut gain: u32 = 0;
    let mut i: usize = 0;
    while i < 4
        invariant
            i <= 4,
            fits_upto(row@, i as int),
            fresh == packed(row@, i as int).1,
            pos == merged(row@, i as int).len(),
            pos <= i,
            forall|k: int| 0 <= k < pos ==> acc@[k] == #[trigger] merged(row@, i as int)[k],
            gain == row_gain(row@, i as int),
        decreases 4 - i,
    {
        proof {
            lemma_merged_bounds(row@, i as int);
        }
        let t = row[i];
        if t != 0 {
            if pos > 0 && acc[pos - 1] == t as u32 && !fresh {
                assert(merges_at(row@, i + 1));
                if t >= 32768 {
                    assert(!fits_upto(row@, 4));
                    return (false, 0);
                }
                acc[pos - 1] = t as u32 * 2;
                gain = gain + t as u32 * 2;
                fresh = true;
            } else {
                acc[pos] = t as u32;
                pos += 1;
                fresh = false;
            }
        }
        assert(fits_upto(row@, i + 1));
        i += 1;
    }
    proof {
        lemma_merged_bounds(row@, 4);
    }
    (true, gain)
}

impl Game2048 {
    /// The scene id.
    pub fn id(&self) -> (r: &'static str)
        ensures
            r@ == seq!['2', '0', '4', '8'],
    {
        proof {
            reveal_strlit("2048");
        }
        "2048"
    }

    /// Slides every row left; returns whether any row changed. Merged tiles
    /// score their value and may raise the best tile; a merged 2048 wins.
    #[verifier::spinoff_prover]
    pub fn slide_left(&mut self) -> (moved: bool)
        requires
            fits_grid(gv(old(self).grid)),
            old(self).score + grid_gain(gv(old(self).grid), 4) <= i32::MAX,
        ensures
            gv(final(self).grid) == slid(gv(old(self).grid)),
            moved == (slid(gv(old(self).grid)) != gv(old(self).grid)),
            final(self).score == old(self).score + grid_gain(gv(old(self).grid), 4),
            final(self).best_tile == if grid_best(gv(old(self).grid), 4) > old(self).best_tile {
                grid_best(gv(old(self).grid), 4)
            } else {
                old(self).best_tile as int
            },
            final(self).won == (old(self).won || grid_2048(gv(old(self).grid), 4)),
            final(self).high_score == old(self).high_score,
            final(self).game_over == old(self).game_over,
            final(self).keep_playing == old(self).keep_playing,
            final(self).undo_grid == old(self).undo_grid,
            final(self).undo_score == old(self).undo_score,
            final(self).has_undo == old(self).has_undo,
    {
        let ghost g0 = gv(self.grid);
        let mut moved = false;
        let mut y: usize = 0;
        while y < 4
            invariant
                y <= 4,
                fits_grid(g0),
                g0 == gv(old(self).grid),
                old(self).score + grid_gain(g0, 4) <= i32::MAX,
                forall|k: int| 0 <= k < y ==> #[trigger] gv(self.grid)[k] == slid_row(g0[k]),
                forall|k: int| y <= k < 4 ==> #[trigger] gv(self.grid)[k] == g0[k],
                moved == (exists|k: int| 0 <= k < y && #[trigger] slid_row(g0[k]) != g0[k]),
                self.score == old(self).score + grid_gain(g0, y as int),
                0 <= grid_gain(g0, y as int) <= 262144 * y,
                self.best_tile == if grid_best(g0, y as int) > old(self).best_tile {
                    grid_best(g0, y as int)
                } else {
                    old(self).best_tile as int
                },
                0 <= grid_best(g0, y as int) < 65536,
                self.won == (old(self).won || grid_2048(g0, y as int)),
                self.high_score == old(self).high_score,
                self.game_over == old(self).game_over,
                self.keep_playing == old(self).keep_playing,
                self.undo_grid == old(self).undo_grid,
                self.undo_score == old(self).undo_score,
                self.has_undo == old(self).has_undo,
            decreases 4 - y,
        {
            let row = self.grid[y];
            assert(gv(self.grid)[y as int] == g0[y as int]);
            assert(row@ == g0[y as int]);
            assert(fits_row(g0[y as int]));
            proof {
                lemma_merged_bounds(row@, 4);
                lemma_gain_prefix(g0, y + 1);
            }
            let (new, gain, best, hit) = slide_row(row);
            assert(gain <= 65536 * 4);
            assert(grid_gain(g0, y + 1) == grid_gain(g0, y as int) + row_gain(g0[y as int], 4));
            self.score += gain as i32;
            if best > self.best_tile {
                self.best_tile = best;
            }
            if hit && !self.won {
                self.won = true;
            }
            if new[0] != row[0] || new[1] != row[1] || new[2] != row[2] || new[3] != row[3] {
                moved = true;
                assert(new@ != row@ ==> slid_row(g0[y as int]) != g0[y as int]);
                assert(!(new@ =~= row@));
            } else {
                assert(new@ =~= row@);
            }
            let ghost before = self.grid;
            self.grid[y] = new;
            assert forall|k: int| 0 <= k < y + 1 implies #[trigger] gv(self.grid)[k] == slid_row(g0[k]) by {
                if k < y {
                    assert(gv(before)[k] == slid_row(g0[k]));
                }
            }
            assert forall|k: int| y + 1 <= k < 4 implies #[trigger] gv(self.grid)[k] == g0[k] by {
                assert(gv(before)[k] == g0[k]);
            }
            y += 1;
        }
        assert forall|k: int| 0 <= k < 4 implies #[trigger] gv(self.grid)[k] == slid(g0)[k] by {
            assert(gv(self.grid)[k] == slid_row(g0[k]));
        }
        assert(gv(self.grid) =~= slid(g0));
        proof {
            if moved {
                let k = choose|k: int| 0 <= k < 4 && #[trigger] slid_row(g0[k]) != g0[k];
                assert(slid(g0)[k] == slid_row(g0[k]));
                assert(slid(g0) != g0);
            } else {
                assert forall|k: int| 0 <= k < 4 implies #[trigger] slid(g0)[k] == g0[k] by {
                    assert(!(slid_row(g0[k]) != g0[k]));
                }
                assert(slid(g0) =~= g0);
            }
        }
        moved
    }

    /// Turns the grid a quarter clockwise.
    pub fn rotate_cw(&mut self)
        ensures
            gv(final(self).grid) == rot(gv(old(self).grid)),
            final(self).score == old(self).score,
            final(self).high_score == old(self).high_score,
            final(self).best_tile == old(self).best_tile,
            final(self).game_over == old(self).game_over,
            final(self).won == old(self).won,
            final(self).keep_playing == old(self).keep_playing,
            final(self).undo_grid == old(self).undo_grid,
            final(self).undo_score == old(self).undo_score,
            final(self).has_undo == old(self).has_undo,
    {
        let ghost g0 = gv(self.grid);
        let mut new = [[0u16; 4]; 4];
        let mut y: usize = 0;
        while y < 4
            invariant
                y <= 4,
                g0 == gv(self.grid),
                forall|r: int, c: int|
                    0 <= r < 4 && 0 <= c < 4 ==> #[trigger] new[r][c] == if 3 - c < y {
                        g0[3 - c][r]
                    } else {
                        0
                    },
            decreases 4 - y,
        {
            let mut x: usize = 0;
            while x < 4
                invariant
                    x <= 4,
                    y < 4,
                    g0 == gv(self.grid),
                    forall|r: int, c: int|
                        0 <= r < 4 && 0 <= c < 4 ==> #[trigger] new[r][c] == if 3 - c < y || (3 - c
                            == y && r < x) {
                            g0[3 - c][r]
                        } else {
                            0
                        },
                decreases 4 - x,
            {
                new[x][3 - y] = self.grid[y][x];
                x += 1;
            }
            y += 1;
        }
        self.grid = new;
        assert forall|r: int| 0 <= r < 4 implies #[trigger] gv(self.grid)[r] =~= rot(g0)[r] by {
            assert forall|c: int| 0 <= c < 4 implies #[trigger] gv(self.grid)[r][c] == rot(g0)[r][c] by {
                assert(new[r][c] == g0[3 - c][r]);
            }
        }
        assert(gv(self.grid) =~= rot(g0));
    }

    /// Slides right: the left slide of the grid turned by half.
    pub fn slide_right(&mut self) -> (moved: bool)
        requires
            move_fits(gv(old(self).grid), old(self).score as int, 2),
        ensures
            slide_effect(*old(self), *final(self), 39, moved),
    {
        let ghost g0 = gv(self.grid);
        self.rotate_cw();
        self.rotate_cw();
        proof {
            lemma_rot_n_unfold(g0);
        }
        let moved = self.slide_left();
        let ghost s = gv(self.grid);
        self.rotate_cw();
        self.rotate_cw();
        proof {
            lemma_rot_n_unfold(s);
        }
        moved
    }

    /// Slides up: the left slide of the grid turned three quarters.
    pub fn slide_up(&mut self) -> (moved: bool)
        requires
            move_fits(gv(old(self).grid), old(self).score as int, 3),
        ensures
            slide_effect(*old(self), *final(self), 38, moved),
    {
        let ghost g0 = gv(self.grid);
        self.rotate_cw();
        self.rotate_cw();
        self.rotate_cw();
        proof {
            lemma_rot_n_unfold(g0);
        }
        let moved = self.slide_left();
        let ghost s = gv(self.grid);
        self.rotate_cw();
        proof {
            lemma_rot_n_unfold(s);
        }
        moved
    }

    /// Slides down: the left slide of the grid turned a quarter.
    pub fn slide_down(&mut self) -> (moved: bool)
        requires
            move_fits(gv(old(self).grid), old(self).score as int, 1),
        ensures
            slide_effect(*old(self), *final(self), 40, moved),
    {
        let ghost g0 = gv(self.grid);
        self.rotate_cw();
        proof {
            lemma_rot_n_unfold(g0);
        }
        let moved = self.slide_left();
        let ghost s = gv(self.grid);
        self.rotate_cw();
        self.rotate_cw();
        self.rotate_cw();
        proof {
            lemma_rot_n_unfold(s);
        }
        moved
    }

    /// Whether any move is possible: an empty cell, or two equal neighbours;
    /// on a grid with a tile whose slides all fit, exactly when some slide
    /// would move a tile (`slide_moves` after 0 to 3 quarter turns: left,
    /// down, right, up).
    pub fn can_move(&self) -> (r: bool)
        ensures
            r == movable(gv(self.grid)),
            all_slides_fit(gv(self.grid)) && (exists|y: int, x: int|
                0 <= y < 4 && 0 <= x < 4 && #[trigger] gv(self.grid)[y][x] != 0) ==> r == (slide_moves(
                gv(self.grid),
                0,
            ) || slide_moves(gv(self.grid), 1) || slide_moves(gv(self.grid), 2) || slide_moves(gv(self.grid), 3)),
    {
        let r = self.movable_scan();
        proof {
            let g = gv(self.grid);
            if all_slides_fit(g) && exists|y: int, x: int| 0 <= y < 4 && 0 <= x < 4 && #[trigger] g[y][x] != 0 {
                assert(square4(g));
                law_movable_iff_a_slide_moves(g);
            }
        }
        r
    }

    /// Looks for an empty cell or two equal neighbours.
    fn movable_scan(&self) -> (r: bool)
        ensures
            r == movable(gv(self.grid)),
    {
        let ghost g = gv(self.grid);
        let mut y: usize = 0;
        while y < 4
            invariant
                y <= 4,
                g == gv(self.grid),
                forall|yy: int, x: int|
                    0 <= yy < y && 0 <= x < 4 ==> !(#[trigger] g[yy][x] == 0 || (x < 3 && g[yy][x]
                        == g[yy][x + 1]) || (yy < 3 && g[yy][x] == g[yy + 1][x])),
            decreases 4 - y,
        {
            let mut x: usize = 0;
            while x < 4
                invariant
                    x <= 4,
                    y < 4,
                    g == gv(self.grid),
                    forall|yy: int, xx: int|
                        (0 <= yy < y && 0 <= xx < 4) || (yy == y && 0 <= xx < x) ==> !(
                        #[trigger] g[yy][xx] == 0 || (xx < 3 && g[yy][xx] == g[yy][xx + 1]) || (yy
                            < 3 && g[yy][xx] == g[yy + 1][xx])),
                decreases 4 - x,
            {
                assert(g[y as int][x as int] == self.grid[y as int][x as int]);
                if x < 3 {
                    assert(g[y as int][x + 1] == self.grid[y as int][x + 1]);
                }
                if y < 3 {
                    assert(g[y + 1][x as int] == self.grid[y + 1][x as int]);
                }
                if self.grid[y][x] == 0 {
                    return true;
                }
                if x < 3 && self.grid[y][x] == self.grid[y][x + 1] {
                    return true;
                }
                if y < 3 && self.grid[y][x] == self.grid[y + 1][x] {
                    return true;
                }
                x += 1;
            }
            y += 1;
        }
        false
    }

    /// The empty cells, in the order `empties` lists them.
    fn empty_cells(&self) -> (r: Vec<(usize, usize)>)
        ensures
            r@ == empties(gv(self.grid), 16),
            forall|k: int| 0 <= k < r@.len() ==> (#[trigger] r@[k]).0 < 4 && r@[k].1 < 4,
    {
        let mut empty: Vec<(usize, usize)> = Vec::new();
        let mut y: usize = 0;
        while y < 4
            invariant
                y <= 4,
                empty@ == empties(gv(self.grid), (y * 4) as int),
                forall|k: int| 0 <= k < empty@.len() ==> (#[trigger] empty@[k]).0 < 4 && empty@[k].1 < 4,
            decreases 4 - y,
        {
            let mut x: usize = 0;
            while x < 4
                invariant
                    x <= 4,
                    y < 4,
                    empty@ == empties(gv(self.grid), (y * 4 + x) as int),
                    forall|k: int| 0 <= k < empty@.len() ==> (#[trigger] empty@[k]).0 < 4 && empty@[k].1 < 4,
                decreases 4 - x,
            {
                let ghost n = (y * 4 + x) as int;
                assert(n % 4 == x && n / 4 == y) by (nonlinear_arith)
                    requires
                        n == y * 4 + x,
                        x < 4,
                ;
                assert(gv(self.grid)[y as int][x as int] == self.grid[y as int][x as int]);
                if self.grid[y][x] == 0 {
                    empty.push((x, y));
                }
                assert(empty@ =~= empties(gv(self.grid), n + 1));
                x += 1;
            }
            y += 1;
        }
        empty
    }

    /// Places a 2 (when `two`) or a 4 on empty cell number `choice` (in the
    /// order of `empties`); nothing when no cell is empty.
    pub fn spawn_tile_at(&mut self, choice: usize, two: bool)
        requires
            empties(gv(old(self).grid), 16).len() > 0 ==> choice < empties(gv(old(self).grid), 16).len(),
        ensures
            ({
                let e = empties(gv(old(self).grid), 16);
                gv(final(self).grid) == if e.len() == 0 {
                    gv(old(self).grid)
                } else {
                    set_tile(gv(old(self).grid), e[choice as int].0 as int, e[choice as int].1 as int, if two {
                        2u16
                    } else {
                        4u16
                    })
                }
            }),
            final(self).score == old(self).score,
            final(self).high_score == old(self).high_score,
            final(self).best_tile == old(self).best_tile,
            final(self).game_over == old(self).game_over,
            final(self).won == old(self).won,
            final(self).keep_playing == old(self).keep_playing,
            final(self).undo_grid == old(self).undo_grid,
            final(self).undo_score == old(self).undo_score,
            final(self).has_undo == old(self).has_undo,
    {
        let empty = self.empty_cells();
        if empty.len() == 0 {
            return;
        }
        let (x, y) = empty[choice];
        let ghost g0 = gv(self.grid);
        let v: u16 = if two {
            2
        } else {
            4
        };
        self.grid[y][x] = v;
        assert(gv(self.grid) =~= set_tile(g0, x as int, y as int, v)) by {
            assert(gv(self.grid)[y as int] =~= set_tile(g0, x as int, y as int, v)[y as int]);
        }
    }

    /// Places a 2 (nine times in ten) or a 4 on a random empty cell.
    pub fn spawn_tile(&mut self)
        ensures
            spawned(gv(old(self).grid), gv(final(self).grid)),
            final(self).score == old(self).score,
            final(self).high_score == old(self).high_score,
            final(self).best_tile == old(self).best_tile,
            final(self).game_over == old(self).game_over,
            final(self).won == old(self).won,
            final(self).keep_playing == old(self).keep_playing,
            final(self).undo_grid == old(self).undo_grid,
            final(self).undo_score == old(self).undo_score,
            final(self).has_undo == old(self).has_undo,
    {
        let empty = self.empty_cells();
        if empty.len() == 0 {
            return;
        }
        let idx = random_index(empty.len());
        let two = random_ratio(9, 10);
        let ghost g0 = gv(self.grid);
        self.spawn_tile_at(idx, two);
        proof {
            let v: u16 = if two {
                2
            } else {
                4
            };
            let e = empties(g0, 16);
            assert(gv(self.grid) == set_tile(g0, e[idx as int].0 as int, e[idx as int].1 as int, v));
        }
    }

    /// Whether a move in direction `dir` (37 to 40) fits the machine (see
    /// `move_fits`): no merged tile overflows and the score stays an `i32`.
    pub fn slide_fits(&self, dir: i32) -> (r: bool)
        requires
            37 <= dir <= 40,
        ensures
            r == move_fits(gv(self.grid), self.score as int, turns(dir)),
    {
        let mut t = Game2048 {
            grid: self.grid,
            score: 0,
            high_score: 0,
            best_tile: 0,
            game_over: false,
            won: false,
            keep_playing: false,
            undo_grid: self.grid,
            undo_score: 0,
            has_undo: false,
        };
        let k: usize = if dir == 39 {
            2
        } else if dir == 38 {
            3
        } else if dir == 40 {
            1
        } else {
            0
        };
        let ghost g = gv(self.grid);
        let mut j: usize = 0;
        while j < k
            invariant
                j <= k <= 3,
                gv(t.grid) == rot_n(g, j as int),
            decreases k - j,
        {
            t.rotate_cw();
            proof {
                reveal_with_fuel(rot_n, 2);
            }
            j += 1;
        }
        let ghost h = gv(t.grid);
        assert(h == rot_n(g, turns(dir)));
        let mut total: u32 = 0;
        let mut y: usize = 0;
        while y < 4
            invariant
                y <= 4,
                h == gv(t.grid),
                h == rot_n(g, turns(dir)),
                g == gv(self.grid),
                forall|yy: int| 0 <= yy < y ==> #[trigger] fits_row(h[yy]),
                total == grid_gain(h, y as int),
                total <= 262144 * y,
            decreases 4 - y,
        {
            assert(t.grid[y as int]@ == h[y as int]);
            let (ok, gain) = row_fits(t.grid[y]);
            if !ok {
                assert(!fits_row(h[y as int]));
                assert(!fits_grid(h));
                return false;
            }
            total = total + gain;
            y += 1;
        }
        assert(fits_grid(h));
        (self.score as i64) + (total as i64) <= i32::MAX as i64
    }

    /// One move: remember the grid and score for undo, slide in direction
    /// `dir` (37 left, 38 up, 39 right, 40 down; other keys slide nothing),
    /// add a random tile when something moved, and end the game when no move
    /// is left (unless the player chose to keep playing after winning).
    pub fn do_move(&mut self, dir: i32)
        requires
            37 <= dir <= 40 ==> move_fits(gv(old(self).grid), old(self).score as int, turns(dir)),
        ensures
            move_rel(*old(self), *final(self), dir),
    {
        self.undo_grid = self.grid;
        self.undo_score = self.score;
        self.has_undo = true;
        let ghost before = *self;
        proof {
            lemma_rot_n_unfold(gv(self.grid));
            lemma_rot_n_unfold(slid(gv(self.grid)));
        }
        let moved = match dir {
            37 => self.slide_left(),
            39 => self.slide_right(),
            38 => self.slide_up(),
            40 => self.slide_down(),
            _ => false,
        };
        if moved {
            self.spawn_tile();
        }
        if !self.keep_playing && !self.can_move() {
            self.game_over = true;
        }
    }

    /// A fresh grid with two random tiles; score, flags, best tile and undo
    /// cleared. The high score and the undo grid are kept.
    pub fn init(&mut self)
        ensures
            restart_rel(*old(self), *final(self)),
    {
        self.grid = [[0; 4]; 4];
        self.score = 0;
        self.game_over = false;
        self.won = false;
        self.keep_playing = false;
        self.has_undo = false;
        self.best_tile = 0;
        assert forall|y: int| 0 <= y < 4 implies #[trigger] gv(self.grid)[y] =~= empty_grid()[y] by {}
        assert(gv(self.grid) =~= empty_grid());
        self.spawn_tile();
        let ghost g1 = gv(self.grid);
        self.spawn_tile();
    }

    /// A new game with two random tiles.
    pub fn new() -> (g: Self)
        ensures
            ({
                let z = empty_grid();
                exists|g1: Seq<Seq<u16>>| spawned(z, g1) && spawned(g1, gv(g.grid))
            }),
            g.score == 0 && g.high_score == 0 && g.best_tile == 0,
            !g.game_over && !g.won && !g.keep_playing && !g.has_undo,
            gv(g.undo_grid) == empty_grid() && g.undo_score == 0,
    {
        let mut g = Game2048 {
            grid: [[0; 4]; 4],
            score: 0,
            high_score: 0,
            best_tile: 0,
            game_over: false,
            won: false,
            keep_playing: false,
            undo_grid: [[0; 4]; 4],
            undo_score: 0,
            has_undo: false,
        };
        assert forall|y: int| 0 <= y < 4 implies #[trigger] gv(g.grid)[y] =~= empty_grid()[y] by {}
        assert(gv(g.grid) =~= empty_grid());
        assert(gv(g.undo_grid) =~= empty_grid());
        g.spawn_tile();
        let ghost g1 = gv(g.grid);
        g.spawn_tile();
        g
    }

    /// Arrow keys move; `r` (114) starts over; `u` (117) restores the grid
    /// and score from before the last move, once; space (32) after a win
    /// keeps the game going.
    pub fn handle_key(&mut self, key: i32, ch: char)
        requires
            37 <= key <= 40 ==> move_fits(gv(old(self).grid), old(self).score as int, turns(key)),
        ensures
            (key == 37 || key == 38 || key == 39 || key == 40) ==> move_rel(*old(self), *final(self), key),
            key == 114 ==> restart_rel(*old(self), *final(self)),
            (key == 117 && old(self).has_undo) ==> *final(self) == (Game2048 {
                grid: old(self).undo_grid,
                score: old(self).undo_score,
                has_undo: false,
                ..*old(self)
            }),
            (key == 117 && !old(self).has_undo) ==> *final(self) == *old(self),
            key == 32 ==> *final(self) == (Game2048 {
                keep_playing: old(self).keep_playing || old(self).won,
                ..*old(self)
            }),
            !(37 <= key <= 40 || key == 114 || key == 117 || key == 32) ==> *final(self) == *old(self),
    {
        match key {
            37 | 38 | 39 | 40 => self.do_move(key),
            114 => {
                self.init();
            },
            117 => {
                if self.has_undo {
                    self.grid = self.undo_grid;
                    self.score = self.undo_score;
                    self.has_undo = false;
                }
            },
            32 => {
                if self.won {
                    self.keep_playing = true;
                }
            },
            _ => {},
        }
    }
}

/// `new` is `old` after one move in direction `dir`: the grid and score
/// remembered for undo, the slide scored, a random tile added when something
/// moved, and the game ended when no move is left (unless the player chose
/// to keep playing after winning).
pub open spec fn move_rel(old: Game2048, new: Game2048, dir: i32) -> bool {
    let g = gv(old.grid);
    let o = rot_n(g, turns(dir));
    let mid = rot_n(slid(o), (4 - turns(dir)) % 4);
    &&& new.undo_grid == old.grid
    &&& new.undo_score == old.score
    &&& new.has_undo
    &&& new.high_score == old.high_score
    &&& new.keep_playing == old.keep_playing
    &&& new.game_over == (old.game_over || (!old.keep_playing && !movable(gv(new.grid))))
    &&& if dir == 37 || dir == 38 || dir == 39 || dir == 40 {
        &&& new.score == old.score + grid_gain(o, 4)
        &&& new.best_tile == if grid_best(o, 4) > old.best_tile {
            grid_best(o, 4)
        } else {
            old.best_tile as int
        }
        &&& new.won == (old.won || grid_2048(o, 4))
        &&& if slid(o) != o {
            spawned(mid, gv(new.grid))
        } else {
            gv(new.grid) == mid
        }
    } else {
        &&& new.score == old.score
        &&& new.best_tile == old.best_tile
        &&& new.won == old.won
        &&& gv(new.grid) == g
    }
}

/// `new` is `old` started over: two random tiles on an empty grid; score,
/// flags, best tile and undo cleared; the high score and the undo grid kept.
pub open spec fn restart_rel(old: Game2048, new: Game2048) -> bool {
    &&& exists|g1: Seq<Seq<u16>>| spawned(empty_grid(), g1) && spawned(g1, gv(new.grid))
    &&& new.score == 0
    &&& !new.game_over && !new.won && !new.keep_playing
    &&& !new.has_undo
    &&& new.best_tile == 0
    &&& new.high_score == old.high_score
    &&& new.undo_grid == old.undo_grid
    &&& new.undo_score == old.undo_score
}

/// `new` is `old` after the slide in direction `dir` (38..=40 or any other
/// value for left), which returned `moved`.
pub open spec fn slide_effect(old: Game2048, new: Game2048, dir: i32, moved: bool) -> bool {
    let k = turns(dir);
    let o = rot_n(gv(old.grid), k);
    &&& gv(new.grid) == rot_n(slid(o), (4 - k) % 4)
    &&& moved == (slid(o) != o)
    &&& new.score == old.score + grid_gain(o, 4)
    &&& new.best_tile == if grid_best(o, 4) > old.best_tile {
        grid_best(o, 4)
    } else {
        old.best_tile as int
    }
    &&& new.won == (old.won || grid_2048(o, 4))
    &&& new.high_score == old.high_score
    &&& new.game_over == old.game_over
    &&& new.keep_playing == old.keep_playing
    &&& new.undo_grid == old.undo_grid
    &&& new.undo_score == old.undo_score
    &&& new.has_undo == old.has_undo
}

/// The grid without tiles.
pub open spec fn empty_grid() -> Seq<Seq<u16>> {
    Seq::new(4, |y: int| Seq::new(4, |x: int| 0u16))
}

/// A grid of four rows of four.
pub open spec fn square4(g: Seq<Seq<u16>>) -> bool {
    g.len() == 4 && forall|y: int| 0 <= y < 4 ==> #[trigger] g[y].len() == 4
}

pub proof fn lemma_rot_n_unfold(g: Seq<Seq<u16>>)
    ensures
        rot_n(g, 0) == g,
        rot_n(g, 1) == rot(g),
        rot_n(g, 2) == rot(rot(g)),
        rot_n(g, 3) == rot(rot(rot(g))),
        rot_n(g, 4) == rot(rot(rot(rot(g)))),
{
    reveal_with_fuel(rot_n, 5);
}

/// The sum of the first `n` tiles of `row`.
pub open spec fn row_sum(row: Seq<u16>, n: int) -> int
    decreases n,
{
    if n <= 0 {
        0
    } else {
        row_sum(row, n - 1) + row[n - 1]
    }
}

/// The sum of the first `n` values of `s`.
pub open spec fn int_sum(s: Seq<int>, n: int) -> int
    decreases n,
{
    if n <= 0 {
        0
    } else {
        int_sum(s, n - 1) + s[n - 1]
    }
}

proof fn lemma_int_sum_same(a: Seq<int>, b: Seq<int>, n: int)
    requires
        0 <= n <= a.len(),
        n <= b.len(),
        forall|i: int| 0 <= i < n ==> a[i] == b[i],
    ensures
        int_sum(a, n) == int_sum(b, n),
    decreases n,
{
    if n > 0 {
        lemma_int_sum_same(a, b, n - 1);
    }
}

proof fn lemma_merged_sum(row: Seq<u16>, n: int)
    requires
        0 <= n <= 4,
        row.len() == 4,
    ensures
        int_sum(merged(row, n), merged(row, n).len() as int) == row_sum(row, n),
    decreases n,
{
    if n > 0 {
        lemma_merged_sum(row, n - 1);
        let acc = merged(row, n - 1);
        let t = row[n - 1] as int;
        let l = acc.len() as int;
        if t == 0 {
        } else if acc.len() > 0 && acc.last() == t && !packed(row, n - 1).1 {
            let u = acc.update(l - 1, 2 * t);
            lemma_int_sum_same(acc, u, l - 1);
        } else {
            let u = acc.push(t);
            lemma_int_sum_same(acc, u, l);
        }
    }
}

proof fn lemma_slid_sum(row: Seq<u16>, k: int)
    requires
        0 <= k <= 4,
        row.len() == 4,
        fits_row(row),
    ensures
        row_sum(slid_row(row), k) == int_sum(
            merged(row, 4),
            if k < merged(row, 4).len() {
                k
            } else {
                merged(row, 4).len() as int
            },
        ),
    decreases k,
{
    lemma_merged_bounds(row, 4);
    if k > 0 {
        lemma_slid_sum(row, k - 1);
    }
}

/// A slide keeps the sum of the tiles of a row: merging two tiles makes one
/// of their total.
pub proof fn law_slide_keeps_sum(row: Seq<u16>)
    requires
        row.len() == 4,
        fits_row(row),
    ensures
        row_sum(slid_row(row), 4) == row_sum(row, 4),
{
    lemma_merged_bounds(row, 4);
    lemma_slid_sum(row, 4);
    lemma_merged_sum(row, 4);
}

/// Four quarter turns give the grid back.
pub proof fn law_four_turns(g: Seq<Seq<u16>>)
    requires
        square4(g),
    ensures
        rot_n(g, 4) == g,
{
    lemma_rot_n_unfold(g);
    assert forall|y: int| 0 <= y < 4 implies #[trigger] rot(rot(rot(rot(g))))[y] =~= g[y] by {}
    assert(rot(rot(rot(rot(g)))) =~= g);
}

/// Undo (`u`, 117) right after a move gives back the grid and score from
/// before the move: `moved` is what the move in direction `dir` left
/// (`move_rel`, as `do_move` and the arrow keys of `handle_key` state it),
/// and `undone` what `handle_key(117)` then leaves.
pub proof fn law_undo_restores(before: Game2048, moved: Game2048, undone: Game2048, dir: i32)
    requires
        move_rel(before, moved, dir),
        undone == (Game2048 { grid: moved.undo_grid, score: moved.undo_score, has_undo: false, ..moved }),
    ensures
        undone.grid == before.grid,
        undone.score == before.score,
        !undone.has_undo,
{
}

/// The grid with every row reversed.
pub open spec fn mirror(g: Seq<Seq<u16>>) -> Seq<Seq<u16>> {
    Seq::new(4, |y: int| Seq::new(4, |x: int| g[y][3 - x]))
}

proof fn lemma_half_turn(g: Seq<Seq<u16>>)
    requires
        square4(g),
    ensures
        rot_n(g, 2) == Seq::new(4, |r: int| mirror(g)[3 - r]),
        forall|r: int| 0 <= r < 4 ==> #[trigger] rot_n(g, 2)[r] == mirror(g)[3 - r],
{
    lemma_rot_n_unfold(g);
    let h = Seq::new(4, |r: int| mirror(g)[3 - r]);
    assert forall|r: int| 0 <= r < 4 implies #[trigger] rot(rot(g))[r] =~= h[r] by {}
    assert(rot(rot(g)) =~= h);
}

/// A right slide is the left slide of the mirrored grid, mirrored back: the
/// same tiles move, the same points are scored, the same best tile and win
/// are recorded, and everything else is alike.
pub proof fn law_right_is_mirrored_left(a: Game2048, a2: Game2048, b: Game2048, b2: Game2048, ma: bool, mb: bool)
    requires
        b == (Game2048 { grid: b.grid, ..a }),
        gv(b.grid) == mirror(gv(a.grid)),
        slide_effect(a, a2, 39, ma),
        slide_effect(b, b2, 37, mb),
    ensures
        ma == mb,
        gv(a2.grid) == mirror(gv(b2.grid)),
        a2 == (Game2048 { grid: a2.grid, ..b2 }),
{
    let g = gv(a.grid);
    let m = gv(b.grid);
    assert(square4(g));
    lemma_half_turn(g);
    lemma_rot_n_unfold(m);
    let o = rot_n(g, 2);
    assert(turns(39) == 2 && turns(37) == 0);
    assert(rot_n(m, 0) == m);
    // The half-turned grid holds the mirrored rows in reverse order.
    assert forall|r: int| 0 <= r < 4 implies #[trigger] slid(o)[r] == slid(m)[3 - r] by {}
    assert(square4(slid(o)));
    lemma_half_turn(slid(o));
    lemma_rot_n_unfold(slid(m));
    assert(rot_n(slid(m), 0) == slid(m));
    assert(gv(a2.grid) =~= mirror(gv(b2.grid))) by {
        assert forall|r: int| 0 <= r < 4 implies #[trigger] gv(a2.grid)[r] =~= mirror(gv(b2.grid))[r] by {
            assert(gv(a2.grid)[r] == mirror(slid(o))[3 - r]);
        }
    }
    // Moved on one side iff on the other.
    if slid(o) == o {
        assert(slid(m) =~= m) by {
            assert forall|r: int| 0 <= r < 4 implies #[trigger] slid(m)[r] == m[r] by {
                assert(slid(o)[3 - r] == o[3 - r]);
            }
        }
    }
    if slid(m) == m {
        assert(slid(o) =~= o) by {
            assert forall|r: int| 0 <= r < 4 implies #[trigger] slid(o)[r] == o[r] by {
                assert(slid(m)[3 - r] == m[3 - r]);
            }
        }
    }
    // Points, best tile and win are taken over the same rows.
    reveal_with_fuel(grid_gain, 5);
    reveal_with_fuel(grid_best, 5);
    reveal_with_fuel(grid_2048, 5);
    assert(o[0] == m[3] && o[1] == m[2] && o[2] == m[1] && o[3] == m[0]);
    assert(grid_gain(o, 4) == grid_gain(m, 4));
    assert(grid_2048(o, 4) == grid_2048(m, 4));
    assert(grid_best(o, 4) == grid_best(m, 4));
}

/// A row that a left slide leaves alone: its tiles are packed to the left
/// and no two neighbouring tiles are equal.
pub open spec fn settled_row(row: Seq<u16>) -> bool {
    &&& (row[0] == 0 ==> row[1] == 0) && (row[1] == 0 ==> row[2] == 0) && (row[2] == 0 ==> row[3] == 0)
    &&& (row[0] != 0 ==> row[0] != row[1]) && (row[1] != 0 ==> row[1] != row[2]) && (row[2] != 0 ==> row[2]
        != row[3])
}

proof fn lemma_settled_row(row: Seq<u16>)
    requires
        row.len() == 4,
        fits_row(row),
    ensures
        (slid_row(row) == row) == settled_row(row),
{
    reveal_with_fuel(packed, 5);
    lemma_merged_bounds(row, 4);
    if settled_row(row) {
        assert(slid_row(row) =~= row);
    } else if slid_row(row) == row {
        assert(slid_row(row)[0] == row[0]);
        assert(slid_row(row)[1] == row[1]);
        assert(slid_row(row)[2] == row[2]);
        assert(slid_row(row)[3] == row[3]);
    }
}

/// A row with an empty cell and a tile cannot be settled both ways.
proof fn lemma_mixed_row(row: Seq<u16>, i: int, j: int)
    requires
        row.len() == 4,
        0 <= i < 4 && 0 <= j < 4,
        row[i] == 0 && row[j] != 0,
    ensures
        !settled_row(row) || !settled_row(Seq::new(4, |c: int| row[3 - c])),
{
    let r = Seq::new(4, |c: int| row[3 - c]);
    assert(r[0] == row[3] && r[1] == row[2] && r[2] == row[1] && r[3] == row[0]);
}

/// Whether the left slide of the grid turned `k` quarters changes it.
pub open spec fn slide_moves(g: Seq<Seq<u16>>, k: int) -> bool {
    slid(rot_n(g, k)) != rot_n(g, k)
}

proof fn lemma_slid_rows(h: Seq<Seq<u16>>)
    requires
        square4(h),
        fits_grid(h),
    ensures
        (slid(h) != h) == (exists|r: int| 0 <= r < 4 && !settled_row(#[trigger] h[r])),
{
    assert forall|r: int| 0 <= r < 4 implies (slid(h)[r] == h[r]) == settled_row(#[trigger] h[r]) by {
        lemma_settled_row(h[r]);
    }
    if forall|r: int| 0 <= r < 4 ==> settled_row(#[trigger] h[r]) {
        assert(slid(h) =~= h);
    } else if slid(h) == h {
        let r = choose|r: int| 0 <= r < 4 && !settled_row(#[trigger] h[r]);
        assert(slid(h)[r] == h[r]);
    }
}

proof fn lemma_turned_rows(g: Seq<Seq<u16>>)
    requires
        square4(g),
    ensures
        forall|r: int, c: int| 0 <= r < 4 && 0 <= c < 4 ==> #[trigger] rot_n(g, 1)[r][c] == g[3 - c][r],
        forall|r: int, c: int| 0 <= r < 4 && 0 <= c < 4 ==> #[trigger] rot_n(g, 2)[r][c] == g[3 - r][3 - c],
        forall|r: int, c: int| 0 <= r < 4 && 0 <= c < 4 ==> #[trigger] rot_n(g, 3)[r][c] == g[c][3 - r],
        forall|k: int| 0 <= k < 4 ==> square4(#[trigger] rot_n(g, k)),
        forall|k: int, r: int| 0 <= k < 4 && 0 <= r < 4 ==> (#[trigger] rot_n(g, k)[r]).len() == 4,
{
    lemma_rot_n_unfold(g);
}

/// Every one of the four slides fits the machine (no merged tile overflows).
pub open spec fn all_slides_fit(g: Seq<Seq<u16>>) -> bool {
    fits_grid(rot_n(g, 0)) && fits_grid(rot_n(g, 1)) && fits_grid(rot_n(g, 2)) && fits_grid(rot_n(g, 3))
}

/// A grid with at least one tile, whose four slides fit the machine, can
/// move exactly when some slide changes it: an empty cell, or two equal
/// neighbours in a row or a column, is what lets a slide move a tile.
pub proof fn law_movable_iff_a_slide_moves(g: Seq<Seq<u16>>)
    requires
        square4(g),
        all_slides_fit(g),
        exists|y: int, x: int| 0 <= y < 4 && 0 <= x < 4 && #[trigger] g[y][x] != 0,
    ensures
        movable(g) == (slide_moves(g, 0) || slide_moves(g, 1) || slide_moves(g, 2) || slide_moves(g, 3)),
{
    lemma_turned_rows(g);
    lemma_rot_n_unfold(g);
    let h1 = rot_n(g, 1);
    let h2 = rot_n(g, 2);
    let h3 = rot_n(g, 3);
    assert(rot_n(g, 0) == g);
    lemma_slid_rows(g);
    lemma_slid_rows(h1);
    lemma_slid_rows(h2);
    lemma_slid_rows(h3);
    if !movable(g) {
        // Every cell holds a tile unlike its right and lower neighbours, so
        // every row of every turn is settled.
        assert forall|r: int| 0 <= r < 4 implies settled_row(#[trigger] g[r]) by {
            assert(g[r][0] != 0 && g[r][1] != 0 && g[r][2] != 0 && g[r][3] != 0);
        }
        assert forall|r: int| 0 <= r < 4 implies settled_row(#[trigger] h1[r]) by {
            assert(h1[r][0] == g[3][r] && h1[r][1] == g[2][r] && h1[r][2] == g[1][r] && h1[r][3] == g[0][r]);
            assert(g[0][r] != 0 && g[1][r] != 0 && g[2][r] != 0 && g[3][r] != 0);
        }
        assert forall|r: int| 0 <= r < 4 implies settled_row(#[trigger] h2[r]) by {
            let y = 3 - r;
            assert(h2[r][0] == g[y][3] && h2[r][1] == g[y][2] && h2[r][2] == g[y][1] && h2[r][3] == g[y][0]);
            assert(g[y][0] != 0 && g[y][1] != 0 && g[y][2] != 0 && g[y][3] != 0);
        }
        assert forall|r: int| 0 <= r < 4 implies settled_row(#[trigger] h3[r]) by {
            let x = 3 - r;
            assert(h3[r][0] == g[0][x] && h3[r][1] == g[1][x] && h3[r][2] == g[2][x] && h3[r][3] == g[3][x]);
            assert(g[0][x] != 0 && g[1][x] != 0 && g[2][x] != 0 && g[3][x] != 0);
        }
    } else {
        let (y, x) = choose|y: int, x: int|
            0 <= y < 4 && 0 <= x < 4 && (#[trigger] g[y][x] == 0 || (x < 3 && g[y][x] == g[y][x + 1]) || (y < 3
                && g[y][x] == g[y + 1][x]));
        if g[y][x] != 0 && x < 3 && g[y][x] == g[y][x + 1] {
            assert(!settled_row(g[y]));
        } else if g[y][x] != 0 {
            let r = 3 - x;
            assert(h3[r][y] == g[y][x] && h3[r][y + 1] == g[y + 1][x]);
            assert(!settled_row(h3[r]));
        } else {
            let (y1, x1) = choose|y1: int, x1: int| 0 <= y1 < 4 && 0 <= x1 < 4 && #[trigger] g[y1][x1] != 0;
            if exists|x2: int| 0 <= x2 < 4 && #[trigger] g[y][x2] != 0 {
                let x2 = choose|x2: int| 0 <= x2 < 4 && #[trigger] g[y][x2] != 0;
                lemma_mixed_row(g[y], x, x2);
                assert(Seq::new(4, |c: int| g[y][3 - c]) =~= h2[3 - y]);
            } else {
                assert(g[y][x1] == 0);
                let col = h3[3 - x1];
                assert forall|c: int| 0 <= c < 4 implies #[trigger] col[c] == g[c][x1] by {}
                lemma_mixed_row(col, y, y1);
                assert(Seq::new(4, |c: int| col[3 - c]) =~= h1[x1]);
            }
        }
    }
}

} // verus!
