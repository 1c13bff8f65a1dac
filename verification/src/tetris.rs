//! Tetris: pieces fall into a well of 20 rows of 10 columns; full rows clear.
use vstd::prelude::*;
use crate::rng::shuffle_bytes;

verus! {

pub const COLS: usize = 10;
pub const ROWS: usize = 20;

pub type Cells = [[bool; 4]; 4];

pub type Well = [[u8; 10]; 20];

/// A well as rows of cells, `w[y][x]`; 0 is empty, 1..=7 a locked piece type.
pub open spec fn wv(w: Well) -> Seq<Seq<u8>> {
    Seq::new(20, |y: int| w[y]@)
}

/// A piece's 4x4 cell box as rows.
pub open spec fn cv(c: Cells) -> Seq<Seq<bool>> {
    Seq::new(4, |r: int| c[r]@)
}

// ---------------------------------------------------------------------------
// Shapes and rotation
// ---------------------------------------------------------------------------

/// The seven tetrominoes, types 1..=7: I, O, T, S, Z, J, L.
pub open spec fn shape(t: int) -> Seq<Seq<bool>> {
    let o = seq![false, false, false, false];
    if t == 1 {
        seq![o, seq![true, true, true, true], o, o]
    } else if t == 2 {
        seq![o, seq![false, true, true, false], seq![false, true, true, false], o]
    } else if t == 3 {
        seq![o, seq![false, true, false, false], seq![true, true, true, false], o]
    } else if t == 4 {
        seq![o, seq![false, true, true, false], seq![true, true, false, false], o]
    } else if t == 5 {
        seq![o, seq![true, true, false, false], seq![false, true, true, false], o]
    } else if t == 6 {
        seq![o, seq![true, false, false, false], seq![true, true, true, false], o]
    } else {
        seq![o, seq![false, false, true, false], seq![true, true, true, false], o]
    }
}

/// The box turned a quarter clockwise.
pub open spec fn rot_cells(c: Seq<Seq<bool>>) -> Seq<Seq<bool>> {
    Seq::new(4, |r: int| Seq::new(4, |k: int| c[3 - k][r]))
}

pub open spec fn rot_cells_n(c: Seq<Seq<bool>>, n: int) -> Seq<Seq<bool>>
    decreases n,
{
    if n <= 0 {
        c
    } else {
        rot_cells(rot_cells_n(c, n - 1))
    }
}

/// The box has a filled cell.
pub open spec fn some_cell(c: Seq<Seq<bool>>) -> bool {
    exists|r: int, k: int| 0 <= r < 4 && 0 <= k < 4 && #[trigger] c[r][k]
}

/// The base shape of piece type `t` (1..=7).
pub fn base_shape(t: u8) -> (c: Cells)
    requires
        1 <= t <= 7,
    ensures
        cv(c) == shape(t as int),
{
    let o = [false, false, false, false];
    let c = match t {
        1 => [o, [true, true, true, true], o, o],
        2 => [o, [false, true, true, false], [false, true, true, false], o],
        3 => [o, [false, true, false, false], [true, true, true, false], o],
        4 => [o, [false, true, true, false], [true, true, false, false], o],
        5 => [o, [true, true, false, false], [false, true, true, false], o],
        6 => [o, [true, false, false, false], [true, true, true, false], o],
        _ => [o, [false, false, true, false], [true, true, true, false], o],
    };
    assert forall|r: int| 0 <= r < 4 implies #[trigger] cv(c)[r] =~= shape(t as int)[r] by {}
    assert(cv(c) =~= shape(t as int));
    c
}

/// The box turned a quarter clockwise.
pub fn rotated_cells(cells: &Cells) -> (r: Cells)
    ensures
        cv(r) == rot_cells(cv(*cells)),
{
    let mut next = [[false; 4]; 4];
    let mut r: usize = 0;
    while r < 4
        invariant
            r <= 4,
            forall|i: int, k: int|
                0 <= i < 4 && 0 <= k < 4 ==> #[trigger] next[i][k] == if i < r {
                    cells[3 - k][i]
                } else {
                    false
                },
        decreases 4 - r,
    {
        let mut c: usize = 0;
        while c < 4
            invariant
                c <= 4,
                r < 4,
                forall|i: int, k: int|
                    0 <= i < 4 && 0 <= k < 4 ==> #[trigger] next[i][k] == if i < r || (i == r && k
                        < c) {
                        cells[3 - k][i]
                    } else {
                        false
                    },
            decreases 4 - c,
        {
            next[r][c] = cells[3 - c][r];
            c += 1;
        }
        r += 1;
    }
    assert forall|i: int| 0 <= i < 4 implies #[trigger] cv(next)[i] =~= rot_cells(cv(*cells))[i] by {
        assert forall|k: int| 0 <= k < 4 implies #[trigger] cv(next)[i][k] == rot_cells(cv(*cells))[i][k] by {
            assert(next[i][k] == cells[3 - k][i]);
        }
    }
    assert(cv(next) =~= rot_cells(cv(*cells)));
    next
}

/// `base` turned `rotation` quarter turns clockwise.
pub fn get_rotated(base: &Cells, rotation: u8) -> (r: Cells)
    ensures
        cv(r) == rot_cells_n(cv(*base), rotation as int),
{
    let mut cells = *base;
    let mut i: u8 = 0;
    while i < rotation
        invariant
            i <= rotation,
            cv(cells) == rot_cells_n(cv(*base), i as int),
        decreases rotation - i,
    {
        cells = rotated_cells(&cells);
        i += 1;
    }
    cells
}

// ---------------------------------------------------------------------------
// The well
// ---------------------------------------------------------------------------

/// A cell of the well that a piece cannot occupy: beside or below the well,
/// or a locked cell; rows above the well are free.
pub open spec fn blocked(w: Seq<Seq<u8>>, bx: int, by: int) -> bool {
    bx < 0 || bx >= 10 || by >= 20 || (by >= 0 && w[by][bx] != 0)
}

/// Whether the box at `(x, y)` has a filled cell on a blocked cell.
pub open spec fn collides_at(w: Seq<Seq<u8>>, c: Seq<Seq<bool>>, x: int, y: int) -> bool {
    exists|r: int, k: int| 0 <= r < 4 && 0 <= k < 4 && #[trigger] c[r][k] && blocked(w, x + k, y + r)
}

/// Whether the box placed at `(x, y)` has a filled cell outside the well
/// (left, right or below) or on a filled cell of the well; cells above the
/// top are free.
pub fn collides(grid: &Well, cells: &Cells, x: i32, y: i32) -> (r: bool)
    requires
        x <= i32::MAX - 3,
        y <= i32::MAX - 3,
    ensures
        r == collides_at(wv(*grid), cv(*cells), x as int, y as int),
{
    let mut r: usize = 0;
    while r < 4
        invariant
            r <= 4,
            x <= i32::MAX - 3,
            y <= i32::MAX - 3,
            forall|i: int, k: int|
                0 <= i < r && 0 <= k < 4 ==> !(#[trigger] cv(*cells)[i][k] && blocked(
                    wv(*grid),
                    x + k,
                    y + i,
                )),
        decreases 4 - r,
    {
        let mut c: usize = 0;
        while c < 4
            invariant
                c <= 4,
                r < 4,
                x <= i32::MAX - 3,
                y <= i32::MAX - 3,
                forall|i: int, k: int|
                    (0 <= i < r && 0 <= k < 4) || (i == r && 0 <= k < c) ==> !(
                    #[trigger] cv(*cells)[i][k] && blocked(wv(*grid), x + k, y + i)),
            decreases 4 - c,
        {
            assert(cv(*cells)[r as int][c as int] == cells[r as int][c as int]);
            if cells[r][c] {
                let bx = x + c as i32;
                let by = y + r as i32;
                if bx < 0 || bx >= COLS as i32 || by >= ROWS as i32 {
                    assert(blocked(wv(*grid), x + c, y + r));
                    return true;
                }
                if by >= 0 {
                    assert(wv(*grid)[by as int][bx as int] == grid[by as int][bx as int]);
                    if grid[by as usize][bx as usize] != 0 {
                        assert(blocked(wv(*grid), x + c, y + r));
                        return true;
                    }
                }
            }
            c += 1;
        }
        r += 1;
    }
    false
}

/// The well with the piece's cells set to its type (cells outside the well
/// are dropped).
pub open spec fn locked(w: Seq<Seq<u8>>, c: Seq<Seq<bool>>, x: int, y: int, t: u8) -> Seq<Seq<u8>> {
    Seq::new(
        20,
        |yy: int|
            Seq::new(
                10,
                |xx: int|
                    if 0 <= yy - y < 4 && 0 <= xx - x < 4 && c[yy - y][xx - x] {
                        t
                    } else {
                        w[yy][xx]
                    },
            ),
    )
}

/// A falling piece: its type (1..=7), quarter turns, position of its box,
/// and the box's cells.
#[derive(Clone, Copy, Debug)]
pub struct Piece {
    pub typ: u8,
    pub rotation: u8,
    pub x: i32,
    pub y: i32,
    pub cells: Cells,
}

/// Writes the piece's type into the well under its filled cells.
pub fn lock_piece(grid: &mut Well, piece: &Piece)
    requires
        piece.x <= i32::MAX - 3,
        piece.y <= i32::MAX - 3,
    ensures
        wv(*final(grid)) == locked(wv(*old(grid)), cv(piece.cells), piece.x as int, piece.y as int, piece.typ),
{
    let ghost w0 = wv(*grid);
    let ghost target = locked(w0, cv(piece.cells), piece.x as int, piece.y as int, piece.typ);
    let mut r: usize = 0;
    while r < 4
        invariant
            r <= 4,
            piece.x <= i32::MAX - 3,
            piece.y <= i32::MAX - 3,
            target == locked(w0, cv(piece.cells), piece.x as int, piece.y as int, piece.typ),
            forall|yy: int, xx: int|
                0 <= yy < 20 && 0 <= xx < 10 ==> #[trigger] grid[yy][xx] == if 0 <= yy - piece.y < r
                    && 0 <= xx - piece.x < 4 && piece.cells[yy - piece.y][xx - piece.x] {
                    piece.typ
                } else {
                    w0[yy][xx]
                },
        decreases 4 - r,
    {
        let mut c: usize = 0;
        while c < 4
            invariant
                c <= 4,
                r < 4,
                piece.x <= i32::MAX - 3,
                piece.y <= i32::MAX - 3,
                forall|yy: int, xx: int|
                    0 <= yy < 20 && 0 <= xx < 10 ==> #[trigger] grid[yy][xx] == if (0 <= yy - piece.y
                        < r && 0 <= xx - piece.x < 4 && piece.cells[yy - piece.y][xx - piece.x]) || (
                    yy - piece.y == r && 0 <= xx - piece.x < c && piece.cells[yy - piece.y][xx
                        - piece.x]) {
                        piece.typ
                    } else {
                        w0[yy][xx]
                    },
            decreases 4 - c,
        {
            if piece.cells[r][c] {
                let bx = piece.x + c as i32;
                let by = piece.y + r as i32;
                if bx >= 0 && bx < COLS as i32 && by >= 0 && by < ROWS as i32 {
                    grid[by as usize][bx as usize] = piece.typ;
                }
            }
            c += 1;
        }
        r += 1;
    }
    assert forall|yy: int| 0 <= yy < 20 implies #[trigger] wv(*grid)[yy] =~= target[yy] by {
        assert forall|xx: int| 0 <= xx < 10 implies #[trigger] wv(*grid)[yy][xx] == target[yy][xx] by {
            assert(grid[yy][xx] == target[yy][xx]);
        }
    }
    assert(wv(*grid) =~= target);
}

/// Every cell of the row is filled.
pub open spec fn full_row(row: Seq<u8>) -> bool {
    forall|x: int| 0 <= x < 10 ==> #[trigger] row[x] != 0
}

/// The rows among the first `n` that are not full, top to bottom.
pub open spec fn kept_rows(w: Seq<Seq<u8>>, n: int) -> Seq<Seq<u8>>
    decreases n,
{
    if n <= 0 {
        Seq::empty()
    } else if full_row(w[n - 1]) {
        kept_rows(w, n - 1)
    } else {
        kept_rows(w, n - 1).push(w[n - 1])
    }
}

pub open spec fn empty_row() -> Seq<u8> {
    Seq::new(10, |x: int| 0u8)
}

/// The number of full rows.
pub open spec fn full_count(w: Seq<Seq<u8>>) -> int {
    20 - kept_rows(w, 20).len()
}

/// The well with its full rows removed and as many empty rows on top; the
/// other rows keep their order.
pub open spec fn cleared(w: Seq<Seq<u8>>) -> Seq<Seq<u8>> {
    Seq::new(full_count(w) as nat, |i: int| empty_row()) + kept_rows(w, 20)
}

proof fn lemma_kept_len(w: Seq<Seq<u8>>, n: int)
    requires
        n >= 0,
    ensures
        kept_rows(w, n).len() <= n,
    decreases n,
{
    if n > 0 {
        lemma_kept_len(w, n - 1);
    }
}

fn row_is_full(row: &[u8; 10]) -> (r: bool)
    ensures
        r == full_row(row@),
{
    let mut x: usize = 0;
    while x < 10
        invariant
            x <= 10,
            forall|k: int| 0 <= k < x ==> #[trigger] row@[k] != 0,
        decreases 10 - x,
    {
        if row[x] == 0 {
            return false;
        }
        x += 1;
    }
    true
}

/// Removes the full rows, drops the rows above them, and returns how many
/// rows were cleared.
pub fn clear_lines(grid: &mut Well) -> (cleared_count: i32)
    ensures
        wv(*final(grid)) == cleared(wv(*old(grid))),
        cleared_count == full_count(wv(*old(grid))),
        0 <= cleared_count <= 20,
{
    let ghost w0 = wv(*grid);
    let mut kept: Vec<[u8; 10]> = Vec::new();
    let mut y: usize = 0;
    while y < ROWS
        invariant
            y <= 20,
            w0 == wv(*grid),
            kept@.len() == kept_rows(w0, y as int).len(),
            forall|i: int| 0 <= i < kept@.len() ==> #[trigger] kept@[i]@ == kept_rows(w0, y as int)[i],
        decreases 20 - y,
    {
        let row = grid[y];
        assert(row@ == w0[y as int]);
        if !row_is_full(&row) {
            kept.push(row);
        }
        y += 1;
    }
    proof {
        lemma_kept_len(w0, 20);
    }
    let k = ROWS - kept.len();
    let mut new: Well = [[0u8; 10]; 20];
    let mut i: usize = 0;
    while i < kept.len()
        invariant
            i <= kept.len(),
            k + kept.len() == 20,
            forall|yy: int| 0 <= yy < 20 ==> #[trigger] new[yy]@ == if k <= yy < k + i {
                kept@[yy - k]@
            } else {
                empty_row()
            },
        decreases kept.len() - i,
    {
        new[k + i] = kept[i];
        i += 1;
        assert forall|yy: int| 0 <= yy < 20 implies #[trigger] new[yy]@ == if k <= yy < k + i {
            kept@[yy - k]@
        } else {
            empty_row()
        } by {}
    }
    assert forall|yy: int| 0 <= yy < 20 implies #[trigger] wv(new)[yy] =~= cleared(w0)[yy] by {
        if yy < k {
            assert(new[yy]@ =~= empty_row());
        }
    }
    assert(wv(new) =~= cleared(w0));
    *grid = new;
    k as i32
}

/// Where the piece would come to rest if dropped: the lowest row at or below
/// `y` that the piece reaches without colliding on the way.
pub fn ghost_y(grid: &Well, cells: &Cells, x: i32, y: i32) -> (gy: i32)
    requires
        some_cell(cv(*cells)),
        x <= i32::MAX - 3,
        y <= i32::MAX - 4,
    ensures
        y <= gy,
        gy <= 20 || gy == y,
        forall|yy: int| y < yy <= gy ==> !collides_at(wv(*grid), cv(*cells), x as int, yy),
        collides_at(wv(*grid), cv(*cells), x as int, gy + 1),
{
    let ghost (r0, k0) = choose|r: int, k: int| 0 <= r < 4 && 0 <= k < 4 && #[trigger] cv(*cells)[r][k];
    let mut gy = y;
    while !collides(grid, cells, x, gy + 1)
        invariant
            y <= gy <= i32::MAX - 4,
            gy <= 20 || gy == y,
            x <= i32::MAX - 3,
            0 <= r0 < 4 && 0 <= k0 < 4 && cv(*cells)[r0][k0],
            forall|yy: int| y < yy <= gy ==> !collides_at(wv(*grid), cv(*cells), x as int, yy),
        decreases i32::MAX - gy,
    {
        assert(!blocked(wv(*grid), x + k0, gy + 1 + r0));
        gy += 1;
    }
    gy
}

/// Points for clearing `lines` rows at once at `level`: 100, 300, 500 or 800
/// per level for one to four rows, nothing otherwise.
pub open spec fn line_points(lines: int) -> int {
    if lines == 1 {
        100
    } else if lines == 2 {
        300
    } else if lines == 3 {
        500
    } else if lines == 4 {
        800
    } else {
        0
    }
}

/// Points for clearing `lines` rows at once on level `level`: 100, 300,
/// 500 or 800 times the level.
pub fn line_score(lines: i32, level: i32) -> (r: i32)
    requires
        0 <= level,
        line_points(lines as int) * level <= i32::MAX,
    ensures
        r == line_points(lines as int) * level,
{
    (match lines {
        1 => 100,
        2 => 300,
        3 => 500,
        4 => 800,
        _ => 0,
    }) * level
}

// ---------------------------------------------------------------------------
// Facts about boxes
// ---------------------------------------------------------------------------

pub proof fn lemma_shape_filled(t: int)
    ensures
        some_cell(shape(t)),
{
    if t == 1 {
        assert(shape(t)[1][1]);
    } else {
        assert(shape(t)[2][1]);
    }
}

pub proof fn lemma_rot_filled(c: Seq<Seq<bool>>)
    requires
        some_cell(c),
    ensures
        some_cell(rot_cells(c)),
{
    let (r, k) = choose|r: int, k: int| 0 <= r < 4 && 0 <= k < 4 && #[trigger] c[r][k];
    assert(rot_cells(c)[k][3 - r] == c[r][k]);
}

/// A box with a filled cell that does not collide lies within the well's
/// columns and above its floor.
pub proof fn lemma_free_bounds(w: Seq<Seq<u8>>, c: Seq<Seq<bool>>, x: int, y: int)
    requires
        some_cell(c),
        !collides_at(w, c, x, y),
    ensures
        -3 <= x <= 9,
        y <= 19,
{
    let (r, k) = choose|r: int, k: int| 0 <= r < 4 && 0 <= k < 4 && #[trigger] c[r][k];
    assert(!blocked(w, x + k, y + r));
}

// ---------------------------------------------------------------------------
// The game
// ---------------------------------------------------------------------------

pub struct TetrisGame {
    pub grid: Well,
    pub current: Piece,
    pub next_queue: Vec<Piece>,
    pub held: Option<u8>,
    pub hold_used: bool,
    pub score: i32,
    pub level: i32,
    pub lines: i32,
    pub game_over: bool,
    pub paused: bool,
    pub bag: Vec<u8>,
}

/// A piece of a real type whose box has a filled cell.
pub open spec fn piece_ok(p: Piece) -> bool {
    1 <= p.typ <= 7 && some_cell(cv(p.cells))
}

/// A piece fresh from the bag: unrotated, its base shape, box at the origin.
pub open spec fn fresh(p: Piece) -> bool {
    1 <= p.typ <= 7 && p.rotation == 0 && p.x == 0 && p.y == 0 && cv(p.cells) == shape(p.typ as int)
}

pub open spec fn types_ok(s: Seq<u8>) -> bool {
    forall|i: int| 0 <= i < s.len() ==> 1 <= #[trigger] s[i] <= 7
}

/// The seven piece types in order.
pub open spec fn all_types() -> Seq<u8> {
    seq![1u8, 2, 3, 4, 5, 6, 7]
}

impl TetrisGame {
    /// The game's invariant: the current piece is real and where moves can
    /// bring it, queued pieces are fresh, the bag and the held piece hold
    /// real types, and the level follows the cleared lines.
    pub open spec fn wf(&self) -> bool {
        &&& piece_ok(self.current)
        &&& self.current.rotation < 4
        &&& -3 <= self.current.x <= 9
        &&& 0 <= self.current.y <= 19
        &&& forall|i: int| 0 <= i < self.next_queue@.len() ==> fresh(#[trigger] self.next_queue@[i])
        &&& types_ok(self.bag@)
        &&& self.held matches Some(h) ==> 1 <= h <= 7
        &&& 0 <= self.lines
        &&& 1 <= self.level <= self.lines / 10 + 1
        &&& 0 <= self.score
    }

    /// `f` brought the next piece in at the top: unrotated, its base shape,
    /// box at column 3, row 0, taken from the head of this game's queue.
    pub open spec fn spawn_rel(&self, f: &Self) -> bool {
        &&& f.current.x == 3 && f.current.y == 0 && f.current.rotation == 0
        &&& 1 <= f.current.typ <= 7
        &&& cv(f.current.cells) == shape(f.current.typ as int)
        &&& self.next_queue@.len() > 0 ==> f.current.typ == self.next_queue@[0].typ
            && f.next_queue@.take(self.next_queue@.len() - 1) == self.next_queue@.skip(1)
        &&& f.game_over == (self.game_over || collides_at(wv(f.grid), cv(f.current.cells), 3, 0))
    }

    /// `f` is this game after its piece locked where it stands: the full
    /// rows cleared and scored (`line_points` times the level before any
    /// change), a level up every ten lines, holding allowed again, and the
    /// next piece brought in (`spawn_rel`).
    pub open spec fn lock_rel(&self, f: &Self) -> bool {
        let o = *self;
        let w1 = locked(wv(o.grid), cv(o.current.cells), o.current.x as int, o.current.y as int, o.current.typ);
        let k = full_count(w1);
        let nl = o.lines + k;
        &&& wv(f.grid) == cleared(w1)
        &&& f.lines == nl
        &&& f.score == o.score + line_points(k) * o.level
        &&& f.level == if k > 0 && nl / 10 + 1 > o.level {
            nl / 10 + 1
        } else {
            o.level as int
        }
        &&& !f.hold_used
        &&& o.spawn_rel(f)
        &&& f.held == o.held
        &&& f.paused == o.paused
    }

    /// `f` is this game after a hold: once per piece, the current type goes
    /// to the hold; the held piece, if any, comes back fresh at the top,
    /// else the next piece is brought in (`spawn_rel`).
    pub open spec fn hold_rel(&self, f: &Self) -> bool {
        if self.hold_used {
            *f == *self
        } else {
            &&& f.held == Some(self.current.typ)
            &&& f.hold_used
            &&& f.grid == self.grid
            &&& f.score == self.score && f.lines == self.lines && f.level == self.level
            &&& f.paused == self.paused
            &&& match self.held {
                Some(h) => *f == (TetrisGame {
                    current: Piece { typ: h, rotation: 0, x: 3, y: 0, cells: f.current.cells },
                    held: Some(self.current.typ),
                    hold_used: true,
                    ..*self
                }) && cv(f.current.cells) == shape(h as int),
                None => self.spawn_rel(f),
            }
        }
    }

    /// A game as it starts: an empty well, counters reset, nothing held,
    /// not paused, the first piece at the top.
    pub open spec fn fresh_start(&self) -> bool {
        &&& self.wf()
        &&& wv(self.grid) == Seq::new(20, |y: int| empty_row())
        &&& self.score == 0 && self.level == 1 && self.lines == 0
        &&& self.held is None && !self.hold_used
        &&& !self.paused && !self.game_over
        &&& self.current.x == 3 && self.current.y == 0 && self.current.rotation == 0
        &&& cv(self.current.cells) == shape(self.current.typ as int)
    }

    /// Locking the piece where it stands keeps the line count and the score
    /// (with the points of the rows it clears) within `i32`.
    pub open spec fn lock_fits(&self) -> bool {
        let w1 = locked(
            wv(self.grid),
            cv(self.current.cells),
            self.current.x as int,
            self.current.y as int,
            self.current.typ,
        );
        let k = full_count(w1);
        self.lines + k <= i32::MAX && self.score + line_points(k) * self.level <= i32::MAX
    }

    /// The game after the hard drop's descent, before the piece locks: the
    /// piece on its landing row, two points a row.
    pub open spec fn dropped(&self) -> TetrisGame {
        let d = drop_distance(
            wv(self.grid),
            cv(self.current.cells),
            self.current.x as int,
            self.current.y as int,
            24,
        );
        TetrisGame {
            current: Piece { y: (self.current.y + d) as i32, ..self.current },
            score: (self.score + 2 * d) as i32,
            ..*self
        }
    }

    /// What the key needs of the counters: the soft drop's point, or the
    /// hard drop's points and lines, fit in an `i32`.
    pub open spec fn key_fits(&self, key: i32, ch: char) -> bool {
        let w = wv(self.grid);
        let c = cv(self.current.cells);
        let (x, y) = (self.current.x as int, self.current.y as int);
        if self.game_over || key == 27 || ch == 'p' || ch == 'P' || self.paused || ch == 'c' || ch == 'C' {
            true
        } else if key == 40 {
            !collides_at(w, c, x, y + 1) ==> self.score < i32::MAX
        } else if key == 32 {
            self.score + 2 * drop_distance(w, c, x, y, 24) <= i32::MAX && self.dropped().lock_fits()
        } else {
            true
        }
    }

    /// What a gravity tick needs of the counters: a piece that locks leaves
    /// them within `i32`.
    pub open spec fn tick_fits(&self) -> bool {
        self.paused || self.game_over || !collides_at(
            wv(self.grid),
            cv(self.current.cells),
            self.current.x as int,
            self.current.y + 1,
        ) || self.lock_fits()
    }

    /// Whether locking the current piece on row `y` with `score` points so
    /// far keeps the counters within `i32`.
    fn lock_room_at(&self, y: i32, score: i64) -> (r: bool)
        requires
            self.wf(),
            0 <= y <= 19,
            0 <= score <= 0x1_0000_0000,
        ensures
            r == ({
                let k = full_count(
                    locked(wv(self.grid), cv(self.current.cells), self.current.x as int, y as int, self.current.typ),
                );
                self.lines + k <= i32::MAX && score + line_points(k) * self.level <= i32::MAX
            }),
    {
        let mut w = self.grid;
        let p = Piece { y, ..self.current };
        lock_piece(&mut w, &p);
        let k = clear_lines(&mut w);
        let pts: i64 = match k {
            1 => 100,
            2 => 300,
            3 => 500,
            4 => 800,
            _ => 0,
        };
        assert(pts == line_points(k as int));
        assert(0 <= pts * (self.level as i64) <= 800 * (self.level as i64)) by (nonlinear_arith)
            requires
                0 <= pts <= 800,
                1 <= self.level,
        ;
        (self.lines as i64) + (k as i64) <= i32::MAX as i64 && score + pts * (self.level as i64) <= i32::MAX as i64
    }

    /// Whether the key fits the counters (see `key_fits`).
    pub fn key_room(&self, key: i32, ch: char) -> (r: bool)
        requires
            self.wf(),
        ensures
            r == self.key_fits(key, ch),
    {
        if self.game_over || key == 27 || ch == 'p' || ch == 'P' || self.paused || ch == 'c' || ch == 'C' {
            return true;
        }
        if key == 40 {
            return collides(&self.grid, &self.current.cells, self.current.x, self.current.y + 1) || self.score
                < i32::MAX;
        }
        if key != 32 {
            return true;
        }
        let ghost w = wv(self.grid);
        let ghost c = cv(self.current.cells);
        let ghost x = self.current.x as int;
        let ghost y0 = self.current.y as int;
        let ghost d = drop_distance(w, c, x, y0, 24);
        let mut y = self.current.y;
        let ghost mut fuel: nat = 24;
        while !collides(&self.grid, &self.current.cells, self.current.x, y + 1)
            invariant
                self.wf(),
                w == wv(self.grid) && c == cv(self.current.cells) && x == self.current.x && y0 == self.current.y,
                y0 <= y <= 19,
                fuel + y >= 24,
                y - y0 + drop_distance(w, c, x, y as int, fuel) == d,
            decreases 19 - y,
        {
            proof {
                lemma_free_bounds(w, c, x, y + 1);
                fuel = (fuel - 1) as nat;
            }
            y += 1;
        }
        assert(d == y - y0);
        let score2 = self.score as i64 + 2 * (y - self.current.y) as i64;
        score2 <= i32::MAX as i64 && self.lock_room_at(y, score2)
    }

    /// Whether a gravity tick fits the counters (see `tick_fits`).
    pub fn tick_room(&self) -> (r: bool)
        requires
            self.wf(),
        ensures
            r == self.tick_fits(),
    {
        if self.paused || self.game_over || !collides(&self.grid, &self.current.cells, self.current.x, self.current.y + 1) {
            return true;
        }
        self.lock_room_at(self.current.y, self.score as i64)
    }

    /// The scene id.
    pub fn id(&self) -> (r: &'static str)
        ensures
            r@ == seq!['t', 'e', 't', 'r', 'i', 's'],
    {
        proof {
            reveal_strlit("tetris");
        }
        "tetris"
    }

    /// Appends the seven types in a random order.
    pub fn fill_bag(&mut self)
        ensures
            final(self).bag@.len() == old(self).bag@.len() + 7,
            final(self).bag@.take(old(self).bag@.len() as int) == old(self).bag@,
            final(self).bag@.skip(old(self).bag@.len() as int).to_multiset() == all_types().to_multiset(),
            types_ok(old(self).bag@) ==> types_ok(final(self).bag@),
            final(self).grid == old(self).grid && final(self).current == old(self).current,
            final(self).next_queue == old(self).next_queue,
            final(self).held == old(self).held && final(self).hold_used == old(self).hold_used,
            final(self).score == old(self).score && final(self).level == old(self).level,
            final(self).lines == old(self).lines,
            final(self).game_over == old(self).game_over && final(self).paused == old(self).paused,
    {
        let mut bag: Vec<u8> = Vec::new();
        let mut t: u8 = 1;
        while t <= 7
            invariant
                1 <= t <= 8,
                bag@ == all_types().take(t - 1),
            decreases 8 - t,
        {
            bag.push(t);
            assert(bag@ =~= all_types().take(t as int));
            t += 1;
        }
        assert(bag@ =~= all_types());
        shuffle_bytes(&mut bag);
        proof {
            bag@.to_multiset_ensures();
            all_types().to_multiset_ensures();
        }
        let ghost b0 = self.bag@;
        let mut i: usize = 0;
        while i < bag.len()
            invariant
                i <= bag.len(),
                bag@.len() == 7,
                self.bag@ == b0 + bag@.take(i as int),
                self.grid == old(self).grid && self.current == old(self).current,
                self.next_queue == old(self).next_queue,
                self.held == old(self).held && self.hold_used == old(self).hold_used,
                self.score == old(self).score && self.level == old(self).level,
                self.lines == old(self).lines,
                self.game_over == old(self).game_over && self.paused == old(self).paused,
            decreases bag.len() - i,
        {
            self.bag.push(bag[i]);
            assert(self.bag@ =~= b0 + bag@.take(i + 1));
            i += 1;
        }
        assert(bag@.take(7) =~= bag@);
        assert(self.bag@.take(b0.len() as int) =~= b0);
        assert(self.bag@.skip(b0.len() as int) =~= bag@);
        proof {
            if types_ok(b0) {
                assert forall|k: int| 0 <= k < self.bag@.len() implies 1 <= #[trigger] self.bag@[k]
                    <= 7 by {
                    if k >= b0.len() {
                        let v = bag@[k - b0.len()];
                        assert(bag@.contains(v));
                        assert(bag@.to_multiset().count(v) > 0) by {
                            bag@.to_multiset_ensures();
                        }
                        assert(all_types().to_multiset().count(v) > 0);
                        all_types().to_multiset_ensures();
                        assert(all_types().contains(v));
                    }
                }
            }
        }
    }

    /// Tops the queue up to three pieces, taking types from the front of the
    /// bag and refilling the bag when it runs dry.
    pub fn fill_queue(&mut self)
        requires
            types_ok(old(self).bag@),
            forall|i: int| 0 <= i < old(self).next_queue@.len() ==> fresh(#[trigger] old(self).next_queue@[i]),
        ensures
            types_ok(final(self).bag@),
            forall|i: int| 0 <= i < final(self).next_queue@.len() ==> fresh(#[trigger] final(self).next_queue@[i]),
            final(self).next_queue@.len() == if old(self).next_queue@.len() >= 3 {
                old(self).next_queue@.len() as int
            } else {
                3
            },
            final(self).next_queue@.take(old(self).next_queue@.len() as int) == old(self).next_queue@,
            ({
                let need = final(self).next_queue@.len() - old(self).next_queue@.len();
                need <= old(self).bag@.len() ==> {
                    &&& forall|i: int| 0 <= i < need ==> (#[trigger] final(self).next_queue@[old(self).next_queue@.len() + i]).typ == old(self).bag@[i]
                    &&& final(self).bag@ == old(self).bag@.skip(need)
                }
            }),
            final(self).grid == old(self).grid && final(self).current == old(self).current,
            final(self).held == old(self).held && final(self).hold_used == old(self).hold_used,
            final(self).score == old(self).score && final(self).level == old(self).level,
            final(self).lines == old(self).lines,
            final(self).game_over == old(self).game_over && final(self).paused == old(self).paused,
    {
        let ghost q0 = self.next_queue@;
        let ghost b0 = self.bag@;
        let ghost mut refilled = false;
        while self.next_queue.len() < 3
            invariant
                types_ok(self.bag@),
                forall|i: int| 0 <= i < self.next_queue@.len() ==> fresh(#[trigger] self.next_queue@[i]),
                self.next_queue@.len() >= q0.len(),
                q0.len() < 3 ==> self.next_queue@.len() <= 3,
                q0.len() >= 3 ==> self.next_queue@.len() == q0.len(),
                self.next_queue@.take(q0.len() as int) == q0,
                !refilled ==> {
                    &&& self.next_queue@.len() - q0.len() <= b0.len()
                    &&& self.bag@ == b0.skip(self.next_queue@.len() - q0.len())
                    &&& forall|i: int| 0 <= i < self.next_queue@.len() - q0.len() ==> (#[trigger] self.next_queue@[q0.len() + i]).typ == b0[i]
                },
                (3 - q0.len()) <= b0.len() ==> !refilled,
                self.grid == old(self).grid && self.current == old(self).current,
                self.held == old(self).held && self.hold_used == old(self).hold_used,
                self.score == old(self).score && self.level == old(self).level,
                self.lines == old(self).lines,
                self.game_over == old(self).game_over && self.paused == old(self).paused,
            decreases 3 - self.next_queue@.len(),
        {
            if self.bag.len() == 0 {
                self.fill_bag();
                proof {
                    refilled = true;
                }
            }
            let ghost bag_before = self.bag@;
            let typ = self.bag.remove(0);
            assert(1 <= typ <= 7) by {
                assert(bag_before[0] == typ);
            }
            assert(types_ok(self.bag@)) by {
                assert forall|k: int| 0 <= k < self.bag@.len() implies 1 <= #[trigger] self.bag@[k] <= 7 by {
                    assert(self.bag@[k] == bag_before[k + 1]);
                }
            }
            let cells = get_rotated(&base_shape(typ), 0);
            let ghost q_before = self.next_queue@;
            self.next_queue.push(Piece { typ, rotation: 0, x: 0, y: 0, cells });
            assert(self.next_queue@.take(q0.len() as int) =~= q_before.take(q0.len() as int));
            proof {
                if !refilled {
                    assert(self.bag@ =~= b0.skip(self.next_queue@.len() - q0.len()));
                }
            }
        }
    }

    /// Brings the next piece in at the top (box at column 3, row 0); the game
    /// ends when it collides at once.
    pub fn spawn_next(&mut self)
        requires
            types_ok(old(self).bag@),
            forall|i: int| 0 <= i < old(self).next_queue@.len() ==> fresh(#[trigger] old(self).next_queue@[i]),
        ensures
            types_ok(final(self).bag@),
            forall|i: int| 0 <= i < final(self).next_queue@.len() ==> fresh(#[trigger] final(self).next_queue@[i]),
            final(self).next_queue@.len() >= 3,
            piece_ok(final(self).current),
            final(self).current.x == 3 && final(self).current.y == 0,
            final(self).current.rotation == 0,
            cv(final(self).current.cells) == shape(final(self).current.typ as int),
            old(self).next_queue@.len() > 0 ==> final(self).current.typ == old(self).next_queue@[0].typ
                && final(self).next_queue@.take(old(self).next_queue@.len() - 1) == old(self).next_queue@.skip(1),
            final(self).game_over == (old(self).game_over || collides_at(
                wv(final(self).grid),
                cv(final(self).current.cells),
                3,
                0,
            )),
            final(self).grid == old(self).grid,
            final(self).held == old(self).held && final(self).hold_used == old(self).hold_used,
            final(self).score == old(self).score && final(self).level == old(self).level,
            final(self).lines == old(self).lines,
            final(self).paused == old(self).paused,
    {
        let ghost q0 = self.next_queue@;
        self.fill_queue();
        let mut piece = self.next_queue.remove(0);
        let ghost q1 = self.next_queue@;
        piece.x = 3;
        piece.y = 0;
        self.current = piece;
        proof {
            lemma_shape_filled(piece.typ as int);
        }
        self.fill_queue();
        if collides(&self.grid, &self.current.cells, self.current.x, self.current.y) {
            self.game_over = true;
        }
        proof {
            if q0.len() > 0 {
                assert(self.next_queue@.take(q0.len() - 1) =~= q0.skip(1)) by {
                    assert forall|i: int| 0 <= i < q0.len() - 1 implies self.next_queue@[i] == q0.skip(1)[i] by {
                        assert(self.next_queue@.take(q1.len() as int)[i] == q1[i]);
                    }
                }
            }
        }
    }

    /// Locks the current piece into the well, clears full rows and scores
    /// them (`line_points` times the level, before any level change), moves
    /// up a level every ten lines, allows holding again, and spawns the next
    /// piece.
    pub fn lock_and_spawn(&mut self)
        requires
            old(self).wf(),
            old(self).lock_fits(),
        ensures
            final(self).wf(),
            old(self).lock_rel(&*final(self)),
    {
        lock_piece(&mut self.grid, &self.current);
        let cleared_rows = clear_lines(&mut self.grid);
        if cleared_rows > 0 {
            self.lines += cleared_rows;
            self.score += line_score(cleared_rows, self.level);
            let new_level = self.lines / 10 + 1;
            if new_level > self.level {
                self.level = new_level;
            }
        }
        self.hold_used = false;
        self.spawn_next();
    }

    /// Swaps the current piece with the held one (or holds it and spawns the
    /// next piece when nothing is held); once per piece.
    pub fn hold_piece(&mut self)
        requires
            old(self).wf(),
        ensures
            final(self).wf(),
            old(self).hold_rel(&*final(self)),
    {
        if self.hold_used {
            return;
        }
        let typ = self.current.typ;
        if let Some(held_typ) = self.held {
            let cells = get_rotated(&base_shape(held_typ), 0);
            proof {
                lemma_shape_filled(held_typ as int);
            }
            self.current = Piece { typ: held_typ, rotation: 0, x: 3, y: 0, cells };
            self.held = Some(typ);
        } else {
            self.held = Some(typ);
            self.spawn_next();
        }
        self.hold_used = true;
    }

    /// One gravity tick: the piece falls a row, or locks when it cannot.
    /// Nothing happens while paused or after the game ended.
    pub fn drop_step(&mut self)
        requires
            old(self).wf(),
            old(self).tick_fits(),
        ensures
            final(self).wf(),
            (old(self).paused || old(self).game_over) ==> *final(self) == *old(self),
            (!old(self).paused && !old(self).game_over && !collides_at(
                wv(old(self).grid),
                cv(old(self).current.cells),
                old(self).current.x as int,
                old(self).current.y + 1,
            )) ==> *final(self) == (TetrisGame {
                current: Piece { y: (old(self).current.y + 1) as i32, ..old(self).current },
                ..*old(self)
            }),
            (!old(self).paused && !old(self).game_over && collides_at(
                wv(old(self).grid),
                cv(old(self).current.cells),
                old(self).current.x as int,
                old(self).current.y + 1,
            )) ==> wv(final(self).grid) == cleared(
                locked(
                    wv(old(self).grid),
                    cv(old(self).current.cells),
                    old(self).current.x as int,
                    old(self).current.y as int,
                    old(self).current.typ,
                ),
            ) && final(self).current.x == 3 && final(self).current.y == 0,
    {
        if self.paused || self.game_over {
            return;
        }
        if !collides(&self.grid, &self.current.cells, self.current.x, self.current.y + 1) {
            proof {
                lemma_free_bounds(wv(self.grid), cv(self.current.cells), self.current.x as int, self.current.y + 1);
            }
            self.current.y += 1;
        } else {
            self.lock_and_spawn();
        }
    }

    /// An empty well, counters reset, nothing held, a fresh bag and queue,
    /// and the first piece in play.
    pub fn init(&mut self)
        ensures
            final(self).fresh_start(),
    {
        self.grid = [[0u8; 10]; 20];
        assert(wv(self.grid) =~= Seq::new(20, |y: int| empty_row())) by {
            assert forall|y: int| 0 <= y < 20 implies #[trigger] wv(self.grid)[y] =~= empty_row() by {}
        }
        self.score = 0;
        self.level = 1;
        self.lines = 0;
        self.game_over = false;
        self.paused = false;
        self.hold_used = false;
        self.held = None;
        self.bag = Vec::new();
        self.next_queue = Vec::new();
        self.fill_bag();
        self.fill_queue();
        self.spawn_next();
        proof {
            // An empty well has nothing to collide with at the spawn point.
            let c = cv(self.current.cells);
            if collides_at(wv(self.grid), c, 3, 0) {
                let (r, k) = choose|r: int, k: int| 0 <= r < 4 && 0 <= k < 4 && #[trigger] c[r][k]
                    && blocked(wv(self.grid), 3 + k, 0 + r);
                assert(wv(self.grid)[r][3 + k] == 0);
            }
        }
    }

    /// A game ready to play.
    pub fn new() -> (g: Self)
        ensures
            g.fresh_start(),
    {
        let mut g = TetrisGame {
            grid: [[0u8; 10]; 20],
            current: Piece { typ: 1, rotation: 0, x: 3, y: 0, cells: base_shape(1) },
            next_queue: Vec::new(),
            held: None,
            hold_used: false,
            score: 0,
            level: 1,
            lines: 0,
            game_over: false,
            paused: false,
            bag: Vec::new(),
        };
        g.init();
        g
    }

    /// Keys: after the game ended only space (32) restarts; Esc (27) does
    /// nothing; `p` pauses and resumes; while paused nothing else; `c` holds;
    /// left/right (37/39) shift when the piece fits; up (38) rotates
    /// clockwise, trying the shifts 0, -1, +1, -2, +2; down (40) moves one
    /// row for a point; space drops the piece to the floor for two points a
    /// row and locks it.
    pub fn handle_key(&mut self, key: i32, ch: char)
        requires
            old(self).wf(),
            old(self).key_fits(key, ch),
        ensures
            final(self).wf(),
            ({
                let o = *old(self);
                let f = *final(self);
                let w = wv(o.grid);
                let c = cv(o.current.cells);
                let (x, y) = (o.current.x as int, o.current.y as int);
                if o.game_over {
                    if key == 32 {
                        f.fresh_start()
                    } else {
                        f == o
                    }
                } else if key == 27 {
                    f == o
                } else if ch == 'p' || ch == 'P' {
                    f == TetrisGame { paused: !o.paused, ..o }
                } else if o.paused {
                    f == o
                } else if ch == 'c' || ch == 'C' {
                    o.hold_rel(&f)
                } else if key == 37 {
                    f == if !collides_at(w, c, x - 1, y) {
                        TetrisGame { current: Piece { x: (x - 1) as i32, ..o.current }, ..o }
                    } else {
                        o
                    }
                } else if key == 39 {
                    f == if !collides_at(w, c, x + 1, y) {
                        TetrisGame { current: Piece { x: (x + 1) as i32, ..o.current }, ..o }
                    } else {
                        o
                    }
                } else if key == 38 {
                    match first_kick(w, rot_cells(c), x, y, 0) {
                        Some(dx) => cv(f.current.cells) == rot_cells(c) && f.current.x == x + dx
                            && f.current.rotation == (o.current.rotation + 1) % 4 && f.current.y
                            == y && f.current.typ == o.current.typ && f.grid == o.grid && f.score
                            == o.score,
                        None => f == o,
                    }
                } else if key == 40 {
                    f == if !collides_at(w, c, x, y + 1) {
                        TetrisGame {
                            current: Piece { y: (y + 1) as i32, ..o.current },
                            score: (o.score + 1) as i32,
                            ..o
                        }
                    } else {
                        o
                    }
                } else if key == 32 {
                    o.dropped().lock_rel(&f)
                } else {
                    f == o
                }
            }),
    {
        if self.game_over {
            if key == 32 {
                self.init();
            }
            return;
        }
        if key == 27 {
            return;
        }
        if ch == 'p' || ch == 'P' {
            self.paused = !self.paused;
            return;
        }
        if self.paused {
            return;
        }
        if ch == 'c' || ch == 'C' {
            self.hold_piece();
            return;
        }
        match key {
            37 => {
                if !collides(&self.grid, &self.current.cells, self.current.x - 1, self.current.y) {
                    proof {
                        lemma_free_bounds(wv(self.grid), cv(self.current.cells), self.current.x - 1, self.current.y as int);
                    }
                    self.current.x -= 1;
                }
            },
            39 => {
                if !collides(&self.grid, &self.current.cells, self.current.x + 1, self.current.y) {
                    proof {
                        lemma_free_bounds(wv(self.grid), cv(self.current.cells), self.current.x + 1, self.current.y as int);
                    }
                    self.current.x += 1;
                }
            },
            38 => {
                let new_cells = rotated_cells(&self.current.cells);
                proof {
                    lemma_rot_filled(cv(self.current.cells));
                }
                let mut i: usize = 0;
                while i < 5
                    invariant
                        i <= 5,
                        self.wf(),
                        *self == *old(self),
                        !old(self).game_over && !old(self).paused && key == 38,
                        !(ch == 'p' || ch == 'P') && !(ch == 'c' || ch == 'C'),
                        cv(new_cells) == rot_cells(cv(self.current.cells)),
                        some_cell(cv(new_cells)),
                        first_kick(wv(self.grid), cv(new_cells), self.current.x as int, self.current.y as int, i as int)
                            == first_kick(wv(self.grid), cv(new_cells), self.current.x as int, self.current.y as int, 0),
                    decreases 5 - i,
                {
                    let dx = kick_offset(i);
                    if !collides(&self.grid, &new_cells, self.current.x + dx, self.current.y) {
                        assert(first_kick(wv(self.grid), cv(new_cells), self.current.x as int, self.current.y as int, i as int)
                            == Some(dx as int));
                        proof {
                            lemma_free_bounds(wv(self.grid), cv(new_cells), self.current.x + dx, self.current.y as int);
                        }
                        self.current.cells = new_cells;
                        self.current.x += dx;
                        self.current.rotation = (self.current.rotation + 1) % 4;
                        return;
                    }
                    i += 1;
                }
            },
            40 => {
                if !collides(&self.grid, &self.current.cells, self.current.x, self.current.y + 1) {
                    proof {
                        lemma_free_bounds(wv(self.grid), cv(self.current.cells), self.current.x as int, self.current.y + 1);
                    }
                    self.current.y += 1;
                    self.score += 1;
                }
            },
            32 => {
                let ghost o = *self;
                let ghost d = drop_distance(wv(self.grid), cv(self.current.cells), self.current.x as int, self.current.y as int, 24);
                let ghost mut fuel: nat = 24;
                while !collides(&self.grid, &self.current.cells, self.current.x, self.current.y + 1)
                    invariant
                        self.wf(),
                        *self == (TetrisGame {
                            current: Piece { y: self.current.y, ..o.current },
                            score: self.score,
                            ..o
                        }),
                        self.grid == o.grid,
                        self.current.cells == o.current.cells,
                        self.current.x == o.current.x,
                        self.current.typ == o.current.typ,
                        self.lines == o.lines && self.level == o.level,
                        self.held == o.held && self.hold_used == o.hold_used,
                        !self.game_over && !self.paused,
                        self.next_queue == o.next_queue && self.bag == o.bag,
                        o.current.y <= self.current.y <= 19,
                        fuel + self.current.y >= 24,
                        self.current.y - o.current.y + drop_distance(wv(self.grid), cv(self.current.cells), self.current.x as int, self.current.y as int, fuel) == d,
                        self.score == o.score + 2 * (self.current.y - o.current.y),
                        o.score + 2 * d <= i32::MAX,
                        o.dropped().lock_fits(),
                        o == *old(self),
                        0 <= o.current.y,
                    decreases 19 - self.current.y,
                {
                    proof {
                        lemma_free_bounds(wv(self.grid), cv(self.current.cells), self.current.x as int, self.current.y + 1);
                        lemma_drop_nonneg(wv(self.grid), cv(self.current.cells), self.current.x as int, self.current.y + 1, (fuel - 1) as nat);
                        fuel = (fuel - 1) as nat;
                    }
                    self.current.y += 1;
                    self.score += 2;
                }
                self.lock_and_spawn();
            },
            _ => {},
        }
    }
}

/// The wall-kick shifts that a rotation tries, in order.
pub open spec fn kick_off(i: int) -> int {
    if i == 0 {
        0
    } else if i == 1 {
        -1
    } else if i == 2 {
        1
    } else if i == 3 {
        -2
    } else {
        2
    }
}

fn kick_offset(i: usize) -> (r: i32)
    requires
        i < 5,
    ensures
        r == kick_off(i as int),
{
    match i {
        0 => 0,
        1 => -1,
        2 => 1,
        3 => -2,
        _ => 2,
    }
}

/// The first shift, from entry `i` of the kick table on, at which the box
/// fits.
pub open spec fn first_kick(w: Seq<Seq<u8>>, c: Seq<Seq<bool>>, x: int, y: int, i: int) -> Option<int>
    decreases 5 - i,
{
    if i < 0 || i >= 5 {
        None
    } else if !collides_at(w, c, x + kick_off(i), y) {
        Some(kick_off(i))
    } else {
        first_kick(w, c, x, y, i + 1)
    }
}

/// How many rows the box falls before it would collide.
pub open spec fn drop_distance(w: Seq<Seq<u8>>, c: Seq<Seq<bool>>, x: int, y: int, fuel: nat) -> int
    decreases fuel,
{
    if fuel == 0 || collides_at(w, c, x, y + 1) {
        0
    } else {
        1 + drop_distance(w, c, x, y + 1, (fuel - 1) as nat)
    }
}

proof fn lemma_drop_nonneg(w: Seq<Seq<u8>>, c: Seq<Seq<bool>>, x: int, y: int, fuel: nat)
    ensures
        drop_distance(w, c, x, y, fuel) >= 0,
    decreases fuel,
{
    if fuel > 0 {
        lemma_drop_nonneg(w, c, x, y + 1, (fuel - 1) as nat);
    }
}

/// Four quarter turns give the piece's box back.
pub proof fn law_four_turns_cells(c: Seq<Seq<bool>>)
    requires
        c.len() == 4,
        forall|y: int| 0 <= y < 4 ==> #[trigger] c[y].len() == 4,
    ensures
        rot_cells_n(c, 4) == c,
{
    reveal_with_fuel(rot_cells_n, 5);
    assert forall|y: int| 0 <= y < 4 implies #[trigger] rot_cells(rot_cells(rot_cells(rot_cells(c))))[y] =~= c[y] by {}
    assert(rot_cells(rot_cells(rot_cells(rot_cells(c)))) =~= c);
}

proof fn lemma_kept_not_full(w: Seq<Seq<u8>>, n: int)
    requires
        n >= 0,
    ensures
        forall|i: int| 0 <= i < kept_rows(w, n).len() ==> !full_row(#[trigger] kept_rows(w, n)[i]),
    decreases n,
{
    if n > 0 {
        lemma_kept_not_full(w, n - 1);
        let k = kept_rows(w, n - 1);
        if !full_row(w[n - 1]) {
            assert forall|i: int| 0 <= i < k.push(w[n - 1]).len() implies !full_row(#[trigger] k.push(w[n - 1])[i]) by {
                if i < k.len() {
                    assert(k.push(w[n - 1])[i] == k[i]);
                }
            }
        }
    }
}

/// After clearing, the well still has twenty rows and none of them is full.
pub proof fn law_no_full_row_after_clear(w: Seq<Seq<u8>>)
    ensures
        cleared(w).len() == 20,
        forall|y: int| 0 <= y < 20 ==> !full_row(#[trigger] cleared(w)[y]),
{
    lemma_kept_len(w, 20);
    lemma_kept_not_full(w, 20);
    let f = full_count(w);
    assert forall|y: int| 0 <= y < 20 implies !full_row(#[trigger] cleared(w)[y]) by {
        if y < f {
            assert(cleared(w)[y] == empty_row());
            assert(empty_row()[0] == 0);
        } else {
            assert(cleared(w)[y] == kept_rows(w, 20)[y - f]);
        }
    }
}

/// A row with some empty cell among its ten columns.
pub open spec fn has_gap(r: Seq<u8>) -> bool {
    exists|x: int| 0 <= x < 10 && #[trigger] r[x] == 0
}

/// A row whose ten columns are all filled.
pub open spec fn complete(r: Seq<u8>) -> bool {
    forall|x: int| 0 <= x < 10 ==> #[trigger] r[x] != 0
}

proof fn lemma_kept_filter(w: Seq<Seq<u8>>, n: int)
    requires
        0 <= n <= w.len(),
    ensures
        kept_rows(w, n) == w.take(n).filter(|r: Seq<u8>| has_gap(r)),
        kept_rows(w, n).len() + w.take(n).filter(|r: Seq<u8>| complete(r)).len() == n,
    decreases n,
{
    reveal_with_fuel(Seq::filter, 2);
    if n > 0 {
        lemma_kept_filter(w, n - 1);
        let t = w.take(n);
        assert(t.drop_last() =~= w.take(n - 1));
        assert(t.last() == w[n - 1]);
        let r = w[n - 1];
        assert(full_row(r) == !has_gap(r)) by {
            if !full_row(r) {
                let x = choose|x: int| !(0 <= x < 10 ==> #[trigger] r[x] != 0);
                assert(r[x] == 0);
            }
        }
        assert(complete(r) == full_row(r));
    }
}

/// Clearing removes exactly the rows whose ten columns are all filled: it
/// counts them, every row with an empty cell survives in its order at the
/// bottom, and the rows put on top are empty.
pub proof fn law_clear_removes_exactly_complete_rows(w: Seq<Seq<u8>>)
    requires
        w.len() == 20,
    ensures
        full_count(w) == w.filter(|r: Seq<u8>| complete(r)).len(),
        cleared(w).len() == 20,
        cleared(w).skip(full_count(w)) == w.filter(|r: Seq<u8>| has_gap(r)),
        forall|i: int, x: int| 0 <= i < full_count(w) && 0 <= x < 10 ==> #[trigger] cleared(w)[i][x] == 0,
{
    lemma_kept_filter(w, 20);
    assert(w.take(20) =~= w);
    lemma_kept_len(w, 20);
    let c = cleared(w);
    assert(c.skip(full_count(w)) =~= kept_rows(w, 20));
}

} // verus!
