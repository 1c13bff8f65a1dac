//! Sudoku: a random full grid found by backtracking, with cells blanked out
//! for the player to fill in.
use vstd::prelude::*;
use crate::rng::{random_index, shuffle_bytes};

verus! {

pub type Board = [[u8; 9]; 9];

/// `(yy, xx)` shares a row, a column or a 3x3 box with `(y, x)`.
pub open spec fn same_unit(y: int, x: int, yy: int, xx: int) -> bool {
    yy == y || xx == x || (yy / 3 == y / 3 && xx / 3 == x / 3)
}

/// A cell of the 9x9 grid.
pub open spec fn cell(y: int, x: int) -> bool {
    0 <= y < 9 && 0 <= x < 9
}

/// No cell in the row, column or box of `(y, x)` holds `n`.
pub open spec fn can_place(b: Board, x: int, y: int, n: u8) -> bool {
    forall|yy: int, xx: int| cell(yy, xx) && same_unit(y, x, yy, xx) ==> #[trigger] b[yy][xx] != n
}

/// The value at `(y, x)` appears nowhere else in its row, column or box.
pub open spec fn fits(b: Board, x: int, y: int) -> bool {
    forall|yy: int, xx: int|
        cell(yy, xx) && same_unit(y, x, yy, xx) && !(yy == y && xx == x) ==> #[trigger] b[yy][xx] != b[y][x]
}

/// `b` completes `old` from position `pos` on (row-major, `y * 9 + x`): it
/// keeps every earlier cell and every given, and fills each blank from `pos`
/// on with a digit that clashes with no other cell.
pub open spec fn completes(old: Board, b: Board, pos: int) -> bool {
    &&& forall|y: int, x: int|
        cell(y, x) && (y * 9 + x < pos || old[y][x] != 0) ==> #[trigger] b[y][x] == old[y][x]
    &&& forall|y: int, x: int|
        cell(y, x) && y * 9 + x >= pos && old[y][x] == 0 ==> 1 <= #[trigger] b[y][x] <= 9 && fits(b, x, y)
}

/// Some board completes `old` from `pos` on.
pub open spec fn solvable(old: Board, pos: int) -> bool {
    exists|b: Board| #[trigger] completes(old, b, pos)
}

/// Some board completes `old` from `pos` on with `v` at `(y, x)`.
pub open spec fn solvable_with(old: Board, pos: int, x: int, y: int, v: u8) -> bool {
    exists|b: Board| #[trigger] completes(old, b, pos) && b[y][x] == v
}

/// `a` and `b` differ at most at `(y, x)`, where `b` holds `n`.
pub open spec fn set_at(a: Board, b: Board, x: int, y: int, n: u8) -> bool {
    &&& b[y][x] == n
    &&& forall|yy: int, xx: int| cell(yy, xx) && !(yy == y && xx == x) ==> #[trigger] b[yy][xx] == a[yy][xx]
}

/// Whether `n` may go at `(x, y)`: it is in no cell of the row, the column
/// or the 3x3 box.
pub fn is_valid(board: &Board, x: usize, y: usize, n: u8) -> (r: bool)
    requires
        x < 9,
        y < 9,
    ensures
        r == can_place(*board, x as int, y as int, n),
{
    let mut i: usize = 0;
    while i < 9
        invariant
            x < 9,
            y < 9,
            i <= 9,
            forall|j: int| 0 <= j < i ==> #[trigger] board[y as int][j] != n,
            forall|j: int| 0 <= j < i ==> #[trigger] board[j][x as int] != n,
        decreases 9 - i,
    {
        if board[y][i] == n || board[i][x] == n {
            proof {
                assert(same_unit(y as int, x as int, y as int, i as int));
                assert(same_unit(y as int, x as int, i as int, x as int));
            }
            return false;
        }
        i += 1;
    }
    let bx = x / 3 * 3;
    let by = y / 3 * 3;
    let mut dy: usize = 0;
    while dy < 3
        invariant
            x < 9,
            y < 9,
            bx == x / 3 * 3,
            by == y / 3 * 3,
            dy <= 3,
            forall|j: int| 0 <= j < 9 ==> #[trigger] board[y as int][j] != n,
            forall|j: int| 0 <= j < 9 ==> #[trigger] board[j][x as int] != n,
            forall|a: int, c: int| 0 <= a < dy && 0 <= c < 3 ==> #[trigger] board[by + a][bx + c] != n,
        decreases 3 - dy,
    {
        let mut dx: usize = 0;
        while dx < 3
            invariant
                x < 9,
                y < 9,
                bx == x / 3 * 3,
                by == y / 3 * 3,
                dy < 3,
                dx <= 3,
                forall|j: int| 0 <= j < 9 ==> #[trigger] board[y as int][j] != n,
            forall|j: int| 0 <= j < 9 ==> #[trigger] board[j][x as int] != n,
                forall|a: int, c: int|
                    (0 <= a < dy && 0 <= c < 3) || (a == dy && 0 <= c < dx) ==> #[trigger] board[by + a][bx + c] != n,
            decreases 3 - dx,
        {
            if board[by + dy][bx + dx] == n {
                proof {
                    assert(same_unit(y as int, x as int, (by + dy) as int, (bx + dx) as int));
                }
                return false;
            }
            dx += 1;
        }
        dy += 1;
    }
    proof {
        assert forall|yy: int, xx: int| cell(yy, xx) && same_unit(y as int, x as int, yy, xx) implies #[trigger] board[yy][xx]
            != n by {
            if yy == y {
                assert(board[y as int][xx] != n);
            } else if xx == x {
                assert(board[yy][x as int] != n);
            } else {
                assert(0 <= yy - by < 3) by (nonlinear_arith)
                    requires
                        yy / 3 == y / 3,
                        by == y / 3 * 3,
                        0 <= yy,
                        0 <= y,
                ;
                assert(0 <= xx - bx < 3) by (nonlinear_arith)
                    requires
                        xx / 3 == x / 3,
                        bx == x / 3 * 3,
                        0 <= xx,
                        0 <= x,
                ;
                assert(board[by + (yy - by)][bx + (xx - bx)] != n);
            }
        }
    }
    true
}

proof fn lemma_pos(pos: int)
    requires
        0 <= pos < 81,
    ensures
        0 <= pos / 9 < 9,
        0 <= pos % 9 < 9,
        (pos / 9) * 9 + pos % 9 == pos,
{
}

/// A given cell at `pos` changes nothing about what completes the board.
proof fn lemma_given(old: Board, pos: int, x: int, y: int)
    requires
        cell(y, x),
        y * 9 + x == pos,
        old[y][x] != 0,
    ensures
        forall|b: Board| completes(old, b, pos) == completes(old, b, pos + 1),
{
    assert forall|b: Board| completes(old, b, pos) == completes(old, b, pos + 1) by {
        if completes(old, b, pos) {
            assert forall|yy: int, xx: int|
                cell(yy, xx) && (yy * 9 + xx < pos + 1 || old[yy][xx] != 0) implies #[trigger] b[yy][xx]
                == old[yy][xx] by {
                if yy * 9 + xx == pos {
                    assert(yy == y && xx == x);
                }
            }
        }
        if completes(old, b, pos + 1) {
            assert forall|yy: int, xx: int|
                cell(yy, xx) && yy * 9 + xx >= pos && old[yy][xx] == 0 implies 1 <= #[trigger] b[yy][xx] <= 9
                && fits(b, xx, yy) by {
                if yy * 9 + xx == pos {
                    assert(yy == y && xx == x);
                }
            }
        }
    }
}

/// A completion from `pos + 1` of the board with `n` placed at `pos`, where
/// `n` could go, completes the board from `pos`.
proof fn lemma_lift(old: Board, o2: Board, b: Board, pos: int, x: int, y: int, n: u8)
    requires
        cell(y, x),
        y * 9 + x == pos,
        old[y][x] == 0,
        1 <= n <= 9,
        set_at(old, o2, x, y, n),
        can_place(old, x, y, n),
        completes(o2, b, pos + 1),
    ensures
        completes(old, b, pos),
{
    assert forall|yy: int, xx: int|
        cell(yy, xx) && (yy * 9 + xx < pos || old[yy][xx] != 0) implies #[trigger] b[yy][xx] == old[yy][xx] by {
        assert(!(yy == y && xx == x));
        assert(o2[yy][xx] == old[yy][xx]);
    }
    assert forall|yy: int, xx: int|
        cell(yy, xx) && yy * 9 + xx >= pos && old[yy][xx] == 0 implies 1 <= #[trigger] b[yy][xx] <= 9 && fits(
        b,
        xx,
        yy,
    ) by {
        if yy == y && xx == x {
            assert(b[y][x] == n);
            assert forall|py: int, px: int|
                cell(py, px) && same_unit(y, x, py, px) && !(py == y && px == x) implies #[trigger] b[py][px]
                != b[y][x] by {
                assert(o2[py][px] == old[py][px]);
                if py * 9 + px < pos || old[py][px] != 0 {
                    assert(b[py][px] == old[py][px]);
                    assert(old[py][px] != n);
                } else {
                    assert(py * 9 + px != pos);
                    assert(fits(b, px, py));
                    assert(same_unit(py, px, y, x));
                    assert(b[y][x] != b[py][px]);
                }
            }
        } else {
            assert(o2[yy][xx] == old[yy][xx]);
            assert(yy * 9 + xx != pos);
        }
    }
}

/// A completion from `pos` with `n` at `pos` completes, from `pos + 1`, the
/// board with `n` placed there.
proof fn lemma_lower(old: Board, o2: Board, b: Board, pos: int, x: int, y: int, n: u8)
    requires
        cell(y, x),
        y * 9 + x == pos,
        old[y][x] == 0,
        set_at(old, o2, x, y, n),
        completes(old, b, pos),
        b[y][x] == n,
    ensures
        completes(o2, b, pos + 1),
{
    assert forall|yy: int, xx: int|
        cell(yy, xx) && (yy * 9 + xx < pos + 1 || o2[yy][xx] != 0) implies #[trigger] b[yy][xx] == o2[yy][xx] by {
        if !(yy == y && xx == x) {
            assert(o2[yy][xx] == old[yy][xx]);
            assert(yy * 9 + xx != pos);
        }
    }
    assert forall|yy: int, xx: int|
        cell(yy, xx) && yy * 9 + xx >= pos + 1 && o2[yy][xx] == 0 implies 1 <= #[trigger] b[yy][xx] <= 9 && fits(
        b,
        xx,
        yy,
    ) by {
        assert(!(yy == y && xx == x));
        assert(o2[yy][xx] == old[yy][xx]);
    }
}

/// What a completion puts at the blank `pos` could go there.
proof fn lemma_blocked(old: Board, b: Board, pos: int, x: int, y: int)
    requires
        cell(y, x),
        y * 9 + x == pos,
        old[y][x] == 0,
        completes(old, b, pos),
    ensures
        can_place(old, x, y, b[y][x]),
        1 <= b[y][x] <= 9,
{
    assert(1 <= b[y][x] <= 9 && fits(b, x, y));
    assert forall|yy: int, xx: int| cell(yy, xx) && same_unit(y, x, yy, xx) implies #[trigger] old[yy][xx]
        != b[y][x] by {
        if old[yy][xx] != 0 {
            assert(b[yy][xx] == old[yy][xx]);
            if !(yy == y && xx == x) {
                assert(b[yy][xx] != b[y][x]);
            }
        }
    }
}

/// Fills the blanks of `board` from position `pos` on by backtracking,
/// trying the digits at each blank in a random order. Succeeds exactly when
/// some completion exists, and then leaves one in `board`; on failure the
/// board is as it was.
pub fn solve_internal(board: &mut Board, pos: usize) -> (r: bool)
    requires
        pos <= 81,
    ensures
        r == solvable(*old(board), pos as int),
        r ==> completes(*old(board), *final(board), pos as int),
        !r ==> *final(board) == *old(board),
    decreases 81 - pos,
{
    if pos == 81 {
        proof {
            assert(completes(*board, *board, 81));
        }
        return true;
    }
    let x = pos % 9;
    let y = pos / 9;
    proof {
        lemma_pos(pos as int);
    }
    if board[y][x] != 0 {
        proof {
            lemma_given(*board, pos as int, x as int, y as int);
            if solvable(*board, pos as int) {
                let b = choose|b: Board| #[trigger] completes(*board, b, pos as int);
                assert(completes(*board, b, pos + 1));
            }
            if solvable(*board, pos + 1) {
                let b = choose|b: Board| #[trigger] completes(*board, b, pos + 1);
                assert(completes(*board, b, pos as int));
            }
        }
        return solve_internal(board, pos + 1);
    }
    let ghost o = *board;
    let ghost digits: Seq<u8> = Seq::new(9, |k: int| (k + 1) as u8);
    let mut nums: Vec<u8> = vec![1, 2, 3, 4, 5, 6, 7, 8, 9];
    assert(nums@ =~= digits);
    shuffle_bytes(&mut nums);
    let mut i: usize = 0;
    while i < nums.len()
        invariant
            *board == o,
            *old(board) == o,
            pos < 81,
            x == pos % 9,
            y == pos / 9,
            cell(y as int, x as int),
            y * 9 + x == pos,
            o[y as int][x as int] == 0,
            nums@.to_multiset() == digits.to_multiset(),
            digits.len() == 9,
            forall|k: int| 0 <= k < 9 ==> #[trigger] digits[k] == k + 1,
            forall|j: int| 0 <= j < i ==> !solvable_with(o, pos as int, x as int, y as int, #[trigger] nums@[j]),
        decreases nums.len() - i,
    {
        let n = nums[i];
        if is_valid(board, x, y, n) {
            board[y][x] = n;
            let ghost o2 = *board;
            proof {
                assert(set_at(o, o2, x as int, y as int, n));
            }
            if solve_internal(board, pos + 1) {
                proof {
                    assert(1 <= n <= 9) by {
                        broadcast use vstd::seq_lib::group_to_multiset_ensures;
                        assert(nums@[i as int] == n);
                        assert(nums@.contains(n));
                        assert(nums@.to_multiset().count(n) > 0);
                        assert(digits.to_multiset().count(n) > 0);
                        assert(digits.contains(n));
                        let k = choose|k: int| 0 <= k < digits.len() && digits[k] == n;
                        assert(1 <= digits[k] <= 9);
                    }
                    lemma_lift(o, o2, *board, pos as int, x as int, y as int, n);
                    assert(solvable(o, pos as int));
                }
                return true;
            }
            proof {
                assert forall|b: Board| !(#[trigger] completes(o, b, pos as int) && b[y as int][x as int] == n) by {
                    if completes(o, b, pos as int) && b[y as int][x as int] == n {
                        lemma_lower(o, o2, b, pos as int, x as int, y as int, n);
                    }
                }
            }
            board[y][x] = 0;
            proof {
                assert forall|r: int| 0 <= r < 9 implies board[r] =~= o[r] by {}
                assert(*board =~= o);
            }
        } else {
            proof {
                assert forall|b: Board| !(#[trigger] completes(o, b, pos as int) && b[y as int][x as int] == n) by {
                    if completes(o, b, pos as int) && b[y as int][x as int] == n {
                        lemma_blocked(o, b, pos as int, x as int, y as int);
                    }
                }
            }
        }
        i += 1;
    }
    proof {
        if solvable(o, pos as int) {
            let b = choose|b: Board| #[trigger] completes(o, b, pos as int);
            lemma_blocked(o, b, pos as int, x as int, y as int);
            let v = b[y as int][x as int];
            broadcast use vstd::seq_lib::group_to_multiset_ensures;
            assert(digits[v - 1] == v);
            assert(digits.contains(v));
            assert(digits.to_multiset().count(v) > 0);
            assert(nums@.to_multiset().count(v) > 0);
            assert(nums@.contains(v));
            let j = choose|j: int| 0 <= j < nums@.len() && nums@[j] == v;
            assert(!solvable_with(o, pos as int, x as int, y as int, nums@[j]));
        }
    }
    false
}

/// A complete grid with no clash: every cell holds a digit that appears
/// nowhere else in its row, column or box.
pub open spec fn full_valid(b: Board) -> bool {
    forall|y: int, x: int| cell(y, x) ==> 1 <= #[trigger] b[y][x] <= 9 && fits(b, x, y)
}

/// The classic shifted pattern: row `y` is `1..=9` rotated by
/// `3 * (y % 3) + y / 3`.
pub open spec fn pat(y: int, x: int) -> u8 {
    ((y * 3 + y / 3 + x) % 9 + 1) as u8
}

proof fn lemma_pat_distinct(y: u8, x: u8, yy: u8, xx: u8)
    by (bit_vector)
    requires
        y < 9,
        x < 9,
        yy < 9,
        xx < 9,
        yy == y || xx == x || (yy / 3 == y / 3 && xx / 3 == x / 3),
        !(yy == y && xx == x),
    ensures
        ((y * 3 + y / 3 + x) as u8) % 9 != ((yy * 3 + yy / 3 + xx) as u8) % 9,
{
}

/// The first `k` cells of row `y` of the pattern, zeros after.
pub open spec fn pat_row(y: int, k: int) -> [u8; 9]
    decreases k,
{
    if k <= 0 {
        vstd::array::spec_array_fill_for_copy_type(0u8)
    } else {
        vstd::array::spec_array_update(pat_row(y, k - 1), k - 1, pat(y, k - 1))
    }
}

/// The first `k` rows of the pattern, zero rows after.
pub open spec fn pat_board(k: int) -> Board
    decreases k,
{
    if k <= 0 {
        vstd::array::spec_array_fill_for_copy_type(vstd::array::spec_array_fill_for_copy_type(0u8))
    } else {
        vstd::array::spec_array_update(pat_board(k - 1), k - 1, pat_row(k - 1, 9))
    }
}

proof fn lemma_pat_row(y: int, k: int, x: int)
    requires
        0 <= x < k <= 9,
    ensures
        pat_row(y, k)[x] == pat(y, x),
    decreases k,
{
    broadcast use vstd::array::group_array_axioms;
    if x < k - 1 {
        lemma_pat_row(y, k - 1, x);
    }
}

proof fn lemma_pat_board(k: int, y: int, x: int)
    requires
        0 <= y < k <= 9,
        0 <= x < 9,
    ensures
        pat_board(k)[y][x] == pat(y, x),
    decreases k,
{
    broadcast use vstd::array::group_array_axioms;
    if y < k - 1 {
        lemma_pat_board(k - 1, y, x);
    } else {
        lemma_pat_row(y, 9, x);
    }
}

/// The pattern is a valid full grid.
pub proof fn lemma_pattern_valid()
    ensures
        full_valid(pat_board(9)),
{
    assert forall|y: int, x: int| cell(y, x) implies 1 <= #[trigger] pat_board(9)[y][x] <= 9 && fits(
        pat_board(9),
        x,
        y,
    ) by {
        lemma_pat_board(9, y, x);
        assert forall|yy: int, xx: int|
            cell(yy, xx) && same_unit(y, x, yy, xx) && !(yy == y && xx == x) implies #[trigger] pat_board(
            9,
        )[yy][xx] != pat_board(9)[y][x] by {
            lemma_pat_board(9, yy, xx);
            lemma_pat_distinct(y as u8, x as u8, yy as u8, xx as u8);
        }
    }
}

/// An empty board can always be filled.
pub proof fn lemma_empty_solvable(b: Board)
    requires
        forall|y: int, x: int| cell(y, x) ==> #[trigger] b[y][x] == 0,
    ensures
        solvable(b, 0),
{
    lemma_pattern_valid();
    assert(completes(b, pat_board(9), 0));
}

/// Blank cells among the first `n` cells, row-major.
pub open spec fn blanks(b: Board, n: int) -> int
    decreases n,
{
    if n <= 0 {
        0
    } else {
        blanks(b, n - 1) + if b[(n - 1) / 9][(n - 1) % 9] == 0 {
            1int
        } else {
            0
        }
    }
}

proof fn lemma_blanks_bounds(b: Board, n: int)
    requires
        n >= 0,
    ensures
        0 <= blanks(b, n) <= n,
    decreases n,
{
    if n > 0 {
        lemma_blanks_bounds(b, n - 1);
    }
}

proof fn lemma_blanks_none(b: Board, n: int)
    requires
        0 <= n <= 81,
        forall|y: int, x: int| cell(y, x) ==> #[trigger] b[y][x] != 0,
    ensures
        blanks(b, n) == 0,
    decreases n,
{
    if n > 0 {
        lemma_blanks_none(b, n - 1);
        lemma_pos(n - 1);
    }
}

proof fn lemma_blanks_all(b: Board, n: int)
    requires
        0 <= n <= 81,
        forall|y: int, x: int| cell(y, x) ==> #[trigger] b[y][x] == 0,
    ensures
        blanks(b, n) == n,
    decreases n,
{
    if n > 0 {
        lemma_blanks_all(b, n - 1);
        lemma_pos(n - 1);
    }
}

/// Blanking one filled cell adds one blank.
proof fn lemma_blank_one(a: Board, b: Board, x: int, y: int, n: int)
    requires
        cell(y, x),
        0 <= n <= 81,
        a[y][x] != 0,
        b[y][x] == 0,
        forall|yy: int, xx: int| cell(yy, xx) && !(yy == y && xx == x) ==> #[trigger] b[yy][xx] == a[yy][xx],
    ensures
        blanks(b, n) == blanks(a, n) + if y * 9 + x < n {
            1int
        } else {
            0
        },
    decreases n,
{
    if n > 0 {
        lemma_blank_one(a, b, x, y, n - 1);
        lemma_pos(n - 1);
        let i = n - 1;
        assert((i / 9 == y && i % 9 == x) <==> i == y * 9 + x);
    }
}

/// The number of givens for difficulty `d`.
pub open spec fn clues_for(d: int) -> int {
    if d == 0 {
        36
    } else if d == 1 {
        28
    } else {
        22
    }
}

pub struct SudokuGame {
    pub solution: Board,
    pub player: Board,
    pub fixed: [[bool; 9]; 9],
    pub pencil: [[[bool; 10]; 9]; 9],
    pub pencil_mode: bool,
    pub cursor_x: usize,
    pub cursor_y: usize,
    pub diff: usize,
    pub timer_running: bool,
    pub won: bool,
}

impl SudokuGame {
    /// Cursor on the grid and a known difficulty.
    pub open spec fn wf(&self) -> bool {
        self.cursor_x < 9 && self.cursor_y < 9 && self.diff < 3
    }

    /// A round in play: the solution is a valid full grid, the player's
    /// digits are digits, and every fixed cell shows its solution digit.
    pub open spec fn ready(&self) -> bool {
        &&& self.wf()
        &&& full_valid(self.solution)
        &&& forall|y: int, x: int| cell(y, x) ==> #[trigger] self.player[y][x] <= 9
        &&& forall|y: int, x: int| cell(y, x) && #[trigger] self.fixed[y][x] ==> self.player[y][x] == self.solution[y][x]
    }

    /// `t` is this game with a new puzzle: a valid full solution; the
    /// player's grid is the solution with `81 - clues` cells blanked; the
    /// fixed cells are the givens; no pencil marks.
    pub open spec fn generated(&self, t: &Self) -> bool {
        &&& full_valid(t.solution)
        &&& forall|y: int, x: int| cell(y, x) ==> #[trigger] t.player[y][x] == 0 || t.player[y][x] == t.solution[y][x]
        &&& blanks(t.player, 81) == 81 - clues_for(self.diff as int)
        &&& forall|y: int, x: int| cell(y, x) ==> #[trigger] t.fixed[y][x] == (t.player[y][x] != 0)
        &&& forall|y: int, x: int, n: int| cell(y, x) && 0 <= n < 10 ==> !#[trigger] t.pencil[y][x][n]
        &&& *t == (SudokuGame {
            solution: t.solution,
            player: t.player,
            fixed: t.fixed,
            pencil: t.pencil,
            ..*self
        })
    }

    /// The scene id.
    pub fn id(&self) -> (r: &'static str)
        ensures
            r@ == seq!['s', 'u', 'd', 'o', 'k', 'u'],
    {
        proof {
            reveal_strlit("sudoku");
        }
        "sudoku"
    }

    /// An empty game; `init` deals the first puzzle.
    pub fn new() -> (g: Self)
        ensures
            g.wf(),
            g.diff == 0 && g.cursor_x == 0 && g.cursor_y == 0,
            !g.pencil_mode && !g.timer_running && !g.won,
            forall|y: int, x: int| cell(y, x) ==> #[trigger] g.player[y][x] == 0 && g.solution[y][x] == 0 && !g.fixed[y][x],
    {
        SudokuGame {
            solution: [[0u8; 9]; 9],
            player: [[0u8; 9]; 9],
            fixed: [[false; 9]; 9],
            pencil: [[[false; 10]; 9]; 9],
            pencil_mode: false,
            cursor_x: 0,
            cursor_y: 0,
            diff: 0,
            timer_running: false,
            won: false,
        }
    }

    /// Deals a new puzzle: a random full grid, then random cells blanked
    /// until only the difficulty's clues are left.
    pub fn generate(&mut self)
        requires
            old(self).diff < 3,
        ensures
            old(self).generated(&*final(self)),
    {
        let mut board = [[0u8; 9]; 9];
        proof {
            lemma_empty_solvable(board);
        }
        let solved = solve_internal(&mut board, 0);
        proof {
            assert forall|y: int, x: int| cell(y, x) implies 1 <= #[trigger] board[y][x] <= 9 && fits(board, x, y) by {
                assert(y * 9 + x >= 0);
            }
        }
        self.solution = board;
        self.player = board;
        let clues: usize = match self.diff {
            0 => 36,
            1 => 28,
            _ => 22,
        };
        let target: usize = 81 - clues;
        let mut removed: usize = 0;
        proof {
            lemma_blanks_none(self.player, 81);
        }
        let ghost g1 = *self;
        while removed < target
            invariant
                *self == (SudokuGame { player: self.player, ..g1 }),
                self.diff < 3,
                full_valid(self.solution),
                target == 81 - clues_for(self.diff as int),
                removed <= target,
                blanks(self.player, 81) == removed,
                forall|y: int, x: int| cell(y, x) ==> #[trigger] self.player[y][x] == 0 || self.player[y][x] == self.solution[y][x],
            ensures
                blanks(self.player, 81) == target,
            decreases target - removed,
        {
            let mut cells: Vec<(usize, usize)> = Vec::new();
            let mut y: usize = 0;
            while y < 9
                invariant
                    y <= 9,
                    forall|k: int| 0 <= k < cells@.len() ==> cell((#[trigger] cells@[k]).1 as int, cells@[k].0 as int)
                        && self.player[cells@[k].1 as int][cells@[k].0 as int] != 0,
                    cells@.len() == 0 ==> forall|yy: int, xx: int| cell(yy, xx) && yy < y ==> #[trigger] self.player[yy][xx] == 0,
                decreases 9 - y,
            {
                let mut x: usize = 0;
                while x < 9
                    invariant
                        y < 9,
                        x <= 9,
                        forall|k: int| 0 <= k < cells@.len() ==> cell((#[trigger] cells@[k]).1 as int, cells@[k].0 as int)
                            && self.player[cells@[k].1 as int][cells@[k].0 as int] != 0,
                        cells@.len() == 0 ==> forall|yy: int, xx: int|
                            cell(yy, xx) && (yy < y || (yy == y && xx < x)) ==> #[trigger] self.player[yy][xx] == 0,
                    decreases 9 - x,
                {
                    if self.player[y][x] != 0 {
                        cells.push((x, y));
                    }
                    x += 1;
                }
                y += 1;
            }
            if cells.len() == 0 {
                proof {
                    lemma_blanks_all(self.player, 81);
                }
                break;
            }
            let k = random_index(cells.len());
            let (x, y) = cells[k];
            let ghost before = self.player;
            self.player[y][x] = 0;
            proof {
                lemma_blank_one(before, self.player, x as int, y as int, 81);
            }
            removed += 1;
        }
        self.pencil = [[[false; 10]; 9]; 9];
        let ghost g2 = *self;
        let mut y: usize = 0;
        while y < 9
            invariant
                *self == (SudokuGame { fixed: self.fixed, ..g2 }),
                y <= 9,
                forall|yy: int, xx: int| cell(yy, xx) && yy < y ==> #[trigger] self.fixed[yy][xx] == (self.player[yy][xx] != 0),
            decreases 9 - y,
        {
            let mut x: usize = 0;
            while x < 9
                invariant
                    *self == (SudokuGame { fixed: self.fixed, ..g2 }),
                    y < 9,
                    x <= 9,
                    forall|yy: int, xx: int|
                        cell(yy, xx) && (yy < y || (yy == y && xx < x)) ==> #[trigger] self.fixed[yy][xx] == (
                        self.player[yy][xx] != 0),
                decreases 9 - x,
            {
                self.fixed[y][x] = self.player[y][x] != 0;
                x += 1;
            }
            y += 1;
        }
        proof {
            assert(full_valid(self.solution));
            assert(blanks(self.player, 81) == 81 - clues_for(self.diff as int));
            assert forall|y: int, x: int, n: int| cell(y, x) && 0 <= n < 10 implies !#[trigger] self.pencil[y][x][n] by {}
        }
    }
}

impl SudokuGame {
    /// Every cell of the player's grid matches the solution.
    pub open spec fn solved(&self) -> bool {
        forall|y: int, x: int| cell(y, x) ==> #[trigger] self.player[y][x] == self.solution[y][x]
    }

    /// `t` is this game after the win check.
    pub open spec fn check_rel(&self, t: &Self) -> bool {
        if self.solved() {
            *t == (SudokuGame { won: true, timer_running: false, ..*self })
        } else {
            *t == *self
        }
    }

    /// The round is won once the grid matches the solution: the clock stops.
    pub fn check_win(&mut self)
        ensures
            old(self).check_rel(&*final(self)),
    {
        let mut y: usize = 0;
        while y < 9
            invariant
                y <= 9,
                forall|yy: int, xx: int| cell(yy, xx) && yy < y ==> #[trigger] self.player[yy][xx] == self.solution[yy][xx],
            decreases 9 - y,
        {
            let mut x: usize = 0;
            while x < 9
                invariant
                    y < 9,
                    x <= 9,
                    forall|yy: int, xx: int|
                        cell(yy, xx) && (yy < y || (yy == y && xx < x)) ==> #[trigger] self.player[yy][xx]
                            == self.solution[yy][xx],
                decreases 9 - x,
            {
                if self.player[y][x] != self.solution[y][x] {
                    return;
                }
                x += 1;
            }
            y += 1;
        }
        self.won = true;
        self.timer_running = false;
    }

    /// `t` is this game with a new puzzle dealt and the round restarted: the
    /// clock running, not won, place mode, cursor in the corner.
    pub open spec fn dealt(&self, t: &Self) -> bool {
        &&& self.generated(
            &(SudokuGame {
                timer_running: self.timer_running,
                won: self.won,
                pencil_mode: self.pencil_mode,
                cursor_x: self.cursor_x,
                cursor_y: self.cursor_y,
                ..*t
            }),
        )
        &&& t.timer_running && !t.won && !t.pencil_mode
        &&& t.cursor_x == 0 && t.cursor_y == 0
    }

    /// Deals a new puzzle and restarts the round.
    pub fn init(&mut self)
        requires
            old(self).diff < 3,
        ensures
            old(self).dealt(&*final(self)),
            final(self).ready(),
    {
        self.generate();
        self.timer_running = true;
        self.won = false;
        self.pencil_mode = false;
        self.cursor_x = 0;
        self.cursor_y = 0;
    }

    /// The cell at row-major position `i` differs from the solution.
    pub open spec fn mismatch(&self, i: int) -> bool {
        self.player[i / 9][i % 9] != self.solution[i / 9][i % 9]
    }

    /// `t` is this game after a hint: the first cell, row by row, that
    /// differs from the solution gets its solution digit and becomes fixed.
    pub open spec fn hint_rel(&self, t: &Self) -> bool {
        if forall|i: int| 0 <= i < 81 ==> !#[trigger] self.mismatch(i) {
            *t == *self
        } else {
            exists|i: int|
                0 <= i < 81 && #[trigger] self.mismatch(i) && (forall|j: int| 0 <= j < i ==> !#[trigger] self.mismatch(j))
                    && set_at(self.player, t.player, i % 9, i / 9, self.solution[i / 9][i % 9]) && t.fixed[i
                    / 9][i % 9] && (forall|yy: int, xx: int|
                    cell(yy, xx) && !(yy == i / 9 && xx == i % 9) ==> #[trigger] t.fixed[yy][xx]
                        == self.fixed[yy][xx]) && *t == (SudokuGame { player: t.player, fixed: t.fixed, ..*self })
        }
    }

    fn hint(&mut self)
        ensures
            old(self).hint_rel(&*final(self)),
    {
        let ghost o = *self;
        let mut y: usize = 0;
        while y < 9
            invariant
                *self == o,
                o == *old(self),
                y <= 9,
                forall|yy: int, xx: int| cell(yy, xx) && yy < y ==> #[trigger] o.player[yy][xx] == o.solution[yy][xx],
            decreases 9 - y,
        {
            let mut x: usize = 0;
            while x < 9
                invariant
                    *self == o,
                    o == *old(self),
                    y < 9,
                    x <= 9,
                    forall|yy: int, xx: int|
                        cell(yy, xx) && (yy < y || (yy == y && xx < x)) ==> #[trigger] o.player[yy][xx]
                            == o.solution[yy][xx],
                decreases 9 - x,
            {
                if self.player[y][x] != self.solution[y][x] {
                    let v = self.solution[y][x];
                    self.player[y][x] = v;
                    self.fixed[y][x] = true;
                    proof {
                        lemma_hint_found(o, *self, x as int, y as int);
                    }
                    return;
                }
                x += 1;
            }
            y += 1;
        }
        proof {
            lemma_no_mismatch(o);
        }
    }
}

proof fn lemma_no_mismatch(o: SudokuGame)
    requires
        forall|yy: int, xx: int| cell(yy, xx) ==> #[trigger] o.player[yy][xx] == o.solution[yy][xx],
    ensures
        forall|i: int| 0 <= i < 81 ==> !#[trigger] o.mismatch(i),
{
    assert forall|i: int| 0 <= i < 81 implies !#[trigger] o.mismatch(i) by {
        lemma_pos(i);
        assert(o.player[i / 9][i % 9] == o.solution[i / 9][i % 9]);
    }
}

proof fn lemma_hint_found(o: SudokuGame, t: SudokuGame, x: int, y: int)
    requires
        cell(y, x),
        o.player[y][x] != o.solution[y][x],
        forall|yy: int, xx: int|
            cell(yy, xx) && (yy < y || (yy == y && xx < x)) ==> #[trigger] o.player[yy][xx] == o.solution[yy][xx],
        set_at(o.player, t.player, x, y, o.solution[y][x]),
        t.fixed[y][x],
        forall|yy: int, xx: int| cell(yy, xx) && !(yy == y && xx == x) ==> #[trigger] t.fixed[yy][xx] == o.fixed[yy][xx],
        t == (SudokuGame { player: t.player, fixed: t.fixed, ..o }),
    ensures
        o.hint_rel(&t),
{
    let i = y * 9 + x;
    lemma_pos(i);
    assert(i / 9 == y && i % 9 == x);
    assert(o.mismatch(i));
    assert forall|j: int| 0 <= j < i implies !#[trigger] o.mismatch(j) by {
        lemma_pos(j);
        let (jy, jx) = (j / 9, j % 9);
        assert(jy < y || (jy == y && jx < x));
        assert(o.player[jy][jx] == o.solution[jy][jx]);
    }
}

impl SudokuGame {
    /// `t` is this game after placing digit `n` at the cursor: unless the
    /// cell is fixed, pencil mode toggles the pencil mark `n`, and place mode
    /// writes `n`, clears the cell's marks and checks for a win.
    pub open spec fn digit_rel(&self, t: &Self, n: int) -> bool {
        let cx = self.cursor_x as int;
        let cy = self.cursor_y as int;
        if self.fixed[cy][cx] {
            *t == *self
        } else if self.pencil_mode {
            &&& forall|y: int, x: int, k: int|
                cell(y, x) && 0 <= k < 10 ==> #[trigger] t.pencil[y][x][k] == if y == cy && x == cx && k == n {
                    !self.pencil[y][x][k]
                } else {
                    self.pencil[y][x][k]
                }
            &&& *t == (SudokuGame { pencil: t.pencil, ..*self })
        } else {
            exists|m: Self|
                {
                    &&& set_at(self.player, #[trigger] m.player, cx, cy, n as u8)
                    &&& forall|y: int, x: int, k: int|
                        cell(y, x) && 0 <= k < 10 ==> #[trigger] m.pencil[y][x][k] == if y == cy && x == cx {
                            false
                        } else {
                            self.pencil[y][x][k]
                        }
                    &&& m == (SudokuGame { player: m.player, pencil: m.pencil, ..*self })
                    &&& m.check_rel(t)
                }
        }
    }

    /// `t` is this game after the key `key`.
    pub open spec fn key_rel(&self, t: &Self, key: i32) -> bool {
        let cx = self.cursor_x as int;
        let cy = self.cursor_y as int;
        if key == 38 {
            *t == (SudokuGame {
                cursor_y: if self.cursor_y > 0 {
                    (self.cursor_y - 1) as usize
                } else {
                    0
                },
                ..*self
            })
        } else if key == 40 {
            *t == (SudokuGame {
                cursor_y: if self.cursor_y < 8 {
                    (self.cursor_y + 1) as usize
                } else {
                    8
                },
                ..*self
            })
        } else if key == 37 {
            *t == (SudokuGame {
                cursor_x: if self.cursor_x > 0 {
                    (self.cursor_x - 1) as usize
                } else {
                    0
                },
                ..*self
            })
        } else if key == 39 {
            *t == (SudokuGame {
                cursor_x: if self.cursor_x < 8 {
                    (self.cursor_x + 1) as usize
                } else {
                    8
                },
                ..*self
            })
        } else if 49 <= key <= 57 {
            self.digit_rel(t, key - 48)
        } else if key == 8 || key == 48 || key == 127 {
            if self.fixed[cy][cx] {
                *t == *self
            } else {
                set_at(self.player, t.player, cx, cy, 0) && *t == (SudokuGame { player: t.player, ..*self })
            }
        } else if key == 112 {
            *t == (SudokuGame { pencil_mode: !self.pencil_mode, ..*self })
        } else if key == 104 {
            self.hint_rel(t)
        } else if key == 110 {
            (SudokuGame { diff: ((self.diff + 1) % 3) as usize, ..*self }).dealt(t)
        } else {
            *t == *self
        }
    }

    /// Arrows move the cursor; `1`..`9` place a digit (or toggle a pencil
    /// mark); Backspace, Delete or `0` clear; `p` toggles pencil mode; `h`
    /// gives a hint; `n` deals a puzzle of the next difficulty.
    pub fn handle_key(&mut self, key: i32, ch: char)
        requires
            old(self).wf(),
        ensures
            old(self).key_rel(&*final(self), key),
            final(self).wf(),
            old(self).ready() ==> final(self).ready(),
    {
        let cx = self.cursor_x;
        let cy = self.cursor_y;
        if key == 38 {
            self.cursor_y = self.cursor_y.saturating_sub(1);
        } else if key == 40 {
            self.cursor_y = if self.cursor_y < 8 {
                self.cursor_y + 1
            } else {
                8
            };
        } else if key == 37 {
            self.cursor_x = self.cursor_x.saturating_sub(1);
        } else if key == 39 {
            self.cursor_x = if self.cursor_x < 8 {
                self.cursor_x + 1
            } else {
                8
            };
        } else if key >= 49 && key <= 57 {
            let n = (key - 48) as u8;
            if self.pencil_mode && !self.fixed[cy][cx] {
                let v = self.pencil[cy][cx][n as usize];
                self.pencil[cy][cx][n as usize] = !v;
            } else if !self.fixed[cy][cx] {
                self.player[cy][cx] = n;
                self.pencil[cy][cx] = [false; 10];
                let ghost m = *self;
                self.check_win();
                proof {
                    assert(set_at(old(self).player, m.player, cx as int, cy as int, n));
                }
            }
        } else if key == 8 || key == 48 || key == 127 {
            if !self.fixed[cy][cx] {
                self.player[cy][cx] = 0;
            }
        } else if key == 112 {
            self.pencil_mode = !self.pencil_mode;
        } else if key == 104 {
            self.hint();
        } else if key == 110 {
            self.diff = (self.diff + 1) % 3;
            self.init();
        }
    }
}

/// A won grid is a valid sudoku: once the player's grid matches the
/// solution, every digit is alone in its row, column and box.
pub proof fn law_solved_is_valid(g: SudokuGame)
    requires
        g.ready(),
        g.solved(),
    ensures
        full_valid(g.player),
{
    assert(g.player =~= g.solution) by {
        assert forall|y: int| 0 <= y < 9 implies g.player[y] =~= g.solution[y] by {
            assert forall|x: int| 0 <= x < 9 implies g.player[y][x] == g.solution[y][x] by {
                assert(cell(y, x));
            }
        }
    }
}

} // verus!
