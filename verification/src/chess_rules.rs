//! Board representation, piece encoding, attack detection and move generation
//! for the chess game.
//!
//! A board is 64 squares in row-major order: the square at file `x` and rank
//! row `y` (row 0 is Black's back rank, row 7 is White's) has index `y * 8 + x`.
//! A piece is its type (`PAWN`..`KING`) or-ed with its colour (`WHITE`/`BLACK`).
use vstd::prelude::*;

verus! {

pub const EMPTY: u8 = 0;
pub const PAWN: u8 = 1;
pub const KNIGHT: u8 = 2;
pub const BISHOP: u8 = 3;
pub const ROOK: u8 = 4;
pub const QUEEN: u8 = 5;
pub const KING: u8 = 6;
pub const WHITE: u8 = 8;
pub const BLACK: u8 = 16;

pub type Board = [u8; 64];

// ---------------------------------------------------------------------------
// Piece encoding
// ---------------------------------------------------------------------------

/// The type bits of a piece.
pub open spec fn spec_pt(p: u8) -> u8 {
    p % 8
}

/// The colour bits of a piece.
pub open spec fn spec_pc(p: u8) -> u8 {
    ((p / 8) % 4 * 8) as u8
}

pub open spec fn spec_is_c(p: u8, c: u8) -> bool {
    spec_pc(p) == c
}

pub open spec fn spec_enemy(c: u8) -> u8 {
    if c == WHITE {
        BLACK
    } else {
        WHITE
    }
}

/// Type of a piece (`p & 0b111`).
pub fn pt(p: u8) -> (r: u8)
    ensures
        r == spec_pt(p),
{
    assert(p & 7 == p % 8) by (bit_vector);
    p & 0b111
}

/// Colour of a piece (`p & 0b11000`).
pub fn pc(p: u8) -> (r: u8)
    ensures
        r == spec_pc(p),
{
    assert(p & 24 == ((p / 8) % 4 * 8) as u8) by (bit_vector);
    p & 0b11000
}

/// Whether piece `p` has colour `c`.
pub fn is_c(p: u8, c: u8) -> (r: bool)
    ensures
        r == spec_is_c(p, c),
{
    pc(p) == c
}

/// The piece of type `t` and colour `c`.
pub fn mk(t: u8, c: u8) -> (r: u8)
    ensures
        r == t | c,
{
    t | c
}

/// The opposing colour; anything that is not White counts as Black.
pub fn enemy(c: u8) -> (r: u8)
    ensures
        r == spec_enemy(c),
{
    if c == WHITE {
        BLACK
    } else {
        WHITE
    }
}

/// Decoding the pieces that a board can hold.
pub proof fn lemma_piece_codes()
    ensures
        spec_pt(EMPTY) == EMPTY && spec_pc(EMPTY) == 0,
        forall|t: u8| 1 <= t <= 6 ==> #[trigger] spec_pt((t | WHITE) as u8) == t && spec_pc(
            (t | WHITE) as u8,
        ) == WHITE && (t | WHITE) == t + 8,
        forall|t: u8| 1 <= t <= 6 ==> #[trigger] spec_pt((t | BLACK) as u8) == t && spec_pc(
            (t | BLACK) as u8,
        ) == BLACK && (t | BLACK) == t + 16,
{
    assert forall|t: u8| 1 <= t <= 6 implies (t | WHITE) == t + 8 by {
        assert(1 <= t <= 6 ==> (t | 8u8) == t + 8) by (bit_vector);
    }
    assert forall|t: u8| 1 <= t <= 6 implies (t | BLACK) == t + 16 by {
        assert(1 <= t <= 6 ==> (t | 16u8) == t + 16) by (bit_vector);
    }
}

// ---------------------------------------------------------------------------
// Squares
// ---------------------------------------------------------------------------

pub open spec fn on_board(x: int, y: int) -> bool {
    0 <= x < 8 && 0 <= y < 8
}

/// The piece at file `x`, row `y`.
pub open spec fn at(b: Seq<u8>, x: int, y: int) -> u8 {
    b[y * 8 + x]
}

/// Whether the square holds a piece of type `t` and colour `c`.
pub open spec fn piece_is(b: Seq<u8>, x: int, y: int, t: u8, c: u8) -> bool {
    on_board(x, y) && spec_pt(at(b, x, y)) == t && spec_is_c(at(b, x, y), c)
}

/// The piece on square `(x, y)`.
pub fn get(b: &Board, x: usize, y: usize) -> (r: u8)
    requires
        x < 8,
        y < 8,
    ensures
        r == at(b@, x as int, y as int),
{
    b[y * 8 + x]
}

// ---------------------------------------------------------------------------
// Direction tables
// ---------------------------------------------------------------------------

/// The eight knight jumps, in the order in which the game tries them.
pub open spec fn knight_off(i: int) -> (int, int) {
    if i == 0 {
        (-2, -1)
    } else if i == 1 {
        (-2, 1)
    } else if i == 2 {
        (-1, -2)
    } else if i == 3 {
        (-1, 2)
    } else if i == 4 {
        (1, -2)
    } else if i == 5 {
        (1, 2)
    } else if i == 6 {
        (2, -1)
    } else {
        (2, 1)
    }
}

/// The eight king steps: rows from top to bottom, files from left to right.
pub open spec fn king_off(i: int) -> (int, int) {
    if i == 0 {
        (-1, -1)
    } else if i == 1 {
        (0, -1)
    } else if i == 2 {
        (1, -1)
    } else if i == 3 {
        (-1, 0)
    } else if i == 4 {
        (1, 0)
    } else if i == 5 {
        (-1, 1)
    } else if i == 6 {
        (0, 1)
    } else {
        (1, 1)
    }
}

/// Sliding directions: kind 0 is the bishop's diagonals, kind 1 the rook's
/// lines, kind 2 the queen's eight directions.
pub open spec fn slide_off(kind: int, i: int) -> (int, int) {
    if kind == 0 {
        if i == 0 {
            (-1, -1)
        } else if i == 1 {
            (-1, 1)
        } else if i == 2 {
            (1, -1)
        } else {
            (1, 1)
        }
    } else if kind == 1 {
        if i == 0 {
            (-1, 0)
        } else if i == 1 {
            (1, 0)
        } else if i == 2 {
            (0, -1)
        } else {
            (0, 1)
        }
    } else {
        if i == 0 {
            (-1, -1)
        } else if i == 1 {
            (-1, 0)
        } else if i == 2 {
            (-1, 1)
        } else if i == 3 {
            (0, -1)
        } else if i == 4 {
            (0, 1)
        } else if i == 5 {
            (1, -1)
        } else if i == 6 {
            (1, 0)
        } else {
            (1, 1)
        }
    }
}

pub open spec fn slide_count(kind: int) -> int {
    if kind == 2 {
        8
    } else {
        4
    }
}

fn knight_offset(i: usize) -> (r: (i32, i32))
    requires
        i < 8,
    ensures
        r.0 == knight_off(i as int).0,
        r.1 == knight_off(i as int).1,
        -2 <= r.0 <= 2,
        -2 <= r.1 <= 2,
{
    match i {
        0 => (-2, -1),
        1 => (-2, 1),
        2 => (-1, -2),
        3 => (-1, 2),
        4 => (1, -2),
        5 => (1, 2),
        6 => (2, -1),
        _ => (2, 1),
    }
}

fn king_offset(i: usize) -> (r: (i32, i32))
    requires
        i < 8,
    ensures
        r.0 == king_off(i as int).0,
        r.1 == king_off(i as int).1,
        -1 <= r.0 <= 1,
        -1 <= r.1 <= 1,
{
    match i {
        0 => (-1, -1),
        1 => (0, -1),
        2 => (1, -1),
        3 => (-1, 0),
        4 => (1, 0),
        5 => (-1, 1),
        6 => (0, 1),
        _ => (1, 1),
    }
}

fn slide_offset(kind: usize, i: usize) -> (r: (i32, i32))
    requires
        kind < 3,
        i < slide_count(kind as int),
    ensures
        r.0 == slide_off(kind as int, i as int).0,
        r.1 == slide_off(kind as int, i as int).1,
        -1 <= r.0 <= 1,
        -1 <= r.1 <= 1,
        r.0 != 0 || r.1 != 0,
{
    if kind == 0 {
        match i {
            0 => (-1, -1),
            1 => (-1, 1),
            2 => (1, -1),
            _ => (1, 1),
        }
    } else if kind == 1 {
        match i {
            0 => (-1, 0),
            1 => (1, 0),
            2 => (0, -1),
            _ => (0, 1),
        }
    } else {
        match i {
            0 => (-1, -1),
            1 => (-1, 0),
            2 => (-1, 1),
            3 => (0, -1),
            4 => (0, 1),
            5 => (1, -1),
            6 => (1, 0),
            _ => (1, 1),
        }
    }
}

// ---------------------------------------------------------------------------
// Attacks
// ---------------------------------------------------------------------------

/// The first piece met when walking from `(cx, cy)` in steps of `(dx, dy)`,
/// or `EMPTY` when the walk leaves the board first.
pub open spec fn first_piece(b: Seq<u8>, cx: int, cy: int, dx: int, dy: int, fuel: nat) -> u8
    decreases fuel,
{
    if fuel == 0 || !on_board(cx, cy) {
        EMPTY
    } else if at(b, cx, cy) != EMPTY {
        at(b, cx, cy)
    } else {
        first_piece(b, cx + dx, cy + dy, dx, dy, (fuel - 1) as nat)
    }
}

pub open spec fn knight_hit(b: Seq<u8>, sx: int, sy: int, attacker: u8, i: int) -> bool {
    piece_is(b, sx + knight_off(i).0, sy + knight_off(i).1, KNIGHT, attacker)
}

pub open spec fn king_hit(b: Seq<u8>, sx: int, sy: int, attacker: u8, i: int) -> bool {
    piece_is(b, sx + king_off(i).0, sy + king_off(i).1, KING, attacker)
}

/// A bishop-like (kind 0) or rook-like (kind 1) attacker, or a queen, is the
/// first piece along direction `i`.
pub open spec fn slide_hit(b: Seq<u8>, sx: int, sy: int, attacker: u8, kind: int, i: int) -> bool {
    let d = slide_off(kind, i);
    let p = first_piece(b, sx + d.0, sy + d.1, d.0, d.1, 8);
    spec_is_c(p, attacker) && (spec_pt(p) == (if kind == 0 {
        BISHOP
    } else {
        ROOK
    }) || spec_pt(p) == QUEEN)
}

/// Whether square `(sx, sy)` is attacked by a piece of colour `attacker`.
/// A pawn attacks the two squares diagonally ahead of it, so the pawns that
/// attack `(sx, sy)` stand one row behind it, on row `sy - pawn_fwd(attacker)`.
pub open spec fn attacked(b: Seq<u8>, sx: int, sy: int, attacker: u8) -> bool {
    let py = sy - pawn_fwd(attacker);
    ||| piece_is(b, sx - 1, py, PAWN, attacker)
    ||| piece_is(b, sx + 1, py, PAWN, attacker)
    ||| exists|i: int| 0 <= i < 8 && #[trigger] knight_hit(b, sx, sy, attacker, i)
    ||| exists|i: int| 0 <= i < 8 && #[trigger] king_hit(b, sx, sy, attacker, i)
    ||| exists|i: int| 0 <= i < 4 && #[trigger] slide_hit(b, sx, sy, attacker, 0, i)
    ||| exists|i: int| 0 <= i < 4 && #[trigger] slide_hit(b, sx, sy, attacker, 1, i)
}

/// Whether the square `(x, y)` (any integers) holds a piece of type `t`, colour `c`.
fn piece_is_exec(b: &Board, x: i32, y: i32, t: u8, c: u8) -> (r: bool)
    requires
        b@.len() == 64,
    ensures
        r == piece_is(b@, x as int, y as int, t, c),
{
    if x >= 0 && x < 8 && y >= 0 && y < 8 {
        let p = b[(y * 8 + x) as usize];
        pt(p) == t && is_c(p, c)
    } else {
        false
    }
}

/// The first piece along a ray, as `first_piece` describes it.
fn first_piece_exec(b: &Board, sx: i32, sy: i32, dx: i32, dy: i32) -> (r: u8)
    requires
        0 <= sx < 8,
        0 <= sy < 8,
        -1 <= dx <= 1,
        -1 <= dy <= 1,
        dx != 0 || dy != 0,
    ensures
        r == first_piece(b@, sx + dx, sy + dy, dx as int, dy as int, 8),
{
    let mut nx = sx + dx;
    let mut ny = sy + dy;
    let ghost mut fuel: nat = 8;
    while nx >= 0 && nx < 8 && ny >= 0 && ny < 8
        invariant
            -1 <= nx <= 8,
            -1 <= ny <= 8,
            -1 <= dx <= 1,
            -1 <= dy <= 1,
            dx != 0 || dy != 0,
            dx == 1 ==> nx + fuel >= 9,
            dx == -1 ==> fuel >= nx + 2,
            dy == 1 ==> ny + fuel >= 9,
            dy == -1 ==> fuel >= ny + 2,
            first_piece(b@, nx as int, ny as int, dx as int, dy as int, fuel)
                == first_piece(b@, sx + dx, sy + dy, dx as int, dy as int, 8),
        decreases
                (if dx == 1 {
                    8 - nx
                } else if dx == -1 {
                    nx + 1
                } else {
                    0
                }) + (if dy == 1 {
                    8 - ny
                } else if dy == -1 {
                    ny + 1
                } else {
                    0
                }),
    {
        let p = b[(ny * 8 + nx) as usize];
        if p != EMPTY {
            return p;
        }
        nx += dx;
        ny += dy;
        proof {
            fuel = (fuel - 1) as nat;
        }
    }
    EMPTY
}

/// Whether `square` is attacked by a piece of colour `attacker`: by a pawn,
/// a knight, the king, or the first piece along a diagonal (bishop or queen)
/// or a line (rook or queen).
pub fn is_attacked_by(b: &Board, square: (usize, usize), attacker: u8) -> (r: bool)
    requires
        square.0 < 8,
        square.1 < 8,
    ensures
        r == attacked(b@, square.0 as int, square.1 as int, attacker),
{
    let sx = square.0 as i32;
    let sy = square.1 as i32;
    let pawn_row: i32 = if attacker == WHITE {
        sy + 1
    } else {
        sy - 1
    };
    if piece_is_exec(b, sx - 1, pawn_row, PAWN, attacker) {
        return true;
    }
    if piece_is_exec(b, sx + 1, pawn_row, PAWN, attacker) {
        return true;
    }
    let mut i: usize = 0;
    while i < 8
        invariant
            i <= 8,
            sx == square.0,
            sy == square.1,
            square.0 < 8,
            square.1 < 8,
            forall|j: int| 0 <= j < i ==> !#[trigger] knight_hit(b@, sx as int, sy as int, attacker, j),
        decreases 8 - i,
    {
        let (dx, dy) = knight_offset(i);
        if piece_is_exec(b, sx + dx, sy + dy, KNIGHT, attacker) {
            assert(knight_hit(b@, sx as int, sy as int, attacker, i as int));
            return true;
        }
        i += 1;
    }
    let mut i: usize = 0;
    while i < 8
        invariant
            i <= 8,
            sx == square.0,
            sy == square.1,
            square.0 < 8,
            square.1 < 8,
            forall|j: int| 0 <= j < i ==> !#[trigger] king_hit(b@, sx as int, sy as int, attacker, j),
        decreases 8 - i,
    {
        let (dx, dy) = king_offset(i);
        if piece_is_exec(b, sx + dx, sy + dy, KING, attacker) {
            assert(king_hit(b@, sx as int, sy as int, attacker, i as int));
            return true;
        }
        i += 1;
    }
    let mut kind: usize = 0;
    while kind < 2
        invariant
            kind <= 2,
            sx == square.0,
            sy == square.1,
            square.0 < 8,
            square.1 < 8,
            forall|k: int, j: int|
                0 <= k < kind && 0 <= j < 4 ==> !#[trigger] slide_hit(
                    b@,
                    sx as int,
                    sy as int,
                    attacker,
                    k,
                    j,
                ),
        decreases 2 - kind,
    {
        let target = if kind == 0 {
            BISHOP
        } else {
            ROOK
        };
        let mut i: usize = 0;
        while i < 4
            invariant
                i <= 4,
                kind < 2,
                sx == square.0,
                sy == square.1,
                square.0 < 8,
                square.1 < 8,
                target == (if kind == 0 {
                    BISHOP
                } else {
                    ROOK
                }),
                forall|k: int, j: int|
                    0 <= k < kind && 0 <= j < 4 ==> !#[trigger] slide_hit(
                        b@,
                        sx as int,
                        sy as int,
                        attacker,
                        k,
                        j,
                    ),
                forall|j: int|
                    0 <= j < i ==> !#[trigger] slide_hit(
                        b@,
                        sx as int,
                        sy as int,
                        attacker,
                        kind as int,
                        j,
                    ),
            decreases 4 - i,
        {
            let (dx, dy) = slide_offset(kind, i);
            let p = first_piece_exec(b, sx, sy, dx, dy);
            if is_c(p, attacker) && (pt(p) == target || pt(p) == QUEEN) {
                assert(slide_hit(b@, sx as int, sy as int, attacker, kind as int, i as int));
                return true;
            }
            i += 1;
        }
        kind += 1;
    }
    false
}

// ---------------------------------------------------------------------------
// Moves and positions
// ---------------------------------------------------------------------------

/// A move from `from` to `to`, each a `(file, row)` pair.
#[derive(Clone, Copy, Debug)]
pub struct ChessMove {
    pub from: (usize, usize),
    pub to: (usize, usize),
    pub promotion: u8,
    pub is_en_passant: bool,
    pub is_castle: bool,
}

/// The mathematical view of a position.
pub struct PosView {
    pub board: Seq<u8>,
    pub castling: Seq<bool>,
    pub ep: Option<(usize, usize)>,
}

/// What a move needs to know of the game: the board, the four castling rights
/// (White king side, White queen side, Black king side, Black queen side) and
/// the square that a pawn may capture en passant.
#[derive(Clone, Copy, Debug)]
pub struct Position {
    pub board: Board,
    pub castling: [bool; 4],
    pub ep_square: Option<(usize, usize)>,
}

impl View for Position {
    type V = PosView;

    open spec fn view(&self) -> PosView {
        PosView { board: self.board@, castling: self.castling@, ep: self.ep_square }
    }
}

pub open spec fn plain(fx: int, fy: int, tx: int, ty: int) -> ChessMove {
    ChessMove {
        from: (fx as usize, fy as usize),
        to: (tx as usize, ty as usize),
        promotion: 0,
        is_en_passant: false,
        is_castle: false,
    }
}

pub open spec fn promo(fx: int, fy: int, tx: int, ty: int, p: u8) -> ChessMove {
    ChessMove { promotion: p, ..plain(fx, fy, tx, ty) }
}

pub open spec fn ep_move(fx: int, fy: int, tx: int, ty: int) -> ChessMove {
    ChessMove { is_en_passant: true, ..plain(fx, fy, tx, ty) }
}

pub open spec fn castle_move(fx: int, fy: int, tx: int, ty: int) -> ChessMove {
    ChessMove { is_castle: true, ..plain(fx, fy, tx, ty) }
}

/// All four coordinates of the move lie on the board.
pub open spec fn wf_move(m: ChessMove) -> bool {
    m.from.0 < 8 && m.from.1 < 8 && m.to.0 < 8 && m.to.1 < 8
}

pub open spec fn all_wf(s: Seq<ChessMove>) -> bool {
    forall|k: int| 0 <= k < s.len() ==> wf_move(#[trigger] s[k])
}

impl ChessMove {
    /// A plain move: no promotion, not en passant, not castling.
    pub fn new(from: (usize, usize), to: (usize, usize)) -> (r: Self)
        ensures
            r == plain(from.0 as int, from.1 as int, to.0 as int, to.1 as int),
    {
        ChessMove { from, to, promotion: 0, is_en_passant: false, is_castle: false }
    }
}

// ---------------------------------------------------------------------------
// Pseudo-legal move generation: the moves in the order in which the game
// generates them, before it checks that the mover's king is left safe.
// ---------------------------------------------------------------------------

pub open spec fn pawn_fwd(c: u8) -> int {
    if c == WHITE {
        -1
    } else {
        1
    }
}

pub open spec fn start_row(c: u8) -> int {
    if c == WHITE {
        6
    } else {
        1
    }
}

pub open spec fn promo_row(c: u8) -> int {
    if c == WHITE {
        0
    } else {
        7
    }
}

/// A pawn arriving on its last row promotes to queen, knight, bishop or rook
/// (in that order); elsewhere it makes one plain move.
pub open spec fn step_or_promo(x: int, y: int, tx: int, ty: int, c: u8) -> Seq<ChessMove> {
    if ty == promo_row(c) {
        seq![promo(x, y, tx, ty, QUEEN), promo(x, y, tx, ty, KNIGHT), promo(x, y, tx, ty, BISHOP), promo(x, y, tx, ty, ROOK)]
    } else {
        seq![plain(x, y, tx, ty)]
    }
}

pub open spec fn pawn_push_moves(b: Seq<u8>, x: int, y: int, c: u8) -> Seq<ChessMove> {
    let f = pawn_fwd(c);
    if at(b, x, y + f) == EMPTY {
        step_or_promo(x, y, x, y + f, c) + if y == start_row(c) && at(b, x, y + f) == EMPTY && at(
            b,
            x,
            y + 2 * f,
        ) == EMPTY {
            seq![plain(x, y, x, y + 2 * f)]
        } else {
            Seq::empty()
        }
    } else {
        Seq::empty()
    }
}

pub open spec fn pawn_capture_moves(pos: PosView, x: int, y: int, c: u8, dx: int) -> Seq<ChessMove> {
    let b = pos.board;
    let nx = x + dx;
    let ny = y + pawn_fwd(c);
    if 0 <= nx < 8 {
        (if at(b, nx, ny) != EMPTY && spec_is_c(at(b, nx, ny), spec_enemy(c)) {
            step_or_promo(x, y, nx, ny, c)
        } else {
            Seq::empty()
        }) + if pos.ep == Some((nx as usize, ny as usize)) {
            seq![ep_move(x, y, nx, ny)]
        } else {
            Seq::empty()
        }
    } else {
        Seq::empty()
    }
}

pub open spec fn pawn_moves(pos: PosView, x: int, y: int, c: u8) -> Seq<ChessMove> {
    if 0 <= y + pawn_fwd(c) < 8 {
        pawn_push_moves(pos.board, x, y, c) + pawn_capture_moves(pos, x, y, c, -1)
            + pawn_capture_moves(pos, x, y, c, 1)
    } else {
        Seq::empty()
    }
}

/// A knight jump or king step to `(tx, ty)`: allowed onto an empty square or
/// an enemy piece.
pub open spec fn jump_move(b: Seq<u8>, x: int, y: int, tx: int, ty: int, c: u8) -> Seq<ChessMove> {
    if on_board(tx, ty) && (at(b, tx, ty) == EMPTY || spec_is_c(at(b, tx, ty), spec_enemy(c))) {
        seq![plain(x, y, tx, ty)]
    } else {
        Seq::empty()
    }
}

/// The jumps of the first `n` entries of a table (`king` picks the king's).
pub open spec fn jump_moves(b: Seq<u8>, x: int, y: int, c: u8, king: bool, n: int) -> Seq<ChessMove>
    decreases n,
{
    if n <= 0 {
        Seq::empty()
    } else {
        let d = if king {
            king_off(n - 1)
        } else {
            knight_off(n - 1)
        };
        jump_moves(b, x, y, c, king, n - 1) + jump_move(b, x, y, x + d.0, y + d.1, c)
    }
}

/// The squares a slider on `(x, y)` reaches from `(cx, cy)` on, walking in
/// steps of `(dx, dy)`: every empty square, then an enemy piece if one blocks.
pub open spec fn ray_moves(
    b: Seq<u8>,
    x: int,
    y: int,
    cx: int,
    cy: int,
    dx: int,
    dy: int,
    c: u8,
    fuel: nat,
) -> Seq<ChessMove>
    decreases fuel,
{
    if fuel == 0 || !on_board(cx, cy) {
        Seq::empty()
    } else if at(b, cx, cy) == EMPTY {
        seq![plain(x, y, cx, cy)] + ray_moves(b, x, y, cx + dx, cy + dy, dx, dy, c, (fuel - 1) as nat)
    } else if spec_is_c(at(b, cx, cy), spec_enemy(c)) {
        seq![plain(x, y, cx, cy)]
    } else {
        Seq::empty()
    }
}

/// The rays of the first `n` directions of slide table `kind`.
pub open spec fn slide_moves(b: Seq<u8>, x: int, y: int, c: u8, kind: int, n: int) -> Seq<ChessMove>
    decreases n,
{
    if n <= 0 {
        Seq::empty()
    } else {
        let d = slide_off(kind, n - 1);
        slide_moves(b, x, y, c, kind, n - 1) + ray_moves(b, x, y, x + d.0, y + d.1, d.0, d.1, c, 8)
    }
}

/// Castling: the king on its home square, the right kept, the squares between
/// king and rook empty, the rook in its corner, and the king's square, the
/// square it crosses and the one it lands on not attacked.
pub open spec fn castle_moves(pos: PosView, x: int, y: int, c: u8) -> Seq<ChessMove> {
    let b = pos.board;
    let e = spec_enemy(c);
    let rk: int = if c == WHITE {
        7
    } else {
        0
    };
    let ks: int = if c == WHITE {
        0
    } else {
        2
    };
    let qs: int = if c == WHITE {
        1
    } else {
        3
    };
    if y == rk && x == 4 {
        (if pos.castling[ks] && at(b, 5, rk) == EMPTY && at(b, 6, rk) == EMPTY && at(b, 7, rk) == (
        ROOK | c) && !attacked(b, 4, rk, e) && !attacked(b, 5, rk, e) && !attacked(b, 6, rk, e) {
            seq![castle_move(x, y, 6, rk)]
        } else {
            Seq::empty()
        }) + if pos.castling[qs] && at(b, 3, rk) == EMPTY && at(b, 2, rk) == EMPTY && at(b, 1, rk)
            == EMPTY && at(b, 0, rk) == (ROOK | c) && !attacked(b, 2, rk, e) && !attacked(b, 3, rk, e)
            && !attacked(b, 4, rk, e) {
            seq![castle_move(x, y, 2, rk)]
        } else {
            Seq::empty()
        }
    } else {
        Seq::empty()
    }
}

/// The pseudo-legal moves of the piece on `(x, y)` when it has colour `c`.
pub open spec fn square_moves(pos: PosView, c: u8, x: int, y: int) -> Seq<ChessMove> {
    let b = pos.board;
    let p = at(b, x, y);
    if p == EMPTY || !spec_is_c(p, c) {
        Seq::empty()
    } else {
        let t = spec_pt(p);
        if t == PAWN {
            pawn_moves(pos, x, y, c)
        } else if t == KNIGHT {
            jump_moves(b, x, y, c, false, 8)
        } else if t == BISHOP {
            slide_moves(b, x, y, c, 0, 4)
        } else if t == ROOK {
            slide_moves(b, x, y, c, 1, 4)
        } else if t == QUEEN {
            slide_moves(b, x, y, c, 2, 8)
        } else if t == KING {
            jump_moves(b, x, y, c, true, 8) + castle_moves(pos, x, y, c)
        } else {
            Seq::empty()
        }
    }
}

/// The moves of colour `c` from the first `n` squares in row-major order.
pub open spec fn pseudo_prefix(pos: PosView, c: u8, n: int) -> Seq<ChessMove>
    decreases n,
{
    if n <= 0 {
        Seq::empty()
    } else {
        pseudo_prefix(pos, c, n - 1) + square_moves(pos, c, (n - 1) % 8, (n - 1) / 8)
    }
}

pub open spec fn pseudo_moves(pos: PosView, c: u8) -> Seq<ChessMove> {
    pseudo_prefix(pos, c, 64)
}

fn push_step_or_promo(moves: &mut Vec<ChessMove>, x: usize, y: usize, tx: usize, ty: usize, c: u8)
    requires
        x < 8,
        y < 8,
        tx < 8,
        ty < 8,
        all_wf(old(moves)@),
    ensures
        final(moves)@ == old(moves)@ + step_or_promo(x as int, y as int, tx as int, ty as int, c),
        all_wf(final(moves)@),
{
    let promo_r: usize = if c == WHITE {
        0
    } else {
        7
    };
    if ty == promo_r {
        moves.push(ChessMove { from: (x, y), to: (tx, ty), promotion: QUEEN, is_en_passant: false, is_castle: false });
        moves.push(ChessMove { from: (x, y), to: (tx, ty), promotion: KNIGHT, is_en_passant: false, is_castle: false });
        moves.push(ChessMove { from: (x, y), to: (tx, ty), promotion: BISHOP, is_en_passant: false, is_castle: false });
        moves.push(ChessMove { from: (x, y), to: (tx, ty), promotion: ROOK, is_en_passant: false, is_castle: false });
    } else {
        moves.push(ChessMove::new((x, y), (tx, ty)));
    }
    assert(final(moves)@ =~= old(moves)@ + step_or_promo(x as int, y as int, tx as int, ty as int, c));
}

fn gen_pawn_capture(pos: &Position, x: usize, y: usize, c: u8, dx: i32, moves: &mut Vec<ChessMove>)
    requires
        x < 8,
        y < 8,
        0 <= y + pawn_fwd(c) < 8,
        dx == -1 || dx == 1,
        all_wf(old(moves)@),
    ensures
        final(moves)@ == old(moves)@ + pawn_capture_moves(pos@, x as int, y as int, c, dx as int),
        all_wf(final(moves)@),
{
    let ghost start = moves@;
    let forward: i32 = if c == WHITE {
        -1
    } else {
        1
    };
    let ny = (y as i32 + forward) as usize;
    let nx = x as i32 + dx;
    if nx >= 0 && nx < 8 {
        let nxu = nx as usize;
        let target = get(&pos.board, nxu, ny);
        if target != EMPTY && is_c(target, enemy(c)) {
            push_step_or_promo(moves, x, y, nxu, ny, c);
        }
        let ghost mid = moves@;
        if let Some((epx, epy)) = pos.ep_square {
            if epx == nxu && epy == ny {
                moves.push(ChessMove { from: (x, y), to: (nxu, ny), promotion: 0, is_en_passant: true, is_castle: false });
            }
        }
        assert(moves@ =~= start + pawn_capture_moves(pos@, x as int, y as int, c, dx as int));
    } else {
        assert(moves@ =~= start + pawn_capture_moves(pos@, x as int, y as int, c, dx as int));
    }
}

fn gen_pawn_push(b: &Board, x: usize, y: usize, c: u8, moves: &mut Vec<ChessMove>)
    requires
        x < 8,
        y < 8,
        0 <= y + pawn_fwd(c) < 8,
        all_wf(old(moves)@),
    ensures
        final(moves)@ == old(moves)@ + pawn_push_moves(b@, x as int, y as int, c),
        all_wf(final(moves)@),
{
    let ghost start = moves@;
    let forward: i32 = if c == WHITE {
        -1
    } else {
        1
    };
    let start_r: usize = if c == WHITE {
        6
    } else {
        1
    };
    let nyu = (y as i32 + forward) as usize;
    if get(b, x, nyu) == EMPTY {
        push_step_or_promo(moves, x, y, x, nyu, c);
        let ghost mid = moves@;
        if y == start_r {
            let ny2 = (y as i32 + 2 * forward) as usize;
            if get(b, x, nyu) == EMPTY && get(b, x, ny2) == EMPTY {
                moves.push(ChessMove::new((x, y), (x, ny2)));
            }
        }
        assert(moves@ =~= start + pawn_push_moves(b@, x as int, y as int, c));
    } else {
        assert(moves@ =~= start + pawn_push_moves(b@, x as int, y as int, c));
    }
}

fn gen_pawn(pos: &Position, x: usize, y: usize, c: u8, moves: &mut Vec<ChessMove>)
    requires
        x < 8,
        y < 8,
        all_wf(old(moves)@),
    ensures
        final(moves)@ == old(moves)@ + pawn_moves(pos@, x as int, y as int, c),
        all_wf(final(moves)@),
{
    let ghost start = moves@;
    let forward: i32 = if c == WHITE {
        -1
    } else {
        1
    };
    let ny = y as i32 + forward;
    if ny >= 0 && ny < 8 {
        gen_pawn_push(&pos.board, x, y, c, moves);
        let ghost after_push = moves@;
        gen_pawn_capture(pos, x, y, c, -1, moves);
        let ghost after_left = moves@;
        gen_pawn_capture(pos, x, y, c, 1, moves);
        assert(moves@ =~= start + pawn_moves(pos@, x as int, y as int, c));
    } else {
        assert(moves@ =~= start + pawn_moves(pos@, x as int, y as int, c));
    }
}

fn gen_jumps(b: &Board, x: usize, y: usize, c: u8, king: bool, moves: &mut Vec<ChessMove>)
    requires
        x < 8,
        y < 8,
        all_wf(old(moves)@),
    ensures
        final(moves)@ == old(moves)@ + jump_moves(b@, x as int, y as int, c, king, 8),
        all_wf(final(moves)@),
{
    let ghost start = moves@;
    let enemy_c = enemy(c);
    let mut i: usize = 0;
    while i < 8
        invariant
            i <= 8,
            x < 8,
            y < 8,
            enemy_c == spec_enemy(c),
            moves@ == start + jump_moves(b@, x as int, y as int, c, king, i as int),
            all_wf(moves@),
        decreases 8 - i,
    {
        let (dx, dy) = if king {
            king_offset(i)
        } else {
            knight_offset(i)
        };
        let nx = x as i32 + dx;
        let ny = y as i32 + dy;
        let ghost before = moves@;
        if nx >= 0 && nx < 8 && ny >= 0 && ny < 8 {
            let t = get(b, nx as usize, ny as usize);
            if t == EMPTY || is_c(t, enemy_c) {
                moves.push(ChessMove::new((x, y), (nx as usize, ny as usize)));
            }
        }
        assert(moves@ =~= start + jump_moves(b@, x as int, y as int, c, king, i + 1));
        i += 1;
    }
}

fn gen_ray(b: &Board, x: usize, y: usize, dx: i32, dy: i32, c: u8, moves: &mut Vec<ChessMove>)
    requires
        x < 8,
        y < 8,
        -1 <= dx <= 1,
        -1 <= dy <= 1,
        dx != 0 || dy != 0,
        all_wf(old(moves)@),
    ensures
        final(moves)@ == old(moves)@ + ray_moves(
            b@,
            x as int,
            y as int,
            x + dx,
            y + dy,
            dx as int,
            dy as int,
            c,
            8,
        ),
        all_wf(final(moves)@),
{
    let ghost start = moves@;
    let enemy_c = enemy(c);
    let mut nx = x as i32 + dx;
    let mut ny = y as i32 + dy;
    let ghost mut fuel: nat = 8;
    while nx >= 0 && nx < 8 && ny >= 0 && ny < 8
        invariant
            x < 8,
            y < 8,
            -1 <= nx <= 8,
            -1 <= ny <= 8,
            -1 <= dx <= 1,
            -1 <= dy <= 1,
            dx != 0 || dy != 0,
            dx == 1 ==> nx + fuel >= 9,
            dx == -1 ==> fuel >= nx + 2,
            dy == 1 ==> ny + fuel >= 9,
            dy == -1 ==> fuel >= ny + 2,
            enemy_c == spec_enemy(c),
            start == old(moves)@,
            moves@ + ray_moves(b@, x as int, y as int, nx as int, ny as int, dx as int, dy as int, c, fuel)
                == start + ray_moves(
                b@,
                x as int,
                y as int,
                x + dx,
                y + dy,
                dx as int,
                dy as int,
                c,
                8,
            ),
            all_wf(moves@),
        decreases
                (if dx == 1 {
                    8 - nx
                } else if dx == -1 {
                    nx + 1
                } else {
                    0
                }) + (if dy == 1 {
                    8 - ny
                } else if dy == -1 {
                    ny + 1
                } else {
                    0
                }),
    {
        let ghost before = moves@;
        let ghost rest = ray_moves(b@, x as int, y as int, nx as int, ny as int, dx as int, dy as int, c, fuel);
        let target = get(b, nx as usize, ny as usize);
        if target == EMPTY {
            moves.push(ChessMove::new((x, y), (nx as usize, ny as usize)));
        } else {
            if is_c(target, enemy_c) {
                moves.push(ChessMove::new((x, y), (nx as usize, ny as usize)));
            }
            assert(moves@ =~= before + rest);
            assert(moves@ == start + ray_moves(
                b@,
                x as int,
                y as int,
                x + dx,
                y + dy,
                dx as int,
                dy as int,
                c,
                8,
            ));
            return;
        }
        assert(before + rest =~= moves@ + ray_moves(
            b@,
            x as int,
            y as int,
            nx + dx,
            ny + dy,
            dx as int,
            dy as int,
            c,
            (fuel - 1) as nat,
        ));
        nx += dx;
        ny += dy;
        proof {
            fuel = (fuel - 1) as nat;
        }
    }
    assert(moves@ =~= moves@ + ray_moves(b@, x as int, y as int, nx as int, ny as int, dx as int, dy as int, c, fuel));
}

fn gen_slides(b: &Board, x: usize, y: usize, c: u8, kind: usize, moves: &mut Vec<ChessMove>)
    requires
        x < 8,
        y < 8,
        kind < 3,
        all_wf(old(moves)@),
    ensures
        final(moves)@ == old(moves)@ + slide_moves(
            b@,
            x as int,
            y as int,
            c,
            kind as int,
            slide_count(kind as int),
        ),
        all_wf(final(moves)@),
{
    let ghost start = moves@;
    let n: usize = if kind == 2 {
        8
    } else {
        4
    };
    let mut i: usize = 0;
    while i < n
        invariant
            i <= n,
            n == slide_count(kind as int),
            x < 8,
            y < 8,
            kind < 3,
            moves@ == start + slide_moves(b@, x as int, y as int, c, kind as int, i as int),
            all_wf(moves@),
        decreases n - i,
    {
        let (dx, dy) = slide_offset(kind, i);
        gen_ray(b, x, y, dx, dy, c, moves);
        assert(moves@ =~= start + slide_moves(b@, x as int, y as int, c, kind as int, i + 1));
        i += 1;
    }
}

fn gen_castles(pos: &Position, x: usize, y: usize, c: u8, moves: &mut Vec<ChessMove>)
    requires
        x < 8,
        y < 8,
        all_wf(old(moves)@),
    ensures
        final(moves)@ == old(moves)@ + castle_moves(pos@, x as int, y as int, c),
        all_wf(final(moves)@),
{
    let ghost start = moves@;
    let b = &pos.board;
    let e = enemy(c);
    let (rk, ks, qs) = if c == WHITE {
        (7usize, 0usize, 1usize)
    } else {
        (0usize, 2usize, 3usize)
    };
    if y == rk && x == 4 {
        if pos.castling[ks] && get(b, 5, rk) == EMPTY && get(b, 6, rk) == EMPTY && get(b, 7, rk)
            == mk(ROOK, c) && !is_attacked_by(b, (4, rk), e) && !is_attacked_by(b, (5, rk), e)
            && !is_attacked_by(b, (6, rk), e) {
            moves.push(ChessMove { from: (x, y), to: (6, rk), promotion: 0, is_en_passant: false, is_castle: true });
        }
        let ghost mid = moves@;
        if pos.castling[qs] && get(b, 3, rk) == EMPTY && get(b, 2, rk) == EMPTY && get(b, 1, rk)
            == EMPTY && get(b, 0, rk) == mk(ROOK, c) && !is_attacked_by(b, (2, rk), e)
            && !is_attacked_by(b, (3, rk), e) && !is_attacked_by(b, (4, rk), e) {
            moves.push(ChessMove { from: (x, y), to: (2, rk), promotion: 0, is_en_passant: false, is_castle: true });
        }
        assert(moves@ =~= start + castle_moves(pos@, x as int, y as int, c));
    } else {
        assert(moves@ =~= start + castle_moves(pos@, x as int, y as int, c));
    }
}

fn gen_square(pos: &Position, c: u8, x: usize, y: usize, moves: &mut Vec<ChessMove>)
    requires
        x < 8,
        y < 8,
        all_wf(old(moves)@),
    ensures
        final(moves)@ == old(moves)@ + square_moves(pos@, c, x as int, y as int),
        all_wf(final(moves)@),
{
    let ghost start = moves@;
    let p = get(&pos.board, x, y);
    if p == EMPTY || !is_c(p, c) {
        assert(moves@ =~= start + square_moves(pos@, c, x as int, y as int));
        return;
    }
    let t = pt(p);
    if t == PAWN {
        gen_pawn(pos, x, y, c, moves);
    } else if t == KNIGHT {
        gen_jumps(&pos.board, x, y, c, false, moves);
    } else if t == BISHOP {
        gen_slides(&pos.board, x, y, c, 0, moves);
    } else if t == ROOK {
        gen_slides(&pos.board, x, y, c, 1, moves);
    } else if t == QUEEN {
        gen_slides(&pos.board, x, y, c, 2, moves);
    } else if t == KING {
        gen_jumps(&pos.board, x, y, c, true, moves);
        gen_castles(pos, x, y, c, moves);
        assert(moves@ =~= start + square_moves(pos@, c, x as int, y as int));
    } else {
        assert(moves@ =~= start + square_moves(pos@, c, x as int, y as int));
    }
}

/// Every move of colour `color` that follows how its pieces move, before the
/// check that the mover's king is left safe, in the game's order: squares in
/// row-major order, and for each piece the order of `square_moves`.
pub fn generate_pseudo_moves(pos: &Position, color: u8) -> (moves: Vec<ChessMove>)
    ensures
        moves@ == pseudo_moves(pos@, color),
        all_wf(moves@),
{
    let mut moves: Vec<ChessMove> = Vec::new();
    let mut y: usize = 0;
    while y < 8
        invariant
            y <= 8,
            moves@ == pseudo_prefix(pos@, color, (y * 8) as int),
            all_wf(moves@),
        decreases 8 - y,
    {
        let mut x: usize = 0;
        while x < 8
            invariant
                x <= 8,
                y < 8,
                moves@ == pseudo_prefix(pos@, color, (y * 8 + x) as int),
                all_wf(moves@),
            decreases 8 - x,
        {
            let ghost n = (y * 8 + x) as int;
            assert(n % 8 == x && n / 8 == y) by (nonlinear_arith)
                requires
                    n == y * 8 + x,
                    x < 8,
            ;
            gen_square(pos, color, x, y, &mut moves);
            assert(pseudo_prefix(pos@, color, n + 1) == pseudo_prefix(pos@, color, n) + square_moves(
                pos@,
                color,
                x as int,
                y as int,
            ));
            x += 1;
        }
        y += 1;
    }
    moves
}

// ---------------------------------------------------------------------------
// Kings and check
// ---------------------------------------------------------------------------

/// The first king of colour `color` at square index `i` or later.
pub open spec fn king_from(b: Seq<u8>, color: u8, i: int) -> Option<(usize, usize)>
    decreases 64 - i,
{
    if i < 0 || i >= 64 {
        None
    } else if spec_pt(b[i]) == KING && spec_is_c(b[i], color) {
        Some(((i % 8) as usize, (i / 8) as usize))
    } else {
        king_from(b, color, i + 1)
    }
}

/// The square of the king of colour `color`, the first in row-major order.
pub open spec fn spec_find_king(b: Seq<u8>, color: u8) -> Option<(usize, usize)> {
    king_from(b, color, 0)
}

/// Whether the king of colour `color` is attacked; a board without that king
/// is never in check.
pub open spec fn in_check(b: Seq<u8>, color: u8) -> bool {
    match spec_find_king(b, color) {
        Some(k) => attacked(b, k.0 as int, k.1 as int, spec_enemy(color)),
        None => false,
    }
}

/// The square of the king of colour `color`, scanning row by row.
pub fn find_king(b: &Board, color: u8) -> (r: Option<(usize, usize)>)
    ensures
        r == spec_find_king(b@, color),
        r matches Some(k) ==> k.0 < 8 && k.1 < 8,
{
    let mut y: usize = 0;
    while y < 8
        invariant
            y <= 8,
            king_from(b@, color, (y * 8) as int) == spec_find_king(b@, color),
        decreases 8 - y,
    {
        let mut x: usize = 0;
        while x < 8
            invariant
                x <= 8,
                y < 8,
                king_from(b@, color, (y * 8 + x) as int) == spec_find_king(b@, color),
            decreases 8 - x,
        {
            let ghost n = (y * 8 + x) as int;
            assert(n % 8 == x && n / 8 == y) by (nonlinear_arith)
                requires
                    n == y * 8 + x,
                    x < 8,
            ;
            let p = b[y * 8 + x];
            if pt(p) == KING && is_c(p, color) {
                return Some((x, y));
            }
            x += 1;
        }
        y += 1;
    }
    None
}

/// Whether the king of colour `color` is attacked.
pub fn is_in_check(b: &Board, color: u8) -> (r: bool)
    ensures
        r == in_check(b@, color),
{
    if let Some(king_pos) = find_king(b, color) {
        return is_attacked_by(b, king_pos, enemy(color));
    }
    false
}

// ---------------------------------------------------------------------------
// Making a move
// ---------------------------------------------------------------------------

pub open spec fn set_sq(b: Seq<u8>, x: int, y: int, v: u8) -> Seq<u8> {
    b.update(y * 8 + x, v)
}

/// The board once the piece has moved and an en-passant victim is removed.
pub open spec fn moved_board(b: Seq<u8>, m: ChessMove) -> Seq<u8> {
    let (fx, fy, tx, ty) = (m.from.0 as int, m.from.1 as int, m.to.0 as int, m.to.1 as int);
    let b1 = set_sq(set_sq(b, tx, ty, at(b, fx, fy)), fx, fy, EMPTY);
    if m.is_en_passant {
        set_sq(b1, tx, fy, EMPTY)
    } else {
        b1
    }
}

/// Promotion and the rook's part of castling, on a board where the piece has moved.
pub open spec fn finish_board(b2: Seq<u8>, m: ChessMove) -> Seq<u8> {
    let (fy, tx, ty) = (m.from.1 as int, m.to.0 as int, m.to.1 as int);
    let b3 = if m.promotion != 0 {
        set_sq(b2, tx, ty, m.promotion | spec_pc(at(b2, tx, ty)))
    } else {
        b2
    };
    if m.is_castle {
        if tx == 6 {
            set_sq(set_sq(b3, 5, fy, at(b3, 7, fy)), 7, fy, EMPTY)
        } else {
            set_sq(set_sq(b3, 3, fy, at(b3, 0, fy)), 0, fy, EMPTY)
        }
    } else {
        b3
    }
}

/// The board after the move: moved, promoted, and the rook moved on castling.
pub open spec fn after_move_board(b: Seq<u8>, m: ChessMove) -> Seq<u8> {
    finish_board(moved_board(b, m), m)
}

/// A pawn that advanced two rows leaves the square it crossed open to en passant.
pub open spec fn after_move_ep(b: Seq<u8>, m: ChessMove) -> Option<(usize, usize)> {
    let b2 = moved_board(b, m);
    let d = m.to.1 as int - m.from.1 as int;
    if spec_pt(at(b2, m.to.0 as int, m.to.1 as int)) == PAWN && (d == 2 || d == -2) {
        Some((m.from.0, ((m.from.1 + m.to.1) / 2) as usize))
    } else {
        None
    }
}

pub open spec fn touches(m: ChessMove, x: usize, y: usize) -> bool {
    (m.from.0 == x && m.from.1 == y) || (m.to.0 == x && m.to.1 == y)
}

/// Castling right `i` after the move: lost when the king of that side moves,
/// and when the move starts or ends in that right's corner (the rook moves
/// away or is captured there).
pub open spec fn next_right(cast: Seq<bool>, moved: u8, m: ChessMove, i: int) -> bool {
    let king = spec_pt(moved) == KING;
    let white = spec_is_c(moved, WHITE);
    if i == 0 {
        cast[0] && !(king && white) && !touches(m, 7, 7)
    } else if i == 1 {
        cast[1] && !(king && white) && !touches(m, 0, 7)
    } else if i == 2 {
        cast[2] && !(king && !white) && !touches(m, 7, 0)
    } else {
        cast[3] && !(king && !white) && !touches(m, 0, 0)
    }
}

pub open spec fn next_rights(cast: Seq<bool>, moved: u8, m: ChessMove) -> Seq<bool> {
    seq![
        next_right(cast, moved, m, 0),
        next_right(cast, moved, m, 1),
        next_right(cast, moved, m, 2),
        next_right(cast, moved, m, 3),
    ]
}

pub open spec fn after_move(pos: PosView, m: ChessMove) -> PosView {
    PosView {
        board: after_move_board(pos.board, m),
        castling: next_rights(pos.castling, at(pos.board, m.from.0 as int, m.from.1 as int), m),
        ep: after_move_ep(pos.board, m),
    }
}

fn move_piece(b: Board, m: &ChessMove) -> (r: Board)
    requires
        wf_move(*m),
    ensures
        r@ == moved_board(b@, *m),
{
    let (fx, fy, tx, ty) = (m.from.0, m.from.1, m.to.0, m.to.1);
    let mut b = b;
    let ghost b0 = b@;
    b[ty * 8 + tx] = b[fy * 8 + fx];
    b[fy * 8 + fx] = EMPTY;
    if m.is_en_passant {
        b[fy * 8 + tx] = EMPTY;
    }
    assert(b@ =~= moved_board(b0, *m));
    b
}

fn finish_move(b: Board, m: &ChessMove) -> (r: Board)
    requires
        wf_move(*m),
    ensures
        r@ == finish_board(b@, *m),
{
    let (fy, tx, ty) = (m.from.1, m.to.0, m.to.1);
    let mut b = b;
    let ghost b0 = b@;
    if m.promotion != 0 {
        let color = pc(b[ty * 8 + tx]);
        b[ty * 8 + tx] = mk(m.promotion, color);
    }
    let ghost b3 = b@;
    if m.is_castle {
        let row = fy;
        if tx == 6 {
            b[row * 8 + 5] = b[row * 8 + 7];
            b[row * 8 + 7] = EMPTY;
        } else {
            b[row * 8 + 3] = b[row * 8 + 0];
            b[row * 8 + 0] = EMPTY;
        }
    }
    assert(b@ =~= finish_board(b0, *m));
    b
}

fn new_rights(pos: &Position, m: &ChessMove) -> (r: [bool; 4])
    requires
        wf_move(*m),
    ensures
        r@ == next_rights(pos.castling@, at(pos.board@, m.from.0 as int, m.from.1 as int), *m),
{
    let (fx, fy, tx, ty) = (m.from.0, m.from.1, m.to.0, m.to.1);
    let moved = pos.board[fy * 8 + fx];
    let king = pt(moved) == KING;
    let white = is_c(moved, WHITE);
    let r0 = pos.castling[0] && !(king && white) && !((fx == 7 && fy == 7) || (tx == 7 && ty == 7));
    let r1 = pos.castling[1] && !(king && white) && !((fx == 0 && fy == 7) || (tx == 0 && ty == 7));
    let r2 = pos.castling[2] && !(king && !white) && !((fx == 7 && fy == 0) || (tx == 7 && ty == 0));
    let r3 = pos.castling[3] && !(king && !white) && !((fx == 0 && fy == 0) || (tx == 0 && ty == 0));
    let cast = [r0, r1, r2, r3];
    assert(cast@ =~= next_rights(pos.castling@, at(pos.board@, m.from.0 as int, m.from.1 as int), *m));
    cast
}

/// The board, castling rights and en-passant square after `m`, and the piece
/// that stood on the target square.
pub fn apply_move(pos: &Position, m: &ChessMove) -> (r: (Board, [bool; 4], Option<(usize, usize)>, u8))
    requires
        wf_move(*m),
    ensures
        r.0@ == after_move(pos@, *m).board,
        r.1@ == after_move(pos@, *m).castling,
        r.2 == after_move(pos@, *m).ep,
        r.3 == at(pos.board@, m.to.0 as int, m.to.1 as int),
{
    let (fx, fy, tx, ty) = (m.from.0, m.from.1, m.to.0, m.to.1);
    let captured = pos.board[ty * 8 + tx];
    let b2 = move_piece(pos.board, m);
    let mut new_ep = None;
    let d: i32 = ty as i32 - fy as i32;
    if pt(b2[ty * 8 + tx]) == PAWN && (d == 2 || d == -2) {
        let ep_y = (fy + ty) / 2;
        new_ep = Some((fx, ep_y));
    }
    let b = finish_move(b2, m);
    let cast = new_rights(pos, m);
    (b, cast, new_ep, captured)
}

impl Position {
    /// The position after `m`.
    pub fn after(&self, m: &ChessMove) -> (r: Position)
        requires
            wf_move(*m),
        ensures
            r@ == after_move(self@, *m),
    {
        let (board, castling, ep_square, _) = apply_move(self, m);
        let r = Position { board, castling, ep_square };
        assert(r@.board =~= after_move(self@, *m).board);
        assert(r@.castling =~= after_move(self@, *m).castling);
        r
    }
}

// ---------------------------------------------------------------------------
// Legal moves
// ---------------------------------------------------------------------------

/// The moves of `ms` that do not leave the king of colour `c` in check.
pub open spec fn keep_legal(pos: PosView, c: u8, ms: Seq<ChessMove>) -> Seq<ChessMove>
    decreases ms.len(),
{
    if ms.len() == 0 {
        Seq::empty()
    } else {
        let m = ms.last();
        keep_legal(pos, c, ms.drop_last()) + if in_check(after_move_board(pos.board, m), c) {
            Seq::empty()
        } else {
            seq![m]
        }
    }
}

pub open spec fn legal_moves(pos: PosView, c: u8) -> Seq<ChessMove> {
    keep_legal(pos, c, pseudo_moves(pos, c))
}

/// The pseudo-legal moves of colour `color` after which its king is not in
/// check, in generation order.
pub fn generate_legal_moves(pos: &Position, color: u8) -> (legal: Vec<ChessMove>)
    ensures
        legal@ == legal_moves(pos@, color),
        all_wf(legal@),
{
    let pseudo = generate_pseudo_moves(pos, color);
    let mut legal: Vec<ChessMove> = Vec::new();
    let mut i: usize = 0;
    while i < pseudo.len()
        invariant
            i <= pseudo.len(),
            pseudo@ == pseudo_moves(pos@, color),
            all_wf(pseudo@),
            legal@ == keep_legal(pos@, color, pseudo@.take(i as int)),
            all_wf(legal@),
        decreases pseudo.len() - i,
    {
        let m = pseudo[i];
        assert(pseudo@.take(i + 1).drop_last() =~= pseudo@.take(i as int));
        assert(wf_move(pseudo@[i as int]));
        let (new_board, _, _, _) = apply_move(pos, &m);
        if !is_in_check(&new_board, color) {
            legal.push(m);
        }
        assert(legal@ =~= keep_legal(pos@, color, pseudo@.take(i + 1)));
        i += 1;
    }
    assert(pseudo@.take(pseudo.len() as int) =~= pseudo@);
    legal
}

// ---------------------------------------------------------------------------
// How many moves there can be
// ---------------------------------------------------------------------------

pub proof fn lemma_ray_len(
    b: Seq<u8>,
    x: int,
    y: int,
    cx: int,
    cy: int,
    dx: int,
    dy: int,
    c: u8,
    fuel: nat,
)
    ensures
        ray_moves(b, x, y, cx, cy, dx, dy, c, fuel).len() <= fuel,
    decreases fuel,
{
    if fuel > 0 && on_board(cx, cy) && at(b, cx, cy) == EMPTY {
        lemma_ray_len(b, x, y, cx + dx, cy + dy, dx, dy, c, (fuel - 1) as nat);
    }
}

pub proof fn lemma_jump_len(b: Seq<u8>, x: int, y: int, c: u8, king: bool, n: int)
    requires
        n >= 0,
    ensures
        jump_moves(b, x, y, c, king, n).len() <= n,
    decreases n,
{
    if n > 0 {
        lemma_jump_len(b, x, y, c, king, n - 1);
    }
}

pub proof fn lemma_slide_len(b: Seq<u8>, x: int, y: int, c: u8, kind: int, n: int)
    requires
        n >= 0,
    ensures
        slide_moves(b, x, y, c, kind, n).len() <= 8 * n,
    decreases n,
{
    if n > 0 {
        lemma_slide_len(b, x, y, c, kind, n - 1);
        let d = slide_off(kind, n - 1);
        lemma_ray_len(b, x, y, x + d.0, y + d.1, d.0, d.1, c, 8);
    }
}

pub proof fn lemma_pawn_len(pos: PosView, c: u8, x: int, y: int)
    ensures
        pawn_moves(pos, x, y, c).len() <= 15,
{
    assert(pawn_push_moves(pos.board, x, y, c).len() <= 5);
    assert(pawn_capture_moves(pos, x, y, c, -1).len() <= 5);
    assert(pawn_capture_moves(pos, x, y, c, 1).len() <= 5);
}

pub proof fn lemma_castle_len(pos: PosView, c: u8, x: int, y: int)
    ensures
        castle_moves(pos, x, y, c).len() <= 2,
{
}

#[verifier::rlimit(40)]
pub proof fn lemma_square_len(pos: PosView, c: u8, x: int, y: int)
    ensures
        square_moves(pos, c, x, y).len() <= 64,
{
    let b = pos.board;
    lemma_pawn_len(pos, c, x, y);
    lemma_castle_len(pos, c, x, y);
    lemma_jump_len(b, x, y, c, false, 8);
    lemma_jump_len(b, x, y, c, true, 8);
    lemma_slide_len(b, x, y, c, 0, 4);
    lemma_slide_len(b, x, y, c, 1, 4);
    lemma_slide_len(b, x, y, c, 2, 8);
}

pub proof fn lemma_pseudo_len(pos: PosView, c: u8, n: int)
    requires
        n >= 0,
    ensures
        pseudo_prefix(pos, c, n).len() <= 64 * n,
    decreases n,
{
    if n > 0 {
        lemma_pseudo_len(pos, c, n - 1);
        lemma_square_len(pos, c, (n - 1) % 8, (n - 1) / 8);
    }
}

pub proof fn lemma_keep_legal_len(pos: PosView, c: u8, ms: Seq<ChessMove>)
    ensures
        keep_legal(pos, c, ms).len() <= ms.len(),
    decreases ms.len(),
{
    if ms.len() > 0 {
        lemma_keep_legal_len(pos, c, ms.drop_last());
    }
}

/// A side never has more than 4096 legal moves.
pub proof fn lemma_legal_len(pos: PosView, c: u8)
    ensures
        legal_moves(pos, c).len() <= 4096,
{
    lemma_pseudo_len(pos, c, 64);
    lemma_keep_legal_len(pos, c, pseudo_moves(pos, c));
}

proof fn lemma_keep_legal_members(pos: PosView, c: u8, ms: Seq<ChessMove>)
    ensures
        forall|i: int|
            0 <= i < keep_legal(pos, c, ms).len() ==> ms.contains(#[trigger] keep_legal(pos, c, ms)[i])
                && !in_check(after_move_board(pos.board, keep_legal(pos, c, ms)[i]), c),
        forall|i: int|
            0 <= i < ms.len() && !in_check(after_move_board(pos.board, #[trigger] ms[i]), c) ==> keep_legal(
                pos,
                c,
                ms,
            ).contains(ms[i]),
    decreases ms.len(),
{
    if ms.len() > 0 {
        let init = ms.drop_last();
        lemma_keep_legal_members(pos, c, init);
        let k = keep_legal(pos, c, init);
        let m = ms.last();
        let r = keep_legal(pos, c, ms);
        assert forall|i: int| 0 <= i < r.len() implies ms.contains(#[trigger] r[i]) && !in_check(
            after_move_board(pos.board, r[i]),
            c,
        ) by {
            if i < k.len() {
                assert(r[i] == k[i]);
                let j = choose|j: int| 0 <= j < init.len() && init[j] == k[i];
                assert(ms[j] == init[j]);
            } else {
                assert(r[i] == m);
                assert(ms[ms.len() - 1] == m);
            }
        }
        assert forall|i: int| 0 <= i < ms.len() && !in_check(after_move_board(pos.board, #[trigger] ms[i]), c)
            implies r.contains(ms[i]) by {
            if i < init.len() {
                assert(init[i] == ms[i]);
                let j = choose|j: int| 0 <= j < k.len() && k[j] == ms[i];
                assert(r[j] == k[j]);
            } else {
                assert(r[r.len() - 1] == m);
            }
        }
    }
}

/// The legal moves are exactly the pseudo-legal moves after which the
/// mover's king is not attacked.
pub proof fn law_legal_moves_safe(pos: PosView, c: u8)
    ensures
        forall|i: int|
            0 <= i < legal_moves(pos, c).len() ==> pseudo_moves(pos, c).contains(#[trigger] legal_moves(pos, c)[i])
                && !in_check(after_move_board(pos.board, legal_moves(pos, c)[i]), c),
        forall|m: ChessMove|
            pseudo_moves(pos, c).contains(m) && !in_check(after_move_board(pos.board, m), c) ==> #[trigger] legal_moves(
                pos,
                c,
            ).contains(m),
{
    lemma_keep_legal_members(pos, c, pseudo_moves(pos, c));
    assert forall|m: ChessMove|
        pseudo_moves(pos, c).contains(m) && !in_check(after_move_board(pos.board, m), c) implies #[trigger] legal_moves(
        pos,
        c,
    ).contains(m) by {
        let i = choose|i: int| 0 <= i < pseudo_moves(pos, c).len() && pseudo_moves(pos, c)[i] == m;
        assert(!in_check(after_move_board(pos.board, pseudo_moves(pos, c)[i]), c));
    }
}

} // verus!
