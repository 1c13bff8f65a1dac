//! The chess game: White is the player, Black is played by the search.
use vstd::prelude::*;
use crate::chess_rules::{
    after_move, all_wf, apply_move, at, enemy, generate_legal_moves, in_check, is_c, is_in_check,
    legal_moves, mk, pt, spec_enemy, spec_is_c, spec_pt, wf_move, Board, ChessMove, PosView,
    Position, BISHOP, BLACK, EMPTY, KING, KNIGHT, PAWN, QUEEN, ROOK, WHITE,
};
use crate::chess_search::{evaluate_position, evaluation, minimax, minimax_spec};

verus! {

// ---------------------------------------------------------------------------
// Notation
// ---------------------------------------------------------------------------

/// The board symbol of a piece; `·` for anything that is not a piece.
pub open spec fn symbol(piece: u8) -> char {
    if piece == 9 {
        '♙'
    } else if piece == 10 {
        '♘'
    } else if piece == 11 {
        '♗'
    } else if piece == 12 {
        '♖'
    } else if piece == 13 {
        '♕'
    } else if piece == 14 {
        '♔'
    } else if piece == 17 {
        '♟'
    } else if piece == 18 {
        '♞'
    } else if piece == 19 {
        '♝'
    } else if piece == 20 {
        '♜'
    } else if piece == 21 {
        '♛'
    } else if piece == 22 {
        '♚'
    } else {
        '·'
    }
}

/// The Unicode chess glyph of a piece code, `·` for an empty or unknown one.
pub fn piece_symbol(piece: u8) -> (r: &'static str)
    ensures
        r@ == seq![symbol(piece)],
{
    match piece {
        9 => {
            proof {
                reveal_strlit("♙");
            }
            "♙"
        },
        10 => {
            proof {
                reveal_strlit("♘");
            }
            "♘"
        },
        11 => {
            proof {
                reveal_strlit("♗");
            }
            "♗"
        },
        12 => {
            proof {
                reveal_strlit("♖");
            }
            "♖"
        },
        13 => {
            proof {
                reveal_strlit("♕");
            }
            "♕"
        },
        14 => {
            proof {
                reveal_strlit("♔");
            }
            "♔"
        },
        17 => {
            proof {
                reveal_strlit("♟");
            }
            "♟"
        },
        18 => {
            proof {
                reveal_strlit("♞");
            }
            "♞"
        },
        19 => {
            proof {
                reveal_strlit("♝");
            }
            "♝"
        },
        20 => {
            proof {
                reveal_strlit("♜");
            }
            "♜"
        },
        21 => {
            proof {
                reveal_strlit("♛");
            }
            "♛"
        },
        22 => {
            proof {
                reveal_strlit("♚");
            }
            "♚"
        },
        _ => {
            proof {
                reveal_strlit("·");
            }
            "·"
        },
    }
}

/// File letters `a`..`h` for columns 0..7.
pub open spec fn file_char(x: int) -> char {
    seq!['a', 'b', 'c', 'd', 'e', 'f', 'g', 'h'][x]
}

/// Rank digits: row 0 is rank 8, row 7 is rank 1.
pub open spec fn rank_char(y: int) -> char {
    seq!['8', '7', '6', '5', '4', '3', '2', '1'][y]
}

/// The notation the move list shows: `O-O` / `O-O-O` for castling, else
/// `e2-e4`, with `=Q` after a promotion to a queen.
pub open spec fn algebraic(from: (usize, usize), to: (usize, usize), promotion: u8, is_castle: bool) -> Seq<char> {
    if is_castle {
        if to.0 > from.0 {
            seq!['O', '-', 'O']
        } else {
            seq!['O', '-', 'O', '-', 'O']
        }
    } else {
        seq![
            file_char(from.0 as int),
            rank_char(from.1 as int),
            '-',
            file_char(to.0 as int),
            rank_char(to.1 as int),
        ] + if promotion == QUEEN {
            seq!['=', 'Q']
        } else {
            Seq::empty()
        }
    }
}

fn file_str(x: usize) -> (r: &'static str)
    requires
        x < 8,
    ensures
        r@ == seq![file_char(x as int)],
{
    match x {
        0 => {
            proof {
                reveal_strlit("a");
            }
            "a"
        },
        1 => {
            proof {
                reveal_strlit("b");
            }
            "b"
        },
        2 => {
            proof {
                reveal_strlit("c");
            }
            "c"
        },
        3 => {
            proof {
                reveal_strlit("d");
            }
            "d"
        },
        4 => {
            proof {
                reveal_strlit("e");
            }
            "e"
        },
        5 => {
            proof {
                reveal_strlit("f");
            }
            "f"
        },
        6 => {
            proof {
                reveal_strlit("g");
            }
            "g"
        },
        _ => {
            proof {
                reveal_strlit("h");
            }
            "h"
        },
    }
}

fn rank_str(y: usize) -> (r: &'static str)
    requires
        y < 8,
    ensures
        r@ == seq![rank_char(y as int)],
{
    match y {
        0 => {
            proof {
                reveal_strlit("8");
            }
            "8"
        },
        1 => {
            proof {
                reveal_strlit("7");
            }
            "7"
        },
        2 => {
            proof {
                reveal_strlit("6");
            }
            "6"
        },
        3 => {
            proof {
                reveal_strlit("5");
            }
            "5"
        },
        4 => {
            proof {
                reveal_strlit("4");
            }
            "4"
        },
        5 => {
            proof {
                reveal_strlit("3");
            }
            "3"
        },
        6 => {
            proof {
                reveal_strlit("2");
            }
            "2"
        },
        _ => {
            proof {
                reveal_strlit("1");
            }
            "1"
        },
    }
}

/// The move in the notation of the move list: `e2-e4`, `a7-a8=Q` for a
/// queen promotion, `O-O` and `O-O-O` for castling.
pub fn to_algebraic(from: (usize, usize), to: (usize, usize), promotion: u8, is_castle: bool) -> (r: String)
    requires
        from.0 < 8,
        from.1 < 8,
        to.0 < 8,
        to.1 < 8,
    ensures
        r@ == algebraic(from, to, promotion, is_castle),
{
    let mut s = String::new();
    if is_castle {
        if to.0 > from.0 {
            s.append("O-O");
            proof {
                reveal_strlit("O-O");
            }
        } else {
            s.append("O-O-O");
            proof {
                reveal_strlit("O-O-O");
            }
        }
        assert(s@ =~= algebraic(from, to, promotion, is_castle));
        return s;
    }
    s.append(file_str(from.0));
    s.append(rank_str(from.1));
    s.append("-");
    s.append(file_str(to.0));
    s.append(rank_str(to.1));
    proof {
        reveal_strlit("-");
    }
    if promotion == QUEEN {
        s.append("=Q");
        proof {
            reveal_strlit("=Q");
        }
    }
    assert(s@ =~= algebraic(from, to, promotion, is_castle));
    s
}

// ---------------------------------------------------------------------------
// Position hashing (for threefold repetition)
// ---------------------------------------------------------------------------

pub open spec fn mix(h: u64, v: u64) -> u64 {
    vstd::wrapping::u64_specs::wrapping_add(
        vstd::wrapping::u64_specs::wrapping_mul(h, 0x9E3779B97F4A7C15u64),
        v,
    )
}

/// The hash after mixing in the pieces of the first `n` squares, each
/// together with its square: `square * 256 + piece`.
pub open spec fn hash_squares(b: Seq<u8>, n: int) -> u64
    decreases n,
{
    if n <= 0 {
        0x12345678
    } else if b[n - 1] != EMPTY {
        mix(hash_squares(b, n - 1), ((n - 1) * 256 + b[n - 1]) as u64)
    } else {
        hash_squares(b, n - 1)
    }
}

pub open spec fn right_code(c: bool) -> u64 {
    if c {
        3
    } else {
        5
    }
}

/// `h` with the first `k` castling rights mixed in.
pub open spec fn mix_rights(h: u64, castling: Seq<bool>, k: int) -> u64
    decreases k,
{
    if k <= 0 {
        h
    } else {
        mix(mix_rights(h, castling, k - 1), right_code(castling[k - 1]))
    }
}

/// The hash of a position: pieces with their squares, side to move, castling rights and the
/// en-passant square, each mixed in as `h * 0x9E3779B97F4A7C15 + v`.
pub open spec fn hash_spec(b: Seq<u8>, turn: u8, castling: Seq<bool>, ep: Option<(usize, usize)>) -> u64 {
    let h1 = mix(hash_squares(b, 64), if turn == WHITE {
        1
    } else {
        2
    });
    let h2 = mix_rights(h1, castling, 4);
    match ep {
        Some(e) => mix(h2, (7 + e.0 * 8 + e.1) as u64),
        None => h2,
    }
}

/// The position key used to detect repetitions; see `hash_spec`.
pub fn hash_position(board: &Board, turn: u8, castling: &[bool; 4], ep: Option<(usize, usize)>) -> (r: u64)
    requires
        ep matches Some(e) ==> 7 + e.0 * 8 + e.1 <= u64::MAX,
    ensures
        r == hash_spec(board@, turn, castling@, ep),
{
    let mut h: u64 = 0x12345678;
    let mut i: usize = 0;
    while i < 64
        invariant
            i <= 64,
            h == hash_squares(board@, i as int),
        decreases 64 - i,
    {
        let p = board[i];
        if p != EMPTY {
            h = h.wrapping_mul(0x9E3779B97F4A7C15u64).wrapping_add(i as u64 * 256 + p as u64);
        }
        i += 1;
    }
    h = h.wrapping_mul(0x9E3779B97F4A7C15u64).wrapping_add(if turn == WHITE { 1 } else { 2 });
    let ghost h1 = h;
    let mut k: usize = 0;
    while k < 4
        invariant
            k <= 4,
            h == mix_rights(h1, castling@, k as int),
        decreases 4 - k,
    {
        let c = castling[k];
        h = h.wrapping_mul(0x9E3779B97F4A7C15u64).wrapping_add(if c { 3 } else { 5 });
        k += 1;
    }
    if let Some((ex, ey)) = ep {
        h = h.wrapping_mul(0x9E3779B97F4A7C15u64).wrapping_add(7 + ex as u64 * 8 + ey as u64);
    }
    h
}

// ---------------------------------------------------------------------------
// The starting position
// ---------------------------------------------------------------------------

pub open spec fn back_rank(x: int) -> u8 {
    seq![ROOK, KNIGHT, BISHOP, QUEEN, KING, BISHOP, KNIGHT, ROOK][x]
}

/// The piece on square index `i` at the start: Black's pieces on rows 0 and
/// 1, White's on rows 6 and 7, queens on the d-file, kings on the e-file.
pub open spec fn initial_square(i: int) -> u8 {
    let x = i % 8;
    let y = i / 8;
    if y == 0 {
        back_rank(x) | BLACK
    } else if y == 1 {
        PAWN | BLACK
    } else if y == 6 {
        PAWN | WHITE
    } else if y == 7 {
        back_rank(x) | WHITE
    } else {
        EMPTY
    }
}

fn back_rank_piece(x: usize) -> (r: u8)
    requires
        x < 8,
    ensures
        r == back_rank(x as int),
{
    match x {
        0 => ROOK,
        1 => KNIGHT,
        2 => BISHOP,
        3 => QUEEN,
        4 => KING,
        5 => BISHOP,
        6 => KNIGHT,
        _ => ROOK,
    }
}

/// The starting position: Black on rows 0 and 1, White on rows 6 and 7.
pub fn initial_board() -> (b: Board)
    ensures
        forall|i: int| 0 <= i < 64 ==> #[trigger] b@[i] == initial_square(i),
{
    let mut b: Board = [EMPTY; 64];
    let mut x: usize = 0;
    while x < 8
        invariant
            x <= 8,
            forall|i: int|
                0 <= i < 64 ==> #[trigger] b@[i] == (if i % 8 < x {
                    initial_square(i)
                } else {
                    EMPTY
                }),
        decreases 8 - x,
    {
        let r = back_rank_piece(x);
        b[x] = mk(r, BLACK);
        b[8 + x] = mk(PAWN, BLACK);
        b[48 + x] = mk(PAWN, WHITE);
        b[56 + x] = mk(r, WHITE);
        assert forall|i: int| 0 <= i < 64 implies #[trigger] b@[i] == (if i % 8 < x + 1 {
            initial_square(i)
        } else {
            EMPTY
        }) by {
            if i % 8 == x {
                assert(i == x || i == 8 + x || i == 16 + x || i == 24 + x || i == 32 + x || i == 40
                    + x || i == 48 + x || i == 56 + x);
            }
        }
        x += 1;
    }
    b
}

// ---------------------------------------------------------------------------
// The game
// ---------------------------------------------------------------------------

/// The status line under the board.
#[derive(Clone, Copy, Debug, PartialEq, Eq, Structural)]
pub enum ChessMessage {
    NoMessage,
    Check,
    CheckmateBlackWins,
    CheckmateWhiteWins,
    Stalemate,
    FiftyMoveDraw,
    RepetitionDraw,
    InsufficientMaterial,
}

/// The text shown for a message.
pub open spec fn message_text(m: ChessMessage) -> Seq<char> {
    match m {
        ChessMessage::NoMessage => ""@,
        ChessMessage::Check => "Check!"@,
        ChessMessage::CheckmateBlackWins => "Checkmate! Black wins!"@,
        ChessMessage::CheckmateWhiteWins => "Checkmate! White wins!"@,
        ChessMessage::Stalemate => "Stalemate!"@,
        ChessMessage::FiftyMoveDraw => "Draw - 50 move rule"@,
        ChessMessage::RepetitionDraw => "Draw - Threefold repetition"@,
        ChessMessage::InsufficientMaterial => "Draw - Insufficient material"@,
    }
}

impl ChessMessage {
    /// The text shown for the message; see `message_text`.
    pub fn text(&self) -> (r: &'static str)
        ensures
            r@ == message_text(*self),
    {
        match self {
            ChessMessage::NoMessage => "",
            ChessMessage::Check => "Check!",
            ChessMessage::CheckmateBlackWins => "Checkmate! Black wins!",
            ChessMessage::CheckmateWhiteWins => "Checkmate! White wins!",
            ChessMessage::Stalemate => "Stalemate!",
            ChessMessage::FiftyMoveDraw => "Draw - 50 move rule",
            ChessMessage::RepetitionDraw => "Draw - Threefold repetition",
            ChessMessage::InsufficientMaterial => "Draw - Insufficient material",
        }
    }
}

pub struct ChessGame {
    pub pos: Position,
    pub turn: u8,
    pub half_move: i32,
    pub full_move: i32,
    pub history: Vec<String>,
    pub position_hashes: Vec<u64>,
    pub cursor_x: usize,
    pub cursor_y: usize,
    pub sel_x: usize,
    pub sel_y: usize,
    pub selected: bool,
    pub game_over: bool,
    pub message: ChessMessage,
    pub width: u16,
    pub height: u16,
    pub last_move: Option<(usize, usize, usize, usize)>,
    pub needs_ai: bool,
}

/// How often `v` occurs in `s`.
pub open spec fn count_eq(s: Seq<u64>, v: u64) -> int
    decreases s.len(),
{
    if s.len() == 0 {
        0
    } else {
        count_eq(s.drop_last(), v) + if s.last() == v {
            1int
        } else {
            0
        }
    }
}

/// The number of occupied squares among the first `n`.
pub open spec fn piece_count(b: Seq<u8>, n: int) -> int
    decreases n,
{
    if n <= 0 {
        0
    } else {
        piece_count(b, n - 1) + if b[n - 1] != EMPTY {
            1int
        } else {
            0
        }
    }
}

/// Whether a bishop or knight stands on one of the first `n` squares.
pub open spec fn minor_in(b: Seq<u8>, n: int) -> bool
    decreases n,
{
    if n <= 0 {
        false
    } else {
        minor_in(b, n - 1) || (b[n - 1] != EMPTY && (spec_pt(b[n - 1]) == BISHOP || spec_pt(b[n - 1])
            == KNIGHT))
    }
}

/// Whether the game ends with the side `turn` to move, and the message: mate
/// or stalemate without a legal move; else a draw by the fifty-move rule, by
/// the third occurrence of the latest position, or by insufficient material
/// (the two kings alone, or with one knight or bishop); else "Check!" when in
/// check.
pub open spec fn game_status(pos: PosView, turn: u8, half_move: int, hashes: Seq<u64>) -> (bool, ChessMessage) {
    let chk = in_check(pos.board, turn);
    if legal_moves(pos, turn).len() == 0 {
        (true, if chk {
            if turn == WHITE {
                ChessMessage::CheckmateBlackWins
            } else {
                ChessMessage::CheckmateWhiteWins
            }
        } else {
            ChessMessage::Stalemate
        })
    } else if half_move >= 100 {
        (true, ChessMessage::FiftyMoveDraw)
    } else if count_eq(hashes, hashes.last()) >= 3 {
        (true, ChessMessage::RepetitionDraw)
    } else if piece_count(pos.board, 64) == 2 || (piece_count(pos.board, 64) == 3 && minor_in(
        pos.board,
        64,
    )) {
        (true, ChessMessage::InsufficientMaterial)
    } else {
        (false, if chk {
            ChessMessage::Check
        } else {
            ChessMessage::NoMessage
        })
    }
}

/// `new` is `old` after `m` was made and the game state updated, in every
/// field but `selected` and `needs_ai`.
pub open spec fn advanced(old: ChessGame, new: ChessGame, m: ChessMove) -> bool {
    let moving = at(old.pos.board@, m.from.0 as int, m.from.1 as int);
    let captured = at(old.pos.board@, m.to.0 as int, m.to.1 as int);
    let np = after_move(old.pos@, m);
    let st = game_status(np, new.turn, new.half_move as int, new.position_hashes@);
    &&& new.pos@ == np
    &&& new.half_move == (if captured != EMPTY || spec_pt(moving) == PAWN {
        0
    } else {
        old.half_move + 1
    })
    &&& new.turn == spec_enemy(old.turn)
    &&& new.full_move == (if new.turn == WHITE {
        old.full_move + 1
    } else {
        old.full_move as int
    })
    &&& new.history@.len() == old.history@.len() + 1
    &&& new.history@.take(old.history@.len() as int) == old.history@
    &&& new.history@.last()@ == algebraic(m.from, m.to, m.promotion, m.is_castle)
    &&& new.last_move == Some((m.from.0, m.from.1, m.to.0, m.to.1))
    &&& new.position_hashes@ == old.position_hashes@.push(hash_spec(np.board, new.turn, np.castling, np.ep))
    &&& new.game_over == (old.game_over || st.0)
    &&& new.message == st.1
    &&& new.cursor_x == old.cursor_x && new.cursor_y == old.cursor_y
    &&& new.sel_x == old.sel_x && new.sel_y == old.sel_y
    &&& new.width == old.width && new.height == old.height
}

/// The first move of `s` from `from` to `to`.
pub open spec fn first_match(s: Seq<ChessMove>, from: (usize, usize), to: (usize, usize)) -> Option<ChessMove>
    decreases s.len(),
{
    if s.len() == 0 {
        None
    } else if s[0].from == from && s[0].to == to {
        Some(s[0])
    } else {
        first_match(s.drop_first(), from, to)
    }
}

/// Whether the square holds a White piece.
pub open spec fn white_piece_at(g: ChessGame, x: usize, y: usize) -> bool {
    let p = at(g.pos.board@, x as int, y as int);
    p != EMPTY && spec_is_c(p, WHITE)
}

impl ChessGame {
    /// The game's invariant: cursor and selection on the board, the
    /// en-passant square on the board, move counters in range, and a game
    /// that goes on has fewer than a hundred half moves without progress.
    pub open spec fn wf(&self) -> bool {
        &&& self.cursor_x < 8 && self.cursor_y < 8
        &&& self.sel_x < 8 && self.sel_y < 8
        &&& self.pos.ep_square matches Some(e) ==> e.0 < 8 && e.1 < 8
        &&& 0 <= self.half_move
        &&& !self.game_over ==> self.half_move < 100
        &&& 1 <= self.full_move
    }

    /// An empty board, White to move, cursor on e1; `init` sets the pieces up.
    pub fn new() -> (g: Self)
        ensures
            g.wf(),
            forall|i: int| 0 <= i < 64 ==> g.pos.board@[i] == EMPTY,
            g.pos.castling@ == seq![false, false, false, false],
            g.pos.ep_square is None,
            g.turn == WHITE,
            g.half_move == 0,
            g.full_move == 1,
            g.history@.len() == 0,
            g.position_hashes@.len() == 0,
            g.cursor_x == 4 && g.cursor_y == 7 && g.sel_x == 0 && g.sel_y == 0,
            !g.selected && !g.game_over && !g.needs_ai,
            g.message == ChessMessage::NoMessage,
            g.width == 80 && g.height == 24,
            g.last_move is None,
    {
        let g = ChessGame {
            pos: Position { board: [EMPTY; 64], castling: [false; 4], ep_square: None },
            turn: WHITE,
            half_move: 0,
            full_move: 1,
            history: Vec::new(),
            position_hashes: Vec::new(),
            cursor_x: 4,
            cursor_y: 7,
            sel_x: 0,
            sel_y: 0,
            selected: false,
            game_over: false,
            message: ChessMessage::NoMessage,
            width: 80,
            height: 24,
            last_move: None,
            needs_ai: false,
        };
        assert(g.pos.castling@ =~= seq![false, false, false, false]);
        g
    }

    /// The scene id.
    pub fn id(&self) -> (r: &'static str)
        ensures
            r@ == seq!['c', 'h', 'e', 's', 's'],
    {
        proof {
            reveal_strlit("chess");
        }
        "chess"
    }

    /// Keeps the drawing area at least 30x15.
    pub fn set_terminal_size(&mut self, w: u16, h: u16)
        ensures
            final(self).width == if w > 30 {
                w
            } else {
                30
            },
            final(self).height == if h > 15 {
                h
            } else {
                15
            },
            final(self).pos == old(self).pos && final(self).turn == old(self).turn,
            final(self).cursor_x == old(self).cursor_x && final(self).cursor_y == old(self).cursor_y,
            final(self).sel_x == old(self).sel_x && final(self).sel_y == old(self).sel_y,
            final(self).game_over == old(self).game_over && final(self).half_move == old(
                self,
            ).half_move && final(self).full_move == old(self).full_move,
    {
        self.width = if w > 30 {
            w
        } else {
            30
        };
        self.height = if h > 15 {
            h
        } else {
            15
        };
    }

    /// A new game: pieces set up, all castling rights, White to move, no
    /// history, and the starting position recorded for repetition.
    pub fn reset_state(&mut self)
        requires
            old(self).sel_x < 8 && old(self).sel_y < 8,
        ensures
            final(self).wf(),
            forall|i: int| 0 <= i < 64 ==> final(self).pos.board@[i] == initial_square(i),
            final(self).pos.castling@ == seq![true, true, true, true],
            final(self).pos.ep_square is None,
            final(self).turn == WHITE,
            final(self).half_move == 0,
            final(self).full_move == 1,
            final(self).history@.len() == 0,
            final(self).position_hashes@ == seq![
                hash_spec(final(self).pos.board@, WHITE, seq![true, true, true, true], None),
            ],
            final(self).cursor_x == 4 && final(self).cursor_y == 7,
            !final(self).selected && !final(self).game_over && !final(self).needs_ai,
            final(self).message == ChessMessage::NoMessage,
            final(self).last_move is None,
            final(self).sel_x == old(self).sel_x && final(self).sel_y == old(self).sel_y,
            final(self).width == old(self).width && final(self).height == old(self).height,
    {
        let board = initial_board();
        let castling = [true, true, true, true];
        assert(castling@ =~= seq![true, true, true, true]);
        let h = hash_position(&board, WHITE, &castling, None);
        let mut hashes: Vec<u64> = Vec::new();
        hashes.push(h);
        assert(hashes@ =~= seq![hash_spec(board@, WHITE, seq![true, true, true, true], None)]);
        let sel_x = self.sel_x;
        let sel_y = self.sel_y;
        let width = self.width;
        let height = self.height;
        *self = ChessGame {
            pos: Position { board, castling, ep_square: None },
            turn: WHITE,
            half_move: 0,
            full_move: 1,
            history: Vec::new(),
            position_hashes: hashes,
            cursor_x: 4,
            cursor_y: 7,
            sel_x,
            sel_y,
            selected: false,
            game_over: false,
            message: ChessMessage::NoMessage,
            width,
            height,
            last_move: None,
            needs_ai: false,
        };
    }

    /// Ends the game on mate, stalemate or a draw and sets the message; see
    /// `game_status`. A game that was already over stays over.
    pub fn update_game_state(&mut self)
        requires
            old(self).position_hashes@.len() > 0,
        ensures
            ({
                let st = game_status(
                    old(self).pos@,
                    old(self).turn,
                    old(self).half_move as int,
                    old(self).position_hashes@,
                );
                &&& final(self).game_over == (old(self).game_over || st.0)
                &&& final(self).message == st.1
            }),
            final(self).pos == old(self).pos,
            final(self).turn == old(self).turn,
            final(self).half_move == old(self).half_move,
            final(self).full_move == old(self).full_move,
            final(self).history == old(self).history,
            final(self).position_hashes == old(self).position_hashes,
            final(self).cursor_x == old(self).cursor_x && final(self).cursor_y == old(self).cursor_y,
            final(self).sel_x == old(self).sel_x && final(self).sel_y == old(self).sel_y,
            final(self).selected == old(self).selected && final(self).needs_ai == old(self).needs_ai,
            final(self).width == old(self).width && final(self).height == old(self).height,
            final(self).last_move == old(self).last_move,
    {
        let legal_moves = generate_legal_moves(&self.pos, self.turn);
        let in_check = is_in_check(&self.pos.board, self.turn);

        if legal_moves.len() == 0 {
            self.game_over = true;
            if in_check {
                self.message = if self.turn == WHITE {
                    ChessMessage::CheckmateBlackWins
                } else {
                    ChessMessage::CheckmateWhiteWins
                };
            } else {
                self.message = ChessMessage::Stalemate;
            }
            return;
        }
        if in_check {
            self.message = ChessMessage::Check;
        } else {
            self.message = ChessMessage::NoMessage;
        }
        if self.half_move >= 100 {
            self.game_over = true;
            self.message = ChessMessage::FiftyMoveDraw;
            return;
        }
        let n = self.position_hashes.len();
        let current = self.position_hashes[n - 1];
        let mut count: usize = 0;
        let mut i: usize = 0;
        while i < n
            invariant
                i <= n,
                n == self.position_hashes@.len(),
                count == count_eq(self.position_hashes@.take(i as int), current),
                count <= i,
            decreases n - i,
        {
            assert(self.position_hashes@.take(i + 1).drop_last() =~= self.position_hashes@.take(
                i as int,
            ));
            if self.position_hashes[i] == current {
                count += 1;
            }
            i += 1;
        }
        assert(self.position_hashes@.take(n as int) =~= self.position_hashes@);
        if count >= 3 {
            self.game_over = true;
            self.message = ChessMessage::RepetitionDraw;
            return;
        }
        let mut pieces: usize = 0;
        let mut minor = false;
        let mut k: usize = 0;
        while k < 64
            invariant
                k <= 64,
                pieces == piece_count(self.pos.board@, k as int),
                pieces <= k,
                minor == minor_in(self.pos.board@, k as int),
            decreases 64 - k,
        {
            let p = self.pos.board[k];
            if p != EMPTY {
                pieces += 1;
                let t = pt(p);
                if t == BISHOP || t == KNIGHT {
                    minor = true;
                }
            }
            k += 1;
        }
        if pieces == 2 || (pieces == 3 && minor) {
            self.game_over = true;
            self.message = ChessMessage::InsufficientMaterial;
        }
    }

    /// A new game; see `reset_state`.
    pub fn init(&mut self)
        requires
            old(self).sel_x < 8 && old(self).sel_y < 8,
        ensures
            final(self).wf(),
            forall|i: int| 0 <= i < 64 ==> final(self).pos.board@[i] == initial_square(i),
            final(self).pos.castling@ == seq![true, true, true, true],
            final(self).pos.ep_square is None,
            final(self).turn == WHITE,
            final(self).half_move == 0,
            final(self).full_move == 1,
            final(self).history@.len() == 0,
            final(self).position_hashes@ == seq![
                hash_spec(final(self).pos.board@, WHITE, seq![true, true, true, true], None),
            ],
            final(self).cursor_x == 4 && final(self).cursor_y == 7,
            !final(self).selected && !final(self).game_over && !final(self).needs_ai,
            final(self).message == ChessMessage::NoMessage,
            final(self).last_move is None,
    {
        self.reset_state();
    }

    /// Makes `m`, passes the turn, records notation, last move and position
    /// hash, and updates the game state; see `advanced`.
    pub fn make_move_and_advance(&mut self, m: &ChessMove)
        requires
            old(self).wf(),
            wf_move(*m),
            old(self).full_move < i32::MAX,
            old(self).half_move < i32::MAX,
        ensures
            advanced(*old(self), *final(self), *m),
            final(self).wf(),
            final(self).selected == old(self).selected,
            final(self).needs_ai == old(self).needs_ai,
    {
        let moving_piece = self.pos.board[m.from.1 * 8 + m.from.0];
        let captured = self.pos.board[m.to.1 * 8 + m.to.0];
        let (new_board, new_castling, new_ep, _) = apply_move(&self.pos, m);
        let ghost np = after_move(old(self).pos@, *m);
        self.pos = Position { board: new_board, castling: new_castling, ep_square: new_ep };
        assert(self.pos@.board =~= np.board);
        assert(self.pos@.castling =~= np.castling);

        if captured != EMPTY || pt(moving_piece) == PAWN {
            self.half_move = 0;
        } else {
            self.half_move += 1;
        }
        self.turn = enemy(self.turn);
        if self.turn == WHITE {
            self.full_move += 1;
        }
        let notation = to_algebraic(m.from, m.to, m.promotion, m.is_castle);
        self.history.push(notation);
        self.last_move = Some((m.from.0, m.from.1, m.to.0, m.to.1));
        let h = hash_position(&self.pos.board, self.turn, &self.pos.castling, self.pos.ep_square);
        self.position_hashes.push(h);
        assert(self.history@.take(old(self).history@.len() as int) =~= old(self).history@);
        self.update_game_state();
    }

    /// Black's reply: the move that the three-ply search (`minimax_spec`
    /// from Black's side, window `[i32::MIN + 100000, i32::MAX - 100000]`)
    /// returns, if any. Nothing happens once the game is over.
    pub fn ai_move(&mut self)
        requires
            old(self).wf(),
            old(self).full_move < i32::MAX,
        ensures
            final(self).wf(),
            old(self).game_over ==> *final(self) == *old(self),
            !old(self).game_over ==> match minimax_spec(
                old(self).pos@,
                3,
                i32::MIN + 100000,
                i32::MAX - 100000,
                false,
            ).1 {
                Some(m) => advanced(*old(self), *final(self), m) && final(self).selected == old(
                    self,
                ).selected && final(self).needs_ai == old(self).needs_ai,
                None => *final(self) == *old(self),
            },
    {
        if self.game_over {
            return;
        }
        let (_, best_move) = minimax(&self.pos, 3, i32::MIN + 100000, i32::MAX - 100000, false);
        if let Some(m) = best_move {
            self.make_move_and_advance(&m);
        }
    }

    /// One frame: when the player has moved and it is Black's turn, Black
    /// replies, unless the frame took too long (`frame_ok` false), in which
    /// case the reply is dropped.
    pub fn update(&mut self, frame_ok: bool)
        requires
            old(self).wf(),
            old(self).full_move < i32::MAX,
        ensures
            final(self).wf(),
            !(old(self).needs_ai && !old(self).game_over && old(self).turn == BLACK) ==> *final(self)
                == *old(self),
            (old(self).needs_ai && !old(self).game_over && old(self).turn == BLACK && !frame_ok)
                ==> *final(self) == (ChessGame { needs_ai: false, ..*old(self) }),
            (old(self).needs_ai && !old(self).game_over && old(self).turn == BLACK && frame_ok)
                ==> match minimax_spec(old(self).pos@, 3, i32::MIN + 100000, i32::MAX - 100000, false).1 {
                Some(m) => advanced(*old(self), *final(self), m) && final(self).selected == old(
                    self,
                ).selected && !final(self).needs_ai,
                None => *final(self) == (ChessGame { needs_ai: false, ..*old(self) }),
            },
    {
        if self.needs_ai && !self.game_over && self.turn == BLACK {
            self.needs_ai = false;
            if frame_ok {
                self.ai_move();
            }
        }
    }

    /// The first legal White move from the selected square to the cursor.
    fn find_legal(&self) -> (r: Option<ChessMove>)
        ensures
            r == first_match(
                legal_moves(self.pos@, WHITE),
                (self.sel_x, self.sel_y),
                (self.cursor_x, self.cursor_y),
            ),
            r matches Some(m) ==> wf_move(m),
    {
        let legal = generate_legal_moves(&self.pos, WHITE);
        let ghost s = legal@;
        assert(s.skip(0) =~= s);
        let mut i: usize = 0;
        while i < legal.len()
            invariant
                i <= legal.len(),
                s == legal@,
                s == legal_moves(self.pos@, WHITE),
                all_wf(s),
                first_match(s.skip(i as int), (self.sel_x, self.sel_y), (self.cursor_x, self.cursor_y))
                    == first_match(s, (self.sel_x, self.sel_y), (self.cursor_x, self.cursor_y)),
            decreases legal.len() - i,
        {
            let lm = legal[i];
            assert(s.skip(i as int)[0] == lm);
            assert(s.skip(i as int).drop_first() =~= s.skip(i + 1));
            if lm.from.0 == self.sel_x && lm.from.1 == self.sel_y && lm.to.0 == self.cursor_x
                && lm.to.1 == self.cursor_y {
                assert(wf_move(s[i as int]));
                assert(lm.from == (self.sel_x, self.sel_y) && lm.to == (self.cursor_x, self.cursor_y));
                assert(s.skip(i as int).len() > 0);
                assert(first_match(s.skip(i as int), (self.sel_x, self.sel_y), (self.cursor_x, self.cursor_y))
                    == Some(lm));
                return Some(lm);
            }
            i += 1;
        }
        assert(s.skip(i as int).len() == 0);
        None
    }

    /// Arrow keys move the cursor within the board; Enter (10 or 13) on
    /// White's turn selects a White piece, deselects it when pressed on it
    /// again, or plays the first legal move from the selection to the cursor
    /// (asking Black to reply when the game goes on); Enter on a square that
    /// is no legal target moves the selection to a White piece there, or
    /// drops it. Nothing changes once the game is over.
    pub fn handle_key(&mut self, key: i32, ch: char)
        requires
            old(self).wf(),
            old(self).full_move < i32::MAX,
        ensures
            final(self).wf(),
            ({
                let o = *old(self);
                let f = *final(self);
                if o.game_over {
                    f == o
                } else if key == 38 {
                    f == ChessGame { cursor_y: if o.cursor_y > 0 { (o.cursor_y - 1) as usize } else { 0 }, ..o }
                } else if key == 40 {
                    f == ChessGame { cursor_y: if o.cursor_y < 7 { (o.cursor_y + 1) as usize } else { 7 }, ..o }
                } else if key == 37 {
                    f == ChessGame { cursor_x: if o.cursor_x > 0 { (o.cursor_x - 1) as usize } else { 0 }, ..o }
                } else if key == 39 {
                    f == ChessGame { cursor_x: if o.cursor_x < 7 { (o.cursor_x + 1) as usize } else { 7 }, ..o }
                } else if key == 10 || key == 13 {
                    if o.turn != WHITE {
                        f == o
                    } else if !o.selected {
                        if white_piece_at(o, o.cursor_x, o.cursor_y) {
                            f == ChessGame { sel_x: o.cursor_x, sel_y: o.cursor_y, selected: true, ..o }
                        } else {
                            f == o
                        }
                    } else if o.cursor_x == o.sel_x && o.cursor_y == o.sel_y {
                        f == ChessGame { selected: false, ..o }
                    } else {
                        match first_match(
                            legal_moves(o.pos@, WHITE),
                            (o.sel_x, o.sel_y),
                            (o.cursor_x, o.cursor_y),
                        ) {
                            Some(m) => {
                                &&& advanced(o, f, m)
                                &&& !f.selected
                                &&& f.needs_ai == (o.needs_ai || (!f.game_over && f.turn == BLACK))
                            },
                            None => if white_piece_at(o, o.cursor_x, o.cursor_y) {
                                f == ChessGame { sel_x: o.cursor_x, sel_y: o.cursor_y, ..o }
                            } else {
                                f == ChessGame { selected: false, ..o }
                            },
                        }
                    }
                } else {
                    f == o
                }
            }),
    {
        if self.game_over {
            return;
        }
        match key {
            38 => {
                if self.cursor_y > 0 {
                    self.cursor_y -= 1;
                }
            },
            40 => {
                if self.cursor_y < 7 {
                    self.cursor_y += 1;
                }
            },
            37 => {
                if self.cursor_x > 0 {
                    self.cursor_x -= 1;
                }
            },
            39 => {
                if self.cursor_x < 7 {
                    self.cursor_x += 1;
                }
            },
            10 | 13 => {
                if self.turn != WHITE || self.game_over {
                    return;
                }
                if !self.selected {
                    let p = self.pos.board[self.cursor_y * 8 + self.cursor_x];
                    if p != EMPTY && is_c(p, WHITE) {
                        self.sel_x = self.cursor_x;
                        self.sel_y = self.cursor_y;
                        self.selected = true;
                    }
                } else {
                    if self.cursor_x == self.sel_x && self.cursor_y == self.sel_y {
                        self.selected = false;
                        return;
                    }
                    let matched = self.find_legal();
                    if let Some(found) = matched {
                        self.selected = false;
                        self.make_move_and_advance(&found);
                        if !self.game_over && self.turn == BLACK {
                            self.needs_ai = true;
                        }
                    } else {
                        let p = self.pos.board[self.cursor_y * 8 + self.cursor_x];
                        if p != EMPTY && is_c(p, WHITE) {
                            self.sel_x = self.cursor_x;
                            self.sel_y = self.cursor_y;
                        } else {
                            self.selected = false;
                        }
                    }
                }
            },
            _ => {},
        }
    }
}

} // verus!
