//! Position evaluation and the alpha-beta search that plays Black.
use vstd::prelude::*;
use crate::chess_rules::{
    after_move, all_wf, at, generate_legal_moves, in_check, is_c, is_in_check, lemma_legal_len,
    pc, pt, wf_move, Board, ChessMove, Position, legal_moves, spec_pc, spec_pt, PosView, BISHOP, BLACK, EMPTY, KING, KNIGHT, PAWN, QUEEN, ROOK,
    WHITE,
};

verus! {

// ---------------------------------------------------------------------------
// Evaluation
// ---------------------------------------------------------------------------

/// Positional bonus table for the pawn, from White's point of view.
pub open spec fn pawn_table() -> Seq<int> {
    seq![
        0, 0, 0, 0, 0, 0, 0, 0,
        50, 50, 50, 50, 50, 50, 50, 50,
        10, 10, 20, 30, 30, 20, 10, 10,
        5, 5, 10, 25, 25, 10, 5, 5,
        0, 0, 0, 20, 20, 0, 0, 0,
        5, -5, -10, 0, 0, -10, -5, 5,
        5, 10, 10, -20, -20, 10, 10, 5,
        0, 0, 0, 0, 0, 0, 0, 0,
    ]
}

/// Positional bonus table for the knight, from White's point of view.
pub open spec fn knight_table() -> Seq<int> {
    seq![
        -50, -40, -30, -30, -30, -30, -40, -50,
        -40, -20, 0, 0, 0, 0, -20, -40,
        -30, 0, 10, 15, 15, 10, 0, -30,
        -30, 5, 15, 20, 20, 15, 5, -30,
        -30, 0, 15, 20, 20, 15, 0, -30,
        -30, 5, 10, 15, 15, 10, 5, -30,
        -40, -20, 0, 5, 5, 0, -20, -40,
        -50, -40, -30, -30, -30, -30, -40, -50,
    ]
}

/// Positional bonus table for the bishop, from White's point of view.
pub open spec fn bishop_table() -> Seq<int> {
    seq![
        -20, -10, -10, -10, -10, -10, -10, -20,
        -10, 0, 0, 0, 0, 0, 0, -10,
        -10, 0, 10, 10, 10, 10, 0, -10,
        -10, 5, 5, 10, 10, 5, 5, -10,
        -10, 0, 5, 10, 10, 5, 0, -10,
        -10, 10, 10, 10, 10, 10, 10, -10,
        -10, 5, 0, 0, 0, 0, 5, -10,
        -20, -10, -10, -10, -10, -10, -10, -20,
    ]
}

/// Positional bonus table for the rook, from White's point of view.
pub open spec fn rook_table() -> Seq<int> {
    seq![
        0, 0, 0, 0, 0, 0, 0, 0,
        5, 10, 10, 10, 10, 10, 10, 5,
        -5, 0, 0, 0, 0, 0, 0, -5,
        -5, 0, 0, 0, 0, 0, 0, -5,
        -5, 0, 0, 0, 0, 0, 0, -5,
        -5, 0, 0, 0, 0, 0, 0, -5,
        -5, 0, 0, 0, 0, 0, 0, -5,
        0, 0, 0, 5, 5, 0, 0, 0,
    ]
}

/// Positional bonus table for the queen, from White's point of view.
pub open spec fn queen_table() -> Seq<int> {
    seq![
        -20, -10, -10, -5, -5, -10, -10, -20,
        -10, 0, 0, 0, 0, 0, 0, -10,
        -10, 0, 5, 5, 5, 5, 0, -10,
        -5, 0, 5, 5, 5, 5, 0, -5,
        0, 0, 5, 5, 5, 5, 0, -5,
        -10, 5, 5, 5, 5, 5, 0, -10,
        -10, 0, 5, 0, 0, 0, 0, -10,
        -20, -10, -10, -5, -5, -10, -10, -20,
    ]
}

/// Positional bonus table for the king, from White's point of view.
pub open spec fn king_table() -> Seq<int> {
    seq![
        -30, -40, -40, -50, -50, -40, -40, -30,
        -30, -40, -40, -50, -50, -40, -40, -30,
        -30, -40, -40, -50, -50, -40, -40, -30,
        -30, -40, -40, -50, -50, -40, -40, -30,
        -20, -30, -30, -40, -40, -30, -30, -20,
        -10, -20, -20, -20, -20, -20, -20, -10,
        20, 20, 0, 0, 0, 0, 20, 20,
        20, 30, 10, 0, 0, 10, 30, 20,
    ]
}

/// Positional bonus of a piece of type `t` on table index `idx`.
pub open spec fn pst(t: u8, idx: int) -> int {
    if t == PAWN {
        pawn_table()[idx]
    } else if t == KNIGHT {
        knight_table()[idx]
    } else if t == BISHOP {
        bishop_table()[idx]
    } else if t == ROOK {
        rook_table()[idx]
    } else if t == QUEEN {
        queen_table()[idx]
    } else {
        king_table()[idx]
    }
}

/// Material value of a piece type.
pub open spec fn piece_value(t: u8) -> int {
    if t == PAWN {
        100
    } else if t == KNIGHT {
        320
    } else if t == BISHOP {
        330
    } else if t == ROOK {
        500
    } else if t == QUEEN {
        900
    } else {
        20000
    }
}

/// The table index of a square: White reads the tables from its own side,
/// Black reads them mirrored.
pub open spec fn table_index(white: bool, x: int, y: int) -> int {
    if white {
        (7 - y) * 8 + x
    } else {
        y * 8 + (7 - x)
    }
}

/// What the piece `p` on `(x, y)` adds to the score: value plus positional
/// bonus, positive for White and negative for Black.
pub open spec fn square_score(p: u8, x: int, y: int) -> int {
    let t = spec_pt(p);
    let white = spec_pc(p) == WHITE;
    if p == EMPTY || t < 1 || t > 6 {
        0
    } else {
        let v = piece_value(t) + pst(t, table_index(white, x, y));
        if white {
            v
        } else {
            -v
        }
    }
}

/// The score of the first `n` squares.
pub open spec fn material(b: Seq<u8>, n: int) -> int
    decreases n,
{
    if n <= 0 {
        0
    } else {
        material(b, n - 1) + square_score(b[n - 1], (n - 1) % 8, (n - 1) / 8)
    }
}

/// The evaluation from White's side: material and position, plus twice the
/// difference in the number of legal moves.
pub open spec fn evaluation(pos: PosView) -> int {
    material(pos.board, 64) + 2 * (legal_moves(pos, WHITE).len() - legal_moves(pos, BLACK).len())
}

pub proof fn lemma_tables_bounded(t: u8, idx: int)
    requires
        1 <= t <= 6,
        0 <= idx < 64,
    ensures
        -50 <= pst(t, idx) <= 50,
{
    assert(forall|i: int| 0 <= i < 64 ==> -50 <= #[trigger] pawn_table()[i] <= 50);
    assert(forall|i: int| 0 <= i < 64 ==> -50 <= #[trigger] knight_table()[i] <= 50);
    assert(forall|i: int| 0 <= i < 64 ==> -50 <= #[trigger] bishop_table()[i] <= 50);
    assert(forall|i: int| 0 <= i < 64 ==> -50 <= #[trigger] rook_table()[i] <= 50);
    assert(forall|i: int| 0 <= i < 64 ==> -50 <= #[trigger] queen_table()[i] <= 50);
    assert(forall|i: int| 0 <= i < 64 ==> -50 <= #[trigger] king_table()[i] <= 50);
}

fn table_value(t: u8, idx: usize) -> (r: i32)
    requires
        1 <= t <= 6,
        idx < 64,
    ensures
        r == pst(t, idx as int),
{
    match t {
        1 => {
            let t: [i32; 64] = [
        0, 0, 0, 0, 0, 0, 0, 0,
        50, 50, 50, 50, 50, 50, 50, 50,
        10, 10, 20, 30, 30, 20, 10, 10,
        5, 5, 10, 25, 25, 10, 5, 5,
        0, 0, 0, 20, 20, 0, 0, 0,
        5, -5, -10, 0, 0, -10, -5, 5,
        5, 10, 10, -20, -20, 10, 10, 5,
        0, 0, 0, 0, 0, 0, 0, 0,
            ];
            t[idx]
        }
        2 => {
            let t: [i32; 64] = [
        -50, -40, -30, -30, -30, -30, -40, -50,
        -40, -20, 0, 0, 0, 0, -20, -40,
        -30, 0, 10, 15, 15, 10, 0, -30,
        -30, 5, 15, 20, 20, 15, 5, -30,
        -30, 0, 15, 20, 20, 15, 0, -30,
        -30, 5, 10, 15, 15, 10, 5, -30,
        -40, -20, 0, 5, 5, 0, -20, -40,
        -50, -40, -30, -30, -30, -30, -40, -50,
            ];
            t[idx]
        }
        3 => {
            let t: [i32; 64] = [
        -20, -10, -10, -10, -10, -10, -10, -20,
        -10, 0, 0, 0, 0, 0, 0, -10,
        -10, 0, 10, 10, 10, 10, 0, -10,
        -10, 5, 5, 10, 10, 5, 5, -10,
        -10, 0, 5, 10, 10, 5, 0, -10,
        -10, 10, 10, 10, 10, 10, 10, -10,
        -10, 5, 0, 0, 0, 0, 5, -10,
        -20, -10, -10, -10, -10, -10, -10, -20,
            ];
            t[idx]
        }
        4 => {
            let t: [i32; 64] = [
        0, 0, 0, 0, 0, 0, 0, 0,
        5, 10, 10, 10, 10, 10, 10, 5,
        -5, 0, 0, 0, 0, 0, 0, -5,
        -5, 0, 0, 0, 0, 0, 0, -5,
        -5, 0, 0, 0, 0, 0, 0, -5,
        -5, 0, 0, 0, 0, 0, 0, -5,
        -5, 0, 0, 0, 0, 0, 0, -5,
        0, 0, 0, 5, 5, 0, 0, 0,
            ];
            t[idx]
        }
        5 => {
            let t: [i32; 64] = [
        -20, -10, -10, -5, -5, -10, -10, -20,
        -10, 0, 0, 0, 0, 0, 0, -10,
        -10, 0, 5, 5, 5, 5, 0, -10,
        -5, 0, 5, 5, 5, 5, 0, -5,
        0, 0, 5, 5, 5, 5, 0, -5,
        -10, 5, 5, 5, 5, 5, 0, -10,
        -10, 0, 5, 0, 0, 0, 0, -10,
        -20, -10, -10, -5, -5, -10, -10, -20,
            ];
            t[idx]
        }
        _ => {
            let t: [i32; 64] = [
        -30, -40, -40, -50, -50, -40, -40, -30,
        -30, -40, -40, -50, -50, -40, -40, -30,
        -30, -40, -40, -50, -50, -40, -40, -30,
        -30, -40, -40, -50, -50, -40, -40, -30,
        -20, -30, -30, -40, -40, -30, -30, -20,
        -10, -20, -20, -20, -20, -20, -20, -10,
        20, 20, 0, 0, 0, 0, 20, 20,
        20, 30, 10, 0, 0, 10, 30, 20,
            ];
            t[idx]
        }
    }
}

fn square_score_exec(p: u8, x: usize, y: usize) -> (r: i32)
    requires
        x < 8,
        y < 8,
    ensures
        r == square_score(p, x as int, y as int),
        -20050 <= r <= 20050,
{
    if p == EMPTY {
        return 0;
    }
    let piece_type = pt(p);
    let color = pc(p);
    let idx = if color == WHITE {
        (7 - y) * 8 + x
    } else {
        y * 8 + (7 - x)
    };
    if piece_type >= 1 && piece_type <= 6 {
        let value: i32 = match piece_type {
            1 => 100,
            2 => 320,
            3 => 330,
            4 => 500,
            5 => 900,
            _ => 20000,
        };
        proof {
            lemma_tables_bounded(piece_type, idx as int);
        }
        let bonus = table_value(piece_type, idx);
        if color == WHITE {
            value + bonus
        } else {
            -(value + bonus)
        }
    } else {
        0
    }
}

/// The evaluation of a position (see `evaluation`).
pub fn evaluate_position(pos: &Position) -> (r: i32)
    ensures
        r == evaluation(pos@),
{
    let mut score: i32 = 0;
    let mut y: usize = 0;
    while y < 8
        invariant
            y <= 8,
            score == material(pos.board@, (y * 8) as int),
            -20050 * (y * 8) <= score <= 20050 * (y * 8),
        decreases 8 - y,
    {
        let mut x: usize = 0;
        while x < 8
            invariant
                x <= 8,
                y < 8,
                score == material(pos.board@, (y * 8 + x) as int),
                -20050 * (y * 8 + x) <= score <= 20050 * (y * 8 + x),
            decreases 8 - x,
        {
            let ghost n = (y * 8 + x) as int;
            assert(n % 8 == x && n / 8 == y) by (nonlinear_arith)
                requires
                    n == y * 8 + x,
                    x < 8,
            ;
            let p = pos.board[y * 8 + x];
            assert(material(pos.board@, n + 1) == material(pos.board@, n) + square_score(
                p,
                x as int,
                y as int,
            ));
            score += square_score_exec(p, x, y);
            x += 1;
        }
        y += 1;
    }
    proof {
        lemma_legal_len(pos@, WHITE);
        lemma_legal_len(pos@, BLACK);
    }
    let white_moves = generate_legal_moves(pos, WHITE).len() as i32;
    let black_moves = generate_legal_moves(pos, BLACK).len() as i32;
    score += (white_moves - black_moves) * 2;
    score
}

// ---------------------------------------------------------------------------
// Move ordering
// ---------------------------------------------------------------------------

/// The value the search gives a captured or capturing piece when ordering moves.
pub open spec fn capture_value(t: u8) -> int {
    if t == QUEEN {
        900
    } else if t == ROOK {
        500
    } else if t == BISHOP {
        330
    } else if t == KNIGHT {
        320
    } else if t == PAWN {
        100
    } else {
        0
    }
}

/// Captures of valuable pieces by cheap ones first, and promotions.
pub open spec fn order_score(b: Seq<u8>, m: ChessMove) -> int {
    let target = at(b, m.to.0 as int, m.to.1 as int);
    let attacker = at(b, m.from.0 as int, m.from.1 as int);
    (if target != EMPTY {
        capture_value(spec_pt(target)) - capture_value(spec_pt(attacker))
    } else {
        0
    }) + (if m.promotion != 0 {
        800int
    } else {
        0
    })
}

fn capture_value_exec(t: u8) -> (r: i32)
    ensures
        r == capture_value(t),
{
    match t {
        5 => 900,
        4 => 500,
        3 => 330,
        2 => 320,
        1 => 100,
        _ => 0,
    }
}

fn move_order_score(b: &Board, m: &ChessMove) -> (r: i32)
    requires
        wf_move(*m),
    ensures
        r == order_score(b@, *m),
{
    let mut s: i32 = 0;
    let target = b[m.to.1 * 8 + m.to.0];
    if target != EMPTY {
        let victim = capture_value_exec(pt(target));
        let attacker = capture_value_exec(pt(b[m.from.1 * 8 + m.from.0]));
        s = victim - attacker;
    }
    if m.promotion != 0 {
        s += 800;
    }
    s
}

/// Where a stable descending sort inserts an entry with key `k` into the
/// already sorted `s`: after every entry whose key is at least `k`.
pub open spec fn insert_pos(s: Seq<(i32, ChessMove)>, k: i32) -> int
    decreases s.len(),
{
    if s.len() == 0 {
        0
    } else if s.last().0 >= k {
        s.len() as int
    } else {
        insert_pos(s.drop_last(), k)
    }
}

/// Sorting by key, largest first, keeping the order of equal keys.
pub open spec fn sort_desc(s: Seq<(i32, ChessMove)>) -> Seq<(i32, ChessMove)>
    decreases s.len(),
{
    if s.len() == 0 {
        s
    } else {
        let sorted = sort_desc(s.drop_last());
        sorted.insert(insert_pos(sorted, s.last().0), s.last())
    }
}

pub proof fn lemma_insert_pos_bounds(s: Seq<(i32, ChessMove)>, k: i32)
    ensures
        0 <= insert_pos(s, k) <= s.len(),
    decreases s.len(),
{
    if s.len() > 0 {
        lemma_insert_pos_bounds(s.drop_last(), k);
    }
}

pub proof fn lemma_sort_len(s: Seq<(i32, ChessMove)>)
    ensures
        sort_desc(s).len() == s.len(),
    decreases s.len(),
{
    if s.len() > 0 {
        lemma_sort_len(s.drop_last());
        lemma_insert_pos_bounds(sort_desc(s.drop_last()), s.last().0);
    }
}

fn sort_scored(v: &Vec<(i32, ChessMove)>) -> (r: Vec<(i32, ChessMove)>)
    ensures
        r@ == sort_desc(v@),
{
    let mut sorted: Vec<(i32, ChessMove)> = Vec::new();
    let mut i: usize = 0;
    while i < v.len()
        invariant
            i <= v.len(),
            sorted@ == sort_desc(v@.take(i as int)),
        decreases v.len() - i,
    {
        let e = v[i];
        assert(v@.take(i + 1).drop_last() =~= v@.take(i as int));
        let mut p = sorted.len();
        assert(sorted@.take(p as int) =~= sorted@);
        while p > 0 && sorted[p - 1].0 < e.0
            invariant
                p <= sorted.len(),
                insert_pos(sorted@, e.0) == insert_pos(sorted@.take(p as int), e.0),
            decreases p,
        {
            assert(sorted@.take(p as int).drop_last() =~= sorted@.take(p - 1));
            p -= 1;
        }
        proof {
            assert(sorted@.take(p as int).len() == p);
            if p > 0 {
                assert(sorted@.take(p as int).last() == sorted@[p - 1]);
            }
        }
        sorted.insert(p, e);
        i += 1;
    }
    assert(v@.take(v.len() as int) =~= v@);
    sorted
}

/// The legal moves with their ordering scores, best first.
pub open spec fn ordered_moves(pos: PosView, ms: Seq<ChessMove>) -> Seq<(i32, ChessMove)> {
    sort_desc(ms.map_values(|m: ChessMove| (order_score(pos.board, m) as i32, m)))
}

// ---------------------------------------------------------------------------
// Alpha-beta search
// ---------------------------------------------------------------------------

pub open spec fn start_best(maxi: bool) -> int {
    if maxi {
        i32::MIN + 100000
    } else {
        i32::MAX - 100000
    }
}

/// The alpha-beta search of `depth` plies in which White maximizes and Black
/// minimizes: its value and the move that reached it first. A side without
/// legal moves scores a mate (worse the sooner) or 0 for stalemate.
pub open spec fn minimax_spec(pos: PosView, depth: int, alpha: int, beta: int, maxi: bool) -> (int, Option<ChessMove>)
    decreases depth, 1int, 0int,
{
    if depth <= 0 {
        (evaluation(pos), None)
    } else {
        let color = if maxi {
            WHITE
        } else {
            BLACK
        };
        let moves = legal_moves(pos, color);
        if moves.len() == 0 {
            if in_check(pos.board, color) {
                (if maxi {
                    -99999 - depth
                } else {
                    99999 + depth
                }, None)
            } else {
                (0, None)
            }
        } else {
            search_spec(pos, depth, ordered_moves(pos, moves), 0, alpha, beta, start_best(maxi), None, maxi)
        }
    }
}

/// The search loop over the ordered moves from entry `i` on, with the window
/// `(alpha, beta)` and the best value and move so far; it stops as soon as
/// `beta <= alpha`.
pub open spec fn search_spec(
    pos: PosView,
    depth: int,
    ordered: Seq<(i32, ChessMove)>,
    i: int,
    alpha: int,
    beta: int,
    best: int,
    best_move: Option<ChessMove>,
    maxi: bool,
) -> (int, Option<ChessMove>)
    decreases depth, 0int, ordered.len() - i,
{
    if i < 0 || i >= ordered.len() || depth <= 0 {
        (best, best_move)
    } else {
        let m = ordered[i].1;
        let eval = minimax_spec(after_move(pos, m), depth - 1, alpha, beta, !maxi).0;
        if maxi {
            let nb = if eval > best {
                eval
            } else {
                best
            };
            let nm = if eval > best {
                Some(m)
            } else {
                best_move
            };
            let na = if alpha >= eval {
                alpha
            } else {
                eval
            };
            if beta <= na {
                (nb, nm)
            } else {
                search_spec(pos, depth, ordered, i + 1, na, beta, nb, nm, maxi)
            }
        } else {
            let nb = if eval < best {
                eval
            } else {
                best
            };
            let nm = if eval < best {
                Some(m)
            } else {
                best_move
            };
            let nbeta = if beta <= eval {
                beta
            } else {
                eval
            };
            if nbeta <= alpha {
                (nb, nm)
            } else {
                search_spec(pos, depth, ordered, i + 1, alpha, nbeta, nb, nm, maxi)
            }
        }
    }
}

fn order_moves(pos: &Position, moves: &Vec<ChessMove>) -> (r: Vec<(i32, ChessMove)>)
    requires
        all_wf(moves@),
    ensures
        r@ == ordered_moves(pos@, moves@),
        all_wf(r@.map_values(|e: (i32, ChessMove)| e.1)),
{
    let mut scored: Vec<(i32, ChessMove)> = Vec::new();
    let mut i: usize = 0;
    while i < moves.len()
        invariant
            i <= moves.len(),
            all_wf(moves@),
            scored@ == moves@.take(i as int).map_values(
                |m: ChessMove| (order_score(pos.board@, m) as i32, m),
            ),
        decreases moves.len() - i,
    {
        let m = moves[i];
        assert(wf_move(moves@[i as int]));
        let s = move_order_score(&pos.board, &m);
        scored.push((s, m));
        assert(scored@ =~= moves@.take(i + 1).map_values(
            |m: ChessMove| (order_score(pos.board@, m) as i32, m),
        ));
        i += 1;
    }
    assert(moves@.take(moves.len() as int) =~= moves@);
    let r = sort_scored(&scored);
    proof {
        lemma_sort_preserves(scored@);
    }
    r
}

/// Sorting keeps the entries.
pub proof fn lemma_sort_preserves(s: Seq<(i32, ChessMove)>)
    ensures
        forall|k: int|
            0 <= k < sort_desc(s).len() ==> exists|j: int|
                0 <= j < s.len() && #[trigger] sort_desc(s)[k] == s[j],
    decreases s.len(),
{
    if s.len() > 0 {
        lemma_sort_preserves(s.drop_last());
        lemma_insert_pos_bounds(sort_desc(s.drop_last()), s.last().0);
        let sorted = sort_desc(s.drop_last());
        let r = sort_desc(s);
        let p = insert_pos(sorted, s.last().0);
        assert forall|k: int| 0 <= k < r.len() implies exists|j: int|
            0 <= j < s.len() && #[trigger] r[k] == s[j] by {
            if k < p {
                assert(r[k] == sorted[k]);
                let j = choose|j: int| 0 <= j < s.drop_last().len() && sorted[k] == s.drop_last()[j];
                assert(r[k] == s[j]);
            } else if k == p {
                assert(r[k] == s[s.len() - 1]);
            } else {
                assert(r[k] == sorted[k - 1]);
                let j = choose|j: int| 0 <= j < s.drop_last().len() && sorted[k - 1] == s.drop_last()[j];
                assert(r[k] == s[j]);
            }
        }
    }
}

/// The alpha-beta search of `minimax_spec`: White maximizes, Black minimizes.
pub fn minimax(pos: &Position, depth: i32, alpha: i32, beta: i32, is_maximizing: bool) -> (r: (
    i32,
    Option<ChessMove>,
))
    requires
        0 <= depth <= i32::MAX - 100000,
    ensures
        r.0 == minimax_spec(pos@, depth as int, alpha as int, beta as int, is_maximizing).0,
        r.1 == minimax_spec(pos@, depth as int, alpha as int, beta as int, is_maximizing).1,
        r.1 matches Some(m) ==> wf_move(m),
    decreases depth,
{
    if depth == 0 {
        return (evaluate_position(pos), None);
    }
    let color = if is_maximizing {
        WHITE
    } else {
        BLACK
    };
    let moves = generate_legal_moves(pos, color);
    if moves.len() == 0 {
        if is_in_check(&pos.board, color) {
            return (
                if is_maximizing {
                    -99999 - depth
                } else {
                    99999 + depth
                },
                None,
            );
        }
        return (0, None);
    }
    let ordered = order_moves(pos, &moves);
    let ghost spec_ordered = ordered@;
    let ghost target = minimax_spec(pos@, depth as int, alpha as int, beta as int, is_maximizing);
    assert(target == search_spec(
        pos@,
        depth as int,
        ordered@,
        0,
        alpha as int,
        beta as int,
        start_best(is_maximizing),
        None,
        is_maximizing,
    ));
    let mut cur_alpha = alpha;
    let mut cur_beta = beta;
    let mut best_move: Option<ChessMove> = None;
    let mut best: i32 = if is_maximizing {
        i32::MIN + 100000
    } else {
        i32::MAX - 100000
    };
    let mut i: usize = 0;
    while i < ordered.len()
        invariant
            i <= ordered.len(),
            1 <= depth <= i32::MAX - 100000,
            ordered@ == spec_ordered,
            target == minimax_spec(pos@, depth as int, alpha as int, beta as int, is_maximizing),
            all_wf(ordered@.map_values(|e: (i32, ChessMove)| e.1)),
            best_move matches Some(m) ==> wf_move(m),
            search_spec(
                pos@,
                depth as int,
                ordered@,
                i as int,
                cur_alpha as int,
                cur_beta as int,
                best as int,
                best_move,
                is_maximizing,
            ) == target,
        decreases ordered.len() - i,
    {
        let m = ordered[i].1;
        assert(ordered@.map_values(|e: (i32, ChessMove)| e.1)[i as int] == m);
        let temp = pos.after(&m);
        let (eval, _) = minimax(&temp, depth - 1, cur_alpha, cur_beta, !is_maximizing);
        if is_maximizing {
            if eval > best {
                best = eval;
                best_move = Some(m);
            }
            if eval > cur_alpha {
                cur_alpha = eval;
            }
            if cur_beta <= cur_alpha {
                return (best, best_move);
            }
        } else {
            if eval < best {
                best = eval;
                best_move = Some(m);
            }
            if eval < cur_beta {
                cur_beta = eval;
            }
            if cur_beta <= cur_alpha {
                return (best, best_move);
            }
        }
        i += 1;
    }
    (best, best_move)
}

/// The piece `p` with its side swapped (an empty square stays empty).
pub open spec fn swap_side(p: u8) -> u8 {
    if spec_pc(p) == WHITE {
        (spec_pt(p) + BLACK) as u8
    } else if spec_pc(p) == BLACK {
        (spec_pt(p) + WHITE) as u8
    } else {
        EMPTY
    }
}

/// The board turned half round, every piece changing side: what stood on
/// `(x, y)` stands on `(7 - x, 7 - y)` for the other side.
pub open spec fn flipped(b: Seq<u8>) -> Seq<u8> {
    Seq::new(64, |i: int| swap_side(b[63 - i]))
}

/// Every square is empty or holds a real piece of White or Black.
pub open spec fn sides_ok(b: Seq<u8>) -> bool {
    forall|i: int|
        0 <= i < b.len() ==> #[trigger] b[i] == EMPTY || (1 <= spec_pt(b[i]) <= 6 && (spec_pc(b[i]) == WHITE
            || spec_pc(b[i]) == BLACK))
}

proof fn lemma_square_flips(p: u8, j: int)
    requires
        0 <= j < 64,
        p == EMPTY || (1 <= spec_pt(p) <= 6 && (spec_pc(p) == WHITE || spec_pc(p) == BLACK)),
    ensures
        square_score(swap_side(p), j % 8, j / 8) == -square_score(p, (63 - j) % 8, (63 - j) / 8),
{
    assert((63 - j) % 8 == 7 - j % 8 && (63 - j) / 8 == 7 - j / 8);
    if p != EMPTY {
        assert(spec_pt(swap_side(p)) == spec_pt(p));
        assert(spec_pc(p) == WHITE ==> spec_pc(swap_side(p)) == BLACK);
        assert(spec_pc(p) == BLACK ==> spec_pc(swap_side(p)) == WHITE);
        assert(swap_side(p) != EMPTY);
    }
}

proof fn lemma_material_flips(b: Seq<u8>, n: int)
    requires
        b.len() == 64,
        sides_ok(b),
        0 <= n <= 64,
    ensures
        material(flipped(b), n) == material(b, 64 - n) - material(b, 64),
    decreases n,
{
    if n > 0 {
        lemma_material_flips(b, n - 1);
        lemma_square_flips(b[64 - n], n - 1);
        assert(flipped(b)[n - 1] == swap_side(b[64 - n]));
        assert(material(b, 65 - n) == material(b, 64 - n) + square_score(b[64 - n], (64 - n) % 8, (64 - n) / 8));
    }
}

/// The material-and-position part of the evaluation (`material`, without
/// the move-count term) of a board turned half round with every piece
/// changing side is the negation of that of the board.
pub proof fn law_material_flips(b: Seq<u8>)
    requires
        b.len() == 64,
        sides_ok(b),
    ensures
        material(flipped(b), 64) == -material(b, 64),
{
    lemma_material_flips(b, 64);
}

} // verus!
