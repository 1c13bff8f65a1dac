//! Laws of the chess rules, stated through the board and the attack test:
//! what a castling move may pass through, and what an en-passant capture
//! removes.
use vstd::prelude::*;
use crate::chess_rules::{
    after_move_board, at, attacked, castle_moves, in_check, jump_move, jump_moves, keep_legal, legal_moves,
    pawn_capture_moves, pawn_moves, pawn_push_moves, pseudo_moves, pseudo_prefix, ray_moves, slide_moves,
    spec_enemy, spec_pc, spec_pt, square_moves, step_or_promo, wf_move, ChessMove, PosView, BISHOP, BLACK, EMPTY,
    KING, KNIGHT, ROOK, WHITE,
};
use crate::chess::{count_eq, game_status, minor_in, piece_count, ChessMessage};

verus! {

/// No move of `s` is a castling move.
pub open spec fn no_castle(s: Seq<ChessMove>) -> bool {
    forall|k: int| 0 <= k < s.len() ==> !(#[trigger] s[k]).is_castle
}

/// The king of colour `c` castles by the rules on board `b` with rights
/// `cast`: it stands on its home square, moves two squares along its row
/// towards a rook of its colour in that corner, the right for that side is
/// kept, the squares between king and rook are empty, and neither the square
/// it starts on, nor the one it crosses, nor the one it lands on is attacked
/// by the other side.
pub open spec fn castles_safely(b: Seq<u8>, cast: Seq<bool>, c: u8, m: ChessMove) -> bool {
    let e = spec_enemy(c);
    let (fx, fy, tx, ty) = (m.from.0 as int, m.from.1 as int, m.to.0 as int, m.to.1 as int);
    let home: int = if c == WHITE { 7 } else { 0 };
    let king_side = tx == 6;
    &&& fx == 4 && fy == home && ty == fy
    &&& tx == 6 || tx == 2
    &&& at(b, fx, fy) != EMPTY && spec_pt(at(b, fx, fy)) == KING && spec_pc(at(b, fx, fy)) == c
    &&& if king_side {
        &&& cast[if c == WHITE { 0int } else { 2int }]
        &&& at(b, 5, fy) == EMPTY && at(b, 6, fy) == EMPTY
        &&& spec_pt(at(b, 7, fy)) == ROOK && spec_pc(at(b, 7, fy)) == c
    } else {
        &&& cast[if c == WHITE { 1int } else { 3int }]
        &&& at(b, 1, fy) == EMPTY && at(b, 2, fy) == EMPTY && at(b, 3, fy) == EMPTY
        &&& spec_pt(at(b, 0, fy)) == ROOK && spec_pc(at(b, 0, fy)) == c
    }
    &&& !attacked(b, fx, fy, e)
    &&& !attacked(b, (fx + tx) / 2, fy, e)
    &&& !attacked(b, tx, fy, e)
}

/// Every castling move of `s` castles safely.
pub open spec fn castles_ok(b: Seq<u8>, cast: Seq<bool>, c: u8, s: Seq<ChessMove>) -> bool {
    forall|k: int| 0 <= k < s.len() && (#[trigger] s[k]).is_castle ==> castles_safely(b, cast, c, s[k])
}

proof fn lemma_add_ok(b: Seq<u8>, cast: Seq<bool>, c: u8, s: Seq<ChessMove>, t: Seq<ChessMove>)
    requires
        castles_ok(b, cast, c, s),
        castles_ok(b, cast, c, t),
    ensures
        castles_ok(b, cast, c, s + t),
{
    assert forall|k: int| 0 <= k < (s + t).len() && (#[trigger] (s + t)[k]).is_castle implies castles_safely(
        b,
        cast,
        c,
        (s + t)[k],
    ) by {
        if k < s.len() {
            assert((s + t)[k] == s[k]);
        } else {
            assert((s + t)[k] == t[k - s.len()]);
        }
    }
}

proof fn lemma_no_castle_ok(b: Seq<u8>, cast: Seq<bool>, c: u8, s: Seq<ChessMove>)
    requires
        no_castle(s),
    ensures
        castles_ok(b, cast, c, s),
{
}

proof fn lemma_add_no_castle(s: Seq<ChessMove>, t: Seq<ChessMove>)
    requires
        no_castle(s),
        no_castle(t),
    ensures
        no_castle(s + t),
{
    assert forall|k: int| 0 <= k < (s + t).len() implies !(#[trigger] (s + t)[k]).is_castle by {
        if k < s.len() {
            assert((s + t)[k] == s[k]);
        } else {
            assert((s + t)[k] == t[k - s.len()]);
        }
    }
}

proof fn lemma_ray_no_castle(b: Seq<u8>, x: int, y: int, cx: int, cy: int, dx: int, dy: int, c: u8, fuel: nat)
    ensures
        no_castle(ray_moves(b, x, y, cx, cy, dx, dy, c, fuel)),
    decreases fuel,
{
    if fuel > 0 {
        lemma_ray_no_castle(b, x, y, cx + dx, cy + dy, dx, dy, c, (fuel - 1) as nat);
        if ray_moves(b, x, y, cx, cy, dx, dy, c, fuel).len() > 1 {
            lemma_add_no_castle(
                seq![ray_moves(b, x, y, cx, cy, dx, dy, c, fuel)[0]],
                ray_moves(b, x, y, cx + dx, cy + dy, dx, dy, c, (fuel - 1) as nat),
            );
        }
    }
}

proof fn lemma_slide_no_castle(b: Seq<u8>, x: int, y: int, c: u8, kind: int, n: int)
    ensures
        no_castle(slide_moves(b, x, y, c, kind, n)),
    decreases n,
{
    if n > 0 {
        lemma_slide_no_castle(b, x, y, c, kind, n - 1);
        let d = crate::chess_rules::slide_off(kind, n - 1);
        lemma_ray_no_castle(b, x, y, x + d.0, y + d.1, d.0, d.1, c, 8);
        lemma_add_no_castle(
            slide_moves(b, x, y, c, kind, n - 1),
            ray_moves(b, x, y, x + d.0, y + d.1, d.0, d.1, c, 8),
        );
    }
}

proof fn lemma_jump_no_castle(b: Seq<u8>, x: int, y: int, c: u8, king: bool, n: int)
    ensures
        no_castle(jump_moves(b, x, y, c, king, n)),
    decreases n,
{
    if n > 0 {
        lemma_jump_no_castle(b, x, y, c, king, n - 1);
        let d = if king {
            crate::chess_rules::king_off(n - 1)
        } else {
            crate::chess_rules::knight_off(n - 1)
        };
        assert(no_castle(jump_move(b, x, y, x + d.0, y + d.1, c)));
        lemma_add_no_castle(jump_moves(b, x, y, c, king, n - 1), jump_move(b, x, y, x + d.0, y + d.1, c));
    }
}

proof fn lemma_pawn_no_castle(pos: PosView, x: int, y: int, c: u8)
    ensures
        no_castle(pawn_moves(pos, x, y, c)),
{
    let f = crate::chess_rules::pawn_fwd(c);
    assert(no_castle(step_or_promo(x, y, x, y + f, c)));
    let push = pawn_push_moves(pos.board, x, y, c);
    assert(no_castle(push)) by {
        if at(pos.board, x, y + f) == EMPTY {
            let extra = push.skip(step_or_promo(x, y, x, y + f, c).len() as int);
            assert forall|k: int| 0 <= k < push.len() implies !(#[trigger] push[k]).is_castle by {
                if k >= step_or_promo(x, y, x, y + f, c).len() {
                    assert(push[k] == crate::chess_rules::plain(x, y, x, y + 2 * f));
                }
            }
        }
    }
    assert forall|dx: int| dx == -1 || dx == 1 implies no_castle(
        #[trigger] pawn_capture_moves(pos, x, y, c, dx),
    ) by {
        let nx = x + dx;
        let ny = y + f;
        let s = pawn_capture_moves(pos, x, y, c, dx);
        assert(no_castle(step_or_promo(x, y, nx, ny, c)));
        assert forall|k: int| 0 <= k < s.len() implies !(#[trigger] s[k]).is_castle by {
            let first = if at(pos.board, nx, ny) != EMPTY && crate::chess_rules::spec_is_c(
                at(pos.board, nx, ny),
                spec_enemy(c),
            ) {
                step_or_promo(x, y, nx, ny, c)
            } else {
                Seq::empty()
            };
            if k < first.len() {
                assert(s[k] == first[k]);
            } else {
                assert(s[k] == crate::chess_rules::ep_move(x, y, nx, ny));
            }
        }
    }
    if 0 <= y + f < 8 {
        let a = pawn_capture_moves(pos, x, y, c, -1);
        let b = pawn_capture_moves(pos, x, y, c, 1);
        lemma_add_no_castle(push, a);
        lemma_add_no_castle(push + a, b);
    }
}

proof fn lemma_square_ok(pos: PosView, c: u8, x: int, y: int)
    ensures
        castles_ok(pos.board, pos.castling, c, square_moves(pos, c, x, y)),
{
    let b = pos.board;
    lemma_pawn_no_castle(pos, x, y, c);
    lemma_jump_no_castle(b, x, y, c, false, 8);
    lemma_jump_no_castle(b, x, y, c, true, 8);
    lemma_slide_no_castle(b, x, y, c, 0, 4);
    lemma_slide_no_castle(b, x, y, c, 1, 4);
    lemma_slide_no_castle(b, x, y, c, 2, 8);
    let p = at(b, x, y);
    lemma_no_castle_ok(b, pos.castling, c, jump_moves(b, x, y, c, true, 8));
    if p != EMPTY && crate::chess_rules::spec_is_c(p, c) && spec_pt(p) == KING {
        let cm = castle_moves(pos, x, y, c);
        assert(c % 8 == 0 && c < 32);
        assert((4u8 | c) % 8 == 4 && (((4u8 | c) / 8) % 4 * 8) as u8 == c) by (bit_vector)
            requires
                c % 8 == 0 && c < 32,
        ;
        assert(castles_ok(b, pos.castling, c, cm)) by {
            assert forall|k: int| 0 <= k < cm.len() && (#[trigger] cm[k]).is_castle implies castles_safely(
                b,
                pos.castling,
                c,
                cm[k],
            ) by {}
        }
        lemma_add_ok(b, pos.castling, c, jump_moves(b, x, y, c, true, 8), cm);
    }
}

proof fn lemma_prefix_ok(pos: PosView, c: u8, n: int)
    ensures
        castles_ok(pos.board, pos.castling, c, pseudo_prefix(pos, c, n)),
    decreases n,
{
    if n > 0 {
        lemma_prefix_ok(pos, c, n - 1);
        lemma_square_ok(pos, c, (n - 1) % 8, (n - 1) / 8);
        lemma_add_ok(pos.board, pos.castling, c, pseudo_prefix(pos, c, n - 1), square_moves(pos, c, (n - 1) % 8, (n - 1) / 8));
    }
}

proof fn lemma_keep_ok(pos: PosView, c: u8, ms: Seq<ChessMove>)
    requires
        castles_ok(pos.board, pos.castling, c, ms),
    ensures
        castles_ok(pos.board, pos.castling, c, keep_legal(pos, c, ms)),
    decreases ms.len(),
{
    if ms.len() > 0 {
        let init = ms.drop_last();
        assert(castles_ok(pos.board, pos.castling, c, init)) by {
            assert forall|k: int| 0 <= k < init.len() && (#[trigger] init[k]).is_castle implies castles_safely(
                pos.board,
                pos.castling,
                c,
                init[k],
            ) by {
                assert(init[k] == ms[k]);
            }
        }
        lemma_keep_ok(pos, c, init);
        let m = ms.last();
        let tail = if in_check(after_move_board(pos.board, m), c) {
            Seq::empty()
        } else {
            seq![m]
        };
        assert(castles_ok(pos.board, pos.castling, c, tail)) by {
            if tail.len() > 0 {
                assert(tail[0] == ms[ms.len() - 1]);
            }
        }
        lemma_add_ok(pos.board, pos.castling, c, keep_legal(pos, c, init), tail);
    }
}

/// A legal castling move follows the rules (`castles_safely`): in
/// particular it never starts from, crosses or lands on a square that the
/// other side attacks: the king moves two squares along its row, and its
/// start square, the square between and its target are all unattacked in the
/// position before the move.
pub proof fn law_castling_never_through_attack(pos: PosView, c: u8, m: ChessMove)
    requires
        legal_moves(pos, c).contains(m),
        m.is_castle,
    ensures
        castles_safely(pos.board, pos.castling, c, m),
        m.to.1 == m.from.1,
        m.to.0 == m.from.0 + 2 || m.to.0 == m.from.0 - 2,
        !attacked(pos.board, m.from.0 as int, m.from.1 as int, spec_enemy(c)),
        !attacked(pos.board, (m.from.0 + m.to.0) / 2, m.from.1 as int, spec_enemy(c)),
        !attacked(pos.board, m.to.0 as int, m.from.1 as int, spec_enemy(c)),
{
    lemma_prefix_ok(pos, c, 64);
    lemma_keep_ok(pos, c, pseudo_moves(pos, c));
    let k = choose|k: int| 0 <= k < legal_moves(pos, c).len() && legal_moves(pos, c)[k] == m;
    assert(castles_safely(pos.board, pos.castling, c, legal_moves(pos, c)[k]));
}

/// An en-passant capture removes the pawn it passes: the square beside the
/// mover's start, on the target's file, is empty afterwards; the mover has
/// left its square and, without promotion, stands on the target; every other
/// square is as it was.
pub proof fn law_en_passant_removes_the_pawn(b: Seq<u8>, m: ChessMove)
    requires
        b.len() == 64,
        wf_move(m),
        m.is_en_passant,
        !m.is_castle,
        m.from.1 != m.to.1,
    ensures
        at(after_move_board(b, m), m.to.0 as int, m.from.1 as int) == EMPTY,
        at(after_move_board(b, m), m.from.0 as int, m.from.1 as int) == EMPTY,
        m.promotion == 0 ==> at(after_move_board(b, m), m.to.0 as int, m.to.1 as int) == at(
            b,
            m.from.0 as int,
            m.from.1 as int,
        ),
        forall|x: int, y: int|
            0 <= x < 8 && 0 <= y < 8 && !(x == m.from.0 && y == m.from.1) && !(x == m.to.0 && y == m.to.1) && !(x
                == m.to.0 && y == m.from.1) ==> #[trigger] at(after_move_board(b, m), x, y) == at(b, x, y),
{
}

/// A piece other than a king stands on square `i`.
pub open spec fn other_piece(b: Seq<u8>, i: int) -> bool {
    b[i] != EMPTY && spec_pt(b[i]) != KING
}

/// A king of colour `c` stands on square `i`.
pub open spec fn king_of(b: Seq<u8>, i: int, c: u8) -> bool {
    b[i] != EMPTY && spec_pt(b[i]) == KING && spec_pc(b[i]) == c
}

/// Emptying an occupied square among the first `n` removes one piece from
/// the count.
proof fn lemma_count_remove(b: Seq<u8>, n: int, i: int)
    requires
        0 <= i < n <= b.len(),
        b[i] != EMPTY,
    ensures
        piece_count(b, n) == piece_count(b.update(i, EMPTY), n) + 1,
    decreases n,
{
    if n - 1 > i {
        lemma_count_remove(b, n - 1, i);
    } else {
        lemma_count_same(b, b.update(i, EMPTY), n - 1);
    }
}

proof fn lemma_count_same(a: Seq<u8>, b: Seq<u8>, n: int)
    requires
        0 <= n <= a.len(),
        n <= b.len(),
        forall|k: int| 0 <= k < n ==> a[k] == b[k],
    ensures
        piece_count(a, n) == piece_count(b, n),
    decreases n,
{
    if n > 0 {
        lemma_count_same(a, b, n - 1);
    }
}

proof fn lemma_count_nonneg(b: Seq<u8>, n: int)
    ensures
        piece_count(b, n) >= 0,
    decreases n,
{
    if n > 0 {
        lemma_count_nonneg(b, n - 1);
    }
}

/// Distinct occupied squares each count.
proof fn lemma_count_at_least(b: Seq<u8>, s: Seq<int>)
    requires
        b.len() == 64,
        s.no_duplicates(),
        forall|k: int| 0 <= k < s.len() ==> 0 <= #[trigger] s[k] < 64 && b[s[k]] != EMPTY,
    ensures
        piece_count(b, 64) >= s.len(),
    decreases s.len(),
{
    if s.len() == 0 {
        lemma_count_nonneg(b, 64);
    } else {
        let i = s.last();
        let b2 = b.update(i, EMPTY);
        let s2 = s.drop_last();
        assert forall|k: int| 0 <= k < s2.len() implies 0 <= #[trigger] s2[k] < 64 && b2[s2[k]] != EMPTY by {
            assert(s2[k] == s[k]);
            assert(s[k] != s[s.len() - 1]);
        }
        lemma_count_at_least(b2, s2);
        lemma_count_remove(b, 64, i);
    }
}

proof fn lemma_minor_at(b: Seq<u8>, n: int)
    requires
        minor_in(b, n),
    ensures
        exists|i: int| 0 <= i < n && #[trigger] b[i] != EMPTY && (spec_pt(b[i]) == BISHOP || spec_pt(b[i]) == KNIGHT),
    decreases n,
{
    if n > 0 && minor_in(b, n - 1) {
        lemma_minor_at(b, n - 1);
    }
}

/// A game is drawn for insufficient material only when, besides the two
/// kings, at most one piece is left and that piece is a bishop or a knight:
/// with a queen, a rook or a pawn on the board, or two other pieces, the
/// game goes on.
pub proof fn law_insufficient_material(pos: PosView, turn: u8, half_move: int, hashes: Seq<u64>, wk: int, bk: int)
    requires
        pos.board.len() == 64,
        0 <= wk < 64 && king_of(pos.board, wk, WHITE),
        0 <= bk < 64 && king_of(pos.board, bk, BLACK),
        game_status(pos, turn, half_move, hashes).1 == ChessMessage::InsufficientMaterial,
    ensures
        forall|i: int| 0 <= i < 64 && #[trigger] other_piece(pos.board, i) ==> spec_pt(pos.board[i]) == BISHOP
            || spec_pt(pos.board[i]) == KNIGHT,
        forall|i: int, j: int|
            0 <= i < 64 && 0 <= j < 64 && #[trigger] other_piece(pos.board, i) && #[trigger] other_piece(
                pos.board,
                j,
            ) ==> i == j,
{
    let b = pos.board;
    let n = piece_count(b, 64);
    assert(n == 2 || (n == 3 && minor_in(b, 64)));
    assert(wk != bk);
    assert forall|i: int| 0 <= i < 64 && #[trigger] other_piece(b, i) implies spec_pt(b[i]) == BISHOP
        || spec_pt(b[i]) == KNIGHT by {
        assert(i != wk && i != bk);
        lemma_count_at_least(b, seq![wk, bk, i]);
        lemma_minor_at(b, 64);
        let m = choose|m: int| 0 <= m < 64 && #[trigger] b[m] != EMPTY && (spec_pt(b[m]) == BISHOP || spec_pt(
            b[m],
        ) == KNIGHT);
        if m != i {
            assert(m != wk && m != bk);
            lemma_count_at_least(b, seq![wk, bk, i, m]);
        }
    }
    assert forall|i: int, j: int|
        0 <= i < 64 && 0 <= j < 64 && #[trigger] other_piece(b, i) && #[trigger] other_piece(b, j) implies i
        == j by {
        if i != j {
            assert(i != wk && i != bk && j != wk && j != bk);
            lemma_count_at_least(b, seq![wk, bk, i, j]);
        }
    }
}

proof fn lemma_count_zero(b: Seq<u8>, n: int)
    requires
        0 <= n <= b.len(),
        forall|k: int| 0 <= k < n ==> #[trigger] b[k] == EMPTY,
    ensures
        piece_count(b, n) == 0,
    decreases n,
{
    if n > 0 {
        lemma_count_zero(b, n - 1);
    }
}

/// When every occupied square is one of the squares of `s`, there are at
/// most as many pieces as squares in `s`.
proof fn lemma_count_at_most(b: Seq<u8>, s: Seq<int>)
    requires
        b.len() == 64,
        forall|k: int| 0 <= k < s.len() ==> 0 <= #[trigger] s[k] < 64,
        forall|i: int| 0 <= i < 64 && #[trigger] b[i] != EMPTY ==> s.contains(i),
    ensures
        piece_count(b, 64) <= s.len(),
    decreases s.len(),
{
    if s.len() == 0 {
        lemma_count_zero(b, 64);
    } else {
        let i = s.last();
        let b2 = b.update(i, EMPTY);
        let s2 = s.drop_last();
        assert forall|j: int| 0 <= j < 64 && #[trigger] b2[j] != EMPTY implies s2.contains(j) by {
            assert(j != i);
            assert(s.contains(j));
            let k = choose|k: int| 0 <= k < s.len() && s[k] == j;
            assert(s2[k] == j);
        }
        assert forall|k: int| 0 <= k < s2.len() implies 0 <= #[trigger] s2[k] < 64 by {
            assert(s2[k] == s[k]);
        }
        lemma_count_at_most(b2, s2);
        if b[i] != EMPTY {
            lemma_count_remove(b, 64, i);
        } else {
            assert(b2 =~= b);
        }
    }
}

proof fn lemma_minor_in_from(b: Seq<u8>, n: int, i: int)
    requires
        0 <= i < n,
        b[i] != EMPTY,
        spec_pt(b[i]) == BISHOP || spec_pt(b[i]) == KNIGHT,
    ensures
        minor_in(b, n),
    decreases n,
{
    if n - 1 > i {
        lemma_minor_in_from(b, n - 1, i);
    }
}

/// Kings with at most one bishop or knight are a draw for insufficient
/// material, unless the game already ended otherwise: when the side to move
/// has a legal move, the fifty-move count is below 100 and the latest
/// position has not occurred three times, the game is declared drawn.
pub proof fn law_bare_kings_draw(
    pos: PosView,
    turn: u8,
    half_move: int,
    hashes: Seq<u64>,
    wk: int,
    bk: int,
    minor: int,
)
    requires
        pos.board.len() == 64,
        0 <= wk < 64 && 0 <= bk < 64 && 0 <= minor < 64,
        king_of(pos.board, wk, WHITE),
        king_of(pos.board, bk, BLACK),
        forall|i: int| 0 <= i < 64 && #[trigger] pos.board[i] != EMPTY ==> i == wk || i == bk || i == minor,
        pos.board[minor] != EMPTY ==> spec_pt(pos.board[minor]) == BISHOP || spec_pt(pos.board[minor]) == KNIGHT,
        minor != wk && minor != bk,
        legal_moves(pos, turn).len() > 0,
        half_move < 100,
        count_eq(hashes, hashes.last()) < 3,
    ensures
        game_status(pos, turn, half_move, hashes) == (true, ChessMessage::InsufficientMaterial),
{
    let b = pos.board;
    let s = if b[minor] != EMPTY {
        seq![wk, bk, minor]
    } else {
        seq![wk, bk]
    };
    assert forall|i: int| 0 <= i < 64 && #[trigger] b[i] != EMPTY implies s.contains(i) by {
        if i == wk {
            assert(s[0] == i);
        } else if i == bk {
            assert(s[1] == i);
        } else {
            assert(s[2] == i);
        }
    }
    lemma_count_at_most(b, s);
    if b[minor] != EMPTY {
        lemma_minor_in_from(b, 64, minor);
    }
    if b[minor] != EMPTY {
        lemma_count_at_least(b, seq![wk, bk, minor]);
    } else {
        lemma_count_at_least(b, seq![wk, bk]);
    }
}

} // verus!
