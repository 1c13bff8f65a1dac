//! The plain minimax value of a chess position, and what the alpha-beta
//! search of `chess_search` computes in terms of it.
use vstd::prelude::*;
use crate::chess_rules::{after_move, in_check, legal_moves, lemma_legal_len, ChessMove, PosView, BLACK, WHITE};
use crate::chess_search::{
    evaluation, material, lemma_tables_bounded, minimax_spec, search_spec, ordered_moves, order_score, sort_desc,
    start_best, lemma_sort_preserves, lemma_sort_len, insert_pos, lemma_insert_pos_bounds,
};
use crate::chess_rules::{spec_pc, spec_pt, EMPTY};

verus! {

/// The side that moves: White maximizes, Black minimizes.
pub open spec fn side(maxi: bool) -> u8 {
    if maxi {
        WHITE
    } else {
        BLACK
    }
}

/// The value of `depth` plies of plain minimax, without pruning: the
/// evaluation at depth 0; a mate (worse the sooner) or 0 for stalemate for a
/// side without legal moves; else the best value over the legal moves, the
/// largest for White and the smallest for Black.
pub open spec fn minimax_value(pos: PosView, depth: int, maxi: bool) -> int
    decreases depth, 1int, 0int,
{
    if depth <= 0 {
        evaluation(pos)
    } else {
        let moves = legal_moves(pos, side(maxi));
        if moves.len() == 0 {
            if in_check(pos.board, side(maxi)) {
                if maxi {
                    -99999 - depth
                } else {
                    99999 + depth
                }
            } else {
                0
            }
        } else {
            best_value(pos, depth, moves, moves.len() as int, maxi)
        }
    }
}

/// The best minimax value after one of the first `n` moves of `ms` (the
/// search's starting bound when there is none).
pub open spec fn best_value(pos: PosView, depth: int, ms: Seq<ChessMove>, n: int, maxi: bool) -> int
    decreases depth, 0int, n,
{
    if n <= 0 || depth <= 0 {
        start_best(maxi)
    } else {
        let b = best_value(pos, depth, ms, n - 1, maxi);
        let v = minimax_value(after_move(pos, ms[n - 1]), depth - 1, !maxi);
        if maxi {
            if v > b {
                v
            } else {
                b
            }
        } else {
            if v < b {
                v
            } else {
                b
            }
        }
    }
}

/// `x` is at least as good as `y` for the side that maximizes when `maxi`.
pub open spec fn no_worse(maxi: bool, x: int, y: int) -> bool {
    if maxi {
        x >= y
    } else {
        x <= y
    }
}

/// The minimax value after the move `m`.
pub open spec fn child_value(pos: PosView, depth: int, m: ChessMove, maxi: bool) -> int {
    minimax_value(after_move(pos, m), depth - 1, !maxi)
}

proof fn lemma_best_facts(pos: PosView, depth: int, ms: Seq<ChessMove>, n: int, maxi: bool)
    requires
        depth > 0,
        0 <= n <= ms.len(),
    ensures
        forall|k: int| 0 <= k < n ==> no_worse(maxi, best_value(pos, depth, ms, n, maxi), #[trigger] child_value(pos, depth, ms[k], maxi)),
        best_value(pos, depth, ms, n, maxi) == start_best(maxi) || exists|k: int|
            0 <= k < n && best_value(pos, depth, ms, n, maxi) == #[trigger] child_value(pos, depth, ms[k], maxi),
        no_worse(maxi, best_value(pos, depth, ms, n, maxi), start_best(maxi)),
        forall|j: int| 0 <= j <= n ==> no_worse(maxi, best_value(pos, depth, ms, n, maxi), #[trigger] best_value(pos, depth, ms, j, maxi)),
    decreases n,
{
    if n > 0 {
        lemma_best_facts(pos, depth, ms, n - 1, maxi);
        let b = best_value(pos, depth, ms, n - 1, maxi);
        let v = child_value(pos, depth, ms[n - 1], maxi);
        assert(best_value(pos, depth, ms, n, maxi) == if maxi {
            if v > b { v } else { b }
        } else {
            if v < b { v } else { b }
        });
        if best_value(pos, depth, ms, n, maxi) != start_best(maxi) {
            if best_value(pos, depth, ms, n, maxi) == v {
                assert(child_value(pos, depth, ms[n - 1], maxi) == v);
            } else {
                let k = choose|k: int| 0 <= k < n - 1 && b == #[trigger] child_value(pos, depth, ms[k], maxi);
                assert(best_value(pos, depth, ms, n, maxi) == child_value(pos, depth, ms[k], maxi));
            }
        }
    }
}

proof fn lemma_material_bounds(b: Seq<u8>, n: int)
    requires
        0 <= n <= 64,
    ensures
        -20050 * n <= material(b, n) <= 20050 * n,
    decreases n,
{
    if n > 0 {
        lemma_material_bounds(b, n - 1);
        let p = b[n - 1];
        let t = spec_pt(p);
        let x = (n - 1) % 8;
        let y = (n - 1) / 8;
        if !(p == EMPTY || t < 1 || t > 6) {
            let white = spec_pc(p) == WHITE;
            let idx = if white { (7 - y) * 8 + x } else { y * 8 + (7 - x) };
            assert(0 <= idx < 64) by (nonlinear_arith)
                requires
                    0 <= x < 8,
                    0 <= y < 8,
                    idx == (if white { (7 - y) * 8 + x } else { y * 8 + (7 - x) }),
            ;
            lemma_tables_bounded(t, idx);
        }
    }
}

/// Every minimax value lies well inside the search's starting window.
proof fn lemma_value_bounds(pos: PosView, depth: int, maxi: bool)
    requires
        0 <= depth <= 1000,
    ensures
        -1_400_000 <= minimax_value(pos, depth, maxi) <= 1_400_000,
    decreases depth,
{
    if depth == 0 {
        lemma_material_bounds(pos.board, 64);
        lemma_legal_len(pos, WHITE);
        lemma_legal_len(pos, BLACK);
    } else {
        let moves = legal_moves(pos, side(maxi));
        if moves.len() > 0 {
            let n = moves.len() as int;
            lemma_best_facts(pos, depth, moves, n, maxi);
            assert forall|k: int| 0 <= k < n implies -1_400_000 <= #[trigger] child_value(pos, depth, moves[k], maxi)
                <= 1_400_000 by {
                lemma_value_bounds(after_move(pos, moves[k]), depth - 1, !maxi);
            }
            assert(no_worse(maxi, best_value(pos, depth, moves, n, maxi), child_value(pos, depth, moves[0], maxi)));
        }
    }
}

/// Sorting keeps every entry.
proof fn lemma_sort_contains(s: Seq<(i32, ChessMove)>)
    ensures
        forall|j: int|
            0 <= j < s.len() ==> exists|k: int| 0 <= k < sort_desc(s).len() && sort_desc(s)[k] == #[trigger] s[j],
    decreases s.len(),
{
    if s.len() > 0 {
        lemma_sort_contains(s.drop_last());
        lemma_sort_len(s.drop_last());
        let sorted = sort_desc(s.drop_last());
        lemma_insert_pos_bounds(sorted, s.last().0);
        let p = insert_pos(sorted, s.last().0);
        let r = sort_desc(s);
        assert(r == sorted.insert(p, s.last()));
        assert forall|j: int| 0 <= j < s.len() implies exists|k: int| 0 <= k < r.len() && r[k] == #[trigger] s[j] by {
            if j == s.len() - 1 {
                assert(r[p] == s[j]);
            } else {
                assert(s.drop_last()[j] == s[j]);
                let k = choose|k: int| 0 <= k < sorted.len() && sorted[k] == #[trigger] s.drop_last()[j];
                if k < p {
                    assert(r[k] == sorted[k]);
                } else {
                    assert(r[k + 1] == sorted[k]);
                }
            }
        }
    }
}

/// Two lists holding the same moves give the same best value.
proof fn lemma_same_best(pos: PosView, depth: int, a: Seq<ChessMove>, b: Seq<ChessMove>, maxi: bool)
    requires
        1 <= depth <= 1000,
        a.len() > 0,
        b.len() > 0,
        forall|i: int| 0 <= i < a.len() ==> exists|j: int| 0 <= j < b.len() && b[j] == #[trigger] a[i],
        forall|j: int| 0 <= j < b.len() ==> exists|i: int| 0 <= i < a.len() && a[i] == #[trigger] b[j],
    ensures
        best_value(pos, depth, a, a.len() as int, maxi) == best_value(pos, depth, b, b.len() as int, maxi),
{
    let va = best_value(pos, depth, a, a.len() as int, maxi);
    let vb = best_value(pos, depth, b, b.len() as int, maxi);
    lemma_best_facts(pos, depth, a, a.len() as int, maxi);
    lemma_best_facts(pos, depth, b, b.len() as int, maxi);
    lemma_value_bounds(after_move(pos, a[0]), depth - 1, !maxi);
    lemma_value_bounds(after_move(pos, b[0]), depth - 1, !maxi);
    assert(no_worse(maxi, va, child_value(pos, depth, a[0], maxi)));
    assert(no_worse(maxi, vb, child_value(pos, depth, b[0], maxi)));
    let ka = choose|k: int| 0 <= k < a.len() && va == #[trigger] child_value(pos, depth, a[k], maxi);
    let kb = choose|k: int| 0 <= k < b.len() && vb == #[trigger] child_value(pos, depth, b[k], maxi);
    let ja = choose|j: int| 0 <= j < b.len() && b[j] == #[trigger] a[ka];
    let jb = choose|i: int| 0 <= i < a.len() && a[i] == #[trigger] b[kb];
    assert(no_worse(maxi, vb, child_value(pos, depth, b[ja], maxi)));
    assert(no_worse(maxi, va, child_value(pos, depth, a[jb], maxi)));
}

/// The moves of an ordered list, without their scores.
pub open spec fn order_of(os: Seq<(i32, ChessMove)>) -> Seq<ChessMove> {
    os.map_values(|e: (i32, ChessMove)| e.1)
}

/// What the search loop keeps while it walks the ordered moves: the window
/// narrowed by the values seen so far, and the best of them once it beats
/// the window's own bound.
pub open spec fn loop_state(
    maxi: bool,
    a0: int,
    b0: int,
    bv: int,
    na: int,
    nb: int,
    best: int,
) -> bool {
    if maxi {
        &&& nb == b0
        &&& na == (if bv > a0 { bv } else { a0 })
        &&& bv < b0
        &&& bv > a0 ==> best == bv
        &&& bv <= a0 ==> best <= a0
    } else {
        &&& na == a0
        &&& nb == (if bv < b0 { bv } else { b0 })
        &&& bv > a0
        &&& bv < b0 ==> best == bv
        &&& bv >= b0 ==> best >= b0
    }
}

/// The search's answer against the minimax value `v` with the window
/// `(a, b)`: exact inside the window, at most `a` below it, at least `b`
/// above it.
pub open spec fn window_answer(r: int, v: int, a: int, b: int) -> bool {
    &&& a < v < b ==> r == v
    &&& v <= a ==> r <= a
    &&& v >= b ==> r >= b
}

proof fn lemma_search(
    pos: PosView,
    depth: int,
    os: Seq<(i32, ChessMove)>,
    i: int,
    a0: int,
    b0: int,
    na: int,
    nb: int,
    best: int,
    bm: Option<ChessMove>,
    maxi: bool,
)
    requires
        1 <= depth <= 1000,
        i32::MIN + 100000 <= a0 < b0 <= i32::MAX - 100000,
        0 <= i <= os.len(),
        loop_state(maxi, a0, b0, best_value(pos, depth, order_of(os), i, maxi), na, nb, best),
    ensures
        window_answer(
            search_spec(pos, depth, os, i, na, nb, best, bm, maxi).0,
            best_value(pos, depth, order_of(os), os.len() as int, maxi),
            a0,
            b0,
        ),
    decreases depth, 0int, os.len() - i,
{
    let om = order_of(os);
    let n = os.len() as int;
    if i < n {
        let m = os[i].1;
        assert(om[i] == m);
        let child = after_move(pos, m);
        let bvi = best_value(pos, depth, om, i, maxi);
        let v = minimax_value(child, depth - 1, !maxi);
        assert(best_value(pos, depth, om, i + 1, maxi) == if maxi {
            if v > bvi { v } else { bvi }
        } else {
            if v < bvi { v } else { bvi }
        });
        lemma_alpha_beta(child, depth - 1, na, nb, !maxi);
        lemma_best_facts(pos, depth, om, n, maxi);
        assert(no_worse(maxi, best_value(pos, depth, om, n, maxi), best_value(pos, depth, om, i + 1, maxi)));
        let eval = minimax_spec(child, depth - 1, na, nb, !maxi).0;
        if maxi {
            let nbest = if eval > best { eval } else { best };
            let nm = if eval > best { Some(m) } else { bm };
            let na2 = if na >= eval { na } else { eval };
            if !(nb <= na2) {
                lemma_search(pos, depth, os, i + 1, a0, b0, na2, nb, nbest, nm, maxi);
            }
        } else {
            let nbest = if eval < best { eval } else { best };
            let nm = if eval < best { Some(m) } else { bm };
            let nb2 = if nb <= eval { nb } else { eval };
            if !(nb2 <= na) {
                lemma_search(pos, depth, os, i + 1, a0, b0, na, nb2, nbest, nm, maxi);
            }
        }
    }
}

/// The search's ordered list holds exactly the given moves.
proof fn lemma_order_same_moves(pos: PosView, moves: Seq<ChessMove>)
    ensures
        order_of(ordered_moves(pos, moves)).len() == moves.len(),
        forall|k: int|
            0 <= k < order_of(ordered_moves(pos, moves)).len() ==> exists|j: int|
                0 <= j < moves.len() && moves[j] == #[trigger] order_of(ordered_moves(pos, moves))[k],
        forall|j: int|
            0 <= j < moves.len() ==> exists|k: int|
                0 <= k < order_of(ordered_moves(pos, moves)).len() && order_of(ordered_moves(pos, moves))[k]
                    == #[trigger] moves[j],
{
    let os = ordered_moves(pos, moves);
    let scored = moves.map_values(|m: ChessMove| (order_score(pos.board, m) as i32, m));
    assert(os == sort_desc(scored));
    lemma_sort_len(scored);
    lemma_sort_preserves(scored);
    lemma_sort_contains(scored);
    let om = order_of(os);
    assert forall|k: int| 0 <= k < om.len() implies exists|j: int|
        0 <= j < moves.len() && moves[j] == #[trigger] om[k] by {
        let j = choose|j: int| 0 <= j < scored.len() && #[trigger] sort_desc(scored)[k] == scored[j];
        assert(moves[j] == om[k]);
    }
    assert forall|j: int| 0 <= j < moves.len() implies exists|k: int|
        0 <= k < om.len() && om[k] == #[trigger] moves[j] by {
        assert(scored[j].1 == moves[j]);
        let k = choose|k: int| 0 <= k < sort_desc(scored).len() && sort_desc(scored)[k] == #[trigger] scored[j];
        assert(om[k] == moves[j]);
    }
}

/// The alpha-beta search of `minimax_spec` with a window `(a, b)` inside
/// its starting bounds gives the plain minimax value when that lies inside
/// the window, at most `a` when the value is at most `a`, and at least `b`
/// when the value is at least `b`.
pub proof fn lemma_alpha_beta(pos: PosView, depth: int, a: int, b: int, maxi: bool)
    requires
        0 <= depth <= 1000,
        i32::MIN + 100000 <= a < b <= i32::MAX - 100000,
    ensures
        window_answer(minimax_spec(pos, depth, a, b, maxi).0, minimax_value(pos, depth, maxi), a, b),
    decreases depth, 1int, 0int,
{
    if depth > 0 {
        let moves = legal_moves(pos, side(maxi));
        assert(side(maxi) == if maxi { WHITE } else { BLACK });
        if moves.len() > 0 {
            let os = ordered_moves(pos, moves);
            let om = order_of(os);
            lemma_order_same_moves(pos, moves);
            lemma_same_best(pos, depth, moves, om, maxi);
            lemma_search(pos, depth, os, 0, a, b, a, b, start_best(maxi), None, maxi);
        }
    }
}

/// With its full starting window, the alpha-beta search (the value that
/// `minimax` returns) is the plain minimax value.
pub proof fn law_alpha_beta_is_minimax(pos: PosView, depth: int, maxi: bool)
    requires
        0 <= depth <= 1000,
    ensures
        minimax_spec(pos, depth, i32::MIN + 100000, i32::MAX - 100000, maxi).0 == minimax_value(pos, depth, maxi),
{
    lemma_value_bounds(pos, depth, maxi);
    lemma_alpha_beta(pos, depth, i32::MIN + 100000, i32::MAX - 100000, maxi);
}

} // verus!
