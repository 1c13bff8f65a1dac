use retrohub::chess::{hash_position, initial_board, piece_symbol, to_algebraic, ChessGame, ChessMessage};
use retrohub::chess_rules::{
    apply_move, enemy, find_king, generate_legal_moves, generate_pseudo_moves, is_attacked_by, is_in_check, mk,
    ChessMove, Position, BISHOP, BLACK, EMPTY, KING, KNIGHT, PAWN, QUEEN, ROOK, WHITE,
};
use retrohub::chess_search::{evaluate_position, minimax};

fn start() -> Position {
    Position { board: initial_board(), castling: [true; 4], ep_square: None }
}

fn empty_with(pieces: &[(usize, usize, u8)]) -> Position {
    let mut board = [EMPTY; 64];
    for &(x, y, p) in pieces {
        board[y * 8 + x] = p;
    }
    Position { board, castling: [false; 4], ep_square: None }
}

#[test]
fn initial_position_has_twenty_moves_each() {
    let p = start();
    assert_eq!(generate_legal_moves(&p, WHITE).len(), 20);
    assert_eq!(generate_legal_moves(&p, BLACK).len(), 20);
    assert_eq!(generate_pseudo_moves(&p, WHITE).len(), 20);
}

#[test]
fn initial_position_is_balanced() {
    assert_eq!(evaluate_position(&start()), 0);
    assert!(!is_in_check(&start().board, WHITE));
    assert!(!is_in_check(&start().board, BLACK));
    assert_eq!(find_king(&start().board, WHITE), Some((4, 7)));
    assert_eq!(find_king(&start().board, BLACK), Some((4, 0)));
}

#[test]
fn initial_board_layout() {
    let b = initial_board();
    assert_eq!(b[0], mk(ROOK, BLACK));
    assert_eq!(b[4], mk(KING, BLACK));
    assert_eq!(b[8], mk(PAWN, BLACK));
    assert_eq!(b[48], mk(PAWN, WHITE));
    assert_eq!(b[59], mk(QUEEN, WHITE));
    assert_eq!(b[62], mk(KNIGHT, WHITE));
    assert_eq!(b[58], mk(BISHOP, WHITE));
    assert_eq!(b[32], EMPTY);
    assert_eq!(enemy(WHITE), BLACK);
}

#[test]
fn notation() {
    assert_eq!(to_algebraic((4, 6), (4, 4), 0, false), "e2-e4");
    assert_eq!(to_algebraic((4, 7), (6, 7), 0, true), "O-O");
    assert_eq!(to_algebraic((4, 7), (2, 7), 0, true), "O-O-O");
    assert_eq!(to_algebraic((0, 1), (0, 0), QUEEN, false), "a7-a8=Q");
    assert_eq!(piece_symbol(mk(KING, WHITE)), "♔");
}

#[test]
fn hash_depends_on_turn() {
    let b = initial_board();
    let c = [true; 4];
    assert_eq!(hash_position(&b, WHITE, &c, None), hash_position(&b, WHITE, &c, None));
    assert_ne!(hash_position(&b, WHITE, &c, None), hash_position(&b, BLACK, &c, None));
}

#[test]
fn rook_attacks_along_file() {
    let p = empty_with(&[(0, 0, mk(ROOK, BLACK)), (0, 7, mk(KING, WHITE)), (7, 0, mk(KING, BLACK))]);
    assert!(is_attacked_by(&p.board, (0, 7), BLACK));
    assert!(is_in_check(&p.board, WHITE));
    assert!(!is_attacked_by(&p.board, (1, 7), BLACK));
}

#[test]
fn pinned_piece_cannot_leave_the_line() {
    // White king e1, white rook e2, black rook e8: the rook may only move on the e-file.
    let p = empty_with(&[(4, 7, mk(KING, WHITE)), (4, 6, mk(ROOK, WHITE)), (4, 0, mk(ROOK, BLACK)), (0, 0, mk(KING, BLACK))]);
    let legal = generate_legal_moves(&p, WHITE);
    for m in &legal {
        if m.from == (4, 6) {
            assert_eq!(m.to.0, 4);
        }
    }
    assert!(legal.iter().any(|m| m.from == (4, 6) && m.to == (4, 0)));
}

#[test]
fn apply_move_moves_the_piece() {
    let p = start();
    let m = ChessMove::new((4, 6), (4, 4));
    let (b, castling, ep, captured) = apply_move(&p, &m);
    assert_eq!(b[4 * 8 + 4], mk(PAWN, WHITE));
    assert_eq!(b[6 * 8 + 4], EMPTY);
    assert_eq!(ep, Some((4, 5)));
    assert_eq!(captured, EMPTY);
    // A pawn move touches no king or rook: every castling right stays.
    assert_eq!(castling, [true; 4]);
}

#[test]
fn search_finds_mate_in_one() {
    // Black to move: queen h4 mates after f3 and g4 (fool's mate position).
    let mut g = ChessGame::new();
    g.init();
    g.make_move_and_advance(&ChessMove::new((5, 6), (5, 5)));
    g.make_move_and_advance(&ChessMove::new((4, 1), (4, 3)));
    g.make_move_and_advance(&ChessMove::new((6, 6), (6, 4)));
    let (score, best) = minimax(&g.pos, 2, i32::MIN + 100000, i32::MAX - 100000, false);
    let best = best.unwrap();
    assert_eq!((best.from, best.to), ((3, 0), (7, 4)));
    assert!(score < -90000);
}

#[test]
fn fools_mate_ends_the_game() {
    let mut g = ChessGame::new();
    g.init();
    g.make_move_and_advance(&ChessMove::new((5, 6), (5, 5)));
    g.make_move_and_advance(&ChessMove::new((4, 1), (4, 3)));
    g.make_move_and_advance(&ChessMove::new((6, 6), (6, 4)));
    assert!(!g.game_over);
    g.make_move_and_advance(&ChessMove::new((3, 0), (7, 4)));
    assert!(g.game_over);
    assert_eq!(g.message, ChessMessage::CheckmateBlackWins);
    assert_eq!(g.message.text(), "Checkmate! Black wins!");
    assert_eq!(g.history.len(), 4);
    assert_eq!(g.history[3], "d8-h4");
    assert_eq!(g.full_move, 3);
}

#[test]
fn keys_select_and_move_then_ai_replies() {
    let mut g = ChessGame::new();
    g.init();
    // cursor starts on e1; go up to e2
    g.handle_key(38, '\0');
    assert_eq!((g.cursor_x, g.cursor_y), (4, 6));
    g.handle_key(10, '\n');
    assert!(g.selected);
    g.handle_key(38, '\0');
    g.handle_key(38, '\0');
    g.handle_key(10, '\n');
    assert!(!g.selected);
    assert_eq!(g.turn, BLACK);
    assert!(g.needs_ai);
    g.update(true);
    assert_eq!(g.turn, WHITE);
    assert!(!g.needs_ai);
    assert_eq!(g.history.len(), 2);
}

#[test]
fn slow_frame_drops_the_reply() {
    let mut g = ChessGame::new();
    g.init();
    g.handle_key(38, '\0');
    g.handle_key(10, '\n');
    g.handle_key(38, '\0');
    g.handle_key(10, '\n');
    assert!(g.needs_ai);
    g.update(false);
    assert!(!g.needs_ai);
    assert_eq!(g.turn, BLACK);
}

#[test]
fn chess_id_and_size() {
    let mut g = ChessGame::new();
    assert_eq!(g.id(), "chess");
    g.set_terminal_size(10, 10);
    assert_eq!((g.width, g.height), (30, 15));
}

fn plain_minimax(pos: &Position, depth: i32, maxi: bool) -> i32 {
    if depth == 0 {
        return evaluate_position(pos);
    }
    let color = if maxi { WHITE } else { BLACK };
    let moves = generate_legal_moves(pos, color);
    if moves.is_empty() {
        if is_in_check(&pos.board, color) {
            return if maxi { -99999 - depth } else { 99999 + depth };
        }
        return 0;
    }
    let values = moves.iter().map(|m| plain_minimax(&pos.after(m), depth - 1, !maxi));
    if maxi { values.max().unwrap() } else { values.min().unwrap() }
}

#[test]
fn alpha_beta_with_the_full_window_is_plain_minimax() {
    let full = (i32::MIN + 100000, i32::MAX - 100000);
    let pos = start();
    assert_eq!(minimax(&pos, 2, full.0, full.1, true).0, plain_minimax(&pos, 2, true));
    let pos = empty_with(&[
        (4, 7, mk(KING, WHITE)),
        (3, 6, mk(QUEEN, WHITE)),
        (0, 7, mk(ROOK, WHITE)),
        (4, 0, mk(KING, BLACK)),
        (3, 3, mk(KNIGHT, BLACK)),
        (6, 1, mk(PAWN, BLACK)),
        (2, 2, mk(BISHOP, BLACK)),
    ]);
    for depth in 1..=3 {
        assert_eq!(minimax(&pos, depth, full.0, full.1, true).0, plain_minimax(&pos, depth, true));
        assert_eq!(minimax(&pos, depth, full.0, full.1, false).0, plain_minimax(&pos, depth, false));
    }
}

#[test]
fn turned_board_scores_the_negated_material() {
    let pieces = [
        (4, 7, KING, WHITE),
        (3, 6, QUEEN, WHITE),
        (1, 6, PAWN, WHITE),
        (4, 0, KING, BLACK),
        (2, 2, BISHOP, BLACK),
    ];
    let a: Vec<(usize, usize, u8)> = pieces.iter().map(|&(x, y, t, c)| (x, y, mk(t, c))).collect();
    let b: Vec<(usize, usize, u8)> = pieces.iter().map(|&(x, y, t, c)| (7 - x, 7 - y, mk(t, enemy(c)))).collect();
    let pa = empty_with(&a);
    let pb = empty_with(&b);
    let mobility = |p: &Position| {
        2 * (generate_legal_moves(p, WHITE).len() as i32 - generate_legal_moves(p, BLACK).len() as i32)
    };
    let material_a = evaluate_position(&pa) - mobility(&pa);
    let material_b = evaluate_position(&pb) - mobility(&pb);
    assert_eq!(material_b, -material_a);
}

#[test]
fn pawns_attack_diagonally_forward() {
    let p = start();
    assert!(is_attacked_by(&p.board, (4, 5), WHITE));
    assert!(is_attacked_by(&p.board, (4, 2), BLACK));
    assert!(!is_attacked_by(&p.board, (4, 4), WHITE));
    assert!(!is_attacked_by(&p.board, (4, 3), BLACK));
    // A pawn gives check from one row behind the king's diagonal.
    let q = empty_with(&[(4, 7, mk(KING, WHITE)), (3, 6, mk(PAWN, BLACK)), (0, 0, mk(KING, BLACK))]);
    assert!(is_in_check(&q.board, WHITE));
    let r = empty_with(&[(4, 7, mk(KING, WHITE)), (3, 5, mk(PAWN, BLACK)), (0, 0, mk(KING, BLACK))]);
    assert!(!is_in_check(&r.board, WHITE));
    let w = empty_with(&[(4, 0, mk(KING, BLACK)), (5, 1, mk(PAWN, WHITE)), (7, 7, mk(KING, WHITE))]);
    assert!(is_in_check(&w.board, BLACK));
}

#[test]
fn castling_rights_go_with_king_and_rook_moves() {
    let p = start();
    let (_, c, _, _) = apply_move(&p, &ChessMove::new((6, 7), (5, 5)));
    assert_eq!(c, [true; 4]);
    let mut q = start();
    q.board[6 * 8 + 7] = EMPTY;
    let (_, c, _, _) = apply_move(&q, &ChessMove::new((7, 7), (7, 6)));
    assert_eq!(c, [false, true, true, true]);
    let mut k = start();
    k.board[6 * 8 + 4] = EMPTY;
    let (_, c, _, _) = apply_move(&k, &ChessMove::new((4, 7), (4, 6)));
    assert_eq!(c, [false, false, true, true]);
}

#[test]
fn different_placements_hash_differently() {
    let mut g = ChessGame::new();
    g.reset_state();
    for (f, t) in [((0, 6), (0, 5)), ((0, 1), (0, 2)), ((1, 6), (1, 5)), ((1, 1), (1, 2)), ((2, 6), (2, 5))] {
        g.make_move_and_advance(&ChessMove::new(f, t));
    }
    assert!(!g.game_over);
    assert_eq!(g.message, ChessMessage::NoMessage);
    let h = g.position_hashes.clone();
    for i in 0..h.len() {
        for j in 0..i {
            assert_ne!(h[i], h[j]);
        }
    }
}
