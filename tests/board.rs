use maltebl_chess::board::{init_board, ChessBoard, SetupError};
use maltebl_chess::notation::to_notation;
use maltebl_chess::piece::{piece_make, Color, PieceType, SpecialMove};

fn standard_board() -> ChessBoard {
    let mut b = init_board();
    assert_eq!(b.standard_pieces(Color::White), Ok(()));
    assert_eq!(b.standard_pieces(Color::Black), Ok(()));
    b
}

fn targets(b: &ChessBoard, p: (usize, usize)) -> Vec<((usize, usize), Option<SpecialMove>)> {
    let mut m = b.get_moves(p);
    m.sort_by_key(|e| e.0);
    m
}

#[test]
fn pawn_single_step_from_fresh_board() {
    let mut b = standard_board();
    let r = b.move_piece(Color::White, (0, 1), (0, 2));
    assert_eq!(r, Ok("a2 a3".to_string()));
    assert!(b.ref_piece((0, 1)).is_none());
    let p = b.ref_piece((0, 2)).unwrap();
    assert_eq!(p.piece_type, PieceType::Pawn);
    assert_eq!(p.color, Color::White);
    assert!(p.has_moved);
}

#[test]
fn rook_cannot_pass_own_pawn() {
    let mut b = standard_board();
    let r = b.move_piece(Color::White, (0, 0), (0, 5));
    assert_eq!(
        r,
        Err("tried to do illegal move! Cannot move from a1 to a6".to_string())
    );
    assert_eq!(b.ref_piece((0, 0)).unwrap().piece_type, PieceType::Rook);
    assert!(b.ref_piece((0, 5)).is_none());
}

#[test]
fn fools_mate_is_checkmate() {
    let mut b = standard_board();
    assert!(b.move_piece(Color::White, (5, 1), (5, 2)).is_ok());
    assert!(b.move_piece(Color::Black, (4, 6), (4, 5)).is_ok());
    assert!(b.move_piece(Color::White, (6, 1), (6, 2)).is_ok());
    assert!(b.move_piece(Color::Black, (0, 6), (0, 5)).is_ok());
    assert!(b.move_piece(Color::White, (6, 2), (6, 3)).is_ok());
    assert!(!b.is_checkmate(Color::White));
    assert!(b.move_piece(Color::Black, (3, 7), (7, 3)).is_ok());
    assert!(b.is_checked());
    assert!(b.is_checkmate(Color::White));
    assert!(!b.is_checkmate(Color::Black));
}

#[test]
fn castling_offered_with_clear_unthreatened_path() {
    let mut b = init_board();
    assert_eq!(b.add_piece(piece_make(Color::White, PieceType::King), (4, 0)), Ok(()));
    assert_eq!(b.add_piece(piece_make(Color::White, PieceType::Rook), (7, 0)), Ok(()));
    assert_eq!(b.add_piece(piece_make(Color::Black, PieceType::King), (4, 7)), Ok(()));
    let moves = b.get_moves((4, 0));
    assert!(moves.contains(&((6, 0), Some(SpecialMove::CastlingRight))));
    assert!(!moves.iter().any(|m| m.1 == Some(SpecialMove::CastlingLeft)));
}

#[test]
fn castling_refused_when_path_attacked() {
    let mut b = init_board();
    assert_eq!(b.add_piece(piece_make(Color::White, PieceType::King), (4, 0)), Ok(()));
    assert_eq!(b.add_piece(piece_make(Color::White, PieceType::Rook), (7, 0)), Ok(()));
    assert_eq!(b.add_piece(piece_make(Color::Black, PieceType::King), (0, 7)), Ok(()));
    assert_eq!(b.add_piece(piece_make(Color::Black, PieceType::Rook), (5, 7)), Ok(()));
    let moves = b.get_moves((4, 0));
    assert!(!moves.iter().any(|m| m.1 == Some(SpecialMove::CastlingRight)));
}

#[test]
fn castling_refused_after_rook_moved() {
    let mut b = init_board();
    assert_eq!(b.add_piece(piece_make(Color::White, PieceType::King), (4, 0)), Ok(()));
    assert_eq!(b.add_piece(piece_make(Color::White, PieceType::Rook), (7, 1)), Ok(()));
    assert_eq!(b.add_piece(piece_make(Color::Black, PieceType::King), (4, 7)), Ok(()));
    assert!(b.move_piece(Color::White, (7, 1), (7, 0)).is_ok());
    let moves = b.get_moves((4, 0));
    assert!(!moves.iter().any(|m| m.1 == Some(SpecialMove::CastlingRight)));
}

#[test]
fn knight_moves_from_fresh_board() {
    let b = standard_board();
    assert_eq!(targets(&b, (1, 0)), vec![((0, 2), None), ((2, 2), None)]);
}

#[test]
fn pawn_double_step_offered_once() {
    let mut b = standard_board();
    assert_eq!(
        targets(&b, (4, 1)),
        vec![((4, 2), None), ((4, 3), Some(SpecialMove::Pawn2Step))]
    );
    assert!(b.move_piece(Color::White, (4, 1), (4, 2)).is_ok());
    assert_eq!(targets(&b, (4, 2)), vec![((4, 3), None)]);
}

#[test]
fn empty_square_has_no_moves() {
    let b = standard_board();
    assert!(b.get_moves((4, 4)).is_empty());
}

#[test]
fn moving_empty_square_fails() {
    let mut b = standard_board();
    assert_eq!(
        b.move_piece(Color::White, (4, 4), (4, 5)),
        Err("Tried to move empty space!".to_string())
    );
}

#[test]
fn moving_opponent_piece_fails() {
    let mut b = standard_board();
    assert_eq!(
        b.move_piece(Color::White, (0, 6), (0, 5)),
        Err("That is not your piece!".to_string())
    );
    assert!(b.ref_piece((0, 6)).is_some());
}

#[test]
fn repeated_move_fails_on_empty_source() {
    let mut b = standard_board();
    assert!(b.move_piece(Color::White, (1, 0), (2, 2)).is_ok());
    assert_eq!(
        b.move_piece(Color::White, (1, 0), (2, 2)),
        Err("Tried to move empty space!".to_string())
    );
}

#[test]
fn never_captures_own_color() {
    let b = standard_board();
    for y in 0..8 {
        for x in 0..8 {
            if let Some(p) = b.ref_piece((x, y)) {
                let c = p.color;
                for (q, _) in b.get_moves((x, y)) {
                    if let Some(o) = b.ref_piece(q) {
                        assert_ne!(o.color, c);
                    }
                }
            }
        }
    }
}

#[test]
fn sliding_stops_at_blocker() {
    let mut b = init_board();
    assert_eq!(b.add_piece(piece_make(Color::White, PieceType::Rook), (0, 0)), Ok(()));
    assert_eq!(b.add_piece(piece_make(Color::White, PieceType::Pawn), (0, 3)), Ok(()));
    assert_eq!(b.add_piece(piece_make(Color::Black, PieceType::Pawn), (3, 0)), Ok(()));
    assert_eq!(
        targets(&b, (0, 0)),
        vec![((0, 1), None), ((0, 2), None), ((1, 0), None), ((2, 0), None), ((3, 0), None)]
    );
}

#[test]
fn pinned_piece_cannot_expose_king() {
    let mut b = init_board();
    assert_eq!(b.add_piece(piece_make(Color::White, PieceType::King), (4, 0)), Ok(()));
    assert_eq!(b.add_piece(piece_make(Color::White, PieceType::Knight), (4, 1)), Ok(()));
    assert_eq!(b.add_piece(piece_make(Color::Black, PieceType::Rook), (4, 7)), Ok(()));
    assert_eq!(b.add_piece(piece_make(Color::Black, PieceType::King), (0, 7)), Ok(()));
    assert!(b.get_moves((4, 1)).is_empty());
}

#[test]
fn fresh_board_not_checked_nor_mated() {
    let b = standard_board();
    assert!(!b.is_checked());
    assert!(!b.is_checkmate(Color::White));
    assert!(!b.is_checkmate(Color::Black));
}

#[test]
fn add_piece_refuses_occupied_square() {
    let mut b = init_board();
    assert_eq!(b.add_piece(piece_make(Color::White, PieceType::Pawn), (2, 2)), Ok(()));
    assert_eq!(
        b.add_piece(piece_make(Color::Black, PieceType::Pawn), (2, 2)),
        Err(SetupError::Occupied)
    );
}

#[test]
fn add_piece_refuses_second_king() {
    let mut b = init_board();
    assert_eq!(b.add_piece(piece_make(Color::White, PieceType::King), (4, 0)), Ok(()));
    assert_eq!(
        b.add_piece(piece_make(Color::White, PieceType::King), (3, 3)),
        Err(SetupError::DuplicateKing)
    );
    assert!(b.ref_piece((3, 3)).is_none());
}

#[test]
fn standard_pieces_twice_is_refused() {
    let mut b = standard_board();
    assert_eq!(b.standard_pieces(Color::White), Err(SetupError::Occupied));
}

#[test]
fn standard_pieces_layout() {
    let b = standard_board();
    let back = [
        PieceType::Rook,
        PieceType::Knight,
        PieceType::Bishop,
        PieceType::Queen,
        PieceType::King,
        PieceType::Bishop,
        PieceType::Knight,
        PieceType::Rook,
    ];
    for x in 0..8 {
        assert_eq!(b.ref_piece((x, 0)).unwrap().piece_type, back[x]);
        assert_eq!(b.ref_piece((x, 7)).unwrap().piece_type, back[x]);
        assert_eq!(b.ref_piece((x, 1)).unwrap().piece_type, PieceType::Pawn);
        assert_eq!(b.ref_piece((x, 6)).unwrap().color, Color::Black);
        for y in 2..6 {
            assert!(b.ref_piece((x, y)).is_none());
        }
    }
    assert_eq!(b.ref_board().len(), 64);
    assert_eq!(b.ref_board()[4].unwrap().piece_type, PieceType::King);
}

#[test]
fn king_move_keeps_cache_in_step() {
    let mut b = init_board();
    assert_eq!(b.add_piece(piece_make(Color::White, PieceType::King), (4, 0)), Ok(()));
    assert_eq!(b.add_piece(piece_make(Color::Black, PieceType::King), (0, 7)), Ok(()));
    assert_eq!(b.add_piece(piece_make(Color::Black, PieceType::Rook), (5, 7)), Ok(()));
    assert!(!b.is_checked());
    assert!(b.move_piece(Color::White, (4, 0), (5, 1)).is_ok());
    assert!(b.is_threatened_by((5, 1), Color::White, (0, 1), true));
}

#[test]
fn threat_needs_attacker_reach() {
    let mut b = init_board();
    assert_eq!(b.add_piece(piece_make(Color::White, PieceType::King), (4, 0)), Ok(()));
    assert_eq!(b.add_piece(piece_make(Color::Black, PieceType::Rook), (6, 2)), Ok(()));
    assert!(!b.is_threatened_by((4, 0), Color::White, (1, 1), true));
    assert_eq!(b.add_piece(piece_make(Color::Black, PieceType::Bishop), (7, 3)), Ok(()));
    assert!(!b.is_threatened_by((4, 0), Color::White, (1, 1), true));
    assert!(b.is_threatened_by((6, 0), Color::White, (0, 1), true));
}

#[test]
fn force_move_relocates_and_reports() {
    let mut b = standard_board();
    assert_eq!(b.force_move((3, 0), (3, 4)), Ok("Moved from d1 to d5".to_string()));
    assert!(b.ref_piece((3, 0)).is_none());
    assert_eq!(b.ref_piece((3, 4)).unwrap().piece_type, PieceType::Queen);
    assert!(b.force_move((3, 0), (3, 3)).is_err());
}

#[test]
fn notation_of_squares() {
    assert_eq!(to_notation((0, 0)), Ok("a1".to_string()));
    assert_eq!(to_notation((7, 7)), Ok("h8".to_string()));
    assert_eq!(to_notation((4, 1)), Ok("e2".to_string()));
    assert!(to_notation((8, 0)).is_err());
}

#[test]
fn piece_make_patterns() {
    let n = piece_make(Color::Black, PieceType::Knight);
    assert_eq!(n.movement, ((1, 2), Some((2, 1))));
    assert!(!n.moves_continous);
    assert!(!n.has_moved);
    let q = piece_make(Color::White, PieceType::Queen);
    assert!(q.moves_continous);
    assert_eq!(Color::White.opponent(), Color::Black);
}

#[test]
fn move_off_the_board_is_illegal() {
    let mut b = standard_board();
    assert_eq!(
        b.move_piece(Color::White, (0, 1), (0, 9)),
        Err("tried to do illegal move! Cannot move from a2 to a square off the board".to_string())
    );
}

#[test]
fn turn_passes_after_a_move() {
    let mut b = init_board();
    assert_eq!(b.add_piece(piece_make(Color::White, PieceType::King), (0, 0)), Ok(()));
    assert_eq!(b.add_piece(piece_make(Color::White, PieceType::Rook), (4, 1)), Ok(()));
    assert_eq!(b.add_piece(piece_make(Color::Black, PieceType::King), (4, 7)), Ok(()));
    assert!(!b.is_checked());
    assert!(b.move_piece(Color::White, (4, 1), (4, 2)).is_ok());
    assert!(b.is_checked());
    assert!(!b.is_checkmate(Color::Black));
}

#[test]
fn rook_beside_king_gives_check() {
    let mut b = init_board();
    assert_eq!(b.add_piece(piece_make(Color::White, PieceType::King), (0, 0)), Ok(()));
    assert_eq!(b.add_piece(piece_make(Color::Black, PieceType::Rook), (1, 0)), Ok(()));
    assert_eq!(b.add_piece(piece_make(Color::Black, PieceType::King), (7, 7)), Ok(()));
    assert!(b.is_checked());
}

#[test]
fn horizontal_rook_attack_is_found() {
    let mut b = init_board();
    assert_eq!(b.add_piece(piece_make(Color::White, PieceType::King), (0, 0)), Ok(()));
    assert_eq!(b.add_piece(piece_make(Color::Black, PieceType::King), (7, 7)), Ok(()));
    assert_eq!(b.add_piece(piece_make(Color::Black, PieceType::Rook), (7, 0)), Ok(()));
    assert!(b.is_threatened_by((0, 0), Color::White, (1, 0), true));
    assert!(!b.is_threatened_by((1, 1), Color::White, (1, 0), true));
    assert!(b.is_checked());
    assert!(!b.is_checkmate(Color::White));
    let moves = b.get_moves((0, 0));
    assert!(!moves.iter().any(|m| (m.0).1 == 0));
    assert!(moves.contains(&((0, 1), None)));
}

#[test]
fn force_move_keeps_piece_unchanged() {
    let mut b = standard_board();
    assert!(b.force_move((1, 0), (2, 2)).is_ok());
    let p = b.ref_piece((2, 2)).unwrap();
    assert_eq!(p.piece_type, PieceType::Knight);
    assert!(!p.has_moved);
}

#[test]
fn regular_moves_sorted_and_never_friendly() {
    let b = standard_board();
    assert_eq!(b.regular_moves((6, 0)), vec![(5, 2), (7, 2)]);
    assert_eq!(b.regular_moves((0, 0)), Vec::<(usize, usize)>::new());
    assert_eq!(b.regular_moves((3, 3)), Vec::<(usize, usize)>::new());
}
