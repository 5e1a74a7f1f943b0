use apotheosis::board::{
    Board, BoardMove, BoardSquare, BLACK, KING, PAWN, QUEEN, ROOK, WHITE,
};

#[test]
fn apply_normal_move_moves_piece() {
    let b = Board::from_fen("rnbqkbnr/pppppppp/8/8/8/8/PPPPPPPP/RNBQKBNR w KQkq - 0 1").unwrap();
    let m = BoardMove::new(&BoardSquare::from("e2"), &BoardSquare::from("e4"));
    let after = b.create_board_from_move(&m);
    assert_eq!(after.get_piece_at(&BoardSquare::from("e4")), Some(PAWN + WHITE));
    assert_eq!(after.get_piece_at(&BoardSquare::from("e2")), None);
    assert_eq!(after.active_color(), BLACK);
    // a two-square pawn advance leaves its passed-over square as target
    assert_eq!(after.en_passant_target_square(), Some(BoardSquare::from("e3")));
    // the original position is untouched
    assert_eq!(b.get_piece_at(&BoardSquare::from("e2")), Some(PAWN + WHITE));
    assert_eq!(b.active_color(), WHITE);
    // no castling right is disturbed
    assert_eq!(after.castle_availibility(), [[true, true], [true, true]]);
}

#[test]
fn single_pawn_step_leaves_no_target() {
    let b = Board::from_fen("rnbqkbnr/pppppppp/8/8/8/8/PPPPPPPP/RNBQKBNR w KQkq - 0 1").unwrap();
    let m = BoardMove::new(&BoardSquare::from("e2"), &BoardSquare::from("e3"));
    let after = b.create_board_from_move(&m);
    assert_eq!(after.en_passant_target_square(), None);
}

#[test]
fn apply_kingside_castle_moves_king_and_rook() {
    let b = Board::from_fen("r3k2r/8/8/8/8/8/8/R3K2R w KQkq - 0 1").unwrap();
    let after = b.create_board_from_move(&BoardMove::castle_wk());
    assert_eq!(after.get_piece_at(&BoardSquare::from("g1")), Some(KING + WHITE));
    assert_eq!(after.get_piece_at(&BoardSquare::from("f1")), Some(ROOK + WHITE));
    assert_eq!(after.get_piece_at(&BoardSquare::from("e1")), None);
    assert_eq!(after.get_piece_at(&BoardSquare::from("h1")), None);
    // both white rights lapse at once; black's stay
    assert_eq!(after.castle_availibility(), [[true, true], [false, false]]);
    assert_eq!(after.active_color(), BLACK);
    assert_eq!(after.en_passant_target_square(), None);
}

#[test]
fn apply_queenside_castle_moves_king_and_rook() {
    let b = Board::from_fen("r3k2r/8/8/8/8/8/8/R3K2R b KQkq - 0 1").unwrap();
    let after = b.create_board_from_move(&BoardMove::castle_bq());
    assert_eq!(after.get_piece_at(&BoardSquare::from("c8")), Some(KING + BLACK));
    assert_eq!(after.get_piece_at(&BoardSquare::from("d8")), Some(ROOK + BLACK));
    assert_eq!(after.get_piece_at(&BoardSquare::from("e8")), None);
    assert_eq!(after.get_piece_at(&BoardSquare::from("a8")), None);
    assert_eq!(after.castle_availibility(), [[false, false], [true, true]]);
    assert_eq!(after.active_color(), WHITE);
}

#[test]
fn en_passant_capture_removes_passed_pawn() {
    let b = Board::from_fen("8/8/8/8/4pP2/8/8/8 b - f3 0 1").unwrap();
    let info = b.get_board_info();
    let ep = BoardMove::new_as_en_passant(&BoardSquare::from("e4"), &BoardSquare::from("f3"));
    assert!(info.valid_moves[BLACK as usize].contains(&ep));
    let after = b.create_board_from_move(&ep);
    // the capturer lands on the target square
    assert_eq!(after.get_piece_at(&BoardSquare::from("f3")), Some(PAWN + BLACK));
    assert_eq!(after.get_piece_at(&BoardSquare::from("e4")), None);
    // the passed pawn, beside the origin rather than under the target, is gone
    assert_eq!(after.get_piece_at(&BoardSquare::from("f4")), None);
}

#[test]
fn en_passant_needs_fresh_target() {
    // the same squares without the target set: no en-passant capture
    let b = Board::from_fen("8/8/8/8/4pP2/8/8/8 b - - 0 1").unwrap();
    let info = b.get_board_info();
    let ep = BoardMove::new_as_en_passant(&BoardSquare::from("e4"), &BoardSquare::from("f3"));
    assert!(!info.valid_moves[BLACK as usize].contains(&ep));
}

#[test]
fn capturing_rook_on_corner_clears_that_right() {
    let b = Board::from_fen("r3k2r/8/8/8/8/8/8/R3K2R w KQkq - 0 1").unwrap();
    let m = BoardMove::new(&BoardSquare::from("h1"), &BoardSquare::from("h8"));
    let after = b.create_board_from_move(&m);
    // black's kingside rook fell in place; white's kingside rook left home
    assert_eq!(after.castle_availibility(), [[false, true], [false, true]]);
}

#[test]
fn moving_king_clears_both_rights() {
    let b = Board::from_fen("r3k2r/8/8/8/8/8/8/R3K2R w KQkq - 0 1").unwrap();
    let m = BoardMove::new(&BoardSquare::from("e1"), &BoardSquare::from("f1"));
    let after = b.create_board_from_move(&m);
    assert_eq!(after.castle_availibility(), [[true, true], [false, false]]);
}

#[test]
fn set_piece_at_replaces_one_square() {
    let mut b = Board::from_fen("8/8/8/8/8/8/8/8 w - - 0 1").unwrap();
    let d4 = BoardSquare::from("d4");
    b.set_piece_at(&d4, ROOK + BLACK);
    assert_eq!(b.get_piece_at(&d4), Some(ROOK + BLACK));
    assert_eq!(b.get_piece_at(&BoardSquare::from("d5")), None);
    b.set_piece_at(&d4, 0);
    assert_eq!(b.get_piece_at(&d4), None);
}

#[test]
fn promotion_apply_places_chosen_piece() {
    let b = Board::from_fen("8/P7/8/8/8/8/8/8 w - - 0 1").unwrap();
    let m = BoardMove::new_as_promotion(
        &BoardSquare::from("a7"),
        &BoardSquare::from("a8"),
        QUEEN,
    );
    let after = b.create_board_from_move(&m);
    assert_eq!(after.get_piece_at(&BoardSquare::from("a8")), Some(QUEEN + WHITE));
    assert_eq!(after.get_piece_at(&BoardSquare::from("a7")), None);
}
