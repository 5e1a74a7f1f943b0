use apotheosis::board::{
    get_piece_color, get_piece_type, is_piece, Board, BoardMove, BoardSquare, Direction, BISHOP,
    BLACK, KING, KNIGHT, PAWN, QUEEN, ROOK, WHITE,
};
use apotheosis::fen::ParseError;

#[test]
fn parse_start_position() {
    let b = Board::from_fen("rnbqkbnr/pppppppp/8/8/8/8/PPPPPPPP/RNBQKBNR w KQkq - 0 1").unwrap();
    assert_eq!(b.active_color(), WHITE);
    assert_eq!(b.castle_availibility(), [[true, true], [true, true]]);
    assert_eq!(b.en_passant_target_square(), None);
    assert_eq!(b.get_piece_at(&BoardSquare::from("a8")), Some(ROOK + BLACK));
    assert_eq!(b.get_piece_at(&BoardSquare::from("e1")), Some(KING + WHITE));
    assert_eq!(b.get_piece_at(&BoardSquare::from("d8")), Some(QUEEN + BLACK));
    assert_eq!(b.get_piece_at(&BoardSquare::from("c1")), Some(BISHOP + WHITE));
    assert_eq!(b.get_piece_at(&BoardSquare::from("g8")), Some(KNIGHT + BLACK));
    assert_eq!(b.get_piece_at(&BoardSquare::from("h2")), Some(PAWN + WHITE));
    assert_eq!(b.get_piece_at(&BoardSquare::from("e4")), None);
}

#[test]
fn parse_partial_rights_and_target() {
    let b = Board::from_fen("8/8/8/8/8/8/8/8 b Kq e3 42 7").unwrap();
    assert_eq!(b.active_color(), BLACK);
    // indexed black first, kingside before queenside
    assert_eq!(b.castle_availibility(), [[false, true], [true, false]]);
    assert_eq!(b.en_passant_target_square(), Some(BoardSquare::from("e3")));
}

#[test]
fn reject_wrong_field_count() {
    assert_eq!(Board::from_fen("").unwrap_err(), ParseError::BadFieldCount);
    assert_eq!(Board::from_fen("8/8/8/8/8/8/8/8 w - -").unwrap_err(), ParseError::BadFieldCount);
    assert_eq!(Board::from_fen("8/8/8/8/8/8/8/8 w - - 0 1 extra").unwrap_err(), ParseError::BadFieldCount);
}

#[test]
fn reject_bad_board_field() {
    // a stray character
    assert_eq!(Board::from_fen("x7/8/8/8/8/8/8/8 w - - 0 1").unwrap_err(), ParseError::BadBoard);
    // too few squares
    assert_eq!(Board::from_fen("8/8/8/8/8/8/8 w - - 0 1").unwrap_err(), ParseError::BadBoard);
    // too many squares
    assert_eq!(Board::from_fen("8/8/8/8/8/8/8/8/8 w - - 0 1").unwrap_err(), ParseError::BadBoard);
}

#[test]
fn reject_bad_metadata_fields() {
    assert_eq!(Board::from_fen("8/8/8/8/8/8/8/8 x - - 0 1").unwrap_err(), ParseError::BadActiveColor);
    assert_eq!(Board::from_fen("8/8/8/8/8/8/8/8 w KQz - 0 1").unwrap_err(), ParseError::BadCastleRights);
    assert_eq!(Board::from_fen("8/8/8/8/8/8/8/8 w - e9 0 1").unwrap_err(), ParseError::BadEnPassant);
    assert_eq!(Board::from_fen("8/8/8/8/8/8/8/8 w - - x 1").unwrap_err(), ParseError::BadCounter);
    assert_eq!(Board::from_fen("8/8/8/8/8/8/8/8 w - - 0 1x").unwrap_err(), ParseError::BadCounter);
}

#[test]
fn square_notation_round_trip() {
    let e4 = BoardSquare::from("e4");
    assert_eq!(e4.pos(), 36);
    assert_eq!(e4.x(), 4);
    assert_eq!(e4.y(), 4);
    assert_eq!(e4.render(), "e4");
    assert_eq!(BoardSquare::from("a8").pos(), 0);
    assert_eq!(BoardSquare::from("h1").pos(), 63);
}

#[test]
fn stepping_respects_the_edges() {
    let h3 = BoardSquare::from("h3");
    // no wrap onto the a-file of the next rank
    assert_eq!(h3.get_square_in_direction(&Direction::E), None);
    assert_eq!(
        h3.get_square_in_direction(&Direction::W),
        Some(BoardSquare::from("g3"))
    );
    let a1 = BoardSquare::from("a1");
    assert_eq!(a1.get_square_in_direction(&Direction::S), None);
    assert_eq!(a1.get_square_in_direction(&Direction::W), None);
    assert_eq!(
        a1.get_square_in_direction(&Direction::N),
        Some(BoardSquare::from("a2"))
    );
}

#[test]
fn rays_run_to_the_edge_in_order() {
    let a1 = BoardSquare::from("a1");
    let up: Vec<BoardSquare> = ["a2", "a3", "a4", "a5", "a6", "a7", "a8"]
        .iter()
        .map(|s| BoardSquare::from(s))
        .collect();
    assert_eq!(a1.get_all_squares_in_direction(&Direction::N), up);
    let ne: Vec<BoardSquare> = ["b2", "c3", "d4", "e5", "f6", "g7", "h8"]
        .iter()
        .map(|s| BoardSquare::from(s))
        .collect();
    assert_eq!(a1.get_all_squares_in_direction(&Direction::NE), ne);
    assert!(a1.get_all_squares_in_direction(&Direction::SW).is_empty());
}

#[test]
fn notation_round_trips_for_every_square() {
    for pos in 0..64u8 {
        let sq = BoardSquare(pos);
        let text = sq.render();
        assert_eq!(text.len(), 2);
        assert_eq!(BoardSquare::from(&text), sq);
    }
}

#[test]
fn chebyshev_distance() {
    let a1 = BoardSquare::from("a1");
    assert_eq!(a1.distance_from(&BoardSquare::from("h8")), 7);
    assert_eq!(a1.distance_from(&BoardSquare::from("a4")), 3);
    assert_eq!(a1.distance_from(&a1), 0);
}

#[test]
fn piece_code_accessors() {
    assert!(is_piece(KING + WHITE));
    assert!(!is_piece(0));
    assert_eq!(get_piece_type(QUEEN + BLACK), QUEEN);
    assert_eq!(get_piece_type(PAWN + WHITE), PAWN);
    assert_eq!(get_piece_color(ROOK + WHITE), WHITE);
    assert_eq!(get_piece_color(ROOK + BLACK), BLACK);
}

#[test]
fn move_constructors_agree() {
    let by_square = BoardMove::new(&BoardSquare::from("e2"), &BoardSquare::from("e4"));
    let by_pos = BoardMove::new_from_square_positions(52, 36);
    assert_eq!(by_square, by_pos);
    assert_eq!(by_pos.from_square(), BoardSquare::from("e2"));
    assert_eq!(by_pos.dest_square(), BoardSquare::from("e4"));
    assert!(!by_pos.is_castle());
    assert!(!by_pos.is_en_passant());
    assert!(BoardMove::castle_wk().is_castle());
    assert!(!BoardMove::castle_wk().is_en_passant());
}

#[test]
fn direction_steps_and_deltas() {
    assert_eq!(Direction::N.dx(), 0);
    assert_eq!(Direction::N.dy(), -1);
    assert_eq!(Direction::SE.dx(), 1);
    assert_eq!(Direction::SE.dy(), 1);
    assert_eq!(Direction::NW.opposite(), Direction::SE);
    // the packed-index delta wraps in eight bits: adding it steps a square
    let e4 = BoardSquare::from("e4");
    let e5 = e4
        .get_square_in_direction(&Direction::N)
        .unwrap();
    assert_eq!(
        e4.pos().wrapping_add(Direction::N.as_square_pos_delta()),
        e5.pos()
    );
    assert_eq!(Direction::E.as_square_pos_delta(), 1);
}

#[test]
fn rendering_is_stable() {
    let m = BoardMove::new(&BoardSquare::from("e2"), &BoardSquare::from("e4"));
    assert_eq!(m.render(), "REG: e2 => e4");
    let ep = BoardMove::new_as_en_passant(&BoardSquare::from("g4"), &BoardSquare::from("h3"));
    assert_eq!(ep.render(), "EP: g4 => h3");
    let b = Board::from_fen("8/8/8/3n4/8/8/8/8 w - - 0 1").unwrap();
    let grid = b.render();
    assert!(grid.contains("n"));
    assert!(grid.lines().count() >= 10);
}
