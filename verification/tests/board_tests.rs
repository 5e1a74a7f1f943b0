use apotheosis::board::{Board, BoardMove, BoardSquare, BISHOP, BLACK, KING, KNIGHT, QUEEN, ROOK, WHITE};
use std::collections::HashSet;

#[test]
fn board_move_test() {
    let valid_move_tests = [
        // pins and en passant
        (
            "8/3p1p2/p2P1P2/Pp2BP1p/RP3PpP/2n2pP1/r4P2/k1K5 b - h3 0 1",
            [
                vec![
                    ["^g4", "h3"],
                    ["a2", "a3"],
                    ["a2", "a4"],
                    ["b5", "a4"],
                    ["a2", "a4"],
                ],
                vec![
                    ["a4", "a3"],
                    ["a4", "a2"],
                    ["e5", "d4"],
                    ["e5", "c3"],
                ],
            ],
        ),
        // castling
        (
            "r3k2r/Rp5p/pP5P/P7/1p6/pPp2p1p/PrP2P1P/R3K2R w KQq - 0 1",
            [
                vec![
                    ["b2", "a2"],
                    ["b2", "b1"],
                    ["b2", "b3"],
                    ["b2", "c2"],
                    ["a8", "a7"],
                    ["a8", "b8"],
                    ["a8", "c8"],
                    ["a8", "d8"],
                    ["e8", "d8"],
                    ["e8", "f8"],
                    ["e8", "d7"],
                    ["e8", "e7"],
                    ["e8", "f7"],
                    ["h8", "g8"],
                    ["h8", "f8"],
                    ["c", "bq"],
                ],
                vec![
                    ["a1", "b1"],
                    ["a1", "c1"],
                    ["a1", "d1"],
                    ["e1", "d1"],
                    ["e1", "f1"],
                    ["h1", "g1"],
                    ["h1", "f1"],
                    ["a7", "b7"],
                    ["a7", "a6"],
                    ["a7", "a8"],
                    ["c", "wk"],
                    ["c", "wq"],
                ],
            ],
        ),
    ];

    for (test_fen, test_moves_raw) in valid_move_tests {
        println!("TESTING {}", test_fen);
        let found_moves = Board::from_fen(test_fen).unwrap().get_board_info().valid_moves;
        for color in [BLACK, WHITE] {
            let test_moves: Vec<BoardMove> = test_moves_raw[color as usize]
                .iter()
                .map(|[s1, s2]| boardmove(s1, s2))
                .collect();
            assert_consists_of_same_moves(found_moves[color as usize].clone(), test_moves);
        }
    }
}

fn boardmove(s1: &str, s2: &str) -> BoardMove {
    match s1.chars().nth(0).unwrap() {
        'c' => match s2 {
            "bk" => BoardMove::castle_bk(),
            "bq" => BoardMove::castle_bq(),
            "wk" => BoardMove::castle_wk(),
            "wq" => BoardMove::castle_wq(),
            _ => unreachable!(),
        },
        '^' => BoardMove::new_as_en_passant(&BoardSquare::from(&s1[1..]), &BoardSquare::from(s2)),
        _ => BoardMove::new(&BoardSquare::from(s1), &BoardSquare::from(s2)),
    }
}

fn assert_consists_of_same_moves(v1: Vec<BoardMove>, v2: Vec<BoardMove>) {
    let s1: HashSet<_> = v1.into_iter().collect();
    let s2: HashSet<_> = v2.into_iter().collect();
    let sdiff: Vec<&BoardMove> = s1.symmetric_difference(&s2).collect();
    for diff in sdiff.iter() {
        println!("difference: {:?}", diff);
    }
    assert_eq!(sdiff, [] as [&BoardMove; 0]);
}

#[test]
fn lone_pawn_two_moves() {
    let info = Board::from_fen("8/p7/8/8/8/8/8/8 w - - 0 1").unwrap().get_board_info();
    let black: HashSet<BoardMove> = info.valid_moves[BLACK as usize].iter().copied().collect();
    let expected: HashSet<BoardMove> = [
        BoardMove::new(&BoardSquare::from("a7"), &BoardSquare::from("a6")),
        BoardMove::new(&BoardSquare::from("a7"), &BoardSquare::from("a5")),
    ]
    .into_iter()
    .collect();
    assert_eq!(black, expected);
    assert!(info.valid_moves[WHITE as usize].is_empty());
}

#[test]
fn lone_knight_eight_moves() {
    let info = Board::from_fen("8/8/8/3n4/8/8/8/8 w - - 0 1").unwrap().get_board_info();
    let black: HashSet<BoardMove> = info.valid_moves[BLACK as usize].iter().copied().collect();
    let d5 = BoardSquare::from("d5");
    let expected: HashSet<BoardMove> = ["c7", "e7", "b6", "f6", "b4", "f4", "c3", "e3"]
        .iter()
        .map(|t| BoardMove::new(&d5, &BoardSquare::from(t)))
        .collect();
    assert_eq!(black, expected);
}

#[test]
fn king_cannot_retreat_along_attack_line() {
    // the rook on a1 checks along the first rank; stepping back to f1
    // stays on the line and must be rejected by the legality filter even
    // though the rook's visibility stops at the king itself
    let info = Board::from_fen("4k3/8/8/8/8/8/8/r3K3 w - - 0 1").unwrap().get_board_info();
    let white: HashSet<BoardMove> = info.valid_moves[WHITE as usize].iter().copied().collect();
    let e1 = BoardSquare::from("e1");
    let expected: HashSet<BoardMove> = ["d2", "e2", "f2"]
        .iter()
        .map(|t| BoardMove::new(&e1, &BoardSquare::from(t)))
        .collect();
    assert_eq!(white, expected);
}

#[test]
fn en_passant_cannot_uncover_check() {
    // the d5 pawn, just advanced two squares, is the only piece between
    // the a5 rook and the f5 king; taking it en passant would clear the
    // capturer's own rank too, so the capture must not be offered
    let info = Board::from_fen("8/8/8/r2pPK2/8/8/8/7k w - d6 0 1")
        .unwrap()
        .get_board_info();
    let ep = BoardMove::new_as_en_passant(&BoardSquare::from("e5"), &BoardSquare::from("d6"));
    assert!(!info.valid_moves[WHITE as usize].contains(&ep));
    // the plain advance keeps the blocker in place and stays legal
    let push = BoardMove::new(&BoardSquare::from("e5"), &BoardSquare::from("e6"));
    assert!(info.valid_moves[WHITE as usize].contains(&push));
}

#[test]
fn rook_pinned_by_bishop_has_no_moves() {
    // bishop c3, rook d2, king e1 share a diagonal: the rook is pinned
    // off its own lines and generates nothing
    let info = Board::from_fen("4k3/8/8/8/8/2b5/3R4/4K3 w - - 0 1").unwrap().get_board_info();
    let d2 = BoardSquare::from("d2");
    for m in info.valid_moves[WHITE as usize].iter() {
        assert_ne!(m.from_square(), d2);
    }
}

#[test]
fn pawn_promotion_yields_four_moves() {
    let info = Board::from_fen("8/P7/8/8/8/8/8/8 w - - 0 1").unwrap().get_board_info();
    let white = &info.valid_moves[WHITE as usize];
    assert_eq!(white.len(), 4);
    let mut targets = HashSet::new();
    for m in white.iter() {
        assert_eq!(m.from_square(), BoardSquare::from("a7"));
        assert_eq!(m.dest_square(), BoardSquare::from("a8"));
        assert!(!m.is_castle());
        assert!(!m.is_en_passant());
        targets.insert(m.promotion_target_piece());
    }
    let expected: HashSet<u8> = [KNIGHT, BISHOP, ROOK, QUEEN].into_iter().collect();
    assert_eq!(targets, expected);
}

#[test]
fn square_control_reports_attacks() {
    let info = Board::from_fen("r3k2r/Rp5p/pP5P/P7/1p6/pPp2p1p/PrP2P1P/R3K2R w KQq - 0 1")
        .unwrap()
        .get_board_info();
    // the black rook on b2 covers b1
    let b1 = BoardSquare::from("b1").pos() as usize;
    assert!(info.square_control[b1].visibility[BLACK as usize] > 0);
    // nothing black covers g1
    let g1 = BoardSquare::from("g1").pos() as usize;
    assert_eq!(info.square_control[g1].visibility[BLACK as usize], 0);
    // occupants mirror the board
    let e1 = BoardSquare::from("e1").pos() as usize;
    assert_eq!(info.square_control[e1].occupant, Some(KING + WHITE));
}

#[test]
fn piece_lists_are_collected() {
    let info = Board::from_fen("8/3p1p2/p2P1P2/Pp2BP1p/RP3PpP/2n2pP1/r4P2/k1K5 b - h3 0 1")
        .unwrap()
        .get_board_info();
    let pieces = info.board_pieces;
    assert_eq!(pieces.kings[BLACK as usize], Some(BoardSquare::from("a1")));
    assert_eq!(pieces.kings[WHITE as usize], Some(BoardSquare::from("c1")));
    assert_eq!(pieces.knights[BLACK as usize], vec![BoardSquare::from("c3")]);
    assert_eq!(pieces.rooks[WHITE as usize], vec![BoardSquare::from("a4")]);
    assert_eq!(pieces.bishops[WHITE as usize], vec![BoardSquare::from("e5")]);
    assert_eq!(pieces.pawns[BLACK as usize].len(), 7);
    assert_eq!(pieces.pawns[WHITE as usize].len(), 9);
    assert!(pieces.queens[BLACK as usize].is_empty());
}
