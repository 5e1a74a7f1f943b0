//! Move application: deriving the successor position from a position and a
//! generated move.
use crate::board::{
    Board, BoardMove, BoardSquare, MoveKind, Position, piece_code, spec_enemy, spec_piece_color,
    spec_piece_type, BLACK, KING, PAWN, ROOK, WHITE,
};
use vstd::prelude::*;

verus! {

broadcast use crate::board::lemma_board_view;

/// The square an en-passant capture removes a pawn from: the destination's
/// file at the origin's rank.
pub open spec fn ep_capture_square(m: BoardMove) -> BoardSquare {
    BoardSquare((m.to.x_spec() + 8 * m.from.y_spec()) as u8)
}

/// Whether a move is a two-square pawn advance, and if so which square it
/// passes over; only such a move leaves an en-passant target behind.
pub open spec fn passed_over_square(pos: Position, m: BoardMove) -> Option<BoardSquare> {
    let p = pos.at(m.from);
    if spec_piece_type(p) == PAWN && m.from.x_spec() == m.to.x_spec() && (m.from.y_spec()
        - m.to.y_spec() == 2 || m.to.y_spec() - m.from.y_spec() == 2) {
        Option::Some(BoardSquare(((m.from.0 + m.to.0) / 2) as u8))
    } else {
        Option::None
    }
}

impl Position {
    /// The position a move leads to, exactly as the applier builds it: the
    /// origin is cleared; the moved piece, or the promotion target in its
    /// colour, lands on the destination; an en-passant capture clears the
    /// passed pawn behind the destination; a castle also relocates its rook.
    /// A castle clears both rights of its colour; otherwise a right lapses
    /// when its king moves or when any move leaves or enters its rook's
    /// corner, which covers a rook captured in place. The en-passant target
    /// is set only by a two-square pawn advance, and the side to move
    /// toggles unconditionally.
    pub open spec fn apply_spec(self, m: BoardMove) -> Position {
        match m.kind {
            MoveKind::Castle { color, kingside } => {
                let row: int = if color == WHITE {
                    7
                } else {
                    0
                };
                let king_from = 4 + 8 * row;
                let rook_from = if kingside {
                    7 + 8 * row
                } else {
                    8 * row
                };
                let king_to = if kingside {
                    6 + 8 * row
                } else {
                    2 + 8 * row
                };
                let rook_to = if kingside {
                    5 + 8 * row
                } else {
                    3 + 8 * row
                };
                Position {
                    squares: self.squares.update(king_from, 0).update(rook_from, 0).update(
                        king_to,
                        piece_code(color, KING),
                    ).update(rook_to, piece_code(color, ROOK)),
                    active: spec_enemy(self.active),
                    castle_bk: self.castle_bk && color != BLACK,
                    castle_bq: self.castle_bq && color != BLACK,
                    castle_wk: self.castle_wk && color != WHITE,
                    castle_wq: self.castle_wq && color != WHITE,
                    en_passant: Option::None,
                }
            },
            _ => {
                let p = self.at(m.from);
                let placed = match m.kind {
                    MoveKind::Promotion { target } => piece_code(spec_piece_color(p), target),
                    _ => p,
                };
                let moved = self.squares.update(m.from.0 as int, 0).update(m.to.0 as int, placed);
                Position {
                    squares: if m.kind is EnPassant {
                        moved.update(ep_capture_square(m).0 as int, 0)
                    } else {
                        moved
                    },
                    active: spec_enemy(self.active),
                    castle_bk: self.castle_bk && p != piece_code(BLACK, KING) && m.from.0 != 7
                        && m.to.0 != 7,
                    castle_bq: self.castle_bq && p != piece_code(BLACK, KING) && m.from.0 != 0
                        && m.to.0 != 0,
                    castle_wk: self.castle_wk && p != piece_code(WHITE, KING) && m.from.0 != 63
                        && m.to.0 != 63,
                    castle_wq: self.castle_wq && p != piece_code(WHITE, KING) && m.from.0 != 56
                        && m.to.0 != 56,
                    en_passant: passed_over_square(self, m),
                }
            },
        }
    }
}

/// An element-wise copy of the 64 cells.
fn copy_cells(v: &Vec<u8>) -> (r: Vec<u8>)
    ensures
        r@ == v@,
{
    let mut r: Vec<u8> = Vec::new();
    let mut i: usize = 0;
    while i < v.len()
        invariant
            i <= v.len(),
            r@ == v@.take(i as int),
        decreases v.len() - i,
    {
        let c = v[i];
        proof {
            assert(v@.take(i + 1) =~= v@.take(i as int).push(v@[i as int]));
        }
        r.push(c);
        i += 1;
    }
    proof {
        assert(v@.take(v@.len() as int) =~= v@);
    }
    r
}

impl Board {
    /// The position after a move. The move is taken as generated, hence
    /// legal; nothing is re-validated here.
    pub fn create_board_from_move(&self, board_move: &BoardMove) -> (r: Board)
        requires
            self.wf(),
            board_move.wf(),
        ensures
            r@ == self@.apply_spec(*board_move),
            r.wf(),
    {
        let mut ns = copy_cells(&self.squares);
        match board_move.kind {
            MoveKind::Castle { color, kingside } => {
                let row: u8 = if color == WHITE {
                    7
                } else {
                    0
                };
                let king_from: usize = (4 + 8 * row) as usize;
                let rook_from: usize = if kingside {
                    (7 + 8 * row) as usize
                } else {
                    (8 * row) as usize
                };
                let king_to: usize = if kingside {
                    (6 + 8 * row) as usize
                } else {
                    (2 + 8 * row) as usize
                };
                let rook_to: usize = if kingside {
                    (5 + 8 * row) as usize
                } else {
                    (3 + 8 * row) as usize
                };
                ns[king_from] = 0;
                ns[rook_from] = 0;
                ns[king_to] = KING + color;
                ns[rook_to] = ROOK + color;
                Board {
                    squares: ns,
                    active: 1 - self.active,
                    castle_bk: self.castle_bk && color != BLACK,
                    castle_bq: self.castle_bq && color != BLACK,
                    castle_wk: self.castle_wk && color != WHITE,
                    castle_wq: self.castle_wq && color != WHITE,
                    en_passant: None,
                }
            },
            _ => {
                let from_pos = board_move.from.0 as usize;
                let to_pos = board_move.to.0 as usize;
                let p = self.squares[from_pos];
                let placed = match board_move.kind {
                    MoveKind::Promotion { target } => target + p % 2,
                    _ => p,
                };
                ns[from_pos] = 0;
                ns[to_pos] = placed;
                if board_move.is_en_passant() {
                    let cap: usize = (board_move.to.0 % 8 + 8 * (board_move.from.0 / 8)) as usize;
                    ns[cap] = 0;
                }
                let is_double_pawn_advance = p % 16 - p % 2 == PAWN && board_move.from.0 % 8
                    == board_move.to.0 % 8 && (board_move.from.0 / 8 + 2 == board_move.to.0 / 8
                    || board_move.to.0 / 8 + 2 == board_move.from.0 / 8);
                Board {
                    squares: ns,
                    active: 1 - self.active,
                    castle_bk: self.castle_bk && p != KING + BLACK && board_move.from.0 != 7
                        && board_move.to.0 != 7,
                    castle_bq: self.castle_bq && p != KING + BLACK && board_move.from.0 != 0
                        && board_move.to.0 != 0,
                    castle_wk: self.castle_wk && p != KING + WHITE && board_move.from.0 != 63
                        && board_move.to.0 != 63,
                    castle_wq: self.castle_wq && p != KING + WHITE && board_move.from.0 != 56
                        && board_move.to.0 != 56,
                    en_passant: if is_double_pawn_advance {
                        Some(BoardSquare((board_move.from.0 + board_move.to.0) / 2))
                    } else {
                        None
                    },
                }
            },
        }
    }
}

} // verus!
