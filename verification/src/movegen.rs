//! The legal move generator and the per-square analysis it returns.
use crate::apply::ep_capture_square;
use crate::attack::{
    dir_is_cardinal, pawn_attacks, pawn_forward_dy, spec_attacked_by, spec_in_check, spec_pinned,
};
use crate::board::{
    lemma_offset_hits, lemma_ray, Board, BoardColor, BoardMove, BoardPiece, BoardSquare,
    Direction, MoveKind, Position, piece_code, spec_enemy, spec_piece_color, spec_piece_type,
    BISHOP, BLACK, KING, KNIGHT, PAWN, QUEEN, ROOK, WHITE,
};
use vstd::prelude::*;

verus! {

broadcast use crate::board::lemma_board_view;

/// `to` lies n steps from `from` along a direction; a negative n walks the
/// opposite way.
pub open spec fn line_step(from: BoardSquare, to: BoardSquare, d: Direction, n: int) -> bool {
    &&& to.x_spec() == from.x_spec() + n * d.dx_spec()
    &&& to.y_spec() == from.y_spec() + n * d.dy_spec()
}

/// The destination lies on the line through the origin along a direction,
/// on either side: what a pinned piece is restricted to.
pub open spec fn along_pin_line(from: BoardSquare, to: BoardSquare, d: Direction) -> bool {
    exists|n: int| n != 0 && #[trigger] line_step(from, to, d, n)
}

/// The home row of a colour's king and rooks.
pub open spec fn castle_row(color: BoardColor) -> int {
    if color == WHITE {
        7
    } else {
        0
    }
}

/// The rank a pawn of a colour promotes on.
pub open spec fn promo_rank(color: BoardColor) -> int {
    if color == WHITE {
        0
    } else {
        7
    }
}

/// When a castle is legal: the right is still held, the squares strictly
/// between king and rook are empty, and no square the king stands on,
/// crosses or lands on is attacked by the other colour.
pub open spec fn castle_legal(pos: Position, color: BoardColor, kingside: bool) -> bool {
    let row = castle_row(color);
    &&& pos.has_right(color, kingside)
    &&& if kingside {
        pos.squares[5 + 8 * row] == 0 && pos.squares[6 + 8 * row] == 0
    } else {
        pos.squares[1 + 8 * row] == 0 && pos.squares[2 + 8 * row] == 0 && pos.squares[3 + 8 * row]
            == 0
    }
    &&& !spec_attacked_by(pos, spec_enemy(color), BoardSquare((4 + 8 * row) as u8))
    &&& if kingside {
        !spec_attacked_by(pos, spec_enemy(color), BoardSquare((5 + 8 * row) as u8))
            && !spec_attacked_by(pos, spec_enemy(color), BoardSquare((6 + 8 * row) as u8))
    } else {
        !spec_attacked_by(pos, spec_enemy(color), BoardSquare((3 + 8 * row) as u8))
            && !spec_attacked_by(pos, spec_enemy(color), BoardSquare((2 + 8 * row) as u8))
    }
}

/// When an en-passant capture is sound: the destination is the position's
/// en-passant target, the mover is a pawn attacking it, and the bypassed
/// square, the destination's file at the origin's rank, holds an enemy
/// pawn. That square, not the destination, is what the capture clears.
pub open spec fn ep_move_sound(pos: Position, c: BoardColor, m: BoardMove) -> bool {
    &&& pos.en_passant == Option::Some(m.to)
    &&& spec_piece_type(pos.at(m.from)) == PAWN
    &&& pawn_attacks(c, m.from, m.to)
    &&& pos.at(ep_capture_square(m)) == piece_code(spec_enemy(c), PAWN)
}

/// The destination fits the way the piece on the origin moves: a pawn
/// steps forward onto emptiness, twice only from its home rank over two
/// empty squares, and goes diagonally only to capture; a knight and a
/// king jump their fixed offsets; a slider goes along a clear ray.
pub open spec fn geometry_ok(
    pos: Position,
    c: BoardColor,
    from: BoardSquare,
    to: BoardSquare,
    ep: bool,
) -> bool {
    let ty = spec_piece_type(pos.at(from));
    if ty == PAWN {
        ||| (from.offset_spec(0, pawn_forward_dy(c)) == Option::Some(to) && pos.at(to) == 0)
        ||| (from.y_spec() == home_rank(c) && from.offset_spec(0, 2 * pawn_forward_dy(c))
            == Option::Some(to) && pos.at(to) == 0 && (match from.offset_spec(
            0,
            pawn_forward_dy(c),
        ) {
            Option::Some(mid) => pos.at(mid) == 0,
            Option::None => false,
        }))
        ||| (pawn_attacks(c, from, to) && (ep || (pos.at(to) != 0 && spec_piece_color(pos.at(to))
            == spec_enemy(c))))
    } else if ty == KNIGHT {
        crate::attack::knight_attacks(from, to)
    } else if ty == KING {
        crate::attack::king_attacks(from, to)
    } else {
        slider_reaches(pos, from, to)
    }
}

/// What holds of every move the generator emits for a colour:
/// the origin holds a piece of that colour; the destination holds no piece
/// of that colour and fits how the piece moves; a pinned piece only moves
/// along its pin line, and a pinned knight not at all; a king never moves
/// to an attacked square; an en-passant capture and a promotion are
/// emitted only under their rules, and a pawn reaching its last rank is
/// emitted only with the promotion tag, never untagged; a castle only
/// when it is legal.
pub open spec fn move_sound(pos: Position, c: BoardColor, m: BoardMove) -> bool {
    &&& m.wf()
    &&& match m.kind {
        MoveKind::Castle { color, kingside } => color == c && castle_legal(pos, c, kingside),
        _ => {
            &&& pos.at(m.from) != 0
            &&& spec_piece_color(pos.at(m.from)) == c
            &&& (pos.at(m.to) == 0 || spec_piece_color(pos.at(m.to)) == spec_enemy(c))
            &&& geometry_ok(pos, c, m.from, m.to, m.kind is EnPassant)
            &&& (forall|d: Direction|
                spec_pinned(pos, c, m.from, d) ==> #[trigger] along_pin_line(m.from, m.to, d))
            &&& (spec_piece_type(pos.at(m.from)) == KING ==> !spec_attacked_by(
                pos,
                spec_enemy(c),
                m.to,
            ))
            &&& (spec_piece_type(pos.at(m.from)) == KNIGHT ==> forall|d: Direction|
                !spec_pinned(pos, c, m.from, d))
            &&& (m.kind is EnPassant ==> ep_move_sound(pos, c, m))
            &&& (m.kind is Promotion ==> spec_piece_type(pos.at(m.from)) == PAWN
                && m.to.y_spec() == promo_rank(c))
            &&& (spec_piece_type(pos.at(m.from)) == PAWN && m.to.y_spec() == promo_rank(c)
                ==> m.kind is Promotion)
        },
    }
}

/// Every move of a list is sound.
pub open spec fn moves_ok(pos: Position, c: BoardColor, ms: Seq<BoardMove>) -> bool {
    forall|i: int| 0 <= i < ms.len() ==> move_sound(pos, c, #[trigger] ms[i])
}

/// Applying any listed move leaves the mover's king unattacked: only
/// strictly legal moves stand in the list, which both resolves an
/// existing check and rejects a move that would uncover one, such as an
/// en-passant capture that clears its own rank before a waiting slider.
pub open spec fn self_check_free(pos: Position, c: BoardColor, ms: Seq<BoardMove>) -> bool {
    forall|i: int| 0 <= i < ms.len() ==> !spec_in_check(pos.apply_spec(#[trigger] ms[i]), c)
}

/// A move a list contains, and that its filter keeps, stands in the
/// filtered list.
pub proof fn lemma_filter_keeps(
    pre: Seq<BoardMove>,
    ms: Seq<BoardMove>,
    pred: spec_fn(BoardMove) -> bool,
    m: BoardMove,
)
    requires
        ms == pre.filter(pred),
        pre.contains(m),
        pred(m),
    ensures
        ms.contains(m),
{
    let i = choose|i: int| 0 <= i < pre.len() && pre[i] == m;
    pre.lemma_filter_contains(pred, i);
}

/// A move of a filtered list came from the list it was filtered out of,
/// and the filter's test holds of it.
pub proof fn lemma_filter_member(pre: Seq<BoardMove>, pred: spec_fn(BoardMove) -> bool, m: BoardMove)
    requires
        pre.filter(pred).contains(m),
    ensures
        pre.contains(m),
        pred(m),
    decreases pre.len(),
{
    reveal_with_fuel(Seq::<_>::filter, 2);
    if pre.len() == 0 {
    } else {
        let rest = pre.drop_last().filter(pred);
        if pred(pre.last()) && m == pre.last() {
            assert(pre[pre.len() - 1] == m);
        } else {
            assert(rest.contains(m)) by {
                let i = choose|i: int| 0 <= i < pre.filter(pred).len() && pre.filter(pred)[i] == m;
                if pred(pre.last()) {
                    assert(pre.filter(pred) == rest.push(pre.last()));
                    assert(i < rest.len());
                    assert(rest[i] == m);
                }
            };
            lemma_filter_member(pre.drop_last(), pred, m);
            let j = choose|j: int| 0 <= j < pre.drop_last().len() && pre.drop_last()[j] == m;
            assert(pre[j] == m);
        }
    }
}

/// The squares of every piece, by kind, indexed by colour; each list is in
/// increasing square order.
pub struct BoardPieces {
    pub pawns: [Vec<BoardSquare>; 2],
    pub knights: [Vec<BoardSquare>; 2],
    pub bishops: [Vec<BoardSquare>; 2],
    pub rooks: [Vec<BoardSquare>; 2],
    pub queens: [Vec<BoardSquare>; 2],
    pub kings: [Option<BoardSquare>; 2],
}

/// What the analysis knows of one square: its occupant, and how many
/// pieces of each colour attack it.
#[derive(Clone, Copy, Debug)]
pub struct BoardSquareInfo {
    pub occupant: Option<BoardPiece>,
    pub visibility: [u32; 2],
}

impl BoardSquareInfo {
    pub fn new() -> (r: BoardSquareInfo)
        ensures
            r.occupant is None,
            r.visibility[0] == 0,
            r.visibility[1] == 0,
    {
        BoardSquareInfo { occupant: None, visibility: [0, 0] }
    }
}

/// The analysis of a position: the legal moves of each colour, the piece
/// lists, and the 64 per-square records.
pub struct BoardInfo {
    pub valid_moves: [Vec<BoardMove>; 2],
    pub board_pieces: BoardPieces,
    pub square_control: Vec<BoardSquareInfo>,
}

/// A piece list holds exactly the squares of one piece code, in strictly
/// increasing square order.
pub open spec fn lists_piece(pos: Position, v: Seq<BoardSquare>, code: u8) -> bool {
    &&& forall|s: BoardSquare| #[trigger] v.contains(s) ==> s.wf() && pos.at(s) == code
    &&& forall|s: BoardSquare| s.wf() && #[trigger] pos.at(s) == code ==> v.contains(s)
    &&& forall|i: int, j: int| 0 <= i < j < v.len() ==> v[i].0 < v[j].0
}

/// The piece lists are exactly right for every kind and colour.
pub open spec fn pieces_listing_ok(pos: Position, bp: BoardPieces) -> bool {
    &&& forall|c: BoardColor|
        c < 2 ==> lists_piece(pos, #[trigger] bp.pawns[c as int]@, piece_code(c, PAWN))
    &&& forall|c: BoardColor|
        c < 2 ==> lists_piece(pos, #[trigger] bp.knights[c as int]@, piece_code(c, KNIGHT))
    &&& forall|c: BoardColor|
        c < 2 ==> lists_piece(pos, #[trigger] bp.bishops[c as int]@, piece_code(c, BISHOP))
    &&& forall|c: BoardColor|
        c < 2 ==> lists_piece(pos, #[trigger] bp.rooks[c as int]@, piece_code(c, ROOK))
    &&& forall|c: BoardColor|
        c < 2 ==> lists_piece(pos, #[trigger] bp.queens[c as int]@, piece_code(c, QUEEN))
    &&& forall|c: BoardColor|
        c < 2 ==> match #[trigger] bp.kings[c as int] {
            Option::Some(k) => k.wf() && pos.at(k) == piece_code(c, KING),
            Option::None => forall|s: BoardSquare|
                s.wf() ==> #[trigger] pos.at(s) != piece_code(c, KING),
        }
}

impl Board {
    /// The squares that hold one piece code, in increasing order.
    fn collect_squares(&self, code: u8) -> (r: Vec<BoardSquare>)
        requires
            self.wf(),
            code != 0,
        ensures
            lists_piece(self@, r@, code),
    {
        let mut v: Vec<BoardSquare> = Vec::new();
        let mut i: u8 = 0;
        while i < 64
            invariant
                self.wf(),
                code != 0,
                i <= 64,
                forall|s: BoardSquare| #[trigger] v@.contains(s) ==> s.0 < i && self@.at(s) == code,
                forall|s: BoardSquare|
                    s.0 < i && #[trigger] self@.at(s) == code ==> v@.contains(s),
                forall|a: int, b: int| 0 <= a < b < v@.len() ==> v@[a].0 < v@[b].0,
                forall|a: int| 0 <= a < v@.len() ==> (#[trigger] v@[a]).0 < i,
            decreases 64 - i,
        {
            let sq = BoardSquare(i);
            let cell = self.squares[i as usize];
            if cell == code {
                let ghost prev = v@;
                v.push(sq);
                proof {
                    assert(v@[v@.len() - 1] == sq);
                    assert(v@.contains(sq));
                    assert forall|s: BoardSquare| #[trigger]
                        v@.contains(s) implies s.0 < i + 1 && self@.at(s) == code by {
                        let k = choose|k: int| 0 <= k < v@.len() && v@[k] == s;
                        if k < v@.len() - 1 {
                            assert(prev[k] == s);
                            assert(prev.contains(s));
                        }
                    };
                    assert forall|s: BoardSquare|
                        s.0 < i + 1 && #[trigger] self@.at(s) == code implies v@.contains(s) by {
                        if s.0 < i {
                            assert(prev.contains(s));
                            let k = choose|k: int| 0 <= k < prev.len() && prev[k] == s;
                            assert(v@[k] == s);
                        } else {
                            assert(s == sq);
                        }
                    };
                }
            } else {
                proof {
                    assert forall|s: BoardSquare|
                        s.0 < i + 1 && #[trigger] self@.at(s) == code implies v@.contains(s) by {
                        if s.0 == i as u8 {
                            assert(s == sq);
                            assert(self@.at(sq) == cell);
                        }
                    };
                }
            }
            i += 1;
        }
        proof {
            assert forall|s: BoardSquare|
                s.wf() && #[trigger] self@.at(s) == code implies v@.contains(s) by {
                assert(s.0 < 64);
            };
        }
        v
    }

    /// Collect the squares of every piece, grouped by kind and colour.
    pub fn get_pieces(&self) -> (r: BoardPieces)
        requires
            self.wf(),
        ensures
            pieces_listing_ok(self@, r),
    {
        let r = BoardPieces {
            pawns: [self.collect_squares(PAWN + BLACK), self.collect_squares(PAWN + WHITE)],
            knights: [self.collect_squares(KNIGHT + BLACK), self.collect_squares(KNIGHT + WHITE)],
            bishops: [self.collect_squares(BISHOP + BLACK), self.collect_squares(BISHOP + WHITE)],
            rooks: [self.collect_squares(ROOK + BLACK), self.collect_squares(ROOK + WHITE)],
            queens: [self.collect_squares(QUEEN + BLACK), self.collect_squares(QUEEN + WHITE)],
            kings: [self.find_king(BLACK), self.find_king(WHITE)],
        };
        proof {
            assert forall|c: BoardColor| c < 2 implies lists_piece(
                self@,
                #[trigger] r.pawns[c as int]@,
                piece_code(c, PAWN),
            ) by {
                assert(c == BLACK || c == WHITE);
            };
            assert forall|c: BoardColor| c < 2 implies lists_piece(
                self@,
                #[trigger] r.knights[c as int]@,
                piece_code(c, KNIGHT),
            ) by {
                assert(c == BLACK || c == WHITE);
            };
            assert forall|c: BoardColor| c < 2 implies lists_piece(
                self@,
                #[trigger] r.bishops[c as int]@,
                piece_code(c, BISHOP),
            ) by {
                assert(c == BLACK || c == WHITE);
            };
            assert forall|c: BoardColor| c < 2 implies lists_piece(
                self@,
                #[trigger] r.rooks[c as int]@,
                piece_code(c, ROOK),
            ) by {
                assert(c == BLACK || c == WHITE);
            };
            assert forall|c: BoardColor| c < 2 implies lists_piece(
                self@,
                #[trigger] r.queens[c as int]@,
                piece_code(c, QUEEN),
            ) by {
                assert(c == BLACK || c == WHITE);
            };
            assert forall|c: BoardColor| c < 2 implies match #[trigger] r.kings[c as int] {
                Option::Some(k) => k.wf() && self@.at(k) == piece_code(c, KING),
                Option::None => forall|s: BoardSquare|
                    s.wf() ==> #[trigger] self@.at(s) != piece_code(c, KING),
            } by {
                assert(c == BLACK || c == WHITE);
            };
        }
        r
    }

    /// The 64 per-square records: the occupant of each square, and for each
    /// colour a count of its attackers that is zero exactly when no piece
    /// of that colour attacks the square.
    pub fn build_square_control(&self) -> (r: Vec<BoardSquareInfo>)
        requires
            self.wf(),
        ensures
            r@.len() == 64,
            forall|i: int|
                0 <= i < 64 ==> (#[trigger] r@[i]).occupant == self@.piece_at(BoardSquare(i as u8)),
            forall|i: int, c: BoardColor|
                0 <= i < 64 && c < 2 ==> (#[trigger] r@[i].visibility[c as int]) as int
                    == crate::attack::attacker_count(self@, c, BoardSquare(i as u8), 64),
            forall|i: int, c: BoardColor|
                0 <= i < 64 && c < 2 ==> ((#[trigger] r@[i].visibility[c as int] > 0)
                    == spec_attacked_by(self@, c, BoardSquare(i as u8))),
    {
        let mut r: Vec<BoardSquareInfo> = Vec::new();
        let mut i: u8 = 0;
        while i < 64
            invariant
                self.wf(),
                i <= 64,
                r@.len() == i as int,
                forall|t: int|
                    0 <= t < i as int ==> (#[trigger] r@[t]).occupant == self@.piece_at(
                        BoardSquare(t as u8),
                    ),
                forall|t: int, c: BoardColor|
                    0 <= t < i as int && c < 2 ==> (#[trigger] r@[t].visibility[c as int]) as int
                        == crate::attack::attacker_count(self@, c, BoardSquare(t as u8), 64),
                forall|t: int, c: BoardColor|
                    0 <= t < i as int && c < 2 ==> ((#[trigger] r@[t].visibility[c as int] > 0)
                        == spec_attacked_by(self@, c, BoardSquare(t as u8))),
            decreases 64 - i,
        {
            let sq = BoardSquare(i);
            let occupant = self.get_piece_at(&sq);
            let vis_b = self.count_attackers(BLACK, &sq);
            let vis_w = self.count_attackers(WHITE, &sq);
            r.push(BoardSquareInfo { occupant, visibility: [vis_b, vis_w] });
            i += 1;
        }
        r
    }
}

/// The squares a slider on `from` may go to: along its own rays, up to
/// and including the first occupant.
pub open spec fn slider_reaches(pos: Position, from: BoardSquare, to: BoardSquare) -> bool {
    ||| (spec_piece_type(pos.at(from)) == ROOK || spec_piece_type(pos.at(from)) == QUEEN)
        && crate::attack::rook_reaches(pos, from, to)
    ||| (spec_piece_type(pos.at(from)) == BISHOP || spec_piece_type(pos.at(from)) == QUEEN)
        && crate::attack::bishop_reaches(pos, from, to)
}

/// The home row of a colour's pawns, from which they may advance twice.
pub open spec fn home_rank(color: BoardColor) -> int {
    if color == WHITE {
        6
    } else {
        1
    }
}

/// All four promotions of one pawn step are in the list.
pub open spec fn promos_in(ms: Seq<BoardMove>, from: BoardSquare, to: BoardSquare) -> bool {
    &&& ms.contains((BoardMove { from, to, kind: MoveKind::Promotion { target: KNIGHT } }))
    &&& ms.contains((BoardMove { from, to, kind: MoveKind::Promotion { target: BISHOP } }))
    &&& ms.contains((BoardMove { from, to, kind: MoveKind::Promotion { target: ROOK } }))
    &&& ms.contains((BoardMove { from, to, kind: MoveKind::Promotion { target: QUEEN } }))
}

/// The forward moves a pawn is entitled to: one step onto an empty
/// square, as four promotions on the last rank, and a double step from
/// the home rank over two empty squares.
pub open spec fn pawn_forward_complete(
    pos: Position,
    c: BoardColor,
    from: BoardSquare,
    ms: Seq<BoardMove>,
) -> bool {
    match from.offset_spec(0, pawn_forward_dy(c)) {
        Option::Some(t1) => pos.at(t1) == 0 ==> {
            &&& (t1.y_spec() != promo_rank(c) ==> ms.contains(
                (BoardMove { from, to: t1, kind: MoveKind::Normal }),
            ))
            &&& (t1.y_spec() == promo_rank(c) ==> promos_in(ms, from, t1))
            &&& (from.y_spec() == home_rank(c) ==> match from.offset_spec(
                0,
                2 * pawn_forward_dy(c),
            ) {
                Option::Some(t2) => pos.at(t2) == 0 ==> ms.contains(
                    (BoardMove { from, to: t2, kind: MoveKind::Normal }),
                ),
                Option::None => true,
            })
        },
        Option::None => true,
    }
}

/// The capture a pawn is entitled to on one diagonal: an enemy occupant
/// taken, as four promotions on the last rank, or the en-passant target
/// taken when the bypassed square holds an enemy pawn and the target is
/// not a promotion square.
pub open spec fn pawn_capture_complete(
    pos: Position,
    c: BoardColor,
    from: BoardSquare,
    dx: int,
    ms: Seq<BoardMove>,
) -> bool {
    match from.offset_spec(dx, pawn_forward_dy(c)) {
        Option::Some(t) => {
            &&& (pos.at(t) != 0 && spec_piece_color(pos.at(t)) == spec_enemy(c) ==> (t.y_spec()
                != promo_rank(c) ==> ms.contains(
                (BoardMove { from, to: t, kind: MoveKind::Normal }),
            )) && (t.y_spec() == promo_rank(c) ==> promos_in(ms, from, t)))
            &&& (pos.at(t) == 0 && pos.en_passant == Option::Some(t) && t.y_spec() != promo_rank(c)
                && (match from.offset_spec(dx, 0) {
                Option::Some(cap) => pos.at(cap) == piece_code(spec_enemy(c), PAWN),
                Option::None => false,
            }) ==> ms.contains((BoardMove { from, to: t, kind: MoveKind::EnPassant })))
        },
        Option::None => true,
    }
}

/// Everything a pawn that is not pinned is entitled to.
pub open spec fn pawn_moves_complete(
    pos: Position,
    c: BoardColor,
    from: BoardSquare,
    ms: Seq<BoardMove>,
) -> bool {
    &&& pawn_forward_complete(pos, c, from, ms)
    &&& pawn_capture_complete(pos, c, from, -1, ms)
    &&& pawn_capture_complete(pos, c, from, 1, ms)
}

/// Promotion membership survives appending.
proof fn lemma_promos_extends(a: Seq<BoardMove>, b: Seq<BoardMove>, from: BoardSquare, to: BoardSquare)
    requires
        promos_in(a, from, to),
        extends(a, b),
    ensures
        promos_in(b, from, to),
{
    lemma_extends_contains(a, b, BoardMove { from, to, kind: MoveKind::Promotion { target: KNIGHT } });
    lemma_extends_contains(a, b, BoardMove { from, to, kind: MoveKind::Promotion { target: BISHOP } });
    lemma_extends_contains(a, b, BoardMove { from, to, kind: MoveKind::Promotion { target: ROOK } });
    lemma_extends_contains(a, b, BoardMove { from, to, kind: MoveKind::Promotion { target: QUEEN } });
}

/// Forward completeness survives appending.
proof fn lemma_forward_extends(
    pos: Position,
    c: BoardColor,
    from: BoardSquare,
    a: Seq<BoardMove>,
    b: Seq<BoardMove>,
)
    requires
        pawn_forward_complete(pos, c, from, a),
        extends(a, b),
    ensures
        pawn_forward_complete(pos, c, from, b),
{
    match from.offset_spec(0, pawn_forward_dy(c)) {
        Option::Some(t1) => {
            if pos.at(t1) == 0 {
                if t1.y_spec() != promo_rank(c) {
                    lemma_extends_contains(a, b, BoardMove { from, to: t1, kind: MoveKind::Normal });
                } else {
                    lemma_promos_extends(a, b, from, t1);
                }
                if from.y_spec() == home_rank(c) {
                    match from.offset_spec(0, 2 * pawn_forward_dy(c)) {
                        Option::Some(t2) => {
                            if pos.at(t2) == 0 {
                                lemma_extends_contains(
                                    a,
                                    b,
                                    BoardMove { from, to: t2, kind: MoveKind::Normal },
                                );
                            }
                        },
                        Option::None => {},
                    }
                }
            }
        },
        Option::None => {},
    }
}

/// Capture completeness survives appending.
proof fn lemma_capture_extends(
    pos: Position,
    c: BoardColor,
    from: BoardSquare,
    dx: int,
    a: Seq<BoardMove>,
    b: Seq<BoardMove>,
)
    requires
        pawn_capture_complete(pos, c, from, dx, a),
        extends(a, b),
    ensures
        pawn_capture_complete(pos, c, from, dx, b),
{
    match from.offset_spec(dx, pawn_forward_dy(c)) {
        Option::Some(t) => {
            if pos.at(t) != 0 && spec_piece_color(pos.at(t)) == spec_enemy(c) {
                if t.y_spec() != promo_rank(c) {
                    lemma_extends_contains(a, b, BoardMove { from, to: t, kind: MoveKind::Normal });
                } else {
                    lemma_promos_extends(a, b, from, t);
                }
            }
            if a.contains((BoardMove { from, to: t, kind: MoveKind::EnPassant })) {
                lemma_extends_contains(a, b, BoardMove { from, to: t, kind: MoveKind::EnPassant });
            }
        },
        Option::None => {},
    }
}

/// What the pin, if any, leaves open: with no pin every direction, with a
/// pin only its line.
pub open spec fn dir_allowed(pin: Option<Direction>, d: Direction) -> bool {
    match pin {
        Option::None => true,
        Option::Some(d0) => d == d0 || d == d0.opposite_spec(),
    }
}

/// The facts `pinned_direction_of` establishes about its result.
pub open spec fn pin_result_ok(pos: Position, c: BoardColor, sq: BoardSquare, pin: Option<Direction>) -> bool {
    match pin {
        Option::Some(d0) => spec_pinned(pos, c, sq, d0) && (forall|d2: Direction|
            d2 != d0 ==> !spec_pinned(pos, c, sq, d2)),
        Option::None => forall|d2: Direction| !spec_pinned(pos, c, sq, d2),
    }
}

/// The first list stands unchanged at the head of the second: a helper
/// only ever appends, so everything once emitted stays emitted.
pub open spec fn extends(a: Seq<BoardMove>, b: Seq<BoardMove>) -> bool {
    a.len() <= b.len() && forall|j: int| 0 <= j < a.len() ==> a[j] == #[trigger] b[j]
}

/// Appending keeps membership.
pub proof fn lemma_extends_contains(a: Seq<BoardMove>, b: Seq<BoardMove>, m: BoardMove)
    requires
        extends(a, b),
        a.contains(m),
    ensures
        b.contains(m),
{
    let j = choose|j: int| 0 <= j < a.len() && a[j] == m;
    assert(b[j] == m);
}

/// A square a piece of a colour may land on: empty or enemy-held.
pub open spec fn landing_ok(pos: Position, c: BoardColor, to: BoardSquare) -> bool {
    to.wf() && (pos.at(to) == 0 || spec_piece_color(pos.at(to)) == spec_enemy(c))
}

/// An origin square the completeness claim speaks of: it holds a piece
/// of the colour, and that piece is not pinned.
pub open spec fn unpinned_origin(pos: Position, c: BoardColor, from: BoardSquare) -> bool {
    &&& from.wf()
    &&& pos.at(from) != 0
    &&& spec_piece_color(pos.at(from)) == c
    &&& forall|d: Direction| !spec_pinned(pos, c, from, d)
}

/// Everything one unpinned piece is entitled to stands in the list.
pub open spec fn origin_complete(
    pos: Position,
    c: BoardColor,
    from: BoardSquare,
    ms: Seq<BoardMove>,
) -> bool {
    let ty = spec_piece_type(pos.at(from));
    &&& (ty == PAWN ==> pawn_moves_complete(pos, c, from, ms))
    &&& (ty == KNIGHT ==> forall|to: BoardSquare|
        crate::attack::knight_attacks(from, to) && #[trigger] landing_ok(pos, c, to)
            ==> ms.contains((BoardMove { from, to, kind: MoveKind::Normal })))
    &&& (ty == KING ==> forall|to: BoardSquare|
        crate::attack::king_attacks(from, to) && #[trigger] landing_ok(pos, c, to)
            && !spec_attacked_by(pos, spec_enemy(c), to) ==> ms.contains(
            (BoardMove { from, to, kind: MoveKind::Normal }),
        ))
    &&& ((ty == BISHOP || ty == ROOK || ty == QUEEN) ==> forall|to: BoardSquare|
        slider_reaches(pos, from, to) && #[trigger] landing_ok(pos, c, to) ==> ms.contains(
            (BoardMove { from, to, kind: MoveKind::Normal }),
        ))
}

/// Whether a pawn-capture diagonal, leaning `dx` files over one forward
/// step, lies on the pin line of direction `d0`.
pub open spec fn capture_on_pin_line(d0: Direction, c: BoardColor, dx: int) -> bool {
    ||| (d0.dx_spec() == dx && d0.dy_spec() == pawn_forward_dy(c))
    ||| (d0.dx_spec() == -dx && d0.dy_spec() == -pawn_forward_dy(c))
}

/// What a piece pinned along `d0` is still entitled to: its moves on the
/// pin line. A pawn keeps its forward moves under a vertical pin and the
/// one diagonal capture on a diagonal pin; a slider that moves along the
/// line keeps its two rays on it; a knight or a king keeps nothing.
pub open spec fn pinned_origin_complete(
    pos: Position,
    c: BoardColor,
    from: BoardSquare,
    d0: Direction,
    ms: Seq<BoardMove>,
) -> bool {
    let ty = spec_piece_type(pos.at(from));
    &&& (ty == PAWN ==> {
        &&& ((d0 == Direction::N || d0 == Direction::S) ==> pawn_forward_complete(
            pos,
            c,
            from,
            ms,
        ))
        &&& (capture_on_pin_line(d0, c, -1) ==> pawn_capture_complete(pos, c, from, -1, ms))
        &&& (capture_on_pin_line(d0, c, 1) ==> pawn_capture_complete(pos, c, from, 1, ms))
    })
    &&& ((ty == QUEEN || (ty == ROOK && d0.is_cardinal()) || (ty == BISHOP && d0.is_ordinal()))
        ==> forall|to: BoardSquare|
        (crate::attack::sees_along(pos, from, to, d0) || crate::attack::sees_along(
            pos,
            from,
            to,
            d0.opposite_spec(),
        )) && #[trigger] landing_ok(pos, c, to) ==> ms.contains(
            (BoardMove { from, to, kind: MoveKind::Normal }),
        ))
}

/// Nothing the colour is entitled to is missing: every legal castle, the
/// full move set of every piece that is not pinned, and the pin-line
/// moves of every piece that is.
pub open spec fn gen_complete(pos: Position, c: BoardColor, ms: Seq<BoardMove>) -> bool {
    &&& (castle_legal(pos, c, true) ==> ms.contains(BoardMove::castle_spec(c, true)))
    &&& (castle_legal(pos, c, false) ==> ms.contains(BoardMove::castle_spec(c, false)))
    &&& forall|from: BoardSquare|
        #[trigger] unpinned_origin(pos, c, from) ==> origin_complete(pos, c, from, ms)
    &&& forall|from: BoardSquare, d0: Direction|
        from.wf() && pos.at(from) != 0 && spec_piece_color(pos.at(from)) == c
            && #[trigger] spec_pinned(pos, c, from, d0) ==> pinned_origin_complete(
            pos,
            c,
            from,
            d0,
            ms,
        )
}

/// One piece's completeness survives appending.
proof fn lemma_origin_extends(
    pos: Position,
    c: BoardColor,
    from: BoardSquare,
    a: Seq<BoardMove>,
    b: Seq<BoardMove>,
)
    requires
        origin_complete(pos, c, from, a),
        extends(a, b),
    ensures
        origin_complete(pos, c, from, b),
{
    let ty = spec_piece_type(pos.at(from));
    if ty == PAWN {
        lemma_forward_extends(pos, c, from, a, b);
        lemma_capture_extends(pos, c, from, -1, a, b);
        lemma_capture_extends(pos, c, from, 1, a, b);
    }
    assert forall|to: BoardSquare| #[trigger] a.contains(
        (BoardMove { from, to, kind: MoveKind::Normal }),
    ) implies b.contains((BoardMove { from, to, kind: MoveKind::Normal })) by {
        lemma_extends_contains(a, b, BoardMove { from, to, kind: MoveKind::Normal });
    };
}

/// A pinned piece's completeness survives appending.
proof fn lemma_pinned_origin_extends(
    pos: Position,
    c: BoardColor,
    from: BoardSquare,
    d0: Direction,
    a: Seq<BoardMove>,
    b: Seq<BoardMove>,
)
    requires
        pinned_origin_complete(pos, c, from, d0, a),
        extends(a, b),
    ensures
        pinned_origin_complete(pos, c, from, d0, b),
{
    let ty = spec_piece_type(pos.at(from));
    if ty == PAWN {
        if (d0 == Direction::N || d0 == Direction::S) && pawn_forward_complete(pos, c, from, a) {
            lemma_forward_extends(pos, c, from, a, b);
        }
        if capture_on_pin_line(d0, c, -1) && pawn_capture_complete(pos, c, from, -1, a) {
            lemma_capture_extends(pos, c, from, -1, a, b);
        }
        if capture_on_pin_line(d0, c, 1) && pawn_capture_complete(pos, c, from, 1, a) {
            lemma_capture_extends(pos, c, from, 1, a, b);
        }
    }
    assert forall|to: BoardSquare| #[trigger] a.contains(
        (BoardMove { from, to, kind: MoveKind::Normal }),
    ) implies b.contains((BoardMove { from, to, kind: MoveKind::Normal })) by {
        lemma_extends_contains(a, b, BoardMove { from, to, kind: MoveKind::Normal });
    };
}

/// Append a move that has been proved sound.
fn push_move(v: &mut Vec<BoardMove>, m: BoardMove, Ghost(pos): Ghost<Position>, c: BoardColor)
    requires
        moves_ok(pos, c, old(v)@),
        move_sound(pos, c, m),
    ensures
        final(v)@ == old(v)@.push(m),
        moves_ok(pos, c, final(v)@),
{
    let ghost prev = v@;
    v.push(m);
    proof {
        assert forall|i: int| 0 <= i < v@.len() implies move_sound(pos, c, #[trigger] v@[i]) by {
            if i < v@.len() - 1 {
                assert(v@[i] == prev[i]);
            } else {
                assert(v@[i] == m);
            }
        };
    }
}

impl Board {
    /// Whether no king of the colour stands on an attacked square.
    pub fn is_king_safe(&self, color: BoardColor) -> (r: bool)
        requires
            self.wf(),
            color < 2,
        ensures
            r == !spec_in_check(self@, color),
    {
        let enemy = 1 - color;
        let mut i: u8 = 0;
        while i < 64
            invariant
                self.wf(),
                color < 2,
                enemy == spec_enemy(color),
                i <= 64,
                forall|k: BoardSquare|
                    k.0 < i && #[trigger] self@.at(k) == piece_code(color, KING)
                        ==> !spec_attacked_by(self@, spec_enemy(color), k),
            decreases 64 - i,
        {
            if self.squares[i as usize] == KING + color {
                let sq = BoardSquare(i);
                if self.count_attackers(enemy, &sq) > 0 {
                    proof {
                        assert(self@.at(sq) == piece_code(color, KING));
                    }
                    return false;
                }
            }
            i += 1;
        }
        true
    }

    /// Emit the castle moves of a colour that are legal: exactly those,
    /// no legal one missed.
    fn gen_castles(&self, color: BoardColor, v: &mut Vec<BoardMove>)
        requires
            self.wf(),
            color < 2,
            moves_ok(self@, color, old(v)@),
        ensures
            moves_ok(self@, color, final(v)@),
            extends(old(v)@, final(v)@),
            castle_legal(self@, color, true) ==> final(v)@.contains(
                BoardMove::castle_spec(color, true),
            ),
            castle_legal(self@, color, false) ==> final(v)@.contains(
                BoardMove::castle_spec(color, false),
            ),
    {
        let ghost v0 = v@;
        self.gen_castle_side(color, true, v);
        let ghost v1 = v@;
        self.gen_castle_side(color, false, v);
        proof {
            if castle_legal(self@, color, true) {
                lemma_extends_contains(v1, v@, BoardMove::castle_spec(color, true));
            }
        }
    }

    /// Emit one castle identity when, and only when, it is legal.
    fn gen_castle_side(&self, color: BoardColor, kingside: bool, v: &mut Vec<BoardMove>)
        requires
            self.wf(),
            color < 2,
            moves_ok(self@, color, old(v)@),
        ensures
            moves_ok(self@, color, final(v)@),
            extends(old(v)@, final(v)@),
            castle_legal(self@, color, kingside) ==> final(v)@.contains(
                BoardMove::castle_spec(color, kingside),
            ),
    {
        let row: u8 = if color == WHITE {
            7
        } else {
            0
        };
        let enemy = 1 - color;
        let right = if color == WHITE {
            if kingside {
                self.castle_wk
            } else {
                self.castle_wq
            }
        } else {
            if kingside {
                self.castle_bk
            } else {
                self.castle_bq
            }
        };
        if !right {
            return ;
        }
        let empty_ok = if kingside {
            self.squares[(5 + 8 * row) as usize] == 0 && self.squares[(6 + 8 * row) as usize] == 0
        } else {
            self.squares[(1 + 8 * row) as usize] == 0 && self.squares[(2 + 8 * row) as usize] == 0
                && self.squares[(3 + 8 * row) as usize] == 0
        };
        if !empty_ok {
            return ;
        }
        let esq = BoardSquare(4 + 8 * row);
        let crossed = BoardSquare(
            if kingside {
                5 + 8 * row
            } else {
                3 + 8 * row
            },
        );
        let dest = BoardSquare(
            if kingside {
                6 + 8 * row
            } else {
                2 + 8 * row
            },
        );
        if self.count_attackers(enemy, &esq) == 0 && self.count_attackers(enemy, &crossed) == 0
            && self.count_attackers(enemy, &dest) == 0 {
            let m = BoardMove { from: esq, to: dest, kind: MoveKind::Castle { color, kingside } };
            proof {
                assert(m == BoardMove::castle_spec(color, kingside));
                assert(castle_legal(self@, color, kingside));
            }
            push_move(v, m, Ghost(self@), color);
            proof {
                assert(v@[v@.len() - 1] == m);
            }
        }
    }

    /// Try one fixed-offset move, for a knight or a king; a king's target
    /// must in addition be free of enemy attacks.
    fn try_jump(
        &self,
        color: BoardColor,
        from: BoardSquare,
        dx: i8,
        dy: i8,
        need_safe: bool,
        v: &mut Vec<BoardMove>,
    )
        requires
            self.wf(),
            color < 2,
            from.wf(),
            -8 <= dx <= 8,
            -8 <= dy <= 8,
            self@.at(from) != 0,
            spec_piece_color(self@.at(from)) == color,
            spec_piece_type(self@.at(from)) == KNIGHT || spec_piece_type(self@.at(from)) == KING,
            forall|d: Direction| !spec_pinned(self@, color, from, d),
            spec_piece_type(self@.at(from)) == KING ==> need_safe,
            match from.offset_spec(dx as int, dy as int) {
                Option::Some(t) => (spec_piece_type(self@.at(from)) == KNIGHT
                    ==> crate::attack::knight_attacks(from, t)) && (spec_piece_type(self@.at(from))
                    == KING ==> crate::attack::king_attacks(from, t)),
                Option::None => true,
            },
            moves_ok(self@, color, old(v)@),
        ensures
            moves_ok(self@, color, final(v)@),
            extends(old(v)@, final(v)@),
            match from.offset_spec(dx as int, dy as int) {
                Option::Some(t) => landing_ok(self@, color, t) && (need_safe
                    ==> !spec_attacked_by(self@, spec_enemy(color), t)) ==> final(v)@.contains(
                    BoardMove { from, to: t, kind: MoveKind::Normal },
                ),
                Option::None => true,
            },
    {
        if let Some(t) = from.offset_by(dx, dy) {
            let tc = self.squares[t.0 as usize];
            if tc == 0 || tc % 2 != color {
                if need_safe {
                    if self.count_attackers(1 - color, &t) != 0 {
                        return ;
                    }
                }
                let m = BoardMove { from, to: t, kind: MoveKind::Normal };
                proof {
                    assert(move_sound(self@, color, m));
                }
                push_move(v, m, Ghost(self@), color);
                proof {
                    assert(v@[v@.len() - 1] == m);
                }
            }
        }
    }

    /// Emit the moves of the knight on `from`; a pinned knight has none,
    /// so this is only reached unpinned.
    #[verifier::rlimit(50)]
    fn gen_knight_moves(&self, color: BoardColor, from: BoardSquare, v: &mut Vec<BoardMove>)
        requires
            self.wf(),
            color < 2,
            from.wf(),
            self@.at(from) == piece_code(color, KNIGHT),
            forall|d: Direction| !spec_pinned(self@, color, from, d),
            moves_ok(self@, color, old(v)@),
        ensures
            moves_ok(self@, color, final(v)@),
            extends(old(v)@, final(v)@),
            forall|to: BoardSquare|
                crate::attack::knight_attacks(from, to) && #[trigger] landing_ok(self@, color, to)
                    ==> final(v)@.contains(BoardMove { from, to, kind: MoveKind::Normal }),
    {
        self.try_jump(color, from, 1, 2, false, v);
        let ghost v1 = v@;
        self.try_jump(color, from, -1, 2, false, v);
        let ghost v2 = v@;
        self.try_jump(color, from, 1, -2, false, v);
        let ghost v3 = v@;
        self.try_jump(color, from, -1, -2, false, v);
        let ghost v4 = v@;
        self.try_jump(color, from, 2, 1, false, v);
        let ghost v5 = v@;
        self.try_jump(color, from, -2, 1, false, v);
        let ghost v6 = v@;
        self.try_jump(color, from, 2, -1, false, v);
        let ghost v7 = v@;
        self.try_jump(color, from, -2, -1, false, v);
        proof {
            assert forall|to: BoardSquare|
                crate::attack::knight_attacks(from, to) && #[trigger] landing_ok(
                    self@,
                    color,
                    to,
                ) implies v@.contains(BoardMove { from, to, kind: MoveKind::Normal }) by {
                let m = BoardMove { from, to, kind: MoveKind::Normal };
                let ddx = to.x_spec() - from.x_spec();
                let ddy = to.y_spec() - from.y_spec();
                lemma_offset_hits(from, to, ddx, ddy);
                if ddx == 1 && ddy == 2 {
                    assert(v1.contains(m));
                    lemma_extends_contains(v1, v@, m);
                } else if ddx == -1 && ddy == 2 {
                    assert(v2.contains(m));
                    lemma_extends_contains(v2, v@, m);
                } else if ddx == 1 && ddy == -2 {
                    assert(v3.contains(m));
                    lemma_extends_contains(v3, v@, m);
                } else if ddx == -1 && ddy == -2 {
                    assert(v4.contains(m));
                    lemma_extends_contains(v4, v@, m);
                } else if ddx == 2 && ddy == 1 {
                    assert(v5.contains(m));
                    lemma_extends_contains(v5, v@, m);
                } else if ddx == -2 && ddy == 1 {
                    assert(v6.contains(m));
                    lemma_extends_contains(v6, v@, m);
                } else if ddx == 2 && ddy == -1 {
                    assert(v7.contains(m));
                    lemma_extends_contains(v7, v@, m);
                } else {
                    assert(ddx == -2 && ddy == -1);
                }
            };
        }
    }

    /// Emit the moves of the king on `from`: the adjacent squares that are
    /// not held by its own side and that the other colour does not attack.
    #[verifier::rlimit(50)]
    fn gen_king_moves(&self, color: BoardColor, from: BoardSquare, v: &mut Vec<BoardMove>)
        requires
            self.wf(),
            color < 2,
            from.wf(),
            self@.at(from) == piece_code(color, KING),
            forall|d: Direction| !spec_pinned(self@, color, from, d),
            moves_ok(self@, color, old(v)@),
        ensures
            moves_ok(self@, color, final(v)@),
            extends(old(v)@, final(v)@),
            forall|to: BoardSquare|
                crate::attack::king_attacks(from, to) && #[trigger] landing_ok(self@, color, to)
                    && !spec_attacked_by(self@, spec_enemy(color), to) ==> final(v)@.contains(
                    BoardMove { from, to, kind: MoveKind::Normal },
                ),
    {
        self.try_jump(color, from, 0, 1, true, v);
        let ghost v1 = v@;
        self.try_jump(color, from, 0, -1, true, v);
        let ghost v2 = v@;
        self.try_jump(color, from, 1, 0, true, v);
        let ghost v3 = v@;
        self.try_jump(color, from, -1, 0, true, v);
        let ghost v4 = v@;
        self.try_jump(color, from, 1, 1, true, v);
        let ghost v5 = v@;
        self.try_jump(color, from, 1, -1, true, v);
        let ghost v6 = v@;
        self.try_jump(color, from, -1, 1, true, v);
        let ghost v7 = v@;
        self.try_jump(color, from, -1, -1, true, v);
        proof {
            assert forall|to: BoardSquare|
                crate::attack::king_attacks(from, to) && #[trigger] landing_ok(self@, color, to)
                    && !spec_attacked_by(self@, spec_enemy(color), to) implies v@.contains(
                BoardMove { from, to, kind: MoveKind::Normal },
            ) by {
                let m = BoardMove { from, to, kind: MoveKind::Normal };
                let ddx = to.x_spec() - from.x_spec();
                let ddy = to.y_spec() - from.y_spec();
                lemma_offset_hits(from, to, ddx, ddy);
                if ddx == 0 && ddy == 1 {
                    assert(v1.contains(m));
                    lemma_extends_contains(v1, v@, m);
                } else if ddx == 0 && ddy == -1 {
                    assert(v2.contains(m));
                    lemma_extends_contains(v2, v@, m);
                } else if ddx == 1 && ddy == 0 {
                    assert(v3.contains(m));
                    lemma_extends_contains(v3, v@, m);
                } else if ddx == -1 && ddy == 0 {
                    assert(v4.contains(m));
                    lemma_extends_contains(v4, v@, m);
                } else if ddx == 1 && ddy == 1 {
                    assert(v5.contains(m));
                    lemma_extends_contains(v5, v@, m);
                } else if ddx == 1 && ddy == -1 {
                    assert(v6.contains(m));
                    lemma_extends_contains(v6, v@, m);
                } else if ddx == -1 && ddy == 1 {
                    assert(v7.contains(m));
                    lemma_extends_contains(v7, v@, m);
                } else {
                    assert(ddx == -1 && ddy == -1);
                }
            };
        }
    }

    /// Emit the four promotion moves of a pawn step onto the last rank.
    fn push_promos(&self, color: BoardColor, from: BoardSquare, to: BoardSquare, v: &mut Vec<
        BoardMove,
    >)
        requires
            self.wf(),
            color < 2,
            from.wf(),
            to.wf(),
            self@.at(from) == piece_code(color, PAWN),
            self@.at(to) == 0 || spec_piece_color(self@.at(to)) == spec_enemy(color),
            to.y_spec() == promo_rank(color),
            geometry_ok(self@, color, from, to, false),
            forall|d: Direction|
                spec_pinned(self@, color, from, d) ==> #[trigger] along_pin_line(from, to, d),
            moves_ok(self@, color, old(v)@),
        ensures
            moves_ok(self@, color, final(v)@),
            extends(old(v)@, final(v)@),
            promos_in(final(v)@, from, to),
    {
        push_move(
            v,
            BoardMove { from, to, kind: MoveKind::Promotion { target: KNIGHT } },
            Ghost(self@),
            color,
        );
        let ghost a1 = v@;
        push_move(
            v,
            BoardMove { from, to, kind: MoveKind::Promotion { target: BISHOP } },
            Ghost(self@),
            color,
        );
        let ghost a2 = v@;
        push_move(
            v,
            BoardMove { from, to, kind: MoveKind::Promotion { target: ROOK } },
            Ghost(self@),
            color,
        );
        let ghost a3 = v@;
        push_move(
            v,
            BoardMove { from, to, kind: MoveKind::Promotion { target: QUEEN } },
            Ghost(self@),
            color,
        );
        proof {
            assert(a1[a1.len() - 1] == (BoardMove {
                from,
                to,
                kind: MoveKind::Promotion { target: KNIGHT },
            }));
            assert(a2[a2.len() - 1] == (BoardMove {
                from,
                to,
                kind: MoveKind::Promotion { target: BISHOP },
            }));
            assert(a3[a3.len() - 1] == (BoardMove {
                from,
                to,
                kind: MoveKind::Promotion { target: ROOK },
            }));
            assert(v@[v@.len() - 1] == (BoardMove {
                from,
                to,
                kind: MoveKind::Promotion { target: QUEEN },
            }));
            lemma_extends_contains(
                a1,
                v@,
                BoardMove { from, to, kind: MoveKind::Promotion { target: KNIGHT } },
            );
            lemma_extends_contains(
                a2,
                v@,
                BoardMove { from, to, kind: MoveKind::Promotion { target: BISHOP } },
            );
            lemma_extends_contains(
                a3,
                v@,
                BoardMove { from, to, kind: MoveKind::Promotion { target: ROOK } },
            );
        }
    }

    /// Try one diagonal pawn capture, ordinary or en passant.
    fn try_pawn_capture(
        &self,
        color: BoardColor,
        from: BoardSquare,
        dx: i8,
        dy: i8,
        pin: Option<Direction>,
        v: &mut Vec<BoardMove>,
    )
        requires
            self.wf(),
            color < 2,
            from.wf(),
            self@.at(from) == piece_code(color, PAWN),
            dx == 1 || dx == -1,
            dy as int == pawn_forward_dy(color),
            pin_result_ok(self@, color, from, pin),
            moves_ok(self@, color, old(v)@),
        ensures
            moves_ok(self@, color, final(v)@),
            extends(old(v)@, final(v)@),
            match pin {
                Option::None => pawn_capture_complete(self@, color, from, dx as int, final(v)@),
                Option::Some(d0) => capture_on_pin_line(d0, color, dx as int)
                    ==> pawn_capture_complete(self@, color, from, dx as int, final(v)@),
            },
    {
        let allowed = match pin {
            None => true,
            Some(d0) => (d0.dx() == dx && d0.dy() == dy) || (d0.dx() == 0 - dx && d0.dy() == 0
                - dy),
        };
        if !allowed {
            return ;
        }
        if let Some(t) = from.offset_by(dx, dy) {
            proof {
                assert forall|d: Direction|
                    spec_pinned(self@, color, from, d) implies #[trigger] along_pin_line(
                    from,
                    t,
                    d,
                ) by {
                    match pin {
                        Option::None => {},
                        Option::Some(d0) => {
                            assert(d == d0);
                            assert(t.x_spec() == from.x_spec() + dx as int);
                            assert(t.y_spec() == from.y_spec() + dy as int);
                            if d0.dx_spec() == dx as int {
                                assert(1 * d0.dx_spec() == d0.dx_spec());
                                assert(1 * d0.dy_spec() == d0.dy_spec());
                                assert(line_step(from, t, d0, 1));
                            } else {
                                assert((-1) * d0.dx_spec() == -d0.dx_spec());
                                assert((-1) * d0.dy_spec() == -d0.dy_spec());
                                assert(line_step(from, t, d0, -1));
                            }
                        },
                    }
                };
            }
            let tc = self.squares[t.0 as usize];
            let promo_row: u8 = if color == WHITE {
                0
            } else {
                7
            };
            if tc != 0 && tc % 2 != color {
                if t.y() == promo_row {
                    self.push_promos(color, from, t, v);
                } else {
                    push_move(
                        v,
                        BoardMove { from, to: t, kind: MoveKind::Normal },
                        Ghost(self@),
                        color,
                    );
                    proof {
                        assert(v@[v@.len() - 1] == (BoardMove {
                            from,
                            to: t,
                            kind: MoveKind::Normal,
                        }));
                    }
                }
            } else if tc == 0 {
                if let Some(ep) = self.en_passant_target_square() {
                    if ep.0 == t.0 && t.y() != promo_row {
                        if let Some(cap) = from.offset_by(dx, 0) {
                            let cc = self.squares[cap.0 as usize];
                            if cc != 0 && cc % 2 != color && cc % 16 - cc % 16 % 2 == PAWN {
                                let m = BoardMove { from, to: t, kind: MoveKind::EnPassant };
                                proof {
                                    assert(ep == t);
                                    assert(cap.0 == ep_capture_square(m).0);
                                    assert(cc == piece_code(spec_enemy(color), PAWN));
                                    assert(ep_move_sound(self@, color, m));
                                }
                                push_move(v, m, Ghost(self@), color);
                                proof {
                                    assert(v@[v@.len() - 1] == m);
                                }
                            }
                        }
                    }
                }
            }
        }
    }

    /// Emit the moves of the pawn on `from`: a single step onto an empty
    /// square, a double step from the home rank over two empty squares,
    /// the two diagonal captures, en passant, and promotions on the last
    /// rank; a pin suppresses every direction not on its line.
    #[verifier::rlimit(50)]
    fn gen_pawn_moves(
        &self,
        color: BoardColor,
        from: BoardSquare,
        pin: Option<Direction>,
        v: &mut Vec<BoardMove>,
    )
        requires
            self.wf(),
            color < 2,
            from.wf(),
            self@.at(from) == piece_code(color, PAWN),
            pin_result_ok(self@, color, from, pin),
            moves_ok(self@, color, old(v)@),
        ensures
            moves_ok(self@, color, final(v)@),
            extends(old(v)@, final(v)@),
            pin is None ==> pawn_moves_complete(self@, color, from, final(v)@),
            match pin {
                Option::Some(d0) => {
                    &&& ((d0 == Direction::N || d0 == Direction::S) ==> pawn_forward_complete(
                        self@,
                        color,
                        from,
                        final(v)@,
                    ))
                    &&& (capture_on_pin_line(d0, color, -1) ==> pawn_capture_complete(
                        self@,
                        color,
                        from,
                        -1,
                        final(v)@,
                    ))
                    &&& (capture_on_pin_line(d0, color, 1) ==> pawn_capture_complete(
                        self@,
                        color,
                        from,
                        1,
                        final(v)@,
                    ))
                },
                Option::None => true,
            },
    {
        let dy: i8 = if color == WHITE {
            -1
        } else {
            1
        };
        let promo_row: u8 = if color == WHITE {
            0
        } else {
            7
        };
        let home_row: u8 = if color == WHITE {
            6
        } else {
            1
        };
        let vertical_ok = match pin {
            None => true,
            Some(d0) => d0 == Direction::N || d0 == Direction::S,
        };
        if vertical_ok {
            if let Some(t1) = from.offset_by(0, dy) {
                if self.squares[t1.0 as usize] == 0 {
                    proof {
                        assert forall|d: Direction|
                            spec_pinned(self@, color, from, d) implies #[trigger] along_pin_line(
                            from,
                            t1,
                            d,
                        ) by {
                            match pin {
                                Option::None => {},
                                Option::Some(d0) => {
                                    assert(d == d0);
                                    assert(t1.x_spec() == from.x_spec());
                                    assert(t1.y_spec() == from.y_spec() + dy as int);
                                    if d0.dy_spec() == dy as int {
                                        assert(1 * d0.dx_spec() == d0.dx_spec());
                                        assert(1 * d0.dy_spec() == d0.dy_spec());
                                        assert(line_step(from, t1, d0, 1));
                                    } else {
                                        assert((-1) * d0.dx_spec() == -d0.dx_spec());
                                        assert((-1) * d0.dy_spec() == -d0.dy_spec());
                                        assert(line_step(from, t1, d0, -1));
                                    }
                                },
                            }
                        };
                    }
                    if t1.y() == promo_row {
                        self.push_promos(color, from, t1, v);
                    } else {
                        push_move(
                            v,
                            BoardMove { from, to: t1, kind: MoveKind::Normal },
                            Ghost(self@),
                            color,
                        );
                        proof {
                            assert(v@[v@.len() - 1] == (BoardMove {
                                from,
                                to: t1,
                                kind: MoveKind::Normal,
                            }));
                        }
                    }
                    let ghost vmid = v@;
                    if from.y() == home_row {
                        if let Some(t2) = from.offset_by(0, 2 * dy) {
                            if self.squares[t2.0 as usize] == 0 {
                                proof {
                                    assert forall|d: Direction|
                                        spec_pinned(
                                            self@,
                                            color,
                                            from,
                                            d,
                                        ) implies #[trigger] along_pin_line(from, t2, d) by {
                                        match pin {
                                            Option::None => {},
                                            Option::Some(d0) => {
                                                assert(d == d0);
                                                assert(t2.x_spec() == from.x_spec());
                                                assert(t2.y_spec() == from.y_spec() + 2 * (
                                                dy as int));
                                                if d0.dy_spec() == dy as int {
                                                    assert(2 * d0.dx_spec() == 0);
                                                    assert(2 * d0.dy_spec() == 2 * (dy as int));
                                                    assert(line_step(from, t2, d0, 2));
                                                } else {
                                                    assert((-2) * d0.dx_spec() == 0);
                                                    assert((-2) * d0.dy_spec() == 2 * (dy as int));
                                                    assert(line_step(from, t2, d0, -2));
                                                }
                                            },
                                        }
                                    };
                                }
                                push_move(
                                    v,
                                    BoardMove { from, to: t2, kind: MoveKind::Normal },
                                    Ghost(self@),
                                    color,
                                );
                                proof {
                                    assert(v@[v@.len() - 1] == (BoardMove {
                                        from,
                                        to: t2,
                                        kind: MoveKind::Normal,
                                    }));
                                    if t1.y_spec() != promo_rank(color) {
                                        lemma_extends_contains(
                                            vmid,
                                            v@,
                                            BoardMove { from, to: t1, kind: MoveKind::Normal },
                                        );
                                    } else {
                                        lemma_promos_extends(vmid, v@, from, t1);
                                    }
                                }
                            }
                        }
                    }
                }
            }
        }
        proof {
            if vertical_ok {
                assert(pawn_forward_complete(self@, color, from, v@));
            }
        }
        let ghost vfwd = v@;
        self.try_pawn_capture(color, from, -1, dy, pin, v);
        let ghost vcap = v@;
        self.try_pawn_capture(color, from, 1, dy, pin, v);
        proof {
            if vertical_ok {
                lemma_forward_extends(self@, color, from, vfwd, v@);
            }
            match pin {
                Option::None => {
                    lemma_capture_extends(self@, color, from, -1, vcap, v@);
                },
                Option::Some(d0) => {
                    if capture_on_pin_line(d0, color, -1) && pawn_capture_complete(
                        self@,
                        color,
                        from,
                        -1,
                        vcap,
                    ) {
                        lemma_capture_extends(self@, color, from, -1, vcap, v@);
                    }
                },
            }
        }
    }

    /// Walk one ray, emitting a move for each empty square and a capture
    /// on the first enemy occupant; the ray stops at any occupant.
    fn walk_ray_moves(
        &self,
        color: BoardColor,
        from: BoardSquare,
        d: Direction,
        pin: Option<Direction>,
        v: &mut Vec<BoardMove>,
    )
        requires
            self.wf(),
            color < 2,
            from.wf(),
            self@.at(from) != 0,
            spec_piece_color(self@.at(from)) == color,
            spec_piece_type(self@.at(from)) == BISHOP || spec_piece_type(self@.at(from)) == ROOK
                || spec_piece_type(self@.at(from)) == QUEEN,
            spec_piece_type(self@.at(from)) == ROOK ==> d.is_cardinal(),
            spec_piece_type(self@.at(from)) == BISHOP ==> d.is_ordinal(),
            pin_result_ok(self@, color, from, pin),
            dir_allowed(pin, d),
            moves_ok(self@, color, old(v)@),
        ensures
            moves_ok(self@, color, final(v)@),
            extends(old(v)@, final(v)@),
            forall|t: BoardSquare|
                crate::attack::sees_along(self@, from, t, d) && #[trigger] landing_ok(
                    self@,
                    color,
                    t,
                ) ==> final(v)@.contains((BoardMove { from, to: t, kind: MoveKind::Normal })),
    {
        let ghost v0 = v@;
        let ray = from.get_all_squares_in_direction(&d);
        proof {
            lemma_ray(from, d);
        }
        let mut idx: usize = 0;
        while idx < ray.len()
            invariant
                self.wf(),
                color < 2,
                from.wf(),
                self@.at(from) != 0,
                spec_piece_color(self@.at(from)) == color,
                spec_piece_type(self@.at(from)) == BISHOP || spec_piece_type(self@.at(from))
                    == ROOK || spec_piece_type(self@.at(from)) == QUEEN,
                spec_piece_type(self@.at(from)) == ROOK ==> d.is_cardinal(),
                spec_piece_type(self@.at(from)) == BISHOP ==> d.is_ordinal(),
                pin_result_ok(self@, color, from, pin),
                dir_allowed(pin, d),
                ray@ == from.ray_spec(d),
                idx <= ray@.len(),
                forall|t: int| 0 <= t < ray@.len() ==> (#[trigger] from.ray_spec(d)[t]).wf(),
                forall|t: int|
                    0 <= t < ray@.len() ==> (#[trigger] from.ray_spec(d)[t]).x_spec()
                        == from.x_spec() + (t + 1) * d.dx_spec() && from.ray_spec(d)[t].y_spec()
                        == from.y_spec() + (t + 1) * d.dy_spec(),
                moves_ok(self@, color, v@),
                extends(v0, v@),
                forall|k: int| 0 <= k < idx ==> self@.at(#[trigger] from.ray_spec(d)[k]) == 0,
                forall|k: int|
                    0 <= k < idx ==> v@.contains(
                        (BoardMove { from, to: from.ray_spec(d)[k], kind: MoveKind::Normal }),
                    ),
            ensures
                moves_ok(self@, color, v@),
                extends(v0, v@),
                idx <= ray@.len(),
                forall|k: int| 0 <= k < idx ==> self@.at(#[trigger] from.ray_spec(d)[k]) == 0,
                forall|k: int|
                    0 <= k < idx ==> v@.contains(
                        (BoardMove { from, to: from.ray_spec(d)[k], kind: MoveKind::Normal }),
                    ),
                idx < ray@.len() ==> self@.at(from.ray_spec(d)[idx as int]) != 0 && (landing_ok(
                    self@,
                    color,
                    from.ray_spec(d)[idx as int],
                ) ==> v@.contains(
                    (BoardMove {
                        from,
                        to: from.ray_spec(d)[idx as int],
                        kind: MoveKind::Normal,
                    }),
                )),
            decreases ray@.len() - idx,
        {
            let t = ray[idx];
            proof {
                assert forall|dp: Direction|
                    spec_pinned(self@, color, from, dp) implies #[trigger] along_pin_line(
                    from,
                    t,
                    dp,
                ) by {
                    match pin {
                        Option::None => {},
                        Option::Some(d0) => {
                            assert(dp == d0);
                            if d == d0 {
                                assert(line_step(from, t, d0, idx + 1));
                            } else {
                                assert(d == d0.opposite_spec());
                                assert(d.dx_spec() == -d0.dx_spec() && d.dy_spec()
                                    == -d0.dy_spec());
                                assert((idx + 1) * d.dx_spec() == (-(idx + 1)) * d0.dx_spec())
                                    by (nonlinear_arith)
                                    requires
                                        d.dx_spec() == -d0.dx_spec(),
                                ;
                                assert((idx + 1) * d.dy_spec() == (-(idx + 1)) * d0.dy_spec())
                                    by (nonlinear_arith)
                                    requires
                                        d.dy_spec() == -d0.dy_spec(),
                                ;
                                assert(line_step(from, t, d0, -(idx + 1)));
                            }
                        },
                    }
                };
            }
            proof {
                assert(crate::attack::sees_along(self@, from, t, d)) by {
                    assert(1 <= idx + 1 <= from.ray_spec(d).len() && from.ray_spec(d)[(idx + 1)
                        - 1] == t && (forall|i: int|
                        1 <= i < idx + 1 ==> self@.at(#[trigger] from.ray_spec(d)[i - 1]) == 0));
                };
                assert(slider_reaches(self@, from, t)) by {
                    if d.is_cardinal() {
                        assert(crate::attack::rook_reaches(self@, from, t));
                    } else {
                        assert(crate::attack::bishop_reaches(self@, from, t));
                    }
                };
            }
            let tc = self.squares[t.0 as usize];
            if tc == 0 {
                let ghost pv = v@;
                push_move(v, BoardMove { from, to: t, kind: MoveKind::Normal }, Ghost(self@), color);
                proof {
                    assert(v@[v@.len() - 1] == (BoardMove { from, to: t, kind: MoveKind::Normal }));
                    assert forall|k: int| 0 <= k < idx + 1 implies v@.contains(
                        (BoardMove { from, to: from.ray_spec(d)[k], kind: MoveKind::Normal }),
                    ) by {
                        if k < idx {
                            lemma_extends_contains(
                                pv,
                                v@,
                                BoardMove { from, to: from.ray_spec(d)[k], kind: MoveKind::Normal },
                            );
                        }
                    };
                }
                idx += 1;
            } else {
                if tc % 2 != color {
                    let ghost pv = v@;
                    push_move(
                        v,
                        BoardMove { from, to: t, kind: MoveKind::Normal },
                        Ghost(self@),
                        color,
                    );
                    proof {
                        assert(v@[v@.len() - 1] == (BoardMove {
                            from,
                            to: t,
                            kind: MoveKind::Normal,
                        }));
                        assert forall|k: int| 0 <= k < idx implies v@.contains(
                            (BoardMove { from, to: from.ray_spec(d)[k], kind: MoveKind::Normal }),
                        ) by {
                            lemma_extends_contains(
                                pv,
                                v@,
                                BoardMove { from, to: from.ray_spec(d)[k], kind: MoveKind::Normal },
                            );
                        };
                    }
                }
                break ;
            }
        }
        proof {
            assert forall|t: BoardSquare|
                crate::attack::sees_along(self@, from, t, d) && #[trigger] landing_ok(
                    self@,
                    color,
                    t,
                ) implies v@.contains((BoardMove { from, to: t, kind: MoveKind::Normal })) by {
                let n = choose|n: int|
                    1 <= n <= from.ray_spec(d).len() && #[trigger] from.ray_spec(d)[n - 1] == t && (
                    forall|i: int| 1 <= i < n ==> self@.at(#[trigger] from.ray_spec(d)[i - 1]) == 0);
                if n - 1 < idx {
                    assert(v@.contains(
                        (BoardMove { from, to: from.ray_spec(d)[n - 1], kind: MoveKind::Normal }),
                    ));
                } else if n - 1 == idx {
                    assert(idx < ray@.len());
                } else {
                    assert(idx < n - 1 < ray@.len());
                    assert(self@.at(from.ray_spec(d)[(idx + 1) - 1]) == 0);
                    assert(false);
                }
            };
        }
    }

    /// Emit the moves of the bishop, rook or queen on `from`: its rays,
    /// narrowed to the pin line when it is pinned.
    fn gen_slider_moves(
        &self,
        color: BoardColor,
        from: BoardSquare,
        pin: Option<Direction>,
        v: &mut Vec<BoardMove>,
    )
        requires
            self.wf(),
            color < 2,
            from.wf(),
            self@.at(from) != 0,
            spec_piece_color(self@.at(from)) == color,
            spec_piece_type(self@.at(from)) == BISHOP || spec_piece_type(self@.at(from)) == ROOK
                || spec_piece_type(self@.at(from)) == QUEEN,
            pin_result_ok(self@, color, from, pin),
            moves_ok(self@, color, old(v)@),
        ensures
            moves_ok(self@, color, final(v)@),
            extends(old(v)@, final(v)@),
            pin is None ==> forall|to: BoardSquare|
                slider_reaches(self@, from, to) && #[trigger] landing_ok(self@, color, to)
                    ==> final(v)@.contains((BoardMove { from, to, kind: MoveKind::Normal })),
            match pin {
                Option::Some(d0) => (spec_piece_type(self@.at(from)) == QUEEN || (spec_piece_type(
                    self@.at(from),
                ) == ROOK && d0.is_cardinal()) || (spec_piece_type(self@.at(from)) == BISHOP
                    && d0.is_ordinal())) ==> forall|to: BoardSquare|
                    (crate::attack::sees_along(self@, from, to, d0) || crate::attack::sees_along(
                        self@,
                        from,
                        to,
                        d0.opposite_spec(),
                    )) && #[trigger] landing_ok(self@, color, to) ==> final(v)@.contains(
                        (BoardMove { from, to, kind: MoveKind::Normal }),
                    ),
                Option::None => true,
            },
    {
        let ghost v0 = v@;
        let cell = self.squares[from.0 as usize];
        let kind = cell % 16 - cell % 16 % 2;
        let mut dirs: Vec<Direction> = Vec::new();
        match pin {
            Some(d0) => {
                let movable = kind == QUEEN || (kind == ROOK && dir_is_cardinal(&d0)) || (kind
                    == BISHOP && !dir_is_cardinal(&d0));
                if movable {
                    dirs.push(d0);
                    dirs.push(d0.opposite());
                    proof {
                        assert(d0.opposite_spec().is_cardinal() == d0.is_cardinal());
                    }
                }
            },
            None => {
                if kind == BISHOP {
                    dirs = Direction::ordinals();
                } else if kind == ROOK {
                    dirs = Direction::cardinals();
                } else {
                    dirs = Direction::compass_rose();
                }
            },
        }
        let mut di: usize = 0;
        while di < dirs.len()
            invariant
                self.wf(),
                color < 2,
                from.wf(),
                self@.at(from) != 0,
                spec_piece_color(self@.at(from)) == color,
                spec_piece_type(self@.at(from)) == BISHOP || spec_piece_type(self@.at(from))
                    == ROOK || spec_piece_type(self@.at(from)) == QUEEN,
                pin_result_ok(self@, color, from, pin),
                forall|t: int| 0 <= t < dirs@.len() ==> dir_allowed(pin, #[trigger] dirs@[t]),
                spec_piece_type(self@.at(from)) == ROOK ==> forall|t: int|
                    0 <= t < dirs@.len() ==> (#[trigger] dirs@[t]).is_cardinal(),
                spec_piece_type(self@.at(from)) == BISHOP ==> forall|t: int|
                    0 <= t < dirs@.len() ==> (#[trigger] dirs@[t]).is_ordinal(),
                di <= dirs@.len(),
                moves_ok(self@, color, v@),
                extends(v0, v@),
                forall|k: int, t: BoardSquare|
                    0 <= k < di && #[trigger] crate::attack::sees_along(self@, from, t, dirs@[k])
                        && landing_ok(self@, color, t) ==> v@.contains(
                        (BoardMove { from, to: t, kind: MoveKind::Normal }),
                    ),
            decreases dirs@.len() - di,
        {
            let dcur = dirs[di];
            let ghost pv = v@;
            self.walk_ray_moves(color, from, dcur, pin, v);
            proof {
                assert forall|k: int, t: BoardSquare|
                    0 <= k < di + 1 && #[trigger] crate::attack::sees_along(
                        self@,
                        from,
                        t,
                        dirs@[k],
                    ) && landing_ok(self@, color, t) implies v@.contains(
                    (BoardMove { from, to: t, kind: MoveKind::Normal }),
                ) by {
                    if k < di {
                        lemma_extends_contains(
                            pv,
                            v@,
                            BoardMove { from, to: t, kind: MoveKind::Normal },
                        );
                    } else {
                        assert(dirs@[k] == dcur);
                    }
                };
            }
            di += 1;
        }
        proof {
            match pin {
                Option::Some(d0) => {
                    let ty = spec_piece_type(self@.at(from));
                    if ty == QUEEN || (ty == ROOK && d0.is_cardinal()) || (ty == BISHOP
                        && d0.is_ordinal()) {
                        assert(dirs@.len() == 2 && dirs@[0] == d0 && dirs@[1]
                            == d0.opposite_spec());
                        assert forall|to: BoardSquare|
                            (crate::attack::sees_along(self@, from, to, d0)
                                || crate::attack::sees_along(self@, from, to, d0.opposite_spec()))
                                && #[trigger] landing_ok(self@, color, to) implies v@.contains(
                            (BoardMove { from, to, kind: MoveKind::Normal }),
                        ) by {
                            if crate::attack::sees_along(self@, from, to, d0) {
                                assert(crate::attack::sees_along(self@, from, to, dirs@[0]));
                            } else {
                                assert(crate::attack::sees_along(self@, from, to, dirs@[1]));
                            }
                        };
                    }
                },
                Option::None => {},
            }
            if pin is None {
                assert forall|to: BoardSquare|
                    slider_reaches(self@, from, to) && #[trigger] landing_ok(
                        self@,
                        color,
                        to,
                    ) implies v@.contains((BoardMove { from, to, kind: MoveKind::Normal })) by {
                    let ty = spec_piece_type(self@.at(from));
                    if (ty == ROOK || ty == QUEEN) && crate::attack::rook_reaches(
                        self@,
                        from,
                        to,
                    ) {
                        let dw = choose|dw: Direction|
                            dw.is_cardinal() && #[trigger] crate::attack::sees_along(
                                self@,
                                from,
                                to,
                                dw,
                            );
                        assert(dirs@.contains(dw)) by {
                            assert(dw == Direction::N || dw == Direction::E || dw == Direction::S
                                || dw == Direction::W);
                            if ty == ROOK {
                                if dw == Direction::N {
                                    assert(dirs@[0] == dw);
                                } else if dw == Direction::E {
                                    assert(dirs@[1] == dw);
                                } else if dw == Direction::S {
                                    assert(dirs@[2] == dw);
                                } else {
                                    assert(dirs@[3] == dw);
                                }
                            } else {
                                if dw == Direction::N {
                                    assert(dirs@[0] == dw);
                                } else if dw == Direction::E {
                                    assert(dirs@[2] == dw);
                                } else if dw == Direction::S {
                                    assert(dirs@[4] == dw);
                                } else {
                                    assert(dirs@[6] == dw);
                                }
                            }
                        };
                        let k = choose|k: int| 0 <= k < dirs@.len() && dirs@[k] == dw;
                        assert(crate::attack::sees_along(self@, from, to, dirs@[k]));
                    } else {
                        let dw = choose|dw: Direction|
                            dw.is_ordinal() && #[trigger] crate::attack::sees_along(
                                self@,
                                from,
                                to,
                                dw,
                            );
                        assert(dirs@.contains(dw)) by {
                            assert(dw == Direction::NE || dw == Direction::SE || dw
                                == Direction::SW || dw == Direction::NW);
                            if ty == BISHOP {
                                if dw == Direction::NE {
                                    assert(dirs@[0] == dw);
                                } else if dw == Direction::SE {
                                    assert(dirs@[1] == dw);
                                } else if dw == Direction::SW {
                                    assert(dirs@[2] == dw);
                                } else {
                                    assert(dirs@[3] == dw);
                                }
                            } else {
                                if dw == Direction::NE {
                                    assert(dirs@[1] == dw);
                                } else if dw == Direction::SE {
                                    assert(dirs@[3] == dw);
                                } else if dw == Direction::SW {
                                    assert(dirs@[5] == dw);
                                } else {
                                    assert(dirs@[7] == dw);
                                }
                            }
                        };
                        let k = choose|k: int| 0 <= k < dirs@.len() && dirs@[k] == dw;
                        assert(crate::attack::sees_along(self@, from, to, dirs@[k]));
                    }
                };
            }
        }
    }

    /// The full legal move list of one colour: every listed move is
    /// sound; applying any of them leaves the colour's king unattacked,
    /// which resolves a check and forbids uncovering one; and the list is
    /// exactly the king-safe part of a full candidate list in which
    /// nothing the colour is entitled to is missing. A position with two
    /// kings of one colour violates the generator's precondition.
    pub fn generate_color_moves(&self, color: BoardColor) -> (r: Vec<BoardMove>)
        requires
            self.wf(),
            self@.kings_unique(),
            color < 2,
        ensures
            moves_ok(self@, color, r@),
            self_check_free(self@, color, r@),
            exists|pre: Seq<BoardMove>|
                moves_ok(self@, color, pre) && #[trigger] gen_complete(self@, color, pre) && r@
                    == pre.filter(
                    |m: BoardMove| !spec_in_check(self@.apply_spec(m), color),
                ),
    {
        let mut moves: Vec<BoardMove> = Vec::new();
        let mut i: u8 = 0;
        while i < 64
            invariant
                self.wf(),
                self@.kings_unique(),
                color < 2,
                i <= 64,
                moves_ok(self@, color, moves@),
                forall|s: BoardSquare|
                    s.0 < i && #[trigger] unpinned_origin(self@, color, s) ==> origin_complete(
                        self@,
                        color,
                        s,
                        moves@,
                    ),
                forall|s: BoardSquare, d0: Direction|
                    s.0 < i && s.wf() && self@.at(s) != 0 && spec_piece_color(self@.at(s)) == color
                        && #[trigger] spec_pinned(self@, color, s, d0) ==> pinned_origin_complete(
                        self@,
                        color,
                        s,
                        d0,
                        moves@,
                    ),
            decreases 64 - i,
        {
            let from = BoardSquare(i);
            let cell = self.squares[i as usize];
            let ghost pv = moves@;
            if cell != 0 && cell % 2 == color {
                let kind = cell % 16 - cell % 16 % 2;
                let pin = self.pinned_direction_of(color, &from);
                proof {
                    if unpinned_origin(self@, color, from) && pin is Some {
                        assert(spec_pinned(self@, color, from, pin.unwrap()));
                        assert(false);
                    }
                }
                if kind == PAWN {
                    self.gen_pawn_moves(color, from, pin, &mut moves);
                } else if kind == KNIGHT {
                    if pin.is_none() {
                        self.gen_knight_moves(color, from, &mut moves);
                    }
                } else if kind == KING {
                    if pin.is_none() {
                        self.gen_king_moves(color, from, &mut moves);
                    }
                } else {
                    self.gen_slider_moves(color, from, pin, &mut moves);
                }
                proof {
                    assert forall|d0: Direction| #[trigger] spec_pinned(
                        self@,
                        color,
                        from,
                        d0,
                    ) implies pinned_origin_complete(self@, color, from, d0, moves@) by {
                        match pin {
                            Option::None => {
                                assert(false);
                            },
                            Option::Some(dp) => {
                                crate::attack::lemma_pin_unique(self@, color, from, d0, dp);
                            },
                        }
                    };
                }
            }
            proof {
                assert(extends(pv, moves@));
                assert forall|s: BoardSquare|
                    s.0 < i + 1 && #[trigger] unpinned_origin(self@, color, s) implies origin_complete(
                    self@,
                    color,
                    s,
                    moves@,
                ) by {
                    if s.0 < i {
                        lemma_origin_extends(self@, color, s, pv, moves@);
                    } else {
                        assert(s == from);
                    }
                };
                assert forall|s: BoardSquare, d0: Direction|
                    s.0 < i + 1 && s.wf() && self@.at(s) != 0 && spec_piece_color(self@.at(s))
                        == color && #[trigger] spec_pinned(
                        self@,
                        color,
                        s,
                        d0,
                    ) implies pinned_origin_complete(self@, color, s, d0, moves@) by {
                    if s.0 < i {
                        lemma_pinned_origin_extends(self@, color, s, d0, pv, moves@);
                    } else {
                        assert(s == from);
                    }
                };
            }
            i += 1;
        }
        let ghost vpieces = moves@;
        self.gen_castles(color, &mut moves);
        proof {
            assert forall|s: BoardSquare| #[trigger] unpinned_origin(self@, color, s) implies origin_complete(
                self@,
                color,
                s,
                moves@,
            ) by {
                assert(s.0 < 64);
                lemma_origin_extends(self@, color, s, vpieces, moves@);
            };
            assert forall|s: BoardSquare, d0: Direction|
                s.wf() && self@.at(s) != 0 && spec_piece_color(self@.at(s)) == color
                    && #[trigger] spec_pinned(self@, color, s, d0) implies pinned_origin_complete(
                self@,
                color,
                s,
                d0,
                moves@,
            ) by {
                assert(s.0 < 64);
                lemma_pinned_origin_extends(self@, color, s, d0, vpieces, moves@);
            };
        }
        let ghost pre = moves@;
        let ghost keeps = |m: BoardMove| !spec_in_check(self@.apply_spec(m), color);
        let mut kept: Vec<BoardMove> = Vec::new();
        let mut mi: usize = 0;
        proof {
            reveal_with_fuel(Seq::<_>::filter, 2);
            assert(moves@.take(0) =~= Seq::<BoardMove>::empty());
            assert(kept@ =~= moves@.take(0).filter(keeps));
        }
        while mi < moves.len()
            invariant
                self.wf(),
                color < 2,
                mi <= moves@.len(),
                pre == moves@,
                keeps == (|m: BoardMove| !spec_in_check(self@.apply_spec(m), color)),
                moves_ok(self@, color, moves@),
                moves_ok(self@, color, kept@),
                kept@ == moves@.take(mi as int).filter(keeps),
                forall|t: int|
                    0 <= t < kept@.len() ==> !spec_in_check(
                        self@.apply_spec(#[trigger] kept@[t]),
                        color,
                    ),
            decreases moves@.len() - mi,
        {
            let m = moves[mi];
            proof {
                assert(move_sound(self@, color, moves@[mi as int]));
            }
            let nb = self.create_board_from_move(&m);
            let ghost prev = kept@;
            if nb.is_king_safe(color) {
                kept.push(m);
                proof {
                    assert forall|t: int| 0 <= t < kept@.len() implies move_sound(
                        self@,
                        color,
                        #[trigger] kept@[t],
                    ) && !spec_in_check(self@.apply_spec(kept@[t]), color) by {
                        if t < kept@.len() - 1 {
                            assert(kept@[t] == prev[t]);
                        } else {
                            assert(kept@[t] == m);
                        }
                    };
                }
            }
            proof {
                reveal_with_fuel(Seq::<_>::filter, 2);
                assert(moves@.take(mi + 1) =~= moves@.take(mi as int) + seq![m]);
                Seq::filter_distributes_over_add(moves@.take(mi as int), seq![m], keeps);
                assert(seq![m].drop_last() =~= Seq::<BoardMove>::empty());
                assert(Seq::<BoardMove>::empty().filter(keeps) =~= Seq::<BoardMove>::empty());
                assert(seq![m].last() == m);
                if keeps(m) {
                    assert(seq![m].filter(keeps) =~= seq![m]);
                    assert(kept@ =~= prev + seq![m]);
                } else {
                    assert(seq![m].filter(keeps) =~= Seq::<BoardMove>::empty());
                    assert(kept@ =~= prev + Seq::<BoardMove>::empty());
                }
                assert(kept@ == moves@.take(mi + 1).filter(keeps));
            }
            mi += 1;
        }
        proof {
            assert(moves@.take(moves@.len() as int) =~= moves@);
            assert(kept@ == pre.filter(keeps));
            assert(moves_ok(self@, color, pre) && gen_complete(self@, color, pre));
        }
        kept
    }

    /// The full analysis of the position: both colours' legal moves, the
    /// piece lists, and the per-square occupants and attacker counts.
    /// The analysis is computed afresh; nothing is cached. Asking it of a
    /// position with two kings of one colour is a precondition violation.
    pub fn get_board_info(&self) -> (r: BoardInfo)
        requires
            self.wf(),
            self@.kings_unique(),
        ensures
            pieces_listing_ok(self@, r.board_pieces),
            r.square_control@.len() == 64,
            forall|i: int|
                0 <= i < 64 ==> (#[trigger] r.square_control@[i]).occupant == self@.piece_at(
                    BoardSquare(i as u8),
                ),
            forall|i: int, c: BoardColor|
                0 <= i < 64 && c < 2 ==> (#[trigger] r.square_control@[i].visibility[c as int]) as int
                    == crate::attack::attacker_count(self@, c, BoardSquare(i as u8), 64),
            forall|i: int, c: BoardColor|
                0 <= i < 64 && c < 2 ==> ((#[trigger] r.square_control@[i].visibility[c as int] > 0)
                    == spec_attacked_by(self@, c, BoardSquare(i as u8))),
            forall|c: BoardColor| c < 2 ==> moves_ok(self@, c, #[trigger] r.valid_moves[c as int]@),
            forall|c: BoardColor|
                c < 2 ==> self_check_free(self@, c, #[trigger] r.valid_moves[c as int]@),
            forall|c: BoardColor|
                c < 2 ==> exists|pre: Seq<BoardMove>|
                    moves_ok(self@, c, pre) && #[trigger] gen_complete(self@, c, pre)
                        && #[trigger] r.valid_moves[c as int]@ == pre.filter(
                        |m: BoardMove| !spec_in_check(self@.apply_spec(m), c),
                    ),
    {
        let mb = self.generate_color_moves(BLACK);
        let mw = self.generate_color_moves(WHITE);
        let ghost gb = mb@;
        let ghost gw = mw@;
        let r = BoardInfo {
            valid_moves: [mb, mw],
            board_pieces: self.get_pieces(),
            square_control: self.build_square_control(),
        };
        proof {
            assert(r.valid_moves[0]@ == gb);
            assert(r.valid_moves[1]@ == gw);
            assert forall|c: BoardColor| c < 2 implies moves_ok(
                self@,
                c,
                #[trigger] r.valid_moves[c as int]@,
            ) && self_check_free(self@, c, r.valid_moves[c as int]@) by {
                assert(c == BLACK || c == WHITE);
            };
            assert forall|c: BoardColor| c < 2 implies exists|pre: Seq<BoardMove>|
                moves_ok(self@, c, pre) && #[trigger] gen_complete(self@, c, pre)
                    && #[trigger] r.valid_moves[c as int]@ == pre.filter(
                    |m: BoardMove| !spec_in_check(self@.apply_spec(m), c),
                ) by {
                assert(c == BLACK || c == WHITE);
            };
        }
        r
    }
}

} // verus!
