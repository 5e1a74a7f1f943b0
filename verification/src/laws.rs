//! The guarantees the generator and the applier give together, stated as
//! theorems over the same specifications their contracts use.
use crate::apply::{ep_capture_square, passed_over_square};
use crate::attack::{spec_attacked_by, spec_pinned};
use crate::board::{
    BoardColor, BoardMove, BoardSquare, Direction, MoveKind, Position, piece_code, spec_enemy,
    spec_piece_color, spec_piece_type, KING, KNIGHT, PAWN, ROOK,
};
use crate::attack::spec_in_check;
use crate::movegen::{
    along_pin_line, castle_legal, castle_row, ep_move_sound, gen_complete, lemma_filter_keeps,
    lemma_filter_member, move_sound, moves_ok,
};
use vstd::prelude::*;

verus! {

/// No sound move lands on a square occupied by a piece of the side that
/// moves: an ordinary destination is empty or an enemy, and a castle's
/// destination is one of the squares its legality requires empty.
pub proof fn lemma_no_own_capture(pos: Position, c: BoardColor, m: BoardMove)
    requires
        pos.wf(),
        c < 2,
        move_sound(pos, c, m),
    ensures
        pos.at(m.to) == 0 || spec_piece_color(pos.at(m.to)) != c,
{
    match m.kind {
        MoveKind::Castle { color, kingside } => {
            assert(m == BoardMove::castle_spec(color, kingside));
            assert(pos.at(m.to) == 0);
        },
        _ => {},
    }
}

/// Applying a sound non-castle move toggles the side to move exactly
/// once, empties the origin, and puts on the destination the piece that
/// left the origin, or the promotion target in its colour; every other
/// square keeps its occupant, except the square an en-passant capture
/// clears.
pub proof fn lemma_apply_move(pos: Position, c: BoardColor, m: BoardMove)
    requires
        pos.wf(),
        c < 2,
        move_sound(pos, c, m),
        !(m.kind is Castle),
    ensures
        pos.apply_spec(m).active == spec_enemy(pos.active),
        pos.apply_spec(m).at(m.from) == 0,
        pos.apply_spec(m).at(m.to) == (match m.kind {
            MoveKind::Promotion { target } => piece_code(spec_piece_color(pos.at(m.from)), target),
            _ => pos.at(m.from),
        }),
        forall|s: BoardSquare|
            s.wf() && s != m.from && s != m.to && !(m.kind is EnPassant && s == ep_capture_square(
                m,
            )) ==> pos.apply_spec(m).at(s) == pos.at(s),
{
    assert(spec_piece_color(pos.at(m.from)) == c);
    assert(pos.at(m.to) == 0 || spec_piece_color(pos.at(m.to)) == spec_enemy(c));
    assert(m.to != m.from);
    if m.kind is EnPassant {
        assert(ep_move_sound(pos, c, m));
        let cap = ep_capture_square(m);
        assert(cap.y_spec() == m.from.y_spec());
        assert(m.to.y_spec() != m.from.y_spec());
        assert(cap != m.to);
        assert(cap.x_spec() == m.to.x_spec());
        assert(m.to.x_spec() != m.from.x_spec());
        assert(cap != m.from);
    }
}

/// Applying a castle relocates the king and its rook in the one move,
/// clears both of that colour's rights, clears the en-passant target,
/// and toggles the side to move.
pub proof fn lemma_apply_castle(pos: Position, color: BoardColor, kingside: bool)
    requires
        pos.wf(),
        color < 2,
    ensures
        pos.apply_spec(BoardMove::castle_spec(color, kingside)).at(
            BoardSquare((4 + 8 * castle_row(color)) as u8),
        ) == 0,
        pos.apply_spec(BoardMove::castle_spec(color, kingside)).at(
            BoardSquare(
                (if kingside {
                    7 + 8 * castle_row(color)
                } else {
                    8 * castle_row(color)
                }) as u8,
            ),
        ) == 0,
        pos.apply_spec(BoardMove::castle_spec(color, kingside)).at(
            BoardSquare(
                (if kingside {
                    6 + 8 * castle_row(color)
                } else {
                    2 + 8 * castle_row(color)
                }) as u8,
            ),
        ) == piece_code(color, KING),
        pos.apply_spec(BoardMove::castle_spec(color, kingside)).at(
            BoardSquare(
                (if kingside {
                    5 + 8 * castle_row(color)
                } else {
                    3 + 8 * castle_row(color)
                }) as u8,
            ),
        ) == piece_code(color, ROOK),
        !pos.apply_spec(BoardMove::castle_spec(color, kingside)).has_right(color, true),
        !pos.apply_spec(BoardMove::castle_spec(color, kingside)).has_right(color, false),
        pos.apply_spec(BoardMove::castle_spec(color, kingside)).en_passant is None,
        pos.apply_spec(BoardMove::castle_spec(color, kingside)).active == spec_enemy(pos.active),
{
}

/// A sound move from a pinned origin square runs along the pin line, and
/// its mover is never a knight: a pinned knight generates nothing.
pub proof fn lemma_pin_restriction(pos: Position, c: BoardColor, m: BoardMove, d: Direction)
    requires
        pos.wf(),
        c < 2,
        move_sound(pos, c, m),
        !(m.kind is Castle),
        spec_pinned(pos, c, m.from, d),
    ensures
        along_pin_line(m.from, m.to, d),
        spec_piece_type(pos.at(m.from)) != KNIGHT,
{
}

/// A sound king step never enters a square the other colour attacks.
pub proof fn lemma_king_safety(pos: Position, c: BoardColor, m: BoardMove)
    requires
        pos.wf(),
        c < 2,
        move_sound(pos, c, m),
        !(m.kind is Castle),
        spec_piece_type(pos.at(m.from)) == KING,
    ensures
        !spec_attacked_by(pos, spec_enemy(c), m.to),
{
}

/// A sound castle presupposes the right still held, an empty path
/// between king and rook, and no enemy attack on any square the king
/// stands on, crosses or lands on.
pub proof fn lemma_castle_requirements(pos: Position, c: BoardColor, m: BoardMove, kingside: bool)
    requires
        pos.wf(),
        c < 2,
        move_sound(pos, c, m),
        m.kind == (MoveKind::Castle { color: c, kingside }),
    ensures
        pos.has_right(c, kingside),
        kingside ==> pos.squares[5 + 8 * castle_row(c)] == 0 && pos.squares[6 + 8 * castle_row(c)]
            == 0,
        !kingside ==> pos.squares[1 + 8 * castle_row(c)] == 0 && pos.squares[2 + 8 * castle_row(c)]
            == 0 && pos.squares[3 + 8 * castle_row(c)] == 0,
        !spec_attacked_by(pos, spec_enemy(c), BoardSquare((4 + 8 * castle_row(c)) as u8)),
        kingside ==> !spec_attacked_by(pos, spec_enemy(c), BoardSquare((5 + 8 * castle_row(c)) as u8))
            && !spec_attacked_by(pos, spec_enemy(c), BoardSquare((6 + 8 * castle_row(c)) as u8)),
        !kingside ==> !spec_attacked_by(pos, spec_enemy(c), BoardSquare((3 + 8 * castle_row(c)) as u8))
            && !spec_attacked_by(pos, spec_enemy(c), BoardSquare((2 + 8 * castle_row(c)) as u8)),
{
    assert(castle_legal(pos, c, kingside));
}

/// A castle identity stands in a generated move list exactly when it is
/// legal and, once applied, leaves its king unattacked. The generator's
/// contract exhibits its list as the king-safe filter of a sound and
/// complete candidate list; this closes that into the equivalence.
pub proof fn lemma_castle_emitted_iff(
    pos: Position,
    c: BoardColor,
    kingside: bool,
    pre: Seq<BoardMove>,
    ms: Seq<BoardMove>,
)
    requires
        pos.wf(),
        c < 2,
        moves_ok(pos, c, pre),
        gen_complete(pos, c, pre),
        ms == pre.filter(|m: BoardMove| !spec_in_check(pos.apply_spec(m), c)),
    ensures
        ms.contains(BoardMove::castle_spec(c, kingside)) <==> (castle_legal(pos, c, kingside)
            && !spec_in_check(pos.apply_spec(BoardMove::castle_spec(c, kingside)), c)),
{
    let m = BoardMove::castle_spec(c, kingside);
    let pred = |m2: BoardMove| !spec_in_check(pos.apply_spec(m2), c);
    if castle_legal(pos, c, kingside) && !spec_in_check(pos.apply_spec(m), c) {
        lemma_filter_keeps(pre, ms, pred, m);
    }
    if ms.contains(m) {
        lemma_filter_member(pre, pred, m);
        let i = choose|i: int| 0 <= i < pre.len() && pre[i] == m;
        assert(move_sound(pos, c, pre[i]));
    }
}

/// An en-passant capture is sound only while the position's target is
/// its destination; the target exists only on the move made directly
/// after a two-square pawn advance, which identifies that advance.
pub proof fn lemma_ep_window(
    prev: Position,
    pm: BoardMove,
    pos: Position,
    c: BoardColor,
    m: BoardMove,
)
    requires
        prev.wf(),
        pm.wf(),
        pos == prev.apply_spec(pm),
        c < 2,
        move_sound(pos, c, m),
        m.kind is EnPassant,
    ensures
        !(pm.kind is Castle),
        spec_piece_type(prev.at(pm.from)) == PAWN,
        pm.from.x_spec() == pm.to.x_spec(),
        pm.from.y_spec() - pm.to.y_spec() == 2 || pm.to.y_spec() - pm.from.y_spec() == 2,
        m.to == BoardSquare(((pm.from.0 + pm.to.0) / 2) as u8),
{
    assert(ep_move_sound(pos, c, m));
    assert(pos.en_passant == Option::Some(m.to));
    match pm.kind {
        MoveKind::Castle { .. } => {
            assert(pos.en_passant is None);
        },
        _ => {
            assert(pos.en_passant == passed_over_square(prev, pm));
        },
    }
}

/// An en-passant capture removes the passed pawn, which stands beside
/// the capturer, and not any piece on the destination square.
pub proof fn lemma_ep_capture(pos: Position, c: BoardColor, m: BoardMove)
    requires
        pos.wf(),
        c < 2,
        move_sound(pos, c, m),
        m.kind is EnPassant,
    ensures
        pos.at(ep_capture_square(m)) == piece_code(spec_enemy(c), PAWN),
        pos.apply_spec(m).at(ep_capture_square(m)) == 0,
        pos.apply_spec(m).at(m.to) == pos.at(m.from),
        ep_capture_square(m) != m.to,
{
    assert(ep_move_sound(pos, c, m));
    let cap = ep_capture_square(m);
    assert(cap.y_spec() == m.from.y_spec());
    assert(m.to.y_spec() != m.from.y_spec());
    assert(cap != m.to);
}

} // verus!
