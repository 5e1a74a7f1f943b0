//! The attack and pin analysis: which squares a piece sees, whether a
//! square is attacked by a colour, and absolute pins along rook and bishop
//! rays.
use crate::board::{
    Board, BoardColor, BoardSquare, Direction, Position, lemma_ray, lemma_square_coords,
    piece_code, spec_enemy, spec_piece_color, spec_piece_type, BISHOP, KING, KNIGHT, PAWN, QUEEN,
    ROOK, WHITE,
};
use vstd::prelude::*;

verus! {

broadcast use crate::board::lemma_board_view;

/// The row step of a pawn's forward move: white pawns move toward rank 8
/// (row 0), black pawns toward rank 1 (row 7).
pub open spec fn pawn_forward_dy(color: BoardColor) -> int {
    if color == WHITE {
        -1
    } else {
        1
    }
}

/// A pawn of a colour attacks the two squares diagonally ahead of it,
/// whether or not they are occupied.
pub open spec fn pawn_attacks(color: BoardColor, from: BoardSquare, to: BoardSquare) -> bool {
    &&& to.y_spec() == from.y_spec() + pawn_forward_dy(color)
    &&& (to.x_spec() == from.x_spec() + 1 || to.x_spec() == from.x_spec() - 1)
}

/// A knight attacks the eight squares an L-shaped offset away.
pub open spec fn knight_attacks(from: BoardSquare, to: BoardSquare) -> bool {
    let ax = crate::board::abs_int(to.x_spec() - from.x_spec());
    let ay = crate::board::abs_int(to.y_spec() - from.y_spec());
    (ax == 1 && ay == 2) || (ax == 2 && ay == 1)
}

/// A king attacks the up-to-eight adjacent squares.
pub open spec fn king_attacks(from: BoardSquare, to: BoardSquare) -> bool {
    let ax = crate::board::abs_int(to.x_spec() - from.x_spec());
    let ay = crate::board::abs_int(to.y_spec() - from.y_spec());
    ax <= 1 && ay <= 1 && !(ax == 0 && ay == 0)
}

/// A slider on `from` sees `to` along direction `d`: `to` lies on the ray
/// and every square strictly before it on the ray is empty. The square
/// `to` itself may be empty or occupied; a slider sees up to and including
/// the first occupant.
pub open spec fn sees_along(pos: Position, from: BoardSquare, to: BoardSquare, d: Direction) -> bool {
    exists|n: int|
        1 <= n <= from.ray_spec(d).len() && #[trigger] from.ray_spec(d)[n - 1] == to && (forall|
            i: int,
        |
            1 <= i < n ==> pos.at(#[trigger] from.ray_spec(d)[i - 1]) == 0)
}

/// A rook move: along one of the four cardinal directions, path clear.
pub open spec fn rook_reaches(pos: Position, from: BoardSquare, to: BoardSquare) -> bool {
    exists|d: Direction| d.is_cardinal() && #[trigger] sees_along(pos, from, to, d)
}

/// A bishop move: along one of the four ordinal directions, path clear.
pub open spec fn bishop_reaches(pos: Position, from: BoardSquare, to: BoardSquare) -> bool {
    exists|d: Direction| d.is_ordinal() && #[trigger] sees_along(pos, from, to, d)
}

/// The piece standing on `from` attacks the square `to`.
pub open spec fn spec_attacks(pos: Position, from: BoardSquare, to: BoardSquare) -> bool {
    let p = pos.at(from);
    let t = spec_piece_type(p);
    &&& p != 0
    &&& if t == PAWN {
        pawn_attacks(spec_piece_color(p), from, to)
    } else if t == KNIGHT {
        knight_attacks(from, to)
    } else if t == KING {
        king_attacks(from, to)
    } else if t == BISHOP {
        bishop_reaches(pos, from, to)
    } else if t == ROOK {
        rook_reaches(pos, from, to)
    } else if t == QUEEN {
        rook_reaches(pos, from, to) || bishop_reaches(pos, from, to)
    } else {
        false
    }
}

/// How many pieces of a colour attack the square, counted over the first
/// n origin squares: the square's visibility for that colour.
pub open spec fn attacker_count(pos: Position, color: BoardColor, to: BoardSquare, n: int) -> int
    decreases n,
{
    if n <= 0 {
        0
    } else {
        attacker_count(pos, color, to, n - 1) + if pos.at(BoardSquare((n - 1) as u8)) != 0
            && spec_piece_color(pos.at(BoardSquare((n - 1) as u8))) == color && spec_attacks(
            pos,
            BoardSquare((n - 1) as u8),
            to,
        ) {
            1int
        } else {
            0int
        }
    }
}

/// Some piece of a colour attacks the square: the square's visibility for
/// that colour is not zero.
pub open spec fn spec_attacked_by(pos: Position, color: BoardColor, to: BoardSquare) -> bool {
    exists|s: BoardSquare|
        s.wf() && pos.at(s) != 0 && spec_piece_color(pos.at(s)) == color && #[trigger] spec_attacks(
            pos,
            s,
            to,
        )
}

/// The colour's king stands on a square the other colour attacks.
pub open spec fn spec_in_check(pos: Position, color: BoardColor) -> bool {
    exists|k: BoardSquare|
        k.wf() && #[trigger] pos.at(k) == piece_code(color, KING) && spec_attacked_by(
            pos,
            spec_enemy(color),
            k,
        )
}

/// The slider kind that pins along a direction: rook or queen on the
/// cardinals, bishop or queen on the ordinals.
pub open spec fn pinning_kind(p: u8, d: Direction) -> bool {
    spec_piece_type(p) == QUEEN || (d.is_cardinal() && spec_piece_type(p) == ROOK) || (
    d.is_ordinal() && spec_piece_type(p) == BISHOP)
}

/// An absolute pin: walking from the colour's king along `d`, the first
/// occupied square is `sq` and holds a piece of the same colour, and the
/// next occupied square beyond it holds an enemy slider that moves along
/// `d`. Such a piece may move only along `d` or its opposite.
pub open spec fn spec_pinned(pos: Position, color: BoardColor, sq: BoardSquare, d: Direction) -> bool {
    exists|k: BoardSquare|
        k.wf() && pos.at(k) == piece_code(color, KING) && #[trigger] spec_pinned_from(
            pos,
            color,
            k,
            sq,
            d,
        )
}

/// The pin pattern along the ray from a given king square.
pub open spec fn spec_pinned_from(
    pos: Position,
    color: BoardColor,
    k: BoardSquare,
    sq: BoardSquare,
    d: Direction,
) -> bool {
    exists|i: int, j: int| #[trigger] pin_witness(pos, color, k, sq, d, i, j)
}

/// The two indices on the king's ray that witness a pin: the pinned piece
/// at `i`, the pinning slider at `j`, nothing but emptiness before and
/// between them.
pub open spec fn pin_witness(
    pos: Position,
    color: BoardColor,
    k: BoardSquare,
    sq: BoardSquare,
    d: Direction,
    i: int,
    j: int,
) -> bool {
    &&& 0 <= i < j < k.ray_spec(d).len()
    &&& k.ray_spec(d)[i] == sq
    &&& pos.at(sq) != 0
    &&& spec_piece_color(pos.at(sq)) == color
    &&& (forall|t: int| 0 <= t < i ==> pos.at(#[trigger] k.ray_spec(d)[t]) == 0)
    &&& (forall|t: int| i < t < j ==> pos.at(#[trigger] k.ray_spec(d)[t]) == 0)
    &&& pos.at(k.ray_spec(d)[j]) != 0
    &&& spec_piece_color(pos.at(k.ray_spec(d)[j])) == spec_enemy(color)
    &&& pinning_kind(pos.at(k.ray_spec(d)[j]), d)
}

/// With the kings unique, a pin of a colour can only run from that
/// colour's one king; no witness pair on its ray means no pin.
proof fn lemma_not_pinned(
    pos: Position,
    color: BoardColor,
    k: BoardSquare,
    sq: BoardSquare,
    d: Direction,
)
    requires
        pos.wf(),
        pos.kings_unique(),
        k.wf(),
        pos.at(k) == piece_code(color, KING),
        forall|i: int, j: int| !pin_witness(pos, color, k, sq, d, i, j),
    ensures
        !spec_pinned(pos, color, sq, d),
{
    if spec_pinned(pos, color, sq, d) {
        let k2 = choose|k2: BoardSquare|
            k2.wf() && pos.at(k2) == piece_code(color, KING) && #[trigger] spec_pinned_from(
                pos,
                color,
                k2,
                sq,
                d,
            );
        assert(spec_piece_type(piece_code(color, KING)) == KING);
        assert(k2.0 == k.0);
        assert(k2 == k);
        let (i, j): (int, int) = choose|i: int, j: int| #[trigger] pin_witness(
            pos,
            color,
            k2,
            sq,
            d,
            i,
            j,
        );
        assert(!pin_witness(pos, color, k, sq, d, i, j));
        assert(false);
    }
}

/// No square appears twice on a ray.
pub proof fn lemma_ray_distinct(s: BoardSquare, d: Direction)
    requires
        s.wf(),
    ensures
        forall|a: int, b: int|
            0 <= a < b < s.ray_spec(d).len() ==> #[trigger] s.ray_spec(d)[a] != #[trigger] s.ray_spec(
                d,
            )[b],
{
    lemma_ray(s, d);
    assert forall|a: int, b: int|
        0 <= a < b < s.ray_spec(d).len() implies #[trigger] s.ray_spec(d)[a]
        != #[trigger] s.ray_spec(d)[b] by {
        assert(d.dx_spec() != 0 || d.dy_spec() != 0);
        if s.ray_spec(d)[a] == s.ray_spec(d)[b] {
            assert((a + 1) * d.dx_spec() == (b + 1) * d.dx_spec());
            assert((a + 1) * d.dy_spec() == (b + 1) * d.dy_spec());
            assert(false) by (nonlinear_arith)
                requires
                    (a + 1) * d.dx_spec() == (b + 1) * d.dx_spec(),
                    (a + 1) * d.dy_spec() == (b + 1) * d.dy_spec(),
                    d.dx_spec() != 0 || d.dy_spec() != 0,
                    a != b,
            ;
        }
    };
}

/// A piece is pinned along at most one direction: the line from its king
/// through it is unique.
pub proof fn lemma_pin_unique(
    pos: Position,
    color: BoardColor,
    sq: BoardSquare,
    d1: Direction,
    d2: Direction,
)
    requires
        pos.wf(),
        pos.kings_unique(),
        spec_pinned(pos, color, sq, d1),
        spec_pinned(pos, color, sq, d2),
    ensures
        d1 == d2,
{
    let k1 = choose|k: BoardSquare|
        k.wf() && pos.at(k) == piece_code(color, KING) && #[trigger] spec_pinned_from(
            pos,
            color,
            k,
            sq,
            d1,
        );
    let k2 = choose|k: BoardSquare|
        k.wf() && pos.at(k) == piece_code(color, KING) && #[trigger] spec_pinned_from(
            pos,
            color,
            k,
            sq,
            d2,
        );
    assert(spec_piece_type(piece_code(color, KING)) == KING);
    assert(k1.0 == k2.0);
    assert(k1 == k2);
    let (i1, j1): (int, int) = choose|i: int, j: int| #[trigger] pin_witness(
        pos,
        color,
        k1,
        sq,
        d1,
        i,
        j,
    );
    let (i2, j2): (int, int) = choose|i: int, j: int| #[trigger] pin_witness(
        pos,
        color,
        k1,
        sq,
        d2,
        i,
        j,
    );
    lemma_ray(k1, d1);
    lemma_ray(k1, d2);
    assert(sq.x_spec() - k1.x_spec() == (i1 + 1) * d1.dx_spec());
    assert(sq.x_spec() - k1.x_spec() == (i2 + 1) * d2.dx_spec());
    assert(sq.y_spec() - k1.y_spec() == (i1 + 1) * d1.dy_spec());
    assert(sq.y_spec() - k1.y_spec() == (i2 + 1) * d2.dy_spec());
    assert(d1.dx_spec() == d2.dx_spec()) by (nonlinear_arith)
        requires
            i1 >= 0,
            i2 >= 0,
            -1 <= d1.dx_spec() <= 1,
            -1 <= d2.dx_spec() <= 1,
            (i1 + 1) * d1.dx_spec() == (i2 + 1) * d2.dx_spec(),
    ;
    assert(d1.dy_spec() == d2.dy_spec()) by (nonlinear_arith)
        requires
            i1 >= 0,
            i2 >= 0,
            -1 <= d1.dy_spec() <= 1,
            -1 <= d2.dy_spec() <= 1,
            (i1 + 1) * d1.dy_spec() == (i2 + 1) * d2.dy_spec(),
    ;
    assert(d1 == d2);
}

/// Whether a direction is one of the four cardinals.
pub fn dir_is_cardinal(d: &Direction) -> (r: bool)
    ensures
        r == d.is_cardinal(),
{
    match d {
        Direction::N => true,
        Direction::E => true,
        Direction::S => true,
        Direction::W => true,
        _ => false,
    }
}

impl Board {
    /// Whether the piece on `from`, if any, attacks the square `to`.
    pub fn attacks_square(&self, from: &BoardSquare, to: &BoardSquare) -> (r: bool)
        requires
            self.wf(),
            from.wf(),
            to.wf(),
        ensures
            r == spec_attacks(self@, *from, *to),
    {
        let p = self.squares[from.0 as usize];
        if p == 0 {
            return false;
        }
        let t = p % 16 - p % 16 % 2;
        let fx = from.x() as i16;
        let fy = from.y() as i16;
        let tx = to.x() as i16;
        let ty = to.y() as i16;
        if t == PAWN {
            let dy: i16 = if p % 2 == WHITE {
                -1
            } else {
                1
            };
            ty == fy + dy && (tx == fx + 1 || tx == fx - 1)
        } else if t == KNIGHT {
            let ax = if tx >= fx {
                tx - fx
            } else {
                fx - tx
            };
            let ay = if ty >= fy {
                ty - fy
            } else {
                fy - ty
            };
            (ax == 1 && ay == 2) || (ax == 2 && ay == 1)
        } else if t == KING {
            let ax = if tx >= fx {
                tx - fx
            } else {
                fx - tx
            };
            let ay = if ty >= fy {
                ty - fy
            } else {
                fy - ty
            };
            ax <= 1 && ay <= 1 && !(ax == 0 && ay == 0)
        } else if t == BISHOP {
            self.reaches_ordinal(from, to)
        } else if t == ROOK {
            self.reaches_cardinal(from, to)
        } else if t == QUEEN {
            self.reaches_cardinal(from, to) || self.reaches_ordinal(from, to)
        } else {
            false
        }
    }

    /// Whether `from` sees `to` along one fixed direction with a clear path.
    pub fn sees_in_direction(&self, from: &BoardSquare, to: &BoardSquare, dir: &Direction) -> (r:
        bool)
        requires
            self.wf(),
            from.wf(),
            to.wf(),
        ensures
            r == sees_along(self@, *from, *to, *dir),
    {
        let ray = from.get_all_squares_in_direction(dir);
        let mut j: usize = 0;
        while j < ray.len()
            invariant
                self.wf(),
                from.wf(),
                to.wf(),
                ray@ == from.ray_spec(*dir),
                j <= ray@.len(),
                forall|t: int|
                    0 <= t < j ==> from.ray_spec(*dir)[t] != *to && self@.at(
                        #[trigger] from.ray_spec(*dir)[t],
                    ) == 0,
            decreases ray@.len() - j,
        {
            let sq = ray[j];
            proof {
                lemma_ray(*from, *dir);
            }
            if sq.0 == to.0 {
                proof {
                    let n = j + 1 as int;
                    assert(from.ray_spec(*dir)[n - 1] == *to);
                    assert(forall|i: int|
                        1 <= i < n ==> self@.at(#[trigger] from.ray_spec(*dir)[i - 1]) == 0);
                }
                return true;
            }
            if self.squares[sq.0 as usize] != 0 {
                proof {
                    assert forall|n: int|
                        1 <= n <= from.ray_spec(*dir).len() && #[trigger] from.ray_spec(*dir)[n - 1]
                            == *to implies !(forall|i: int|
                        1 <= i < n ==> self@.at(#[trigger] from.ray_spec(*dir)[i - 1]) == 0) by {
                        assert(n - 1 > j);
                        assert(self@.at(from.ray_spec(*dir)[(j + 1) - 1]) != 0);
                    };
                }
                return false;
            }
            j += 1;
        }
        proof {
            assert forall|n: int|
                1 <= n <= from.ray_spec(*dir).len() implies #[trigger] from.ray_spec(*dir)[n - 1]
                != *to by {
                assert(from.ray_spec(*dir)[n - 1] != *to);
            };
        }
        false
    }

    /// Whether `from` sees `to` along some rook direction.
    pub fn reaches_cardinal(&self, from: &BoardSquare, to: &BoardSquare) -> (r: bool)
        requires
            self.wf(),
            from.wf(),
            to.wf(),
        ensures
            r == rook_reaches(self@, *from, *to),
    {
        if self.sees_in_direction(from, to, &Direction::N) {
            return true;
        }
        if self.sees_in_direction(from, to, &Direction::E) {
            return true;
        }
        if self.sees_in_direction(from, to, &Direction::S) {
            return true;
        }
        if self.sees_in_direction(from, to, &Direction::W) {
            return true;
        }
        proof {
            assert forall|d: Direction| d.is_cardinal() implies !sees_along(
                self@,
                *from,
                *to,
                d,
            ) by {
                assert(d == Direction::N || d == Direction::E || d == Direction::S || d
                    == Direction::W);
            };
        }
        false
    }

    /// Whether `from` sees `to` along some bishop direction.
    pub fn reaches_ordinal(&self, from: &BoardSquare, to: &BoardSquare) -> (r: bool)
        requires
            self.wf(),
            from.wf(),
            to.wf(),
        ensures
            r == bishop_reaches(self@, *from, *to),
    {
        if self.sees_in_direction(from, to, &Direction::NE) {
            return true;
        }
        if self.sees_in_direction(from, to, &Direction::SE) {
            return true;
        }
        if self.sees_in_direction(from, to, &Direction::SW) {
            return true;
        }
        if self.sees_in_direction(from, to, &Direction::NW) {
            return true;
        }
        proof {
            assert forall|d: Direction| d.is_ordinal() implies !sees_along(
                self@,
                *from,
                *to,
                d,
            ) by {
                assert(d == Direction::NE || d == Direction::SE || d == Direction::SW || d
                    == Direction::NW);
            };
        }
        false
    }

    /// How many pieces of a colour attack a square. The count is what
    /// king-safety and castling read: it is zero exactly when no piece of
    /// that colour attacks the square.
    pub fn count_attackers(&self, color: BoardColor, to: &BoardSquare) -> (r: u32)
        requires
            self.wf(),
            color < 2,
            to.wf(),
        ensures
            r as int == attacker_count(self@, color, *to, 64),
            (r > 0) == spec_attacked_by(self@, color, *to),
            r <= 64,
    {
        let mut count: u32 = 0;
        let mut i: u8 = 0;
        while i < 64
            invariant
                self.wf(),
                color < 2,
                to.wf(),
                i <= 64,
                count <= i,
                count as int == attacker_count(self@, color, *to, i as int),
                (count > 0) == exists|s: BoardSquare|
                    s.0 < i && s.wf() && self@.at(s) != 0 && spec_piece_color(self@.at(s)) == color
                        && #[trigger] spec_attacks(self@, s, *to),
            decreases 64 - i,
        {
            let sq = BoardSquare(i);
            let cell = self.squares[i as usize];
            if cell != 0 && cell % 2 == color && self.attacks_square(&sq, to) {
                count += 1;
                proof {
                    assert(spec_attacks(self@, sq, *to));
                }
            }
            i += 1;
            proof {
                if count > 0 {
                } else {
                    assert forall|s: BoardSquare|
                        s.0 < i && s.wf() && self@.at(s) != 0 && spec_piece_color(self@.at(s))
                            == color implies !(#[trigger] spec_attacks(self@, s, *to)) by {
                        if s.0 < i - 1 {
                        } else {
                            assert(s == sq);
                        }
                    };
                }
            }
        }
        proof {
            if count > 0 {
            } else {
                assert forall|s: BoardSquare|
                    s.wf() && self@.at(s) != 0 && spec_piece_color(self@.at(s))
                        == color implies !(#[trigger] spec_attacks(self@, s, *to)) by {
                    assert(s.0 < 64);
                };
            }
        }
        count
    }

    /// Whether `sq` is pinned against the king on `k` along direction `d`:
    /// the scan walks the ray from the king, as the pin pattern is defined.
    pub fn pinned_in_direction(
        &self,
        color: BoardColor,
        k: &BoardSquare,
        sq: &BoardSquare,
        d: &Direction,
    ) -> (r: bool)
        requires
            self.wf(),
            color < 2,
            k.wf(),
            sq.wf(),
            self@.at(*k) == piece_code(color, KING),
            self@.kings_unique(),
        ensures
            r == spec_pinned(self@, color, *sq, *d),
    {
        proof {
            lemma_ray(*k, *d);
            lemma_ray_distinct(*k, *d);
        }
        let ray = k.get_all_squares_in_direction(d);
        let mut idx: usize = 0;
        loop
            invariant
                self.wf(),
                color < 2,
                k.wf(),
                sq.wf(),
                self@.at(*k) == piece_code(color, KING),
                self@.kings_unique(),
                ray@ == k.ray_spec(*d),
                idx <= ray@.len(),
                forall|t: int| 0 <= t < ray@.len() ==> (#[trigger] k.ray_spec(*d)[t]).wf(),
                forall|t: int| 0 <= t < idx ==> self@.at(#[trigger] k.ray_spec(*d)[t]) == 0,
            ensures
                idx < ray@.len(),
                self@.at(k.ray_spec(*d)[idx as int]) != 0,
                forall|t: int| 0 <= t < idx ==> self@.at(#[trigger] k.ray_spec(*d)[t]) == 0,
            decreases ray@.len() - idx,
        {
            if idx >= ray.len() {
                proof {
                    assert forall|i2: int, j2: int|
                        !pin_witness(self@, color, *k, *sq, *d, i2, j2) by {
                        if pin_witness(self@, color, *k, *sq, *d, i2, j2) {
                            assert(self@.at(k.ray_spec(*d)[i2]) == 0);
                            assert(self@.at(*sq) != 0);
                            assert(false);
                        }
                    };
                    lemma_not_pinned(self@, color, *k, *sq, *d);
                }
                return false;
            }
            let cell = self.squares[ray[idx].0 as usize];
            if cell != 0 {
                break ;
            }
            idx += 1;
        }
        let first = ray[idx];
        let cell = self.squares[first.0 as usize];
        if !(first.0 == sq.0 && cell % 2 == color) {
            proof {
                assert forall|i2: int, j2: int|
                    !pin_witness(self@, color, *k, *sq, *d, i2, j2) by {
                    if pin_witness(self@, color, *k, *sq, *d, i2, j2) {
                        if i2 < idx {
                            assert(self@.at(k.ray_spec(*d)[i2]) == 0);
                            assert(false);
                        } else if i2 > idx {
                            assert(self@.at(k.ray_spec(*d)[idx as int]) == 0);
                            assert(false);
                        } else {
                            assert(first == *sq);
                            assert(false);
                        }
                    }
                };
                lemma_not_pinned(self@, color, *k, *sq, *d);
            }
            return false;
        }
        let mut j: usize = idx + 1;
        loop
            invariant
                self.wf(),
                color < 2,
                k.wf(),
                sq.wf(),
                self@.at(*k) == piece_code(color, KING),
                self@.kings_unique(),
                ray@ == k.ray_spec(*d),
                idx < j <= ray@.len(),
                forall|t: int| 0 <= t < ray@.len() ==> (#[trigger] k.ray_spec(*d)[t]).wf(),
                k.ray_spec(*d)[idx as int] == *sq,
                self@.at(*sq) != 0,
                spec_piece_color(self@.at(*sq)) == color,
                forall|t: int| 0 <= t < idx ==> self@.at(#[trigger] k.ray_spec(*d)[t]) == 0,
                forall|t: int| idx < t < j ==> self@.at(#[trigger] k.ray_spec(*d)[t]) == 0,
                forall|a: int, b: int|
                    0 <= a < b < k.ray_spec(*d).len() ==> #[trigger] k.ray_spec(*d)[a]
                        != #[trigger] k.ray_spec(*d)[b],
            decreases ray@.len() - j,
        {
            if j >= ray.len() {
                proof {
                    assert forall|i2: int, j2: int|
                        !pin_witness(self@, color, *k, *sq, *d, i2, j2) by {
                        if pin_witness(self@, color, *k, *sq, *d, i2, j2) {
                            if i2 != idx {
                                assert(k.ray_spec(*d)[i2] == k.ray_spec(*d)[idx as int]);
                                assert(false);
                            }
                            assert(self@.at(k.ray_spec(*d)[j2]) == 0);
                            assert(false);
                        }
                    };
                    lemma_not_pinned(self@, color, *k, *sq, *d);
                }
                return false;
            }
            let cell2 = self.squares[ray[j].0 as usize];
            if cell2 != 0 {
                let kind2 = cell2 % 16 - cell2 % 16 % 2;
                if cell2 % 2 != color && (kind2 == QUEEN || (dir_is_cardinal(d) && kind2 == ROOK)
                    || (!dir_is_cardinal(d) && kind2 == BISHOP)) {
                    proof {
                        assert(spec_piece_color(self@.at(k.ray_spec(*d)[j as int])) == spec_enemy(
                            color,
                        ));
                        assert(pinning_kind(self@.at(k.ray_spec(*d)[j as int]), *d));
                        assert(pin_witness(self@, color, *k, *sq, *d, idx as int, j as int));
                        assert(spec_pinned_from(self@, color, *k, *sq, *d));
                    }
                    return true;
                }
                proof {
                    assert forall|i2: int, j2: int|
                        !pin_witness(self@, color, *k, *sq, *d, i2, j2) by {
                        if pin_witness(self@, color, *k, *sq, *d, i2, j2) {
                            if i2 != idx {
                                assert(k.ray_spec(*d)[i2] == k.ray_spec(*d)[idx as int]);
                                assert(false);
                            }
                            if j2 < j {
                                assert(self@.at(k.ray_spec(*d)[j2]) == 0);
                                assert(false);
                            } else if j2 > j {
                                assert(self@.at(k.ray_spec(*d)[j as int]) == 0);
                                assert(false);
                            } else {
                                assert(!(spec_piece_color(self@.at(k.ray_spec(*d)[j2]))
                                    == spec_enemy(color) && pinning_kind(
                                    self@.at(k.ray_spec(*d)[j2]),
                                    *d,
                                )));
                                assert(false);
                            }
                        }
                    };
                    lemma_not_pinned(self@, color, *k, *sq, *d);
                }
                return false;
            }
            j += 1;
        }
    }

    /// The direction a piece of a colour is pinned along, if it is pinned.
    pub fn pinned_direction_of(&self, color: BoardColor, sq: &BoardSquare) -> (r: Option<Direction>)
        requires
            self.wf(),
            color < 2,
            sq.wf(),
            self@.kings_unique(),
        ensures
            match r {
                Option::Some(d) => spec_pinned(self@, color, *sq, d) && (forall|d2: Direction|
                    d2 != d ==> !spec_pinned(self@, color, *sq, d2)),
                Option::None => forall|d2: Direction| !spec_pinned(self@, color, *sq, d2),
            },
    {
        let king = match self.find_king(color) {
            Some(k) => k,
            None => {
                return None;
            },
        };
        let dirs = Direction::compass_rose();
        let mut i: usize = 0;
        while i < 8
            invariant
                self.wf(),
                color < 2,
                sq.wf(),
                self@.kings_unique(),
                king.wf(),
                self@.at(king) == piece_code(color, KING),
                dirs@.len() == 8,
                dirs@ == seq![
                    Direction::N,
                    Direction::NE,
                    Direction::E,
                    Direction::SE,
                    Direction::S,
                    Direction::SW,
                    Direction::W,
                    Direction::NW,
                ],
                i <= 8,
                forall|t: int| 0 <= t < i ==> !spec_pinned(self@, color, *sq, #[trigger] dirs@[t]),
            decreases 8 - i,
        {
            let d = dirs[i];
            if self.pinned_in_direction(color, &king, sq, &d) {
                proof {
                    assert forall|d2: Direction| d2 != d implies !spec_pinned(
                        self@,
                        color,
                        *sq,
                        d2,
                    ) by {
                        if spec_pinned(self@, color, *sq, d2) {
                            lemma_pin_unique(self@, color, *sq, d, d2);
                        }
                    };
                }
                return Some(d);
            }
            i += 1;
        }
        proof {
            assert forall|d2: Direction| !spec_pinned(self@, color, *sq, d2) by {
                assert(d2 == Direction::N || d2 == Direction::NE || d2 == Direction::E || d2
                    == Direction::SE || d2 == Direction::S || d2 == Direction::SW || d2
                    == Direction::W || d2 == Direction::NW);
                assert(dirs@.contains(d2)) by {
                    if d2 == Direction::N {
                        assert(dirs@[0] == d2);
                    } else if d2 == Direction::NE {
                        assert(dirs@[1] == d2);
                    } else if d2 == Direction::E {
                        assert(dirs@[2] == d2);
                    } else if d2 == Direction::SE {
                        assert(dirs@[3] == d2);
                    } else if d2 == Direction::S {
                        assert(dirs@[4] == d2);
                    } else if d2 == Direction::SW {
                        assert(dirs@[5] == d2);
                    } else {
                        assert(dirs@[6] == d2 || dirs@[7] == d2);
                    }
                };
                let t = choose|t: int| 0 <= t < dirs@.len() && dirs@[t] == d2;
                assert(!spec_pinned(self@, color, *sq, dirs@[t]));
            };
        }
        None
    }

    /// The square of the colour's king, or None when that king is absent.
    pub fn find_king(&self, color: BoardColor) -> (r: Option<BoardSquare>)
        requires
            self.wf(),
            color < 2,
        ensures
            match r {
                Option::Some(k) => k.wf() && self@.at(k) == piece_code(color, KING),
                Option::None => forall|s: BoardSquare|
                    s.wf() ==> #[trigger] self@.at(s) != piece_code(color, KING),
            },
    {
        let mut i: u8 = 0;
        while i < 64
            invariant
                self.wf(),
                color < 2,
                i <= 64,
                forall|s: BoardSquare|
                    s.0 < i ==> #[trigger] self@.at(s) != piece_code(color, KING),
            decreases 64 - i,
        {
            if self.squares[i as usize] == KING + color {
                return Some(BoardSquare(i));
            }
            i += 1;
        }
        None
    }
}

} // verus!
