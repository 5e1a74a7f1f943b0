//! Board geometry, piece and colour codes, squares, directions, moves, and
//! the packed position value.
use vstd::prelude::*;
use vstd::string::*;

verus! {

/// A colour: `BLACK` or `WHITE`.
pub type BoardColor = u8;

pub const BLACK: BoardColor = 0;

pub const WHITE: BoardColor = 1;

/// A piece kind, always even; a piece code is kind + colour.
pub type BoardPieceType = u8;

pub const PAWN: BoardPieceType = 2;

pub const KNIGHT: BoardPieceType = 4;

pub const BISHOP: BoardPieceType = 6;

pub const ROOK: BoardPieceType = 8;

pub const QUEEN: BoardPieceType = 10;

pub const KING: BoardPieceType = 12;

/// A piece code: 0 for an empty square, otherwise kind + colour.
pub type BoardPiece = u8;

/// The twelve piece codes are exactly the values 2 through 13.
pub open spec fn valid_piece(p: u8) -> bool {
    PAWN <= p <= KING + WHITE
}

/// What one cell of the board may hold: empty, or a piece.
pub open spec fn valid_cell(p: u8) -> bool {
    p == 0 || valid_piece(p)
}

pub open spec fn spec_is_piece(p: u8) -> bool {
    p % 16 != 0
}

pub open spec fn spec_piece_color(p: u8) -> BoardColor {
    p % 2
}

pub open spec fn spec_piece_type(p: u8) -> BoardPieceType {
    ((p % 16) - (p % 16) % 2) as u8
}

/// The piece code for a kind of a colour.
pub open spec fn piece_code(color: BoardColor, kind: BoardPieceType) -> BoardPiece {
    (kind + color) as u8
}

/// The other colour.
pub open spec fn spec_enemy(color: BoardColor) -> BoardColor {
    (1 - color) as u8
}

/// Whether a cell code holds a piece at all.
pub fn is_piece(possible_piece: BoardPiece) -> (r: bool)
    ensures
        r == spec_is_piece(possible_piece),
{
    possible_piece % 16 != 0
}

/// The kind of a piece code, its colour bit dropped.
pub fn get_piece_type(piece: BoardPiece) -> (r: BoardPieceType)
    ensures
        r == spec_piece_type(piece),
{
    let low = piece % 16;
    low - low % 2
}

/// The colour of a piece code.
pub fn get_piece_color(piece: BoardPiece) -> (r: BoardColor)
    ensures
        r == spec_piece_color(piece),
{
    piece % 2
}

/// One of the eight compass directions. The board is indexed from the top
/// left corner (rank 8, file a), so north decreases the row index and east
/// increases the file index.
#[derive(PartialEq, Eq, Structural, Clone, Copy, Debug, Hash, PartialOrd, Ord)]
pub enum Direction {
    N,
    NE,
    E,
    SE,
    S,
    SW,
    W,
    NW,
}

impl Direction {
    /// Change of the file index for one step.
    pub open spec fn dx_spec(self) -> int {
        match self {
            Direction::N => 0,
            Direction::NE => 1,
            Direction::E => 1,
            Direction::SE => 1,
            Direction::S => 0,
            Direction::SW => -1,
            Direction::W => -1,
            Direction::NW => -1,
        }
    }

    /// Change of the row index for one step.
    pub open spec fn dy_spec(self) -> int {
        match self {
            Direction::N => -1,
            Direction::NE => -1,
            Direction::E => 0,
            Direction::SE => 1,
            Direction::S => 1,
            Direction::SW => 1,
            Direction::W => 0,
            Direction::NW => -1,
        }
    }

    pub fn dx(&self) -> (r: i8)
        ensures
            r as int == self.dx_spec(),
    {
        match self {
            Direction::N => 0,
            Direction::NE => 1,
            Direction::E => 1,
            Direction::SE => 1,
            Direction::S => 0,
            Direction::SW => -1,
            Direction::W => -1,
            Direction::NW => -1,
        }
    }

    pub fn dy(&self) -> (r: i8)
        ensures
            r as int == self.dy_spec(),
    {
        match self {
            Direction::N => -1,
            Direction::NE => -1,
            Direction::E => 0,
            Direction::SE => 1,
            Direction::S => 1,
            Direction::SW => 1,
            Direction::W => 0,
            Direction::NW => -1,
        }
    }

    /// The opposite direction.
    pub open spec fn opposite_spec(self) -> Direction {
        match self {
            Direction::N => Direction::S,
            Direction::NE => Direction::SW,
            Direction::E => Direction::W,
            Direction::SE => Direction::NW,
            Direction::S => Direction::N,
            Direction::SW => Direction::NE,
            Direction::W => Direction::E,
            Direction::NW => Direction::SE,
        }
    }

    pub fn opposite(&self) -> (r: Direction)
        ensures
            r == self.opposite_spec(),
    {
        match self {
            Direction::N => Direction::S,
            Direction::NE => Direction::SW,
            Direction::E => Direction::W,
            Direction::SE => Direction::NW,
            Direction::S => Direction::N,
            Direction::SW => Direction::NE,
            Direction::W => Direction::E,
            Direction::NW => Direction::SE,
        }
    }

    /// The change of the packed square index for one step, as the index
    /// wraps around in an eight-bit value.
    pub open spec fn pos_delta_spec(self) -> u8 {
        match self {
            Direction::N => 248,
            Direction::NE => 249,
            Direction::E => 1,
            Direction::SE => 9,
            Direction::S => 8,
            Direction::SW => 7,
            Direction::W => 255,
            Direction::NW => 247,
        }
    }

    pub fn as_square_pos_delta(&self) -> (r: u8)
        ensures
            r == self.pos_delta_spec(),
    {
        match self {
            Direction::N => 248,
            Direction::NE => 249,
            Direction::E => 1,
            Direction::SE => 9,
            Direction::S => 8,
            Direction::SW => 7,
            Direction::W => 255,
            Direction::NW => 247,
        }
    }

    /// Whether this is a rook direction.
    pub open spec fn is_cardinal(self) -> bool {
        self == Direction::N || self == Direction::E || self == Direction::S || self
            == Direction::W
    }

    /// Whether this is a bishop direction.
    pub open spec fn is_ordinal(self) -> bool {
        !self.is_cardinal()
    }

    /// The four rook directions.
    pub fn cardinals() -> (r: Vec<Direction>)
        ensures
            r@ == seq![Direction::N, Direction::E, Direction::S, Direction::W],
    {
        let v = vec![Direction::N, Direction::E, Direction::S, Direction::W];
        assert(v@ =~= seq![Direction::N, Direction::E, Direction::S, Direction::W]);
        v
    }

    /// The four bishop directions.
    pub fn ordinals() -> (r: Vec<Direction>)
        ensures
            r@ == seq![Direction::NE, Direction::SE, Direction::SW, Direction::NW],
    {
        let v = vec![Direction::NE, Direction::SE, Direction::SW, Direction::NW];
        assert(v@ =~= seq![Direction::NE, Direction::SE, Direction::SW, Direction::NW]);
        v
    }

    /// All eight directions.
    pub fn compass_rose() -> (r: Vec<Direction>)
        ensures
            r@ == seq![
                Direction::N,
                Direction::NE,
                Direction::E,
                Direction::SE,
                Direction::S,
                Direction::SW,
                Direction::W,
                Direction::NW,
            ],
    {
        let v = vec![
            Direction::N,
            Direction::NE,
            Direction::E,
            Direction::SE,
            Direction::S,
            Direction::SW,
            Direction::W,
            Direction::NW,
        ];
        assert(v@ =~= seq![
            Direction::N,
            Direction::NE,
            Direction::E,
            Direction::SE,
            Direction::S,
            Direction::SW,
            Direction::W,
            Direction::NW,
        ]);
        v
    }
}

/// One of the 64 cells, packed as file + 8 * row, row 0 at the top (rank 8).
#[derive(PartialEq, Eq, Structural, Clone, Copy, Debug, Hash, PartialOrd, Ord)]
pub struct BoardSquare(pub u8);

/// Whether a two-character string names a square, file letter then rank digit.
pub open spec fn is_square_notation(s: Seq<char>) -> bool {
    &&& s.len() == 2
    &&& 'a' as int <= s[0] as int <= 'h' as int
    &&& '1' as int <= s[1] as int <= '8' as int
}

/// The square a well-formed two-character notation names.
pub open spec fn notation_square(s: Seq<char>) -> BoardSquare {
    BoardSquare(((s[0] as int - 'a' as int) + 8 * (8 - (s[1] as int - '0' as int))) as u8)
}

/// The file letter of a square, a through h.
pub open spec fn file_char(sq: BoardSquare) -> char {
    if sq.x_spec() == 0 {
        'a'
    } else if sq.x_spec() == 1 {
        'b'
    } else if sq.x_spec() == 2 {
        'c'
    } else if sq.x_spec() == 3 {
        'd'
    } else if sq.x_spec() == 4 {
        'e'
    } else if sq.x_spec() == 5 {
        'f'
    } else if sq.x_spec() == 6 {
        'g'
    } else {
        'h'
    }
}

/// The rank digit of a square, 8 on the top row down to 1.
pub open spec fn rank_char(sq: BoardSquare) -> char {
    if sq.y_spec() == 0 {
        '8'
    } else if sq.y_spec() == 1 {
        '7'
    } else if sq.y_spec() == 2 {
        '6'
    } else if sq.y_spec() == 3 {
        '5'
    } else if sq.y_spec() == 4 {
        '4'
    } else if sq.y_spec() == 5 {
        '3'
    } else if sq.y_spec() == 6 {
        '2'
    } else {
        '1'
    }
}

/// A square's two-character notation.
pub open spec fn square_text(sq: BoardSquare) -> Seq<char> {
    seq![file_char(sq), rank_char(sq)]
}

/// Rendering a square gives well-formed notation that names the square
/// back: notation round-trips through the rendering.
pub proof fn lemma_notation_round_trip(sq: BoardSquare)
    requires
        sq.wf(),
    ensures
        is_square_notation(square_text(sq)),
        notation_square(square_text(sq)) == sq,
{
    assert(sq.0 as int == 8 * sq.y_spec() + sq.x_spec());
}

impl BoardSquare {
    /// A square index is in range.
    pub open spec fn wf(self) -> bool {
        self.0 < 64
    }

    /// The file index, 0 for file a.
    pub open spec fn x_spec(self) -> int {
        self.0 as int % 8
    }

    /// The row index, 0 for rank 8.
    pub open spec fn y_spec(self) -> int {
        self.0 as int / 8
    }

    pub fn pos(&self) -> (r: u8)
        ensures
            r == self.0,
    {
        self.0
    }

    pub fn x(&self) -> (r: u8)
        ensures
            r as int == self.x_spec(),
    {
        self.0 % 8
    }

    pub fn y(&self) -> (r: u8)
        ensures
            r as int == self.y_spec(),
    {
        self.0 / 8
    }

    /// The square named by a two-character notation such as "d3".
    pub fn from(board_square_notation: &str) -> (r: BoardSquare)
        requires
            is_square_notation(board_square_notation@),
        ensures
            r == notation_square(board_square_notation@),
            r.wf(),
    {
        let col = board_square_notation.get_char(0);
        let row = board_square_notation.get_char(1);
        let col_value: u32 = col as u32 - 'a' as u32;
        let row_value: u32 = 8 - (row as u32 - '0' as u32);
        BoardSquare((col_value + 8 * row_value) as u8)
    }

    /// The square one step away in a direction, if it stays on the board.
    pub open spec fn step_spec(self, d: Direction) -> Option<BoardSquare> {
        let nx = self.x_spec() + d.dx_spec();
        let ny = self.y_spec() + d.dy_spec();
        if 0 <= nx < 8 && 0 <= ny < 8 {
            Some(BoardSquare((nx + 8 * ny) as u8))
        } else {
            None
        }
    }

    pub fn get_square_in_direction(&self, dir: &Direction) -> (r: Option<BoardSquare>)
        requires
            self.wf(),
        ensures
            r == self.step_spec(*dir),
            r is Some ==> r.unwrap().wf(),
    {
        let new_x = self.x() as i8 + dir.dx();
        let new_y = self.y() as i8 + dir.dy();
        if new_x < 0 || new_x >= 8 || new_y < 0 || new_y >= 8 {
            None
        } else {
            Some(BoardSquare((new_x + new_y * 8) as u8))
        }
    }

    /// The square reached by a fixed file and row offset, if on the board;
    /// offsets are used for knight moves, which follow no ray.
    pub open spec fn offset_spec(self, dx: int, dy: int) -> Option<BoardSquare> {
        let nx = self.x_spec() + dx;
        let ny = self.y_spec() + dy;
        if 0 <= nx < 8 && 0 <= ny < 8 {
            Some(BoardSquare((nx + 8 * ny) as u8))
        } else {
            None
        }
    }

    pub fn offset_by(&self, dx: i8, dy: i8) -> (r: Option<BoardSquare>)
        requires
            self.wf(),
            -8 <= dx <= 8,
            -8 <= dy <= 8,
        ensures
            r == self.offset_spec(dx as int, dy as int),
            r is Some ==> r.unwrap().wf(),
    {
        let new_x = self.x() as i8 + dx;
        let new_y = self.y() as i8 + dy;
        if new_x < 0 || new_x >= 8 || new_y < 0 || new_y >= 8 {
            None
        } else {
            Some(BoardSquare((new_x as i16 + new_y as i16 * 8) as u8))
        }
    }

    /// The full ray in a direction: every square from the nearest out to the
    /// edge of the board, in order.
    pub open spec fn ray_spec(self, d: Direction) -> Seq<BoardSquare>
        decreases self.edge_budget(d),
        when self.wf()
    {
        match self.step_spec(d) {
            Option::None => Seq::empty(),
            Option::Some(n) => seq![n] + n.ray_spec(d),
        }
    }

    /// How many steps fit in a direction before leaving the board.
    pub open spec fn edge_budget(self, d: Direction) -> int {
        let bx = if d.dx_spec() > 0 {
            7 - self.x_spec()
        } else if d.dx_spec() < 0 {
            self.x_spec()
        } else {
            7
        };
        let by = if d.dy_spec() > 0 {
            7 - self.y_spec()
        } else if d.dy_spec() < 0 {
            self.y_spec()
        } else {
            7
        };
        if bx <= by {
            bx
        } else {
            by
        }
    }

    pub fn get_all_squares_in_direction(&self, dir: &Direction) -> (r: Vec<BoardSquare>)
        requires
            self.wf(),
        ensures
            r@ == self.ray_spec(*dir),
    {
        let mut squares_in_direction: Vec<BoardSquare> = Vec::new();
        let mut cur: BoardSquare = *self;
        loop
            invariant
                self.wf(),
                cur.wf(),
                self.ray_spec(*dir) == squares_in_direction@ + cur.ray_spec(*dir),
            ensures
                self.ray_spec(*dir) == squares_in_direction@,
            decreases cur.edge_budget(*dir),
        {
            match cur.get_square_in_direction(dir) {
                Option::None => {
                    assert(cur.ray_spec(*dir) =~= Seq::<BoardSquare>::empty());
                    assert(self.ray_spec(*dir) =~= squares_in_direction@);
                    break ;
                },
                Option::Some(n) => {
                    proof {
                        lemma_step_budget(cur, *dir, n);
                        assert(cur.ray_spec(*dir) =~= seq![n] + n.ray_spec(*dir));
                        assert(self.ray_spec(*dir) =~= (squares_in_direction@ + seq![n])
                            + n.ray_spec(*dir));
                    }
                    squares_in_direction.push(n);
                    cur = n;
                },
            }
        }
        squares_in_direction
    }

    /// The square as text, file letter then rank digit.
    pub fn render(&self) -> (r: String)
        requires
            self.wf(),
        ensures
            r@ == square_text(*self),
    {
        let file: &str = match self.x() {
            0 => "a",
            1 => "b",
            2 => "c",
            3 => "d",
            4 => "e",
            5 => "f",
            6 => "g",
            _ => "h",
        };
        let rank: &str = match self.y() {
            0 => "8",
            1 => "7",
            2 => "6",
            3 => "5",
            4 => "4",
            5 => "3",
            6 => "2",
            _ => "1",
        };
        proof {
            reveal_strlit("a");
            reveal_strlit("b");
            reveal_strlit("c");
            reveal_strlit("d");
            reveal_strlit("e");
            reveal_strlit("f");
            reveal_strlit("g");
            reveal_strlit("h");
            reveal_strlit("1");
            reveal_strlit("2");
            reveal_strlit("3");
            reveal_strlit("4");
            reveal_strlit("5");
            reveal_strlit("6");
            reveal_strlit("7");
            reveal_strlit("8");
        }
        let mut s = String::from_str(file);
        s.append(rank);
        proof {
            assert(s@ =~= square_text(*self));
        }
        s
    }

    /// The Chebyshev distance: the greater of the file and row differences.
    pub open spec fn distance_spec(self, other: BoardSquare) -> int {
        let ax = abs_int(self.x_spec() - other.x_spec());
        let ay = abs_int(self.y_spec() - other.y_spec());
        if ax >= ay {
            ax
        } else {
            ay
        }
    }

    pub fn distance_from(&self, target_square: &BoardSquare) -> (r: u8)
        requires
            self.wf(),
            target_square.wf(),
        ensures
            r as int == self.distance_spec(*target_square),
    {
        let dx = abs_diff_u8(self.x(), target_square.x());
        let dy = abs_diff_u8(self.y(), target_square.y());
        if dx >= dy {
            dx
        } else {
            dy
        }
    }
}

pub open spec fn abs_int(v: int) -> int {
    if v >= 0 {
        v
    } else {
        -v
    }
}

fn abs_diff_u8(a: u8, b: u8) -> (r: u8)
    ensures
        r as int == abs_int(a as int - b as int),
{
    if a >= b {
        a - b
    } else {
        b - a
    }
}

/// Every ray square is on the board, and the k-th one lies k + 1 steps out.
pub proof fn lemma_ray(s: BoardSquare, d: Direction)
    requires
        s.wf(),
    ensures
        s.ray_spec(d).len() == s.edge_budget(d),
        forall|i: int|
            0 <= i < s.ray_spec(d).len() ==> (#[trigger] s.ray_spec(d)[i]).wf()
                && s.ray_spec(d)[i].x_spec() == s.x_spec() + (i + 1) * d.dx_spec()
                && s.ray_spec(d)[i].y_spec() == s.y_spec() + (i + 1) * d.dy_spec(),
    decreases s.edge_budget(d),
{
    match s.step_spec(d) {
        Option::None => {},
        Option::Some(n) => {
            lemma_step_budget(s, d, n);
            lemma_ray(n, d);
            assert forall|i: int| 0 <= i < s.ray_spec(d).len() implies (#[trigger] s.ray_spec(
                d,
            )[i]).wf() && s.ray_spec(d)[i].x_spec() == s.x_spec() + (i + 1) * d.dx_spec()
                && s.ray_spec(d)[i].y_spec() == s.y_spec() + (i + 1) * d.dy_spec() by {
                if i == 0 {
                    assert(s.ray_spec(d)[0] == n);
                } else {
                    assert(s.ray_spec(d)[i] == n.ray_spec(d)[i - 1]);
                    assert((i + 1) * d.dx_spec() == i * d.dx_spec() + d.dx_spec()) by {
                        vstd::arithmetic::mul::lemma_mul_is_distributive_add_other_way(
                            d.dx_spec(),
                            i,
                            1,
                        );
                    };
                    assert((i + 1) * d.dy_spec() == i * d.dy_spec() + d.dy_spec()) by {
                        vstd::arithmetic::mul::lemma_mul_is_distributive_add_other_way(
                            d.dy_spec(),
                            i,
                            1,
                        );
                    };
                }
            };
        },
    }
}

/// Two in-range squares with the same file and row are the same square.
pub proof fn lemma_square_coords(a: BoardSquare, b: BoardSquare)
    requires
        a.wf(),
        b.wf(),
        a.x_spec() == b.x_spec(),
        a.y_spec() == b.y_spec(),
    ensures
        a == b,
{
    assert(a.0 as int == 8 * a.y_spec() + a.x_spec());
    assert(b.0 as int == 8 * b.y_spec() + b.x_spec());
}

/// A fixed offset whose target is on the board reaches exactly that
/// target.
pub proof fn lemma_offset_hits(from: BoardSquare, to: BoardSquare, dx: int, dy: int)
    requires
        from.wf(),
        to.wf(),
        to.x_spec() == from.x_spec() + dx,
        to.y_spec() == from.y_spec() + dy,
    ensures
        from.offset_spec(dx, dy) == Option::Some(to),
{
    let nx = from.x_spec() + dx;
    let ny = from.y_spec() + dy;
    let c = BoardSquare((nx + 8 * ny) as u8);
    assert(c.wf());
    lemma_square_coords(c, to);
}

/// A square n >= 1 whole steps out along a direction stands on that ray,
/// at index n - 1.
pub proof fn lemma_ray_member(s: BoardSquare, d: Direction, t: BoardSquare, n: int)
    requires
        s.wf(),
        t.wf(),
        n >= 1,
        t.x_spec() == s.x_spec() + n * d.dx_spec(),
        t.y_spec() == s.y_spec() + n * d.dy_spec(),
    ensures
        0 <= n - 1 < s.ray_spec(d).len(),
        s.ray_spec(d)[n - 1] == t,
{
    lemma_ray(s, d);
    assert(n <= s.edge_budget(d)) by {
        match d {
            Direction::N => {},
            Direction::NE => {},
            Direction::E => {},
            Direction::SE => {},
            Direction::S => {},
            Direction::SW => {},
            Direction::W => {},
            Direction::NW => {},
        }
        assert(n * d.dx_spec() == if d.dx_spec() == 1 {
            n
        } else if d.dx_spec() == -1 {
            -n
        } else {
            0
        }) by (nonlinear_arith)
            requires
                -1 <= d.dx_spec() <= 1,
        ;
        assert(n * d.dy_spec() == if d.dy_spec() == 1 {
            n
        } else if d.dy_spec() == -1 {
            -n
        } else {
            0
        }) by (nonlinear_arith)
            requires
                -1 <= d.dy_spec() <= 1,
        ;
    };
    lemma_square_coords(s.ray_spec(d)[n - 1], t);
}

/// One step in a direction lowers the remaining budget in that direction.
proof fn lemma_step_budget(s: BoardSquare, d: Direction, n: BoardSquare)
    requires
        s.wf(),
        s.step_spec(d) == Option::Some(n),
    ensures
        n.wf(),
        n.edge_budget(d) == s.edge_budget(d) - 1,
        s.edge_budget(d) >= 1,
{
    let nx = s.x_spec() + d.dx_spec();
    let ny = s.y_spec() + d.dy_spec();
    assert(n.0 == nx + 8 * ny);
    assert(n.x_spec() == nx && n.y_spec() == ny) by {
        assert(n.0 as int == nx + 8 * ny);
        assert(0 <= nx < 8 && 0 <= ny < 8);
    };
}

/// What a move does beyond moving one piece: nothing, an en-passant
/// capture, one of the four castle identities, or a promotion.
#[derive(PartialEq, Eq, Structural, Clone, Copy, Debug, Hash, PartialOrd, Ord)]
pub enum MoveKind {
    Normal,
    EnPassant,
    Castle { color: BoardColor, kingside: bool },
    Promotion { target: BoardPieceType },
}

/// A move: origin square, destination square, and its kind. A move is
/// self-describing; applying it never re-derives its kind from the board.
#[derive(PartialEq, Eq, Structural, Clone, Copy, Debug, Hash, PartialOrd, Ord)]
pub struct BoardMove {
    pub from: BoardSquare,
    pub to: BoardSquare,
    pub kind: MoveKind,
}

impl BoardMove {
    /// The canonical value of one of the four castle identities: the king's
    /// origin and destination squares, tagged with the identity.
    pub open spec fn castle_spec(color: BoardColor, kingside: bool) -> BoardMove {
        let row: int = if color == WHITE {
            7
        } else {
            0
        };
        BoardMove {
            from: BoardSquare((4 + 8 * row) as u8),
            to: BoardSquare(
                if kingside {
                    (6 + 8 * row) as u8
                } else {
                    (2 + 8 * row) as u8
                },
            ),
            kind: MoveKind::Castle { color, kingside },
        }
    }

    pub open spec fn wf(self) -> bool {
        &&& self.from.wf()
        &&& self.to.wf()
        &&& match self.kind {
            MoveKind::Normal => true,
            MoveKind::EnPassant => true,
            MoveKind::Castle { color, kingside } => color < 2 && self == BoardMove::castle_spec(
                color,
                kingside,
            ),
            MoveKind::Promotion { target } => target == KNIGHT || target == BISHOP || target
                == ROOK || target == QUEEN,
        }
    }

    /// A plain move between two squares.
    pub fn new(origin_square: &BoardSquare, dest_square: &BoardSquare) -> (r: BoardMove)
        ensures
            r == (BoardMove { from: *origin_square, to: *dest_square, kind: MoveKind::Normal }),
    {
        BoardMove { from: *origin_square, to: *dest_square, kind: MoveKind::Normal }
    }

    /// A plain move between two packed square indices.
    pub fn new_from_square_positions(origin_square_pos: u8, dest_square_pos: u8) -> (r: BoardMove)
        ensures
            r == (BoardMove {
                from: BoardSquare(origin_square_pos),
                to: BoardSquare(dest_square_pos),
                kind: MoveKind::Normal,
            }),
    {
        BoardMove {
            from: BoardSquare(origin_square_pos),
            to: BoardSquare(dest_square_pos),
            kind: MoveKind::Normal,
        }
    }

    /// An en-passant capture between two squares.
    pub fn new_as_en_passant(origin_square: &BoardSquare, dest_square: &BoardSquare) -> (r:
        BoardMove)
        ensures
            r == (BoardMove { from: *origin_square, to: *dest_square, kind: MoveKind::EnPassant }),
    {
        BoardMove { from: *origin_square, to: *dest_square, kind: MoveKind::EnPassant }
    }

    /// A promotion; the target is one of the four colourless piece kinds.
    pub fn new_as_promotion(
        origin_square: &BoardSquare,
        dest_square: &BoardSquare,
        promotion_target_piece: BoardPiece,
    ) -> (r: BoardMove)
        requires
            promotion_target_piece == KNIGHT || promotion_target_piece == BISHOP
                || promotion_target_piece == ROOK || promotion_target_piece == QUEEN,
        ensures
            r == (BoardMove {
                from: *origin_square,
                to: *dest_square,
                kind: MoveKind::Promotion { target: promotion_target_piece },
            }),
    {
        BoardMove {
            from: *origin_square,
            to: *dest_square,
            kind: MoveKind::Promotion { target: promotion_target_piece },
        }
    }

    /// White's kingside castle.
    pub fn castle_wk() -> (r: BoardMove)
        ensures
            r == BoardMove::castle_spec(WHITE, true),
    {
        BoardMove {
            from: BoardSquare(60),
            to: BoardSquare(62),
            kind: MoveKind::Castle { color: WHITE, kingside: true },
        }
    }

    /// White's queenside castle.
    pub fn castle_wq() -> (r: BoardMove)
        ensures
            r == BoardMove::castle_spec(WHITE, false),
    {
        BoardMove {
            from: BoardSquare(60),
            to: BoardSquare(58),
            kind: MoveKind::Castle { color: WHITE, kingside: false },
        }
    }

    /// Black's kingside castle.
    pub fn castle_bk() -> (r: BoardMove)
        ensures
            r == BoardMove::castle_spec(BLACK, true),
    {
        BoardMove {
            from: BoardSquare(4),
            to: BoardSquare(6),
            kind: MoveKind::Castle { color: BLACK, kingside: true },
        }
    }

    /// Black's queenside castle.
    pub fn castle_bq() -> (r: BoardMove)
        ensures
            r == BoardMove::castle_spec(BLACK, false),
    {
        BoardMove {
            from: BoardSquare(4),
            to: BoardSquare(2),
            kind: MoveKind::Castle { color: BLACK, kingside: false },
        }
    }

    /// The target kind of a promotion move.
    pub fn promotion_target_piece(&self) -> (r: BoardPiece)
        requires
            self.kind is Promotion,
        ensures
            match self.kind {
                MoveKind::Promotion { target } => r == target,
                _ => true,
            },
    {
        match self.kind {
            MoveKind::Promotion { target } => target,
            _ => KNIGHT,
        }
    }

    pub fn is_en_passant(&self) -> (r: bool)
        ensures
            r == (self.kind is EnPassant),
    {
        match self.kind {
            MoveKind::EnPassant => true,
            _ => false,
        }
    }

    pub fn is_castle(&self) -> (r: bool)
        ensures
            r == (self.kind is Castle),
    {
        match self.kind {
            MoveKind::Castle { .. } => true,
            _ => false,
        }
    }

    pub fn from_square(&self) -> (r: BoardSquare)
        ensures
            r == self.from,
    {
        self.from
    }

    pub fn dest_square(&self) -> (r: BoardSquare)
        ensures
            r == self.to,
    {
        self.to
    }

    /// The move as text: its kind, then origin and destination squares.
    pub fn render(&self) -> (r: String)
        requires
            self.wf(),
        ensures
            r@ == move_text(*self),
    {
        let mut s = match self.kind {
            MoveKind::EnPassant => String::from_str("EP: "),
            MoveKind::Castle { .. } => String::from_str("CST: "),
            MoveKind::Promotion { .. } => String::from_str("PRM: "),
            MoveKind::Normal => String::from_str("REG: "),
        };
        proof {
            reveal_strlit("EP: ");
            reveal_strlit("CST: ");
            reveal_strlit("PRM: ");
            reveal_strlit("REG: ");
            reveal_strlit(" => ");
            assert(s@ =~= kind_text(self.kind));
        }
        s.append(self.from.render().as_str());
        s.append(" => ");
        s.append(self.to.render().as_str());
        proof {
            assert(s@ =~= move_text(*self));
        }
        s
    }
}

/// The tag a move's kind is rendered as.
pub open spec fn kind_text(k: MoveKind) -> Seq<char> {
    match k {
        MoveKind::EnPassant => seq!['E', 'P', ':', ' '],
        MoveKind::Castle { .. } => seq!['C', 'S', 'T', ':', ' '],
        MoveKind::Promotion { .. } => seq!['P', 'R', 'M', ':', ' '],
        MoveKind::Normal => seq!['R', 'E', 'G', ':', ' '],
    }
}

/// A move's text: its kind tag, the origin, an arrow, the destination.
pub open spec fn move_text(m: BoardMove) -> Seq<char> {
    kind_text(m.kind) + square_text(m.from) + seq![' ', '=', '>', ' '] + square_text(m.to)
}

/// The mathematical value of a board: what each cell holds, the side to
/// move, the four castling rights, and the en-passant target, if any.
pub ghost struct Position {
    pub squares: Seq<u8>,
    pub active: BoardColor,
    pub castle_bk: bool,
    pub castle_bq: bool,
    pub castle_wk: bool,
    pub castle_wq: bool,
    pub en_passant: Option<BoardSquare>,
}

impl Position {
    pub open spec fn wf(self) -> bool {
        &&& self.squares.len() == 64
        &&& forall|i: int| 0 <= i < 64 ==> valid_cell(#[trigger] self.squares[i])
        &&& self.active < 2
        &&& match self.en_passant {
            Option::Some(sq) => sq.wf(),
            Option::None => true,
        }
    }

    /// The cell code at a square.
    pub open spec fn at(self, sq: BoardSquare) -> u8 {
        self.squares[sq.0 as int]
    }

    /// The occupant of a square, if any.
    pub open spec fn piece_at(self, sq: BoardSquare) -> Option<BoardPiece> {
        if sq.wf() && self.squares[sq.0 as int] != 0 {
            Option::Some(self.squares[sq.0 as int])
        } else {
            Option::None
        }
    }

    /// Whether a colour still holds a castling right.
    pub open spec fn has_right(self, color: BoardColor, kingside: bool) -> bool {
        if color == WHITE {
            if kingside {
                self.castle_wk
            } else {
                self.castle_wq
            }
        } else {
            if kingside {
                self.castle_bk
            } else {
                self.castle_bq
            }
        }
    }

    /// At most one king of each colour stands on the board.
    pub open spec fn kings_unique(self) -> bool {
        forall|i: int, j: int|
            0 <= i < 64 && 0 <= j < 64 && #[trigger] self.squares[i] == #[trigger] self.squares[j]
                && spec_piece_type(self.squares[i]) == KING && i != j ==> false
    }
}

/// A chess position: an immutable value. Every mutation derives a new one.
#[derive(Clone, Debug)]
pub struct Board {
    pub(crate) squares: Vec<u8>,
    pub(crate) active: BoardColor,
    pub(crate) castle_bk: bool,
    pub(crate) castle_bq: bool,
    pub(crate) castle_wk: bool,
    pub(crate) castle_wq: bool,
    pub(crate) en_passant: Option<BoardSquare>,
}

impl View for Board {
    type V = Position;

    closed spec fn view(&self) -> Position {
        Position {
            squares: self.squares@,
            active: self.active,
            castle_bk: self.castle_bk,
            castle_bq: self.castle_bq,
            castle_wk: self.castle_wk,
            castle_wq: self.castle_wq,
            en_passant: self.en_passant,
        }
    }
}

/// The letter of a cell in the grid rendering, uppercase white, blank
/// for an empty cell.
pub open spec fn piece_letter_char(cell: u8) -> char {
    if cell == 2 {
        'p'
    } else if cell == 4 {
        'n'
    } else if cell == 6 {
        'b'
    } else if cell == 8 {
        'r'
    } else if cell == 10 {
        'q'
    } else if cell == 12 {
        'k'
    } else if cell == 3 {
        'P'
    } else if cell == 5 {
        'N'
    } else if cell == 7 {
        'B'
    } else if cell == 9 {
        'R'
    } else if cell == 11 {
        'Q'
    } else if cell == 13 {
        'K'
    } else {
        ' '
    }
}

/// The digit labelling a grid row, rank 8 at the top.
pub open spec fn row_label_char(row: int) -> char {
    if row == 0 {
        '8'
    } else if row == 1 {
        '7'
    } else if row == 2 {
        '6'
    } else if row == 3 {
        '5'
    } else if row == 4 {
        '4'
    } else if row == 5 {
        '3'
    } else if row == 6 {
        '2'
    } else {
        '1'
    }
}

/// One grid line: the rank label, a space, the eight cell letters, a
/// newline.
pub open spec fn row_text(pos: Position, row: int) -> Seq<char> {
    seq![row_label_char(row), ' '] + Seq::new(8, |col: int| piece_letter_char(pos.squares[8 * row + col]))
        + seq!['\n']
}

/// The first n grid lines, top row first.
pub open spec fn rows_text(pos: Position, n: int) -> Seq<char>
    decreases n,
{
    if n <= 0 {
        Seq::empty()
    } else {
        rows_text(pos, n - 1) + row_text(pos, n - 1)
    }
}

/// The file letters heading the grid.
pub open spec fn grid_header() -> Seq<char> {
    seq![' ', ' ', 'a', 'b', 'c', 'd', 'e', 'f', 'g', 'h', '\n', '\n']
}

/// The whole grid: the header, then the eight rows.
pub open spec fn grid_text(pos: Position) -> Seq<char> {
    grid_header() + rows_text(pos, 8)
}

/// The model of a board is its fields, read directly.
pub(crate) broadcast proof fn lemma_board_view(b: Board)
    ensures
        #[trigger] b@ == (Position {
            squares: b.squares@,
            active: b.active,
            castle_bk: b.castle_bk,
            castle_bq: b.castle_bq,
            castle_wk: b.castle_wk,
            castle_wq: b.castle_wq,
            en_passant: b.en_passant,
        }),
{
}

impl Board {
    pub open spec fn wf(self) -> bool {
        self@.wf()
    }

    /// The side to move.
    pub fn active_color(&self) -> (r: BoardColor)
        ensures
            r == self@.active,
    {
        self.active
    }

    /// The castling rights, king side before queen side, indexed by colour.
    pub fn castle_availibility(&self) -> (r: [[bool; 2]; 2])
        ensures
            r[BLACK as int][0] == self@.castle_bk,
            r[BLACK as int][1] == self@.castle_bq,
            r[WHITE as int][0] == self@.castle_wk,
            r[WHITE as int][1] == self@.castle_wq,
    {
        [[self.castle_bk, self.castle_bq], [self.castle_wk, self.castle_wq]]
    }

    /// The square a pawn just passed over, if the last move was a
    /// two-square pawn advance.
    pub fn en_passant_target_square(&self) -> (r: Option<BoardSquare>)
        ensures
            r == self@.en_passant,
    {
        self.en_passant
    }

    /// The piece on a square, or None for an empty or out-of-range square.
    pub fn get_piece_at(&self, square: &BoardSquare) -> (r: Option<BoardPiece>)
        requires
            self.wf(),
        ensures
            r == self@.piece_at(*square),
            r is Some ==> valid_piece(r.unwrap()),
    {
        if square.0 >= 64 {
            return None;
        }
        let cell = self.squares[square.0 as usize];
        if cell == 0 {
            None
        } else {
            Some(cell)
        }
    }

    /// The board as an eight-line character grid: the file letters as a
    /// header, then each rank's label and its eight cell letters,
    /// uppercase for white, blank for an empty square.
    pub fn render(&self) -> (r: String)
        requires
            self.wf(),
        ensures
            r@ == grid_text(self@),
    {
        let mut s = String::from_str("  abcdefgh\n\n");
        proof {
            reveal_strlit("  abcdefgh\n\n");
            assert(rows_text(self@, 0) =~= Seq::<char>::empty());
            assert(s@ =~= grid_header() + rows_text(self@, 0));
        }
        let mut row: u8 = 0;
        while row < 8
            invariant
                self.wf(),
                row <= 8,
                s@ == grid_header() + rows_text(self@, row as int),
            decreases 8 - row,
        {
            let rank_label: &str = match row {
                0 => "8",
                1 => "7",
                2 => "6",
                3 => "5",
                4 => "4",
                5 => "3",
                6 => "2",
                _ => "1",
            };
            proof {
                reveal_strlit("8");
                reveal_strlit("7");
                reveal_strlit("6");
                reveal_strlit("5");
                reveal_strlit("4");
                reveal_strlit("3");
                reveal_strlit("2");
                reveal_strlit("1");
                reveal_strlit(" ");
            }
            s.append(rank_label);
            s.append(" ");
            proof {
                assert(s@ =~= grid_header() + rows_text(self@, row as int) + seq![
                    row_label_char(row as int),
                    ' ',
                ] + Seq::new(0, |col: int| piece_letter_char(self@.squares[8 * (row as int) + col])));
            }
            let mut col: u8 = 0;
            while col < 8
                invariant
                    self.wf(),
                    row < 8,
                    col <= 8,
                    s@ == grid_header() + rows_text(self@, row as int) + seq![
                        row_label_char(row as int),
                        ' ',
                    ] + Seq::new(
                        col as nat,
                        |c: int| piece_letter_char(self@.squares[8 * (row as int) + c]),
                    ),
                decreases 8 - col,
            {
                let cell = self.squares[(row * 8 + col) as usize];
                let piece_letter: &str = match cell {
                    2 => "p",
                    4 => "n",
                    6 => "b",
                    8 => "r",
                    10 => "q",
                    12 => "k",
                    3 => "P",
                    5 => "N",
                    7 => "B",
                    9 => "R",
                    11 => "Q",
                    13 => "K",
                    _ => " ",
                };
                proof {
                    reveal_strlit("p");
                    reveal_strlit("n");
                    reveal_strlit("b");
                    reveal_strlit("r");
                    reveal_strlit("q");
                    reveal_strlit("k");
                    reveal_strlit("P");
                    reveal_strlit("N");
                    reveal_strlit("B");
                    reveal_strlit("R");
                    reveal_strlit("Q");
                    reveal_strlit("K");
                    reveal_strlit(" ");
                    assert(piece_letter@ =~= seq![piece_letter_char(cell)]);
                }
                s.append(piece_letter);
                proof {
                    assert(Seq::new(
                        col as nat + 1,
                        |c: int| piece_letter_char(self@.squares[8 * (row as int) + c]),
                    ) =~= Seq::new(
                        col as nat,
                        |c: int| piece_letter_char(self@.squares[8 * (row as int) + c]),
                    ).push(piece_letter_char(cell)));
                    assert(s@ =~= grid_header() + rows_text(self@, row as int) + seq![
                        row_label_char(row as int),
                        ' ',
                    ] + Seq::new(
                        col as nat + 1,
                        |c: int| piece_letter_char(self@.squares[8 * (row as int) + c]),
                    ));
                }
                col += 1;
            }
            proof {
                reveal_strlit("\n");
            }
            s.append("\n");
            proof {
                assert(s@ =~= grid_header() + rows_text(self@, row as int) + row_text(
                    self@,
                    row as int,
                ));
                assert(rows_text(self@, row as int + 1) == rows_text(self@, row as int) + row_text(
                    self@,
                    row as int,
                ));
                assert(s@ =~= grid_header() + rows_text(self@, row as int + 1));
            }
            row += 1;
        }
        s
    }

    /// Replace the contents of one square; 0 empties it.
    pub fn set_piece_at(&mut self, board_square: &BoardSquare, new_piece: BoardPiece)
        requires
            old(self).wf(),
            board_square.wf(),
            valid_cell(new_piece),
        ensures
            final(self)@ == (Position {
                squares: old(self)@.squares.update(board_square.0 as int, new_piece),
                ..old(self)@
            }),
            final(self).wf(),
    {
        self.squares[board_square.0 as usize] = new_piece;
    }
}

} // verus!
