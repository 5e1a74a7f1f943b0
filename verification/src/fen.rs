//! Construction of a position from its six-field exchange record: board
//! layout, side to move, castling rights, en-passant target, and the two
//! move counters, which are validated but lie outside this core's duties.
use crate::board::{
    is_square_notation, notation_square, piece_code, Board, BoardSquare, Position, BISHOP, BLACK,
    KING, KNIGHT, PAWN, QUEEN, ROOK, WHITE,
};
use vstd::prelude::*;
use vstd::string::*;

verus! {

broadcast use crate::board::lemma_board_view;

/// Why a record was rejected: the wrong number of fields, a board field
/// that does not describe exactly 64 squares or holds a stray character,
/// or a malformed side, rights, target or counter field.
#[derive(PartialEq, Eq, Structural, Clone, Copy, Debug)]
pub enum ParseError {
    BadFieldCount,
    BadBoard,
    BadActiveColor,
    BadCastleRights,
    BadEnPassant,
    BadCounter,
}

/// The separators a record's fields are split on.
pub open spec fn is_ws(c: char) -> bool {
    c == ' ' || c == '\t' || c == '\n' || c == '\r'
}

/// The length of the leading run of non-separator characters.
pub open spec fn token_len(s: Seq<char>) -> int
    decreases s.len(),
{
    if s.len() == 0 || is_ws(s[0]) {
        0
    } else {
        1 + token_len(s.drop_first())
    }
}

/// A token run is never longer than what remains.
pub proof fn lemma_token_len_bounds(s: Seq<char>)
    ensures
        0 <= token_len(s) <= s.len(),
    decreases s.len(),
{
    if s.len() == 0 || is_ws(s[0]) {
    } else {
        lemma_token_len_bounds(s.drop_first());
    }
}

/// The fields of a record: the maximal runs between separators.
pub open spec fn spec_split_ws(s: Seq<char>) -> Seq<Seq<char>>
    decreases s.len(),
    via spec_split_ws_decreases
{
    if s.len() == 0 {
        Seq::empty()
    } else if is_ws(s[0]) {
        spec_split_ws(s.drop_first())
    } else {
        seq![s.take(token_len(s))] + spec_split_ws(s.skip(token_len(s)))
    }
}

#[via_fn]
proof fn spec_split_ws_decreases(s: Seq<char>) {
    if s.len() > 0 && !is_ws(s[0]) {
        lemma_token_len_bounds(s);
        lemma_token_len_bounds(s.drop_first());
        assert(token_len(s) == 1 + token_len(s.drop_first()));
        assert(s.skip(token_len(s)).len() < s.len());
    }
}

/// The piece a board-field letter stands for, lowercase black.
pub open spec fn piece_char(c: char) -> Option<u8> {
    if c == 'p' {
        Option::Some(piece_code(BLACK, PAWN))
    } else if c == 'n' {
        Option::Some(piece_code(BLACK, KNIGHT))
    } else if c == 'b' {
        Option::Some(piece_code(BLACK, BISHOP))
    } else if c == 'r' {
        Option::Some(piece_code(BLACK, ROOK))
    } else if c == 'q' {
        Option::Some(piece_code(BLACK, QUEEN))
    } else if c == 'k' {
        Option::Some(piece_code(BLACK, KING))
    } else if c == 'P' {
        Option::Some(piece_code(WHITE, PAWN))
    } else if c == 'N' {
        Option::Some(piece_code(WHITE, KNIGHT))
    } else if c == 'B' {
        Option::Some(piece_code(WHITE, BISHOP))
    } else if c == 'R' {
        Option::Some(piece_code(WHITE, ROOK))
    } else if c == 'Q' {
        Option::Some(piece_code(WHITE, QUEEN))
    } else if c == 'K' {
        Option::Some(piece_code(WHITE, KING))
    } else {
        Option::None
    }
}

/// Reading the board field left to right: letters lay one piece, digits
/// one to eight lay that many empty cells, `/` separates ranks; any other
/// character, or a total other than 64 cells, rejects the field.
pub open spec fn parse_board_rec(s: Seq<char>, acc: Seq<u8>) -> Option<Seq<u8>>
    decreases s.len(),
{
    if s.len() == 0 {
        if acc.len() == 64 {
            Option::Some(acc)
        } else {
            Option::None
        }
    } else {
        let c = s[0];
        if c == '/' {
            parse_board_rec(s.drop_first(), acc)
        } else if piece_char(c) is Some {
            parse_board_rec(s.drop_first(), acc.push(piece_char(c).unwrap()))
        } else if '1' as int <= c as int <= '8' as int {
            parse_board_rec(s.drop_first(), acc + Seq::new((c as int - '0' as int) as nat, |j: int| 0u8))
        } else {
            Option::None
        }
    }
}

pub open spec fn spec_parse_board(s: Seq<char>) -> Option<Seq<u8>> {
    parse_board_rec(s, Seq::empty())
}

/// The side to move: `w` or `b`.
pub open spec fn spec_parse_active(t: Seq<char>) -> Option<u8> {
    if t.len() == 1 && t[0] == 'w' {
        Option::Some(WHITE)
    } else if t.len() == 1 && t[0] == 'b' {
        Option::Some(BLACK)
    } else {
        Option::None
    }
}

/// The rights field, read letter by letter: black kingside, black
/// queenside, white kingside, white queenside.
pub open spec fn parse_castle_rec(s: Seq<char>, bk: bool, bq: bool, wk: bool, wq: bool) -> Option<
    (bool, bool, bool, bool),
>
    decreases s.len(),
{
    if s.len() == 0 {
        Option::Some((bk, bq, wk, wq))
    } else if s[0] == 'k' {
        parse_castle_rec(s.drop_first(), true, bq, wk, wq)
    } else if s[0] == 'q' {
        parse_castle_rec(s.drop_first(), bk, true, wk, wq)
    } else if s[0] == 'K' {
        parse_castle_rec(s.drop_first(), bk, bq, true, wq)
    } else if s[0] == 'Q' {
        parse_castle_rec(s.drop_first(), bk, bq, wk, true)
    } else {
        Option::None
    }
}

/// The castling rights: `-` for none, else a run of `KQkq` letters.
pub open spec fn spec_parse_castle(t: Seq<char>) -> Option<(bool, bool, bool, bool)> {
    if t.len() == 1 && t[0] == '-' {
        Option::Some((false, false, false, false))
    } else if t.len() == 0 {
        Option::None
    } else {
        parse_castle_rec(t, false, false, false, false)
    }
}

/// The en-passant target: `-` for none, else a square in file-rank
/// notation.
pub open spec fn spec_parse_ep(t: Seq<char>) -> Option<Option<BoardSquare>> {
    if t.len() == 1 && t[0] == '-' {
        Option::Some(Option::None)
    } else if is_square_notation(t) {
        Option::Some(Option::Some(notation_square(t)))
    } else {
        Option::None
    }
}

/// A move counter: a nonempty run of decimal digits.
pub open spec fn spec_all_digits(t: Seq<char>) -> bool {
    t.len() > 0 && forall|i: int| 0 <= i < t.len() ==> '0' as int <= #[trigger] t[i] as int <= '9' as int
}

/// The position a record describes, if it is well formed: exactly six
/// fields, each valid under its own rule.
pub open spec fn spec_parse_fen(s: Seq<char>) -> Option<Position> {
    let fields = spec_split_ws(s);
    if fields.len() != 6 {
        Option::None
    } else if spec_parse_board(fields[0]) is None {
        Option::None
    } else if spec_parse_active(fields[1]) is None {
        Option::None
    } else if spec_parse_castle(fields[2]) is None {
        Option::None
    } else if spec_parse_ep(fields[3]) is None {
        Option::None
    } else if !(spec_all_digits(fields[4]) && spec_all_digits(fields[5])) {
        Option::None
    } else {
        let rights = spec_parse_castle(fields[2]).unwrap();
        Option::Some(
            Position {
                squares: spec_parse_board(fields[0]).unwrap(),
                active: spec_parse_active(fields[1]).unwrap(),
                castle_bk: rights.0,
                castle_bq: rights.1,
                castle_wk: rights.2,
                castle_wq: rights.3,
                en_passant: spec_parse_ep(fields[3]).unwrap(),
            },
        )
    }
}

/// Which error a rejected record draws: the first field, in order, that
/// is malformed.
pub open spec fn spec_fen_error(s: Seq<char>) -> ParseError {
    let fields = spec_split_ws(s);
    if fields.len() != 6 {
        ParseError::BadFieldCount
    } else if spec_parse_board(fields[0]) is None {
        ParseError::BadBoard
    } else if spec_parse_active(fields[1]) is None {
        ParseError::BadActiveColor
    } else if spec_parse_castle(fields[2]) is None {
        ParseError::BadCastleRights
    } else if spec_parse_ep(fields[3]) is None {
        ParseError::BadEnPassant
    } else {
        ParseError::BadCounter
    }
}

fn is_ws_char(c: char) -> (r: bool)
    ensures
        r == is_ws(c),
{
    c == ' ' || c == '\t' || c == '\n' || c == '\r'
}

/// A run of non-separators ending at a separator or the end has the
/// token length.
proof fn lemma_token_len(s: Seq<char>, t: int)
    requires
        0 <= t <= s.len(),
        forall|i: int| 0 <= i < t ==> !is_ws(#[trigger] s[i]),
        t == s.len() || is_ws(s[t]),
    ensures
        token_len(s) == t,
    decreases s.len(),
{
    if t == 0 {
    } else {
        assert(!is_ws(s[0]));
        lemma_token_len(s.drop_first(), t - 1);
    }
}

/// Split a record into its whitespace-separated fields.
fn split_ws(s: &str) -> (r: Vec<String>)
    ensures
        r@.map_values(|t: String| t@) == spec_split_ws(s@),
    decreases s@.len(),
{
    let n = s.unicode_len();
    if n == 0 {
        let r: Vec<String> = Vec::new();
        proof {
            assert(r@.map_values(|t: String| t@) =~= spec_split_ws(s@));
        }
        return r;
    }
    let c0 = s.get_char(0);
    if is_ws_char(c0) {
        let rest = s.substring_char(1, n);
        proof {
            assert(rest@ =~= s@.drop_first());
        }
        split_ws(rest)
    } else {
        let mut t: usize = 1;
        while t < n && !is_ws_char(s.get_char(t))
            invariant
                n == s@.len(),
                1 <= t <= n,
                forall|i: int| 0 <= i < t ==> !is_ws(#[trigger] s@[i]),
            decreases n - t,
        {
            t += 1;
        }
        proof {
            lemma_token_len(s@, t as int);
        }
        let tok = String::from_str(s.substring_char(0, t));
        let rest = s.substring_char(t, n);
        let mut rr = split_ws(rest);
        proof {
            assert(tok@ =~= s@.take(token_len(s@)));
            assert(rest@ =~= s@.skip(token_len(s@)));
        }
        let ghost prev = rr@;
        rr.insert(0, tok);
        proof {
            assert(rr@.map_values(|x: String| x@) =~= seq![s@.take(token_len(s@))] + prev.map_values(
                |x: String| x@,
            ));
        }
        rr
    }
}

/// The letter a board-field character lays down, if any.
fn piece_char_of(c: char) -> (r: Option<u8>)
    ensures
        r == piece_char(c),
{
    match c {
        'p' => Some(PAWN + BLACK),
        'n' => Some(KNIGHT + BLACK),
        'b' => Some(BISHOP + BLACK),
        'r' => Some(ROOK + BLACK),
        'q' => Some(QUEEN + BLACK),
        'k' => Some(KING + BLACK),
        'P' => Some(PAWN + WHITE),
        'N' => Some(KNIGHT + WHITE),
        'B' => Some(BISHOP + WHITE),
        'R' => Some(ROOK + WHITE),
        'Q' => Some(QUEEN + WHITE),
        'K' => Some(KING + WHITE),
        _ => None,
    }
}

/// Once the running total cannot reach exactly 64 cells, the field is
/// rejected whatever follows.
proof fn lemma_board_rec_overrun(s: Seq<char>, acc: Seq<u8>)
    requires
        acc.len() > 64,
    ensures
        parse_board_rec(s, acc) is None,
    decreases s.len(),
{
    if s.len() == 0 {
    } else {
        let c = s[0];
        if c == '/' {
            lemma_board_rec_overrun(s.drop_first(), acc);
        } else if piece_char(c) is Some {
            lemma_board_rec_overrun(s.drop_first(), acc.push(piece_char(c).unwrap()));
        } else if '1' as int <= c as int <= '8' as int {
            lemma_board_rec_overrun(
                s.drop_first(),
                acc + Seq::new((c as int - '0' as int) as nat, |j: int| 0u8),
            );
        }
    }
}

/// Read the board field into the 64 cells it describes.
fn parse_board_field(s: &str) -> (r: Result<Vec<u8>, ParseError>)
    ensures
        match r {
            Result::Ok(v) => spec_parse_board(s@) == Option::Some(v@) && v@.len() == 64 && (forall|
                i: int,
            | 0 <= i < 64 ==> crate::board::valid_cell(#[trigger] v@[i])),
            Result::Err(e) => spec_parse_board(s@) is None && e == ParseError::BadBoard,
        },
{
    let n = s.unicode_len();
    let mut v: Vec<u8> = Vec::new();
    let mut i: usize = 0;
    proof {
        assert(s@.skip(0) =~= s@);
    }
    while i < n
        invariant
            n == s@.len(),
            i <= n,
            parse_board_rec(s@.skip(i as int), v@) == spec_parse_board(s@),
            forall|t: int| 0 <= t < v@.len() ==> crate::board::valid_cell(#[trigger] v@[t]),
            v@.len() <= 72,
        decreases n - i,
    {
        let c = s.get_char(i);
        proof {
            assert(s@.skip(i as int)[0] == s@[i as int]);
            assert(s@.skip(i as int).drop_first() =~= s@.skip(i as int + 1));
        }
        if v.len() > 64 {
            proof {
                lemma_board_rec_overrun(s@.skip(i as int), v@);
            }
            return Err(ParseError::BadBoard);
        }
        if c == '/' {
            i += 1;
        } else {
            match piece_char_of(c) {
                Some(p) => {
                    v.push(p);
                    i += 1;
                },
                None => {
                    let cv = c as u32;
                    if '1' as u32 <= cv && cv <= '8' as u32 {
                        let d = (cv - '0' as u32) as usize;
                        let ghost prev = v@;
                        let mut z: usize = 0;
                        while z < d
                            invariant
                                z <= d,
                                v@ =~= prev + Seq::new(z as nat, |j: int| 0u8),
                            decreases d - z,
                        {
                            v.push(0);
                            proof {
                                assert(v@ =~= prev + Seq::new(z as nat + 1, |j: int| 0u8));
                            }
                            z += 1;
                        }
                        proof {
                            assert(v@ =~= prev + Seq::new(
                                (c as int - '0' as int) as nat,
                                |j: int| 0u8,
                            ));
                        }
                        i += 1;
                    } else {
                        return Err(ParseError::BadBoard);
                    }
                },
            }
        }
    }
    proof {
        assert(s@.skip(n as int) =~= Seq::<char>::empty());
    }
    if v.len() == 64 {
        Ok(v)
    } else {
        Err(ParseError::BadBoard)
    }
}

/// Read the side-to-move field.
fn parse_active_field(s: &str) -> (r: Result<u8, ParseError>)
    ensures
        match r {
            Result::Ok(a) => spec_parse_active(s@) == Option::Some(a),
            Result::Err(e) => spec_parse_active(s@) is None && e == ParseError::BadActiveColor,
        },
{
    let n = s.unicode_len();
    if n == 1 {
        let c = s.get_char(0);
        if c == 'w' {
            return Ok(WHITE);
        }
        if c == 'b' {
            return Ok(BLACK);
        }
    }
    Err(ParseError::BadActiveColor)
}

/// Read the castling-rights field.
fn parse_castle_field(s: &str) -> (r: Result<(bool, bool, bool, bool), ParseError>)
    ensures
        match r {
            Result::Ok(f) => spec_parse_castle(s@) == Option::Some(f),
            Result::Err(e) => spec_parse_castle(s@) is None && e == ParseError::BadCastleRights,
        },
{
    let n = s.unicode_len();
    if n == 1 && s.get_char(0) == '-' {
        return Ok((false, false, false, false));
    }
    if n == 0 {
        return Err(ParseError::BadCastleRights);
    }
    let mut bk = false;
    let mut bq = false;
    let mut wk = false;
    let mut wq = false;
    let mut i: usize = 0;
    proof {
        assert(s@.skip(0) =~= s@);
    }
    while i < n
        invariant
            n == s@.len(),
            i <= n,
            s@.len() != 0,
            !(s@.len() == 1 && s@[0] == '-'),
            parse_castle_rec(s@.skip(i as int), bk, bq, wk, wq) == parse_castle_rec(
                s@,
                false,
                false,
                false,
                false,
            ),
        decreases n - i,
    {
        let c = s.get_char(i);
        proof {
            assert(s@.skip(i as int)[0] == s@[i as int]);
            assert(s@.skip(i as int).drop_first() =~= s@.skip(i as int + 1));
        }
        if c == 'k' {
            bk = true;
        } else if c == 'q' {
            bq = true;
        } else if c == 'K' {
            wk = true;
        } else if c == 'Q' {
            wq = true;
        } else {
            proof {
                assert(parse_castle_rec(s@.skip(i as int), bk, bq, wk, wq) is None);
                assert(spec_parse_castle(s@) == parse_castle_rec(s@, false, false, false, false));
            }
            return Err(ParseError::BadCastleRights);
        }
        i += 1;
    }
    proof {
        assert(s@.skip(n as int) =~= Seq::<char>::empty());
        assert(spec_parse_castle(s@) == parse_castle_rec(s@, false, false, false, false));
    }
    Ok((bk, bq, wk, wq))
}

/// Read the en-passant-target field.
fn parse_ep_field(s: &str) -> (r: Result<Option<BoardSquare>, ParseError>)
    ensures
        match r {
            Result::Ok(t) => spec_parse_ep(s@) == Option::Some(t) && (t matches Option::Some(sq)
                ==> sq.wf()),
            Result::Err(e) => spec_parse_ep(s@) is None && e == ParseError::BadEnPassant,
        },
{
    let n = s.unicode_len();
    if n == 1 && s.get_char(0) == '-' {
        return Ok(None);
    }
    if n == 2 {
        let c0 = s.get_char(0) as u32;
        let c1 = s.get_char(1) as u32;
        if 'a' as u32 <= c0 && c0 <= 'h' as u32 && '1' as u32 <= c1 && c1 <= '8' as u32 {
            let sq = BoardSquare(((c0 - 'a' as u32) + 8 * (8 - (c1 - '0' as u32))) as u8);
            return Ok(Some(sq));
        }
    }
    Err(ParseError::BadEnPassant)
}

/// Check a move-counter field: digits only.
fn parse_counter_field(s: &str) -> (r: bool)
    ensures
        r == spec_all_digits(s@),
{
    let n = s.unicode_len();
    if n == 0 {
        return false;
    }
    let mut i: usize = 0;
    while i < n
        invariant
            n == s@.len(),
            i <= n,
            forall|t: int| 0 <= t < i ==> '0' as int <= #[trigger] s@[t] as int <= '9' as int,
        decreases n - i,
    {
        let c = s.get_char(i) as u32;
        if !('0' as u32 <= c && c <= '9' as u32) {
            return false;
        }
        i += 1;
    }
    true
}

impl Board {
    /// Build a position from its exchange record. A record whose board
    /// field does not describe exactly 64 squares, or any of whose fields
    /// is malformed, is rejected with the error of its first bad field,
    /// never a half-built position.
    pub fn from_fen(fen: &str) -> (r: Result<Board, ParseError>)
        ensures
            match r {
                Result::Ok(b) => spec_parse_fen(fen@) == Option::Some(b@) && b.wf(),
                Result::Err(e) => spec_parse_fen(fen@) is None && e == spec_fen_error(fen@),
            },
    {
        let fields = split_ws(fen);
        if fields.len() != 6 {
            return Err(ParseError::BadFieldCount);
        }
        let squares = match parse_board_field(fields[0].as_str()) {
            Ok(v) => v,
            Err(e) => {
                return Err(e);
            },
        };
        let active = match parse_active_field(fields[1].as_str()) {
            Ok(a) => a,
            Err(e) => {
                return Err(e);
            },
        };
        let rights = match parse_castle_field(fields[2].as_str()) {
            Ok(f) => f,
            Err(e) => {
                return Err(e);
            },
        };
        let en_passant = match parse_ep_field(fields[3].as_str()) {
            Ok(t) => t,
            Err(e) => {
                return Err(e);
            },
        };
        if !parse_counter_field(fields[4].as_str()) || !parse_counter_field(fields[5].as_str()) {
            return Err(ParseError::BadCounter);
        }
        let board = Board {
            squares,
            active,
            castle_bk: rights.0,
            castle_bq: rights.1,
            castle_wk: rights.2,
            castle_wq: rights.3,
            en_passant,
        };
        Ok(board)
    }
}

} // verus!
