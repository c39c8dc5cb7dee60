//! Colors, piece kinds, pieces and board coordinates.
use vstd::prelude::*;
use crate::text::{decimal, parse_unsigned, parse_unsigned_spec, push_decimal, string_of};

verus! {

/// A player's side.
#[derive(Clone, Copy, Debug, PartialEq, Eq, Hash, Structural)]
pub enum Color {
    White,
    Black,
}

impl Color {
    pub open spec fn other(self) -> Color {
        match self {
            Color::White => Color::Black,
            Color::Black => Color::White,
        }
    }

    pub open spec fn idx(self) -> int {
        match self {
            Color::White => 0,
            Color::Black => 1,
        }
    }

    pub open spec fn direction(self) -> int {
        match self {
            Color::White => 1,
            Color::Black => -1,
        }
    }

    pub fn opposite(self) -> (r: Self)
        ensures
            r == self.other(),
    {
        match self {
            Color::White => Color::Black,
            Color::Black => Color::White,
        }
    }

    pub fn index(self) -> (r: usize)
        ensures
            r == self.idx(),
    {
        match self {
            Color::White => 0,
            Color::Black => 1,
        }
    }

    pub fn pawn_direction(self) -> (r: i8)
        ensures
            r == self.direction(),
    {
        match self {
            Color::White => 1,
            Color::Black => -1,
        }
    }
}

/// Both colors, white first.
pub fn all_colors() -> (r: [Color; 2])
    ensures
        r[0] == Color::White,
        r[1] == Color::Black,
{
    [Color::White, Color::Black]
}

/// Swapping sides twice gives back the original side.
pub proof fn lemma_opposite_involution(c: Color)
    ensures
        c.other().other() == c,
        c.other() != c,
{
}

/// All piece types used by the supported variants.
#[derive(Clone, Copy, Debug, PartialEq, Eq, Hash, Structural)]
pub enum PieceKind {
    Pawn,
    Knight,
    Bishop,
    Rook,
    Queen,
    King,
    /// Bishop + knight. Also called cardinal, princess, or Janus.
    Archbishop,
    /// Rook + knight. Also called chancellor, marshal, or empress.
    Chancellor,
}

/// The pieces a pawn may become, in the order moves are offered.
pub open spec fn promotion_pieces_spec() -> Seq<PieceKind> {
    seq![
        PieceKind::Queen,
        PieceKind::Chancellor,
        PieceKind::Archbishop,
        PieceKind::Rook,
        PieceKind::Bishop,
        PieceKind::Knight,
    ]
}

pub fn promotion_pieces() -> (r: Vec<PieceKind>)
    ensures
        r@ == promotion_pieces_spec(),
{
    let r = vec![
        PieceKind::Queen,
        PieceKind::Chancellor,
        PieceKind::Archbishop,
        PieceKind::Rook,
        PieceKind::Bishop,
        PieceKind::Knight,
    ];
    assert(r@ =~= promotion_pieces_spec());
    r
}

impl PieceKind {
    pub open spec fn letter(self) -> char {
        match self {
            PieceKind::Pawn => 'p',
            PieceKind::Knight => 'n',
            PieceKind::Bishop => 'b',
            PieceKind::Rook => 'r',
            PieceKind::Queen => 'q',
            PieceKind::King => 'k',
            PieceKind::Archbishop => 'a',
            PieceKind::Chancellor => 'c',
        }
    }

    pub open spec fn value(self) -> int {
        match self {
            PieceKind::Pawn => 100,
            PieceKind::Knight => 320,
            PieceKind::Bishop => 350,
            PieceKind::Rook => 525,
            PieceKind::Queen => 1000,
            PieceKind::King => 20000,
            PieceKind::Archbishop => 875,
            PieceKind::Chancellor => 900,
        }
    }

    pub fn fen_char(self) -> (r: char)
        ensures
            r == self.letter(),
    {
        match self {
            PieceKind::Pawn => 'p',
            PieceKind::Knight => 'n',
            PieceKind::Bishop => 'b',
            PieceKind::Rook => 'r',
            PieceKind::Queen => 'q',
            PieceKind::King => 'k',
            PieceKind::Archbishop => 'a',
            PieceKind::Chancellor => 'c',
        }
    }

    /// Reads a FEN piece letter: upper case is white, anything else black.
    /// `m` is accepted as an alias for the chancellor.
    pub fn from_fen_char(value: char) -> (r: Option<(PieceKind, Color)>)
        ensures
            r == fen_letter_spec(value),
    {
        let color = if is_ascii_uppercase(value) {
            Color::White
        } else {
            Color::Black
        };
        let lower = to_ascii_lowercase(value);
        let kind = if lower == 'p' {
            PieceKind::Pawn
        } else if lower == 'n' {
            PieceKind::Knight
        } else if lower == 'b' {
            PieceKind::Bishop
        } else if lower == 'r' {
            PieceKind::Rook
        } else if lower == 'q' {
            PieceKind::Queen
        } else if lower == 'k' {
            PieceKind::King
        } else if lower == 'a' {
            PieceKind::Archbishop
        } else if lower == 'c' || lower == 'm' {
            PieceKind::Chancellor
        } else {
            return None;
        };
        Some((kind, color))
    }

    pub fn material_value(self) -> (r: i32)
        ensures
            r == self.value(),
    {
        match self {
            PieceKind::Pawn => 100,
            PieceKind::Knight => 320,
            PieceKind::Bishop => 350,
            PieceKind::Rook => 525,
            PieceKind::Queen => 1000,
            PieceKind::King => 20000,
            PieceKind::Archbishop => 875,
            PieceKind::Chancellor => 900,
        }
    }
}

pub open spec fn is_upper_spec(c: char) -> bool {
    'A' <= c && c <= 'Z'
}

pub open spec fn lower_spec(c: char) -> char {
    if is_upper_spec(c) {
        ((c as u32) + 32) as char
    } else {
        c
    }
}

pub open spec fn upper_spec(c: char) -> char {
    if 'a' <= c && c <= 'z' {
        ((c as u32) - 32) as char
    } else {
        c
    }
}

pub fn is_ascii_uppercase(c: char) -> (r: bool)
    ensures
        r == is_upper_spec(c),
{
    'A' <= c && c <= 'Z'
}

pub fn to_ascii_lowercase(c: char) -> (r: char)
    ensures
        r == lower_spec(c),
{
    if 'A' <= c && c <= 'Z' {
        let code: u32 = (c as u32) + 32;
        let lowered = char_from_ascii(code);
        lowered
    } else {
        c
    }
}

pub fn to_ascii_uppercase(c: char) -> (r: char)
    ensures
        r == upper_spec(c),
{
    if 'a' <= c && c <= 'z' {
        let code: u32 = (c as u32) - 32;
        char_from_ascii(code)
    } else {
        c
    }
}

/// Converts an ASCII code to its character.
pub fn char_from_ascii(code: u32) -> (r: char)
    requires
        code < 128,
    ensures
        r == code as char,
        r as u32 == code,
{
    let byte: u8 = code as u8;
    byte as char
}

/// The piece and color that a FEN letter stands for, if any.
pub open spec fn fen_letter_spec(value: char) -> Option<(PieceKind, Color)> {
    let color = if is_upper_spec(value) { Color::White } else { Color::Black };
    let lower = lower_spec(value);
    if lower == 'p' {
        Some((PieceKind::Pawn, color))
    } else if lower == 'n' {
        Some((PieceKind::Knight, color))
    } else if lower == 'b' {
        Some((PieceKind::Bishop, color))
    } else if lower == 'r' {
        Some((PieceKind::Rook, color))
    } else if lower == 'q' {
        Some((PieceKind::Queen, color))
    } else if lower == 'k' {
        Some((PieceKind::King, color))
    } else if lower == 'a' {
        Some((PieceKind::Archbishop, color))
    } else if lower == 'c' || lower == 'm' {
        Some((PieceKind::Chancellor, color))
    } else {
        None
    }
}

/// A colored chess piece.
#[derive(Clone, Copy, Debug, PartialEq, Eq, Hash, Structural)]
pub struct Piece {
    pub color: Color,
    pub kind: PieceKind,
}

impl Piece {
    pub open spec fn letter(self) -> char {
        match self.color {
            Color::White => upper_spec(self.kind.letter()),
            Color::Black => self.kind.letter(),
        }
    }

    pub fn new(color: Color, kind: PieceKind) -> (r: Self)
        ensures
            r == (Piece { color, kind }),
    {
        Piece { color, kind }
    }

    pub fn fen_char(self) -> (r: char)
        ensures
            r == self.letter(),
    {
        let value = self.kind.fen_char();
        match self.color {
            Color::White => to_ascii_uppercase(value),
            Color::Black => value,
        }
    }
}

/// Writing a piece's FEN letter and reading it back gives the same piece.
pub proof fn lemma_piece_letter_round_trip(p: Piece)
    ensures
        fen_letter_spec(p.letter()) == Some((p.kind, p.color)),
{
}


/// A board coordinate. Files and ranks are zero based.
#[derive(Clone, Copy, Debug, PartialEq, Eq, Hash, PartialOrd, Ord, Structural)]
pub struct Square {
    pub file: u8,
    pub rank: u8,
}

/// The square reached from `sq` by the given file and rank steps, if both
/// coordinates stay within `0..=255`.
pub open spec fn offset_spec(sq: Square, df: int, dr: int) -> Option<Square> {
    let f = sq.file + df;
    let r = sq.rank + dr;
    if 0 <= f <= 255 && 0 <= r <= 255 {
        Some(Square { file: f as u8, rank: r as u8 })
    } else {
        None
    }
}

/// Coordinate notation such as `e10`: the file letter, then the one-based rank.
pub open spec fn square_text(sq: Square) -> Seq<char> {
    seq![((97 + sq.file) as u8) as char] + decimal((sq.rank + 1) as nat)
}

/// The square that coordinate notation names, if any: an ASCII letter `a`..`j`
/// in either case, then a rank from 1 to 10, three characters at most.
pub open spec fn parse_square_spec(s: Seq<char>) -> Option<Square> {
    if !(2 <= s.len() <= 3) || !(forall|i: int| 0 <= i < s.len() ==> (#[trigger] s[i]) < '\u{80}') {
        None
    } else if !(is_upper_spec(s[0]) || ('a' <= s[0] && s[0] <= 'z')) {
        None
    } else {
        let f = lower_spec(s[0]);
        if !('a' <= f && f <= 'j') {
            None
        } else {
            match parse_unsigned_spec(s.drop_first(), 255) {
                Some(r) => if 1 <= r <= 10 {
                    Some(Square { file: ((f as u32) - 97) as u8, rank: (r - 1) as u8 })
                } else {
                    None
                },
                None => None,
            }
        }
    }
}

impl Square {
    pub fn new(file: u8, rank: u8) -> (r: Self)
        ensures
            r == (Square { file, rank }),
    {
        Square { file, rank }
    }

    pub fn file(self) -> (r: u8)
        ensures
            r == self.file,
    {
        self.file
    }

    pub fn rank(self) -> (r: u8)
        ensures
            r == self.rank,
    {
        self.rank
    }

    pub open spec fn index_of(self) -> int {
        self.rank * 10 + self.file
    }

    /// Where the square is kept in a board's storage.
    pub fn storage_index(self) -> (r: usize)
        requires
            self.file < 10,
            self.rank < 10,
        ensures
            r == self.index_of(),
            r < 100,
    {
        self.rank as usize * 10 + self.file as usize
    }

    pub fn offset(self, file_delta: i8, rank_delta: i8) -> (r: Option<Self>)
        ensures
            r == offset_spec(self, file_delta as int, rank_delta as int),
    {
        let file: i16 = self.file as i16 + file_delta as i16;
        let rank: i16 = self.rank as i16 + rank_delta as i16;
        if 0 <= file && file <= 255 && 0 <= rank && rank <= 255 {
            Some(Square { file: file as u8, rank: rank as u8 })
        } else {
            None
        }
    }

    /// Appends the square's coordinate notation.
    pub fn push_notation(self, out: &mut Vec<char>)
        requires
            self.file <= 158,
            self.rank <= 254,
        ensures
            final(out)@ == old(out)@ + square_text(self),
    {
        let code: u32 = 97 + self.file as u32;
        let letter: char = (code as u8) as char;
        out.push(letter);
        push_decimal(out, self.rank as u64 + 1);
        assert(final(out)@ =~= old(out)@ + square_text(self));
    }

    /// Coordinate notation, such as `a1` or `e10`.
    pub fn notation(self) -> (r: String)
        requires
            self.file <= 158,
            self.rank <= 254,
        ensures
            r@ == square_text(self),
    {
        let mut cs: Vec<char> = Vec::new();
        self.push_notation(&mut cs);
        assert(cs@ =~= square_text(self));
        string_of(&cs)
    }

    /// Reads coordinate notation given as characters.
    pub fn parse_chars(value: &Vec<char>) -> (r: Option<Square>)
        ensures
            r == parse_square_spec(value@),
    {
        let n = value.len();
        if n < 2 || n > 3 {
            return None;
        }
        let mut i: usize = 0;
        while i < n
            invariant
                i <= n == value@.len(),
                forall|j: int| 0 <= j < i ==> (#[trigger] value@[j]) < '\u{80}',
            decreases n - i,
        {
            if value[i] >= '\u{80}' {
                return None;
            }
            i += 1;
        }
        let first = value[0];
        if !(is_ascii_uppercase(first) || ('a' <= first && first <= 'z')) {
            return None;
        }
        let f = to_ascii_lowercase(first);
        if !('a' <= f && f <= 'j') {
            return None;
        }
        let mut rest: Vec<char> = Vec::new();
        let mut k: usize = 1;
        while k < n
            invariant
                1 <= k <= n == value@.len(),
                rest@ == value@.subrange(1, k as int),
            decreases n - k,
        {
            rest.push(value[k]);
            assert(rest@ =~= value@.subrange(1, k + 1));
            k += 1;
        }
        assert(rest@ =~= value@.drop_first());
        match parse_unsigned(&rest, 255) {
            Some(r) => {
                if 1 <= r && r <= 10 {
                    let file: u8 = ((f as u32) - 97) as u8;
                    Some(Square { file, rank: (r - 1) as u8 })
                } else {
                    None
                }
            },
            None => None,
        }
    }

    /// Reads coordinate notation.
    pub fn parse(value: &str) -> (r: Result<Square, ParseSquareError>)
        ensures
            r matches Ok(sq) ==> parse_square_spec(value@) == Some(sq),
            r is Err <==> parse_square_spec(value@) is None,
            r matches Err(e) ==> e.0@ == value@,
    {
        let chars = crate::text::chars_of(value);
        match Square::parse_chars(&chars) {
            Some(sq) => Ok(sq),
            None => Err(ParseSquareError(value.to_owned())),
        }
    }
}

/// Writing a square on the ten-by-ten board in coordinate notation and
/// reading it back gives the same square.
pub proof fn lemma_square_notation_round_trip(sq: Square)
    requires
        sq.file < 10,
        sq.rank < 10,
    ensures
        parse_square_spec(square_text(sq)) == Some(sq),
{
    let t = square_text(sq);
    let n: nat = (sq.rank + 1) as nat;
    if n < 10 {
        assert(decimal(n) == seq![crate::text::digit_char(n)]);
        let body = t.drop_first();
        assert(body =~= seq![crate::text::digit_char(n)]);
        assert(body.drop_last() =~= Seq::<char>::empty());
        assert(crate::text::digit_char(n) as u32 == 48 + n);
        assert(body.last() == crate::text::digit_char(n));
        assert(crate::text::digits_value(body.drop_last()) == 0);
        assert(crate::text::digits_value(body) == n);
    } else {
        assert(n == 10);
        assert(decimal(1) == seq!['1']);
        assert(decimal(10) == decimal(1).push('0'));
        let body = t.drop_first();
        assert(body =~= seq!['1', '0']);
        assert(body.drop_last() =~= seq!['1']);
        assert(body.drop_last().drop_last() =~= Seq::<char>::empty());
        assert(crate::text::digits_value(body.drop_last().drop_last()) == 0);
        assert(body.drop_last().last() == '1');
        assert(('1' as u32) == 49);
        assert(crate::text::digits_value(body.drop_last()) == 1);
        assert(body.last() == '0');
        assert(('0' as u32) == 48);
        assert(crate::text::digits_value(body) == 10);
    }
}

impl std::str::FromStr for Square {
    type Err = ParseSquareError;

    /// Reads coordinate notation, such as `a1` or `e10`; the error keeps the
    /// text.
    fn from_str(value: &str) -> (r: Result<Square, ParseSquareError>)
        ensures
            r matches Ok(sq) ==> parse_square_spec(value@) == Some(sq),
            r is Err <==> parse_square_spec(value@) is None,
            r matches Err(e) ==> e.0@ == value@,
    {
        Square::parse(value)
    }
}

/// The text that could not be read as a square.
#[derive(Clone, Debug, PartialEq, Eq)]
pub struct ParseSquareError(pub String);

impl ParseSquareError {
    /// A human readable description of the error.
    pub fn message(&self) -> (r: String)
        ensures
            r@ == seq!['i', 'n', 'v', 'a', 'l', 'i', 'd', ' ', 's', 'q', 'u', 'a', 'r', 'e', ':', ' '] + self.0@,
    {
        let mut cs: Vec<char> = vec!['i', 'n', 'v', 'a', 'l', 'i', 'd', ' ', 's', 'q', 'u', 'a', 'r', 'e', ':', ' '];
        let tail = crate::text::chars_of(self.0.as_str());
        let mut i: usize = 0;
        while i < tail.len()
            invariant
                i <= tail.len(),
                cs@ == seq!['i', 'n', 'v', 'a', 'l', 'i', 'd', ' ', 's', 'q', 'u', 'a', 'r', 'e', ':', ' '] + tail@.take(i as int),
            decreases tail.len() - i,
        {
            cs.push(tail[i]);
            assert(tail@.take(i + 1) =~= tail@.take(i as int).push(tail@[i as int]));
            i += 1;
        }
        assert(tail@.take(i as int) =~= tail@);
        string_of(&cs)
    }
}

} // verus!
