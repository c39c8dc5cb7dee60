//! Moves and their coordinate notation.
use vstd::prelude::*;
use crate::types::{square_text, PieceKind, Square};

verus! {

/// The rook side involved in castling.
#[derive(Clone, Copy, Debug, PartialEq, Eq, Hash, Structural)]
pub enum CastleSide {
    /// The rook on the lower-file side of the king.
    QueenSide,
    /// The rook on the higher-file side of the king.
    KingSide,
}

impl CastleSide {
    pub open spec fn idx(self) -> int {
        match self {
            CastleSide::QueenSide => 0,
            CastleSide::KingSide => 1,
        }
    }

    pub fn index(self) -> (r: usize)
        ensures
            r == self.idx(),
    {
        match self {
            CastleSide::QueenSide => 0,
            CastleSide::KingSide => 1,
        }
    }
}

/// Both castling sides, queen side first.
pub fn all_sides() -> (r: [CastleSide; 2])
    ensures
        r[0] == CastleSide::QueenSide,
        r[1] == CastleSide::KingSide,
{
    [CastleSide::QueenSide, CastleSide::KingSide]
}

#[derive(Clone, Copy, Debug, PartialEq, Eq, Hash, Structural)]
pub enum MoveKind {
    Normal,
    EnPassant,
    Castle(CastleSide),
}

/// A fully resolved move.
#[derive(Clone, Copy, Debug, PartialEq, Eq, Hash, Structural)]
pub struct Move {
    pub from: Square,
    pub to: Square,
    pub promotion: Option<PieceKind>,
    pub kind: MoveKind,
}

/// Coordinate notation of a move: both squares, then the promotion letter.
pub open spec fn move_text(m: Move) -> Seq<char> {
    square_text(m.from) + square_text(m.to) + match m.promotion {
        Some(k) => seq![k.letter()],
        None => Seq::empty(),
    }
}

/// Squares whose coordinate notation can be written.
pub open spec fn writable(sq: Square) -> bool {
    sq.file <= 158 && sq.rank <= 254
}

impl Move {
    pub fn normal(from: Square, to: Square) -> (r: Self)
        ensures
            r == (Move { from, to, promotion: None, kind: MoveKind::Normal }),
    {
        Move { from, to, promotion: None, kind: MoveKind::Normal }
    }

    pub fn promotion(from: Square, to: Square, promotion: PieceKind) -> (r: Self)
        ensures
            r == (Move { from, to, promotion: Some(promotion), kind: MoveKind::Normal }),
    {
        Move { from, to, promotion: Some(promotion), kind: MoveKind::Normal }
    }

    /// Coordinate notation as characters.
    pub fn uci_chars(self) -> (r: Vec<char>)
        requires
            writable(self.from),
            writable(self.to),
        ensures
            r@ == move_text(self),
    {
        let mut cs: Vec<char> = Vec::new();
        self.from.push_notation(&mut cs);
        self.to.push_notation(&mut cs);
        match self.promotion {
            Some(kind) => cs.push(kind.fen_char()),
            None => {},
        }
        assert(cs@ =~= move_text(self));
        cs
    }

    /// Coordinate notation, such as `e2e4` or `a9a10q`.
    pub fn to_uci(self) -> (r: String)
        requires
            writable(self.from),
            writable(self.to),
        ensures
            r@ == move_text(self),
    {
        let cs = self.uci_chars();
        crate::text::string_of(&cs)
    }

    /// Whether two moves are the same move.
    pub fn same(self, other: Move) -> (r: bool)
        ensures
            r == (self == other),
    {
        self == other
    }
}

} // verus!
