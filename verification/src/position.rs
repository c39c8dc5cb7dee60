//! A game position: placement, side to move, castling rights, en passant
//! square and move clocks, under one set of variant rules.
use std::sync::Arc;
use vstd::prelude::*;
use crate::board::Board;
use crate::mv::{CastleSide, Move, MoveKind};
use crate::rules::{CastlingRights, VariantRules};
use crate::types::{Color, Piece, PieceKind, Square};

verus! {

broadcast use {crate::board::Board::lemma_wf_size, crate::board::Board::lemma_with, crate::board::Board::lemma_with_shape, crate::rules::CastlingRights::lemma_without};

/// `Arc::clone`: another handle to the same shared value.
#[verifier::external_body]
pub(crate) fn share<T>(value: &Arc<T>) -> (r: Arc<T>)
    ensures
        r == *value,
{
    Arc::clone(value)
}

/// A complete game position under one immutable set of variant rules.
#[derive(Clone, Debug, PartialEq, Eq)]
pub struct Position {
    rules: Arc<VariantRules>,
    board: Board,
    side_to_move: Color,
    castling_rights: CastlingRights,
    en_passant: Option<Square>,
    halfmove_clock: u32,
    fullmove_number: u32,
}

/// Adds one, stopping at the largest `u32`.
pub open spec fn sat_inc(x: u32) -> u32 {
    if x == u32::MAX { x } else { (x + 1) as u32 }
}

/// Whether a move can be carried out on the position: both squares are on
/// the board, a piece of the side to move stands on the source square, and a
/// castling move has a route under the rules.
pub open spec fn sound(pos: Position, m: Move) -> bool {
    let b = pos.board_spec();
    &&& b.dims().holds(m.from)
    &&& b.dims().holds(m.to)
    &&& b.at(m.from) matches Some(p) && p.color == pos.side_spec()
    &&& (m.kind matches MoveKind::Castle(s) ==> pos.rules_spec().castling_spec().route_of(pos.side_spec(), s) is Some)
}

/// The piece that moves (the side to move's king in a castling move).
pub open spec fn mover(pos: Position, m: Move) -> Piece {
    pos.board_spec().at(m.from)->Some_0
}

/// The square of the piece that a move captures, if any.
pub open spec fn captured_square(pos: Position, m: Move) -> Option<Square> {
    match m.kind {
        MoveKind::EnPassant => Some(Square { file: m.to.file, rank: m.from.rank }),
        _ => if pos.board_spec().at(m.to) is Some {
            Some(m.to)
        } else {
            None
        },
    }
}

pub open spec fn captured_piece(pos: Position, m: Move) -> Option<Piece> {
    match captured_square(pos, m) {
        Some(s) => pos.board_spec().at(s),
        None => None,
    }
}

/// Rights after removing those of routes whose rook starts on `sq`.
pub open spec fn without_rook_routes(pos: Position, rights: CastlingRights, color: Color, sq: Square) -> CastlingRights {
    let castling = pos.rules_spec().castling_spec();
    let r1 = if castling.route_of(color, CastleSide::QueenSide) matches Some(rt) && rt.rook_from == sq {
        rights.without(color, CastleSide::QueenSide)
    } else {
        rights
    };
    if castling.route_of(color, CastleSide::KingSide) matches Some(rt) && rt.rook_from == sq {
        r1.without(color, CastleSide::KingSide)
    } else {
        r1
    }
}

proof fn lemma_rook_routes_bits(pos: Position, rights: CastlingRights, color: Color, sq: Square)
    requires
        rights.bits() < 16,
    ensures
        without_rook_routes(pos, rights, color, sq).bits() < 16,
{
    rights.lemma_without(color, CastleSide::QueenSide, color, CastleSide::QueenSide);
    rights.lemma_without(color, CastleSide::KingSide, color, CastleSide::KingSide);
    rights.without(color, CastleSide::QueenSide).lemma_without(
        color,
        CastleSide::KingSide,
        color,
        CastleSide::KingSide,
    );
}

/// Castling rights after a move: a king move gives up both of its side's
/// rights, a route rook that moves gives up its route, and so does a route
/// rook that is captured.
pub open spec fn rights_after(pos: Position, m: Move) -> CastlingRights {
    let moving = mover(pos, m);
    let rights = pos.rights_spec();
    let r1 = if moving.kind == PieceKind::King {
        rights.without(moving.color, CastleSide::QueenSide).without(moving.color, CastleSide::KingSide)
    } else if moving.kind == PieceKind::Rook {
        without_rook_routes(pos, rights, moving.color, m.from)
    } else {
        rights
    };
    match (captured_piece(pos, m), captured_square(pos, m)) {
        (Some(p), Some(s)) => if p.kind == PieceKind::Rook {
            without_rook_routes(pos, r1, p.color, s)
        } else {
            r1
        },
        _ => r1,
    }
}

/// The placement after a move.
pub open spec fn board_after(pos: Position, m: Move) -> Board {
    let b = pos.board_spec();
    let moving = mover(pos, m);
    match m.kind {
        MoveKind::Castle(side) => {
            let rt = pos.rules_spec().castling_spec().route_of(moving.color, side)->Some_0;
            b.with(rt.king_from, None).with(rt.rook_from, None).with(
                rt.king_to,
                Some(Piece { color: moving.color, kind: PieceKind::King }),
            ).with(rt.rook_to, Some(Piece { color: moving.color, kind: PieceKind::Rook }))
        },
        _ => {
            let b1 = b.with(m.from, None);
            let b2 = match captured_square(pos, m) {
                Some(s) => b1.with(s, None),
                None => b1,
            };
            b2.with(
                m.to,
                Some(
                    Piece {
                        color: moving.color,
                        kind: match m.promotion {
                            Some(k) => k,
                            None => moving.kind,
                        },
                    },
                ),
            )
        },
    }
}

/// The en passant square after a move: the square a pawn skipped.
pub open spec fn en_passant_after(pos: Position, m: Move) -> Option<Square> {
    let moving = mover(pos, m);
    if moving.kind == PieceKind::Pawn && (m.from.rank - m.to.rank == 2 || m.to.rank - m.from.rank == 2) {
        Some(Square { file: m.from.file, rank: ((m.from.rank + m.to.rank) / 2) as u8 })
    } else {
        None
    }
}

pub open spec fn halfmove_after(pos: Position, m: Move) -> u32 {
    if mover(pos, m).kind == PieceKind::Pawn || captured_piece(pos, m) is Some {
        0
    } else {
        sat_inc(pos.halfmove_spec())
    }
}

pub open spec fn fullmove_after(pos: Position, m: Move) -> u32 {
    if pos.side_spec() == Color::Black {
        sat_inc(pos.fullmove_spec())
    } else {
        pos.fullmove_spec()
    }
}

impl Position {
    pub closed spec fn rules_spec(self) -> VariantRules {
        *self.rules
    }

    pub closed spec fn board_spec(self) -> Board {
        self.board
    }

    pub closed spec fn side_spec(self) -> Color {
        self.side_to_move
    }

    pub closed spec fn rights_spec(self) -> CastlingRights {
        self.castling_rights
    }

    pub closed spec fn ep_spec(self) -> Option<Square> {
        self.en_passant
    }

    pub closed spec fn halfmove_spec(self) -> u32 {
        self.halfmove_clock
    }

    pub closed spec fn fullmove_spec(self) -> u32 {
        self.fullmove_number
    }

    /// Positions agreeing in every component are equal.
    pub proof fn lemma_ext(a: Position, b: Position)
        requires
            a.rules_spec() == b.rules_spec(),
            a.board_spec() == b.board_spec(),
            a.side_spec() == b.side_spec(),
            a.rights_spec() == b.rights_spec(),
            a.ep_spec() == b.ep_spec(),
            a.halfmove_spec() == b.halfmove_spec(),
            a.fullmove_spec() == b.fullmove_spec(),
        ensures
            a == b,
    {
    }

    /// A position whose rules are valid and whose board matches them.
    pub open spec fn wf(self) -> bool {
        &&& self.rules_spec().valid()
        &&& self.board_spec().wf()
        &&& self.board_spec().dims() == self.rules_spec().size_spec()
        &&& self.rights_spec().bits() < 16
        &&& self.ep_spec() matches Some(s) ==> self.board_spec().dims().holds(s)
    }

    /// The position after a move, applied without checking legality.
    pub closed spec fn after(self, m: Move) -> Position {
        Position {
            rules: self.rules,
            board: board_after(self, m),
            side_to_move: self.side_to_move.other(),
            castling_rights: rights_after(self, m),
            en_passant: en_passant_after(self, m),
            halfmove_clock: halfmove_after(self, m),
            fullmove_number: fullmove_after(self, m),
        }
    }

    pub broadcast proof fn lemma_after(self, m: Move)
        ensures
            #[trigger] self.after(m).board_spec() == board_after(self, m),
            self.after(m).rules_spec() == self.rules_spec(),
            self.after(m).side_spec() == self.side_spec().other(),
            self.after(m).rights_spec() == rights_after(self, m),
            self.after(m).ep_spec() == en_passant_after(self, m),
            self.after(m).halfmove_spec() == halfmove_after(self, m),
            self.after(m).fullmove_spec() == fullmove_after(self, m),
    {
    }

    /// Playing a sound move keeps a position well-formed.
    pub proof fn lemma_after_wf(self, m: Move)
        requires
            self.wf(),
            sound(self, m),
        ensures
            self.after(m).wf(),
    {
        let b = self.board_spec();
        let moving = mover(self, m);
        match m.kind {
            MoveKind::Castle(side) => {
                self.rules_spec().lemma_valid_parts(moving.color, side);
            },
            _ => {
                match captured_square(self, m) {
                    Some(s) => {
                        assert(b.dims().holds(s));
                    },
                    None => {},
                }
            },
        }
        let rights = self.rights_spec();
        rights.lemma_without(moving.color, CastleSide::QueenSide, moving.color, CastleSide::QueenSide);
        rights.without(moving.color, CastleSide::QueenSide).lemma_without(
            moving.color,
            CastleSide::KingSide,
            moving.color,
            CastleSide::KingSide,
        );
        lemma_rook_routes_bits(self, rights, moving.color, m.from);
        let r1 = if moving.kind == PieceKind::King {
            rights.without(moving.color, CastleSide::QueenSide).without(moving.color, CastleSide::KingSide)
        } else if moving.kind == PieceKind::Rook {
            without_rook_routes(self, rights, moving.color, m.from)
        } else {
            rights
        };
        match (captured_piece(self, m), captured_square(self, m)) {
            (Some(p), Some(s)) => {
                lemma_rook_routes_bits(self, r1, p.color, s);
            },
            _ => {},
        }
    }

    pub(crate) fn from_starting_board(rules: Arc<VariantRules>, board: Board) -> (r: Self)
        ensures
            r.rules_spec() == *rules,
            r.board_spec() == board,
            r.side_spec() == Color::White,
            forall|c: Color, s: CastleSide| #[trigger] r.rights_spec().allows(c, s)
                == rules.castling_spec().route_of(c, s) is Some,
            r.rights_spec().bits() < 16,
            r.ep_spec() is None,
            r.halfmove_spec() == 0,
            r.fullmove_spec() == 1,
    {
        let castling_rights = CastlingRights::from_rules(rules.castling());
        Position {
            castling_rights,
            rules,
            board,
            side_to_move: Color::White,
            en_passant: None,
            halfmove_clock: 0,
            fullmove_number: 1,
        }
    }

    pub(crate) fn from_parts(
        rules: Arc<VariantRules>,
        board: Board,
        side_to_move: Color,
        castling_rights: CastlingRights,
        en_passant: Option<Square>,
        halfmove_clock: u32,
        fullmove_number: u32,
    ) -> (r: Self)
        ensures
            r.rules_spec() == *rules,
            r.board_spec() == board,
            r.side_spec() == side_to_move,
            r.rights_spec() == castling_rights,
            r.ep_spec() == en_passant,
            r.halfmove_spec() == halfmove_clock,
            r.fullmove_spec() == fullmove_number,
    {
        Position { rules, board, side_to_move, castling_rights, en_passant, halfmove_clock, fullmove_number }
    }

    /// An independent copy of the position.
    pub fn duplicate(&self) -> (r: Self)
        ensures
            r == *self,
    {
        Position {
            rules: share(&self.rules),
            board: self.board,
            side_to_move: self.side_to_move,
            castling_rights: self.castling_rights,
            en_passant: self.en_passant,
            halfmove_clock: self.halfmove_clock,
            fullmove_number: self.fullmove_number,
        }
    }

    pub fn rules(&self) -> (r: &VariantRules)
        ensures
            *r == self.rules_spec(),
    {
        &self.rules
    }

    pub fn board(&self) -> (r: &Board)
        ensures
            *r == self.board_spec(),
    {
        &self.board
    }

    pub fn side_to_move(&self) -> (r: Color)
        ensures
            r == self.side_spec(),
    {
        self.side_to_move
    }

    pub fn castling_rights(&self) -> (r: CastlingRights)
        ensures
            r == self.rights_spec(),
    {
        self.castling_rights
    }

    pub fn en_passant(&self) -> (r: Option<Square>)
        ensures
            r == self.ep_spec(),
    {
        self.en_passant
    }

    pub fn halfmove_clock(&self) -> (r: u32)
        ensures
            r == self.halfmove_spec(),
    {
        self.halfmove_clock
    }

    pub fn fullmove_number(&self) -> (r: u32)
        ensures
            r == self.fullmove_spec(),
    {
        self.fullmove_number
    }

    fn remove_rook_routes(&mut self, color: Color, sq: Square)
        ensures
            final(self).castling_rights == without_rook_routes(*old(self), old(self).castling_rights, color, sq),
            final(self).rules == old(self).rules,
            final(self).board == old(self).board,
            final(self).side_to_move == old(self).side_to_move,
            final(self).en_passant == old(self).en_passant,
            final(self).halfmove_clock == old(self).halfmove_clock,
            final(self).fullmove_number == old(self).fullmove_number,
            old(self).castling_rights.bits() < 16 ==> final(self).castling_rights.bits() < 16,
    {
        match self.rules.castling().route(color, CastleSide::QueenSide) {
            Some(rt) => if rt.rook_from == sq {
                self.castling_rights.set(color, CastleSide::QueenSide, false);
            },
            None => {},
        }
        match self.rules.castling().route(color, CastleSide::KingSide) {
            Some(rt) => if rt.rook_from == sq {
                self.castling_rights.set(color, CastleSide::KingSide, false);
            },
            None => {},
        }
    }

    fn update_castling_rights(
        &mut self,
        moving_piece: Piece,
        from: Square,
        captured_piece: Option<Piece>,
        captured_square: Option<Square>,
    )
        ensures
            final(self).castling_rights == ({
                let rights = old(self).castling_rights;
                let r1 = if moving_piece.kind == PieceKind::King {
                    rights.without(moving_piece.color, CastleSide::QueenSide).without(
                        moving_piece.color,
                        CastleSide::KingSide,
                    )
                } else if moving_piece.kind == PieceKind::Rook {
                    without_rook_routes(*old(self), rights, moving_piece.color, from)
                } else {
                    rights
                };
                match (captured_piece, captured_square) {
                    (Some(p), Some(s)) => if p.kind == PieceKind::Rook {
                        without_rook_routes(*old(self), r1, p.color, s)
                    } else {
                        r1
                    },
                    _ => r1,
                }
            }),
            final(self).rules == old(self).rules,
            final(self).board == old(self).board,
            final(self).side_to_move == old(self).side_to_move,
            final(self).en_passant == old(self).en_passant,
            final(self).halfmove_clock == old(self).halfmove_clock,
            final(self).fullmove_number == old(self).fullmove_number,
            old(self).castling_rights.bits() < 16 ==> final(self).castling_rights.bits() < 16,
    {
        if moving_piece.kind == PieceKind::King {
            self.castling_rights.clear_color(moving_piece.color);
        } else if moving_piece.kind == PieceKind::Rook {
            self.remove_rook_routes(moving_piece.color, from);
        }
        match (captured_piece, captured_square) {
            (Some(piece), Some(square)) => if piece.kind == PieceKind::Rook {
                let ghost mid = *self;
                self.remove_rook_routes(piece.color, square);
            },
            _ => {},
        }
    }

    /// Plays a move without checking that it is legal.
    pub(crate) fn apply_unchecked(&mut self, chess_move: Move)
        requires
            old(self).wf(),
            sound(*old(self), chess_move),
        ensures
            *final(self) == old(self).after(chess_move),
            final(self).wf(),
    {
        let ghost pos = *self;
        let moving_piece = self.board.piece_at(chess_move.from).unwrap();
        let captured_square = match chess_move.kind {
            MoveKind::EnPassant => Some(Square::new(chess_move.to.file, chess_move.from.rank)),
            _ => if self.board.piece_at(chess_move.to).is_some() {
                Some(chess_move.to)
            } else {
                None
            },
        };
        let captured_piece = match captured_square {
            Some(square) => self.board.piece_at(square),
            None => None,
        };
        self.update_castling_rights(moving_piece, chess_move.from, captured_piece, captured_square);
        match chess_move.kind {
            MoveKind::Castle(side) => {
                let route = self.rules.castling().route(moving_piece.color, side).unwrap();
                proof {
                    pos.rules_spec().lemma_valid_parts(moving_piece.color, side);
                }
                self.board.set_piece_unchecked(route.king_from, None);
                self.board.set_piece_unchecked(route.rook_from, None);
                self.board.set_piece_unchecked(
                    route.king_to,
                    Some(Piece::new(moving_piece.color, PieceKind::King)),
                );
                self.board.set_piece_unchecked(
                    route.rook_to,
                    Some(Piece::new(moving_piece.color, PieceKind::Rook)),
                );
            },
            _ => {
                self.board.set_piece_unchecked(chess_move.from, None);
                match captured_square {
                    Some(square) => self.board.set_piece_unchecked(square, None),
                    None => {},
                }
                let kind = match chess_move.promotion {
                    Some(k) => k,
                    None => moving_piece.kind,
                };
                self.board.set_piece_unchecked(chess_move.to, Some(Piece::new(moving_piece.color, kind)));
            },
        }
        let from_rank = chess_move.from.rank;
        let to_rank = chess_move.to.rank;
        let two_steps = if from_rank >= to_rank {
            from_rank - to_rank == 2
        } else {
            to_rank - from_rank == 2
        };
        self.en_passant = if moving_piece.kind == PieceKind::Pawn && two_steps {
            Some(Square::new(chess_move.from.file, (from_rank + to_rank) / 2))
        } else {
            None
        };
        if moving_piece.kind == PieceKind::Pawn || captured_piece.is_some() {
            self.halfmove_clock = 0;
        } else {
            self.halfmove_clock = if self.halfmove_clock == u32::MAX {
                u32::MAX
            } else {
                self.halfmove_clock + 1
            };
        }
        if self.side_to_move == Color::Black {
            self.fullmove_number = if self.fullmove_number == u32::MAX {
                u32::MAX
            } else {
                self.fullmove_number + 1
            };
        }
        self.side_to_move = self.side_to_move.opposite();
        proof {
            let want = pos.after(chess_move);
            assert(self.board == board_after(pos, chess_move));
            assert(self.castling_rights == rights_after(pos, chess_move));
            assert(self.en_passant == en_passant_after(pos, chess_move));
            assert(self.halfmove_clock == halfmove_after(pos, chess_move));
            assert(self.fullmove_number == fullmove_after(pos, chess_move));
        }
    }
}

} // verus!
