//! Legal moves, check, mate, and playing moves.
use vstd::prelude::*;
use crate::attack::{attacked, board_in_check, in_check, is_square_attacked_on, step_on};
use crate::movegen::{
    grand_choices, king_at, lemma_pawn_moves_generated, lemma_pseudo_moves_on_board, lemma_pseudo_moves_orderly,
    lemma_pseudo_moves_tame, orderly, pawn_arrivals, pawn_capture, pseudo_legal_moves, pseudo_moves, sound_from,
    with_promotion,
};
use crate::rules::PromotionRule;
use crate::mv::{move_text, writable, CastleSide, Move, MoveKind};
use crate::position::{captured_square, sat_inc, sound, Position};
use crate::text::{chars_of, decimal, lower_all, lowercased, push_str, same_chars, string_of, trim, trimmed};
use crate::types::{offset_spec, Color, Piece, PieceKind, Square};

verus! {

broadcast use {crate::board::Board::lemma_wf_size, crate::position::Position::lemma_after};

/// The moves of `ms` after which the side to move's king is not attacked.
pub open spec fn legal_filter(pos: Position, ms: Seq<Move>) -> Seq<Move>
    decreases ms.len(),
{
    if ms.len() == 0 {
        Seq::empty()
    } else {
        let rest = legal_filter(pos, ms.drop_last());
        if !in_check(pos.after(ms.last()).board_spec(), pos.side_spec()) {
            rest.push(ms.last())
        } else {
            rest
        }
    }
}

/// The legal moves of a position, in generation order.
pub open spec fn legal_spec(pos: Position) -> Seq<Move> {
    legal_filter(pos, pseudo_moves(pos))
}

pub open spec fn checkmate_spec(pos: Position) -> bool {
    in_check(pos.board_spec(), pos.side_spec()) && legal_spec(pos).len() == 0
}

pub open spec fn stalemate_spec(pos: Position) -> bool {
    !in_check(pos.board_spec(), pos.side_spec()) && legal_spec(pos).len() == 0
}

/// Caps a count at the largest `u64`.
pub open spec fn sat_u64(x: nat) -> nat {
    if x > u64::MAX { u64::MAX as nat } else { x }
}

/// The number of move sequences of length `depth` from the position, each
/// partial sum capped at the largest `u64`.
pub open spec fn perft_spec(pos: Position, depth: nat) -> nat
    decreases depth, 0nat,
{
    if depth == 0 {
        1
    } else {
        perft_sum(pos, legal_spec(pos), (depth - 1) as nat)
    }
}

pub open spec fn perft_sum(pos: Position, ms: Seq<Move>, d: nat) -> nat
    decreases d, ms.len(),
{
    if ms.len() == 0 {
        0
    } else {
        sat_u64(perft_sum(pos, ms.drop_last(), d) + perft_spec(pos.after(ms.last()), d))
    }
}

/// The first move of `ms` whose coordinate notation is `text`.
pub open spec fn first_with_text(ms: Seq<Move>, text: Seq<char>) -> Option<Move>
    decreases ms.len(),
{
    if ms.len() == 0 {
        None
    } else {
        match first_with_text(ms.drop_last(), text) {
            Some(m) => Some(m),
            None => if move_text(ms.last()) == text {
                Some(ms.last())
            } else {
                None
            },
        }
    }
}

proof fn lemma_first_with_text_prefix(ms: Seq<Move>, k: int, text: Seq<char>)
    requires
        0 <= k <= ms.len(),
        first_with_text(ms.take(k), text) is Some,
    ensures
        first_with_text(ms, text) == first_with_text(ms.take(k), text),
    decreases ms.len() - k,
{
    if k < ms.len() {
        assert(ms.take(k + 1).drop_last() =~= ms.take(k));
        lemma_first_with_text_prefix(ms, k + 1, text);
    } else {
        assert(ms.take(k) =~= ms);
    }
}

/// How move notation is read: surrounding white space is ignored and ASCII
/// letters are taken in lower case.
pub open spec fn normalized_notation(value: Seq<char>) -> Seq<char> {
    lower_all(trim(value))
}

/// The legal move that notation names, if any.
pub open spec fn notation_move(pos: Position, value: Seq<char>) -> Option<Move> {
    first_with_text(legal_spec(pos), normalized_notation(value))
}

fn contains_move(ms: &Vec<Move>, m: Move) -> (r: bool)
    ensures
        r == ms@.contains(m),
{
    let mut i: usize = 0;
    while i < ms.len()
        invariant
            i <= ms@.len(),
            forall|j: int| 0 <= j < i ==> ms@[j] != m,
        decreases ms.len() - i,
    {
        if ms[i] == m {
            assert(ms@[i as int] == m);
            return true;
        }
        i += 1;
    }
    false
}

impl Position {
    /// Whether `color`'s king is attacked.
    pub fn is_in_check(&self, color: Color) -> (r: bool)
        requires
            self.wf(),
        ensures
            r == in_check(self.board_spec(), color),
    {
        board_in_check(self.board(), color)
    }

    pub fn is_square_attacked(&self, square: Square, by: Color) -> (r: bool)
        requires
            self.wf(),
        ensures
            r == attacked(self.board_spec(), square, by),
    {
        is_square_attacked_on(self.board(), square, by)
    }

    /// Generates every legal move for the side to move.
    pub fn legal_moves(&self) -> (r: Vec<Move>)
        requires
            self.wf(),
        ensures
            r@ == legal_spec(*self),
            sound_from(*self, r@, 0),
    {
        let pseudo = pseudo_legal_moves(self);
        let moving_color = self.side_to_move();
        let mut legal: Vec<Move> = Vec::new();
        let mut i: usize = 0;
        while i < pseudo.len()
            invariant
                self.wf(),
                moving_color == self.side_spec(),
                i <= pseudo@.len(),
                pseudo@ == pseudo_moves(*self),
                sound_from(*self, pseudo@, 0),
                legal@ == legal_filter(*self, pseudo@.take(i as int)),
                sound_from(*self, legal@, 0),
            decreases pseudo.len() - i,
        {
            let chess_move = pseudo[i];
            assert(sound(*self, pseudo@[i as int]));
            let mut next = self.duplicate();
            next.apply_unchecked(chess_move);
            assert(pseudo@.take(i + 1).drop_last() =~= pseudo@.take(i as int));
            if !board_in_check(next.board(), moving_color) {
                legal.push(chess_move);
            }
            i += 1;
        }
        assert(pseudo@.take(pseudo@.len() as int) =~= pseudo@);
        legal
    }

    /// The position after a move, applied without checking legality.
    pub(crate) fn after_move_unchecked(&self, chess_move: Move) -> (r: Position)
        requires
            self.wf(),
            sound(*self, chess_move),
        ensures
            r == self.after(chess_move),
            r.wf(),
    {
        let mut next = self.duplicate();
        next.apply_unchecked(chess_move);
        next
    }

    /// Counts leaf positions to a fixed depth. This is primarily useful for
    /// validating integrations and move-generation changes.
    pub fn perft(&self, depth: u8) -> (r: u64)
        requires
            self.wf(),
        ensures
            r == perft_spec(*self, depth as nat),
        decreases depth,
    {
        if depth == 0 {
            return 1;
        }
        let moves = self.legal_moves();
        let mut total: u64 = 0;
        let mut i: usize = 0;
        while i < moves.len()
            invariant
                self.wf(),
                depth > 0,
                i <= moves@.len(),
                moves@ == legal_spec(*self),
                sound_from(*self, moves@, 0),
                total == perft_sum(*self, moves@.take(i as int), (depth - 1) as nat),
            decreases moves.len() - i,
        {
            let chess_move = moves[i];
            assert(sound(*self, moves@[i as int]));
            let child = self.after_move_unchecked(chess_move);
            let count = child.perft(depth - 1);
            assert(moves@.take(i + 1).drop_last() =~= moves@.take(i as int));
            total = if total > u64::MAX - count {
                u64::MAX
            } else {
                total + count
            };
            i += 1;
        }
        assert(moves@.take(moves@.len() as int) =~= moves@);
        total
    }

    pub fn is_checkmate(&self) -> (r: bool)
        requires
            self.wf(),
        ensures
            r == checkmate_spec(*self),
    {
        self.is_in_check(self.side_to_move()) && self.legal_moves().len() == 0
    }

    pub fn is_stalemate(&self) -> (r: bool)
        requires
            self.wf(),
        ensures
            r == stalemate_spec(*self),
    {
        !self.is_in_check(self.side_to_move()) && self.legal_moves().len() == 0
    }

    /// Resolves coordinate notation against the current legal move list.
    pub fn parse_uci_move(&self, value: &str) -> (r: Result<Move, MoveError>)
        requires
            self.wf(),
        ensures
            r is Ok <==> notation_move(*self, value@) is Some,
            r matches Ok(m) ==> notation_move(*self, value@) == Some(m) && sound(*self, m),
            r matches Err(e) ==> e matches MoveError::IllegalNotation(s) && s@ == value@,
    {
        let chars = chars_of(value);
        let normalized = lowercased(&trimmed(&chars));
        let moves = self.legal_moves();
        let mut i: usize = 0;
        while i < moves.len()
            invariant
                self.wf(),
                i <= moves@.len(),
                moves@ == legal_spec(*self),
                sound_from(*self, moves@, 0),
                normalized@ == normalized_notation(value@),
                first_with_text(moves@.take(i as int), normalized@) is None,
            decreases moves.len() - i,
        {
            let chess_move = moves[i];
            assert(sound(*self, moves@[i as int]));
            assert(moves@.take(i + 1).drop_last() =~= moves@.take(i as int));
            let text = chess_move.uci_chars();
            if same_chars(&text, &normalized) {
                proof {
                    lemma_first_with_text_prefix(moves@, i + 1, normalized@);
                }
                return Ok(chess_move);
            }
            i += 1;
        }
        assert(moves@.take(moves@.len() as int) =~= moves@);
        Err(MoveError::IllegalNotation(value.to_owned()))
    }

    /// Plays the legal move that coordinate notation names.
    pub fn play_uci(&mut self, value: &str) -> (r: Result<Move, MoveError>)
        requires
            old(self).wf(),
        ensures
            final(self).wf(),
            r is Ok <==> notation_move(*old(self), value@) is Some,
            r matches Ok(m) ==> notation_move(*old(self), value@) == Some(m) && *final(self) == old(
                self,
            ).after(m),
            r matches Err(e) ==> e matches MoveError::IllegalNotation(s) && s@ == value@ && *final(self) == *old(self),
    {
        let chess_move = match self.parse_uci_move(value) {
            Ok(m) => m,
            Err(e) => return Err(e),
        };
        self.apply_unchecked(chess_move);
        Ok(chess_move)
    }

    /// A move that notation names is a legal, sound move.
    pub proof fn lemma_notation_move_sound(self, value: Seq<char>)
        requires
            self.wf(),
            notation_move(self, value) is Some,
        ensures
            legal_spec(self).contains(notation_move(self, value)->Some_0),
    {
        lemma_first_with_text_member(legal_spec(self), normalized_notation(value));
    }

    /// Plays a legal move; anything else is refused and leaves the position
    /// as it was.
    pub fn play(&mut self, chess_move: Move) -> (r: Result<(), MoveError>)
        requires
            old(self).wf(),
        ensures
            final(self).wf(),
            r is Ok <==> legal_spec(*old(self)).contains(chess_move),
            r is Ok ==> *final(self) == old(self).after(chess_move),
            r matches Err(e) ==> e == MoveError::IllegalMove(chess_move) && *final(self) == *old(self),
    {
        let moves = self.legal_moves();
        if !contains_move(&moves, chess_move) {
            return Err(MoveError::IllegalMove(chess_move));
        }
        let ghost k = choose|k: int| 0 <= k < moves@.len() && moves@[k] == chess_move;
        assert(sound(*self, moves@[k]));
        self.apply_unchecked(chess_move);
        Ok(())
    }

    /// The position after a legal move, or the refusal of any other move.
    pub fn after_move(&self, chess_move: Move) -> (r: Result<Position, MoveError>)
        requires
            self.wf(),
        ensures
            r is Ok <==> legal_spec(*self).contains(chess_move),
            r matches Ok(p) ==> p == self.after(chess_move) && p.wf(),
            r matches Err(e) ==> e == MoveError::IllegalMove(chess_move),
    {
        let mut next = self.duplicate();
        match next.play(chess_move) {
            Ok(()) => Ok(next),
            Err(e) => Err(e),
        }
    }
}

proof fn lemma_first_with_text_member(ms: Seq<Move>, text: Seq<char>)
    requires
        first_with_text(ms, text) is Some,
    ensures
        ms.contains(first_with_text(ms, text)->Some_0),
        move_text(first_with_text(ms, text)->Some_0) == text,
    decreases ms.len(),
{
    if ms.len() > 0 {
        if first_with_text(ms.drop_last(), text) is Some {
            lemma_first_with_text_member(ms.drop_last(), text);
            let m = first_with_text(ms, text)->Some_0;
            let k = choose|k: int| 0 <= k < ms.drop_last().len() && ms.drop_last()[k] == m;
            assert(ms[k] == m);
        } else {
            assert(ms[ms.len() - 1] == ms.last());
        }
    }
}

proof fn lemma_legal_filter_members(pos: Position, ms: Seq<Move>, m: Move)
    ensures
        legal_filter(pos, ms).contains(m) <==> (ms.contains(m) && !in_check(
            pos.after(m).board_spec(),
            pos.side_spec(),
        )),
    decreases ms.len(),
{
    if ms.len() > 0 {
        let rest = ms.drop_last();
        lemma_legal_filter_members(pos, rest, m);
        if ms.contains(m) && m != ms.last() {
            let k = choose|k: int| 0 <= k < ms.len() && ms[k] == m;
            assert(rest[k] == m);
        }
        if rest.contains(m) {
            let k = choose|k: int| 0 <= k < rest.len() && rest[k] == m;
            assert(ms[k] == m);
        }
        if legal_filter(pos, ms).contains(m) && m == ms.last() {
            assert(ms[ms.len() - 1] == m);
        }
        let filtered = legal_filter(pos, ms);
        if m == ms.last() && !in_check(pos.after(m).board_spec(), pos.side_spec()) {
            assert(filtered[filtered.len() - 1] == m);
        }
        if legal_filter(pos, rest).contains(m) && filtered != legal_filter(pos, rest) {
            let k = choose|k: int| 0 <= k < legal_filter(pos, rest).len() && legal_filter(pos, rest)[k] == m;
            assert(filtered[k] == m);
        }
    }
}

/// The legal moves are exactly the generated moves after which the mover's
/// king is not attacked.
pub proof fn lemma_legal_moves_leave_king_safe(pos: Position, m: Move)
    ensures
        legal_spec(pos).contains(m) <==> (pseudo_moves(pos).contains(m) && !in_check(
            pos.after(m).board_spec(),
            pos.side_spec(),
        )),
{
    lemma_legal_filter_members(pos, pseudo_moves(pos), m);
}

/// Every legal move starts on a piece of the side to move and ends on the
/// board; an ordinary move never lands on a king, an en passant capture is
/// made by a pawn onto the en passant square and changes rank, a castling
/// move lands on no king unless its route leaves the king where it stands,
/// no move promotes to a king, and no legal move leaves the mover's king
/// attacked.
pub proof fn lemma_legal_moves_are_safe(pos: Position, m: Move)
    requires
        pos.wf(),
        legal_spec(pos).contains(m),
    ensures
        pos.board_spec().at(m.from) matches Some(p) && p.color == pos.side_spec(),
        pos.board_spec().dims().holds(m.from),
        pos.board_spec().dims().holds(m.to),
        m.kind == MoveKind::Normal ==> !king_at(pos.board_spec(), m.to),
        m.kind == MoveKind::EnPassant ==> (pos.board_spec().at(m.from) matches Some(p) && p.kind == PieceKind::Pawn),
        m.kind == MoveKind::EnPassant ==> m.to.rank != m.from.rank && pos.ep_spec() == Some(m.to),
        m.kind is Castle ==> (m.to == m.from || !king_at(pos.board_spec(), m.to)),
        m.promotion matches Some(k) ==> k != PieceKind::King,
        orderly(pos, m),
        !in_check(pos.after(m).board_spec(), pos.side_spec()),
{
    lemma_legal_moves_leave_king_safe(pos, m);
    lemma_pseudo_moves_on_board(pos);
    lemma_pseudo_moves_tame(pos);
    lemma_pseudo_moves_orderly(pos);
    let k = choose|k: int| 0 <= k < pseudo_moves(pos).len() && pseudo_moves(pos)[k] == m;
    assert(pseudo_moves(pos)[k] == m);
    assert(orderly(pos, m));
}

/// No legal move lands on a king, when the en passant square, if any, is
/// empty and no castling route leaves the king where it stands.
pub proof fn lemma_legal_moves_land_on_no_king(pos: Position, m: Move)
    requires
        pos.wf(),
        legal_spec(pos).contains(m),
        pos.ep_spec() matches Some(e) ==> pos.board_spec().at(e) is None,
        forall|c: Color, s: CastleSide| (#[trigger] pos.rules_spec().castling_spec().route_of(c, s) matches Some(rt)
            ==> rt.king_to != rt.king_from),
    ensures
        !king_at(pos.board_spec(), m.to),
{
    lemma_legal_moves_are_safe(pos, m);
}

/// The count of kings of `color` after a legal move is at most the count
/// before.
proof fn lemma_king_count_after(pos: Position, m: Move, color: Color)
    requires
        pos.wf(),
        legal_spec(pos).contains(m),
    ensures
        pos.after(m).board_spec().count_spec(color, PieceKind::King) <= pos.board_spec().count_spec(
            color,
            PieceKind::King,
        ),
{
    broadcast use crate::board::Board::lemma_with_shape;

    lemma_legal_moves_are_safe(pos, m);
    pos.lemma_after(m);
    let b = pos.board_spec();
    let king = Piece { color, kind: PieceKind::King };
    let moving = b.at(m.from)->Some_0;
    match m.kind {
        MoveKind::Castle(side) => {
            let rt = pos.rules_spec().castling_spec().route_of(moving.color, side)->Some_0;
            pos.rules_spec().lemma_valid_parts(moving.color, side);
            let b1 = b.with(rt.king_from, None);
            let b2 = b1.with(rt.rook_from, None);
            let b3 = b2.with(rt.king_to, Some(Piece { color: moving.color, kind: PieceKind::King }));
            b.lemma_count_with(rt.king_from, None, king);
            b1.lemma_count_with(rt.rook_from, None, king);
            b2.lemma_count_with(rt.king_to, Some(Piece { color: moving.color, kind: PieceKind::King }), king);
            b3.lemma_count_with(rt.rook_to, Some(Piece { color: moving.color, kind: PieceKind::Rook }), king);
        },
        _ => {
            let placed = Piece {
                color: moving.color,
                kind: match m.promotion {
                    Some(k) => k,
                    None => moving.kind,
                },
            };
            let b1 = b.with(m.from, None);
            b.lemma_count_with(m.from, None, king);
            let b2 = match captured_square(pos, m) {
                Some(s) => {
                    assert(b.dims().holds(s));
                    b1.lemma_count_with(s, None, king);
                    b1.with(s, None)
                },
                None => b1,
            };
            b2.lemma_count_with(m.to, Some(placed), king);
        },
    }
}

/// No legal move adds a king: each color has at most as many kings after
/// it as before, so a board with at most one king of each color keeps at
/// most one.
pub proof fn lemma_play_adds_no_king(pos: Position, m: Move)
    requires
        pos.wf(),
        legal_spec(pos).contains(m),
    ensures
        forall|c: Color|
            #[trigger] pos.after(m).board_spec().count_spec(c, PieceKind::King) <= pos.board_spec().count_spec(
                c,
                PieceKind::King,
            ),
        pos.board_spec().single_kings() ==> pos.after(m).board_spec().single_kings(),
{
    lemma_king_count_after(pos, m, Color::White);
    lemma_king_count_after(pos, m, Color::Black);
    assert forall|c: Color| #[trigger] pos.after(m).board_spec().count_spec(c, PieceKind::King)
        <= pos.board_spec().count_spec(c, PieceKind::King) by {
        lemma_king_count_after(pos, m, c);
    }
}

/// Playing a legal move hands the turn over, counts the full move after
/// Black's move, resets the halfmove clock on a pawn move or a capture and
/// otherwise advances it, and marks the skipped square after a pawn's double
/// step, and only then.
pub proof fn lemma_play_clocks(pos: Position, m: Move)
    requires
        pos.wf(),
        legal_spec(pos).contains(m),
    ensures
        ({
            let after = pos.after(m);
            let b = pos.board_spec();
            let piece = b.at(m.from)->Some_0;
            let capture = m.kind == MoveKind::EnPassant || b.at(m.to) is Some;
            &&& after.side_spec() == pos.side_spec().other()
            &&& after.fullmove_spec() == if pos.side_spec() == Color::Black {
                sat_inc(pos.fullmove_spec())
            } else {
                pos.fullmove_spec()
            }
            &&& after.halfmove_spec() == if piece.kind == PieceKind::Pawn || capture {
                0
            } else {
                sat_inc(pos.halfmove_spec())
            }
            &&& after.ep_spec() == if piece.kind == PieceKind::Pawn && (m.from.rank - m.to.rank == 2 || m.to.rank
                - m.from.rank == 2) {
                Some(Square { file: m.from.file, rank: ((m.from.rank + m.to.rank) / 2) as u8 })
            } else {
                None
            }
        }),
{
    lemma_legal_moves_are_safe(pos, m);
    pos.lemma_after(m);
}

/// Playing a legal move that is not castling empties its source square and,
/// for an en passant capture, the captured pawn's square, puts the moving
/// piece (or the piece it promotes to) on the destination, and leaves every
/// other square as it was.
pub proof fn lemma_after_move_board(pos: Position, m: Move)
    requires
        pos.wf(),
        legal_spec(pos).contains(m),
        !(m.kind is Castle),
    ensures
        ({
            let b = pos.board_spec();
            let piece = b.at(m.from)->Some_0;
            let taken = Square { file: m.to.file, rank: m.from.rank };
            forall|sq: Square|
                #[trigger] pos.after(m).board_spec().at(sq) == if sq == m.to {
                    Some(
                        Piece {
                            color: piece.color,
                            kind: match m.promotion {
                                Some(k) => k,
                                None => piece.kind,
                            },
                        },
                    )
                } else if sq == m.from || (m.kind == MoveKind::EnPassant && sq == taken) {
                    None
                } else {
                    b.at(sq)
                }
        }),
        m.kind == MoveKind::EnPassant ==> pos.after(m).board_spec().at(Square { file: m.to.file, rank: m.from.rank })
            is None,
{
    lemma_legal_moves_are_safe(pos, m);
    pos.lemma_after(m);
    let b = pos.board_spec();
    let b1 = b.with(m.from, None);
    b.lemma_with(m.from, None, m.from);
    let taken = Square { file: m.to.file, rank: m.from.rank };
    assert(b.dims().holds(taken));
    assert forall|sq: Square| #[trigger] pos.after(m).board_spec().at(sq) == if sq == m.to {
        Some(
            Piece {
                color: b.at(m.from)->Some_0.color,
                kind: match m.promotion {
                    Some(k) => k,
                    None => b.at(m.from)->Some_0.kind,
                },
            },
        )
    } else if sq == m.from || (m.kind == MoveKind::EnPassant && sq == taken) {
        None
    } else {
        b.at(sq)
    } by {
        b.lemma_with(m.from, None, sq);
        match crate::position::captured_square(pos, m) {
            Some(c) => {
                b1.lemma_with(c, None, sq);
                b1.with(c, None).lemma_with(m.to, Some(Piece {
                    color: b.at(m.from)->Some_0.color,
                    kind: match m.promotion {
                        Some(k) => k,
                        None => b.at(m.from)->Some_0.kind,
                    },
                }), sq);
            },
            None => {
                b1.lemma_with(m.to, Some(Piece {
                    color: b.at(m.from)->Some_0.color,
                    kind: match m.promotion {
                        Some(k) => k,
                        None => b.at(m.from)->Some_0.kind,
                    },
                }), sq);
            },
        }
    }
    assert(m.kind == MoveKind::EnPassant ==> taken != m.to);
}

/// Playing a legal castling move takes the king and the rook off their
/// route's start squares and puts them on its destinations, and leaves
/// every other square as it was.
pub proof fn lemma_after_castle_board(pos: Position, m: Move, side: CastleSide)
    requires
        pos.wf(),
        legal_spec(pos).contains(m),
        m.kind == MoveKind::Castle(side),
    ensures
        pos.rules_spec().castling_spec().route_of(pos.side_spec(), side) matches Some(rt) && forall|sq: Square|
            #[trigger] pos.after(m).board_spec().at(sq) == if sq == rt.rook_to {
                Some(Piece { color: pos.side_spec(), kind: PieceKind::Rook })
            } else if sq == rt.king_to {
                Some(Piece { color: pos.side_spec(), kind: PieceKind::King })
            } else if sq == rt.king_from || sq == rt.rook_from {
                None
            } else {
                pos.board_spec().at(sq)
            },
{
    lemma_legal_moves_are_safe(pos, m);
    pos.lemma_after(m);
    let b = pos.board_spec();
    let c = pos.side_spec();
    let rt = pos.rules_spec().castling_spec().route_of(c, side)->Some_0;
    pos.rules_spec().lemma_valid_parts(c, side);
    let b1 = b.with(rt.king_from, None);
    let b2 = b1.with(rt.rook_from, None);
    let b3 = b2.with(rt.king_to, Some(Piece { color: c, kind: PieceKind::King }));
    assert forall|sq: Square| #[trigger] pos.after(m).board_spec().at(sq) == if sq == rt.rook_to {
        Some(Piece { color: c, kind: PieceKind::Rook })
    } else if sq == rt.king_to {
        Some(Piece { color: c, kind: PieceKind::King })
    } else if sq == rt.king_from || sq == rt.rook_from {
        None
    } else {
        b.at(sq)
    } by {
        b.lemma_with(rt.king_from, None, sq);
        b1.lemma_with(rt.rook_from, None, sq);
        b2.lemma_with(rt.king_to, Some(Piece { color: c, kind: PieceKind::King }), sq);
        b3.lemma_with(rt.rook_to, Some(Piece { color: c, kind: PieceKind::Rook }), sq);
    }
}

/// Pawn captures are complete, for White and Black alike: when a pawn of
/// the side to move on `from` has, one rank ahead and one file to either
/// side, an opposing piece other than a king, taking it is legal unless that
/// leaves the mover's king attacked: with no promotion short of the last
/// rank, and with each promotion that the rules offer there.
pub proof fn lemma_pawn_captures_complete(pos: Position, from: Square, to: Square, m: Move)
    requires
        pos.wf(),
        pos.board_spec().at(from) == Some(Piece { color: pos.side_spec(), kind: PieceKind::Pawn }),
        to.rank == from.rank + pos.side_spec().direction(),
        to.file == from.file + 1 || to.file + 1 == from.file,
        pos.board_spec().at(to) matches Some(p) && p.color != pos.side_spec() && p.kind != PieceKind::King,
        m.from == from,
        m.to == to,
        m.kind == MoveKind::Normal,
        match m.promotion {
            None => to.rank != (if pos.side_spec() == Color::White {
                pos.board_spec().dims().height() - 1
            } else {
                0
            }),
            Some(_) => pawn_arrivals(
                pos.board_spec(),
                pos.rules_spec(),
                from,
                to,
                pos.side_spec(),
                MoveKind::Normal,
            ).contains(m),
        },
        !in_check(pos.after(m).board_spec(), pos.side_spec()),
    ensures
        legal_spec(pos).contains(m),
{
    let b = pos.board_spec();
    let c = pos.side_spec();
    let rules = pos.rules_spec();
    let df = to.file - from.file;
    b.lemma_outside_empty(to);
    assert(offset_spec(from, df, c.direction()) == Some(to));
    assert(step_on(b, from, df, c.direction()) == Some(to));
    let arrivals = pawn_arrivals(b, rules, from, to, c, MoveKind::Normal);
    assert(pawn_capture(pos, from, c, df) == arrivals);
    if m.promotion is None {
        let plain_move = Move { from, to, promotion: None, kind: MoveKind::Normal };
        assert(m == plain_move);
        let h = b.dims().height();
        let relative = match c {
            Color::White => to.rank + 1,
            Color::Black => h - to.rank,
        };
        assert(relative != h);
        match rules.promotion_spec() {
            PromotionRule::LastRank { choices } => {
                assert(arrivals == seq![plain_move]);
                assert(arrivals[0] == m);
            },
            PromotionRule::Grand => {
                if relative >= 8 {
                    let promoted = with_promotion(from, to, MoveKind::Normal, grand_choices(b, rules, c));
                    assert(arrivals == seq![plain_move] + promoted);
                    assert(arrivals[0] == m);
                } else {
                    assert(arrivals[0] == m);
                }
            },
        }
    }
    assert(arrivals.contains(m));
    lemma_pawn_moves_generated(pos, from, df, m);
    lemma_legal_moves_leave_king_safe(pos, m);
}

/// The sum of a sequence of counts.
pub open spec fn total(counts: Seq<nat>) -> nat
    decreases counts.len(),
{
    if counts.len() == 0 {
        0
    } else {
        total(counts.drop_last()) + counts.last()
    }
}

proof fn lemma_perft_sum_total(pos: Position, ms: Seq<Move>, d: nat)
    ensures
        perft_sum(pos, ms, d) == sat_u64(total(ms.map_values(|m: Move| perft_spec(pos.after(m), d)))),
    decreases ms.len(),
{
    let counts = ms.map_values(|m: Move| perft_spec(pos.after(m), d));
    if ms.len() > 0 {
        lemma_perft_sum_total(pos, ms.drop_last(), d);
        assert(counts.drop_last() =~= ms.drop_last().map_values(|m: Move| perft_spec(pos.after(m), d)));
        assert(counts.last() == perft_spec(pos.after(ms.last()), d));
    }
}

/// Perft counts paths: from a position without legal moves there is no path
/// of one move or more, and one level deeper the count is the sum, over the
/// legal moves, of the counts from the positions they lead to (capped at the
/// largest `u64`). So a mated or stalemated child adds nothing.
pub proof fn lemma_perft_counts_paths(pos: Position, d: nat)
    ensures
        legal_spec(pos).len() == 0 ==> perft_spec(pos, d + 1) == 0,
        perft_spec(pos, d + 1) == sat_u64(total(legal_spec(pos).map_values(|m: Move| perft_spec(pos.after(m), d)))),
{
    lemma_perft_sum_total(pos, legal_spec(pos), d);
}

/// A position is never both checkmate and stalemate.
pub proof fn lemma_mate_excludes_stalemate(pos: Position)
    ensures
        !(checkmate_spec(pos) && stalemate_spec(pos)),
{
}

proof fn lemma_perft_sum_leaves(pos: Position, ms: Seq<Move>)
    ensures
        perft_sum(pos, ms, 0) == sat_u64(ms.len()),
    decreases ms.len(),
{
    if ms.len() > 0 {
        lemma_perft_sum_leaves(pos, ms.drop_last());
        assert(perft_spec(pos.after(ms.last()), 0) == 1);
        assert(perft_sum(pos, ms, 0) == sat_u64(perft_sum(pos, ms.drop_last(), 0) + 1));
    }
}

/// A count one ply deep is the number of legal moves, and zero plies deep
/// it is one.
pub proof fn lemma_perft_shallow(pos: Position)
    ensures
        perft_spec(pos, 0) == 1,
        perft_spec(pos, 1) == sat_u64(legal_spec(pos).len()),
{
    lemma_perft_sum_leaves(pos, legal_spec(pos));
}

proof fn lemma_decimal_digits(n: nat)
    ensures
        forall|i: int| 0 <= i < decimal(n).len() ==> crate::text::is_digit(#[trigger] decimal(n)[i]),
    decreases n,
{
    if n >= 10 {
        lemma_decimal_digits(n / 10);
        assert forall|i: int| 0 <= i < decimal(n).len() implies crate::text::is_digit(#[trigger] decimal(n)[i]) by {
            if i < decimal(n / 10).len() {
                assert(decimal(n)[i] == decimal(n / 10)[i]);
            }
        }
    }
}

/// A character of coordinate notation: a lower-case letter or a digit.
pub open spec fn notation_char(c: char) -> bool {
    ('a' <= c && c <= 'z') || crate::text::is_digit(c)
}

proof fn lemma_move_text_chars(m: Move)
    requires
        m.from.file < 26,
        m.to.file < 26,
    ensures
        forall|i: int| 0 <= i < move_text(m).len() ==> notation_char(#[trigger] move_text(m)[i]),
        move_text(m).len() > 0,
{
    lemma_decimal_digits((m.from.rank + 1) as nat);
    lemma_decimal_digits((m.to.rank + 1) as nat);
    let a = crate::types::square_text(m.from);
    let b = crate::types::square_text(m.to);
    assert forall|i: int| 0 <= i < a.len() implies notation_char(#[trigger] a[i]) by {
        if i > 0 {
            assert(a[i] == decimal((m.from.rank + 1) as nat)[i - 1]);
        }
    }
    assert forall|i: int| 0 <= i < b.len() implies notation_char(#[trigger] b[i]) by {
        if i > 0 {
            assert(b[i] == decimal((m.to.rank + 1) as nat)[i - 1]);
        }
    }
    let t = move_text(m);
    assert forall|i: int| 0 <= i < t.len() implies notation_char(#[trigger] t[i]) by {
        if i < a.len() {
            assert(t[i] == a[i]);
        } else if i < a.len() + b.len() {
            assert(t[i] == b[i - a.len()]);
        } else {
            let k = m.promotion->Some_0;
            assert(t[i] == k.letter());
        }
    }
}

proof fn lemma_notation_unchanged(t: Seq<char>)
    requires
        t.len() > 0,
        forall|i: int| 0 <= i < t.len() ==> notation_char(#[trigger] t[i]),
    ensures
        normalized_notation(t) == t,
{
    assert(!crate::text::is_space(t[0]));
    assert(!crate::text::is_space(t.last()));
    assert(crate::text::trim_start(t) == t);
    assert(crate::text::trim_end(t) == t);
    assert(lower_all(t) =~= t) by {
        assert forall|i: int| 0 <= i < t.len() implies #[trigger] lower_all(t)[i] == t[i] by {
            assert(notation_char(t[i]));
        }
    }
}

proof fn lemma_first_with_text_finds(ms: Seq<Move>, m: Move)
    requires
        ms.contains(m),
    ensures
        first_with_text(ms, move_text(m)) is Some,
    decreases ms.len(),
{
    if ms.len() > 0 && m != ms.last() {
        let k = choose|k: int| 0 <= k < ms.len() && ms[k] == m;
        assert(ms.drop_last()[k] == m);
        lemma_first_with_text_finds(ms.drop_last(), m);
    }
}

/// The coordinate notation of a legal move names a legal move with that
/// notation, and `parse_uci_move` reads it back.
pub proof fn lemma_notation_names_legal_move(pos: Position, m: Move)
    requires
        pos.wf(),
        legal_spec(pos).contains(m),
    ensures
        notation_move(pos, move_text(m)) is Some,
        legal_spec(pos).contains(notation_move(pos, move_text(m))->Some_0),
        move_text(notation_move(pos, move_text(m))->Some_0) == move_text(m),
{
    lemma_legal_moves_leave_king_safe(pos, m);
    crate::movegen::lemma_pseudo_moves_on_board(pos);
    let k = choose|k: int| 0 <= k < pseudo_moves(pos).len() && pseudo_moves(pos)[k] == m;
    assert(pos.board_spec().dims().holds(pseudo_moves(pos)[k].from));
    lemma_move_text_chars(m);
    lemma_notation_unchanged(move_text(m));
    lemma_first_with_text_finds(legal_spec(pos), m);
    lemma_first_with_text_member(legal_spec(pos), move_text(m));
}

#[derive(Clone, Debug, PartialEq, Eq)]
pub enum MoveError {
    IllegalMove(Move),
    IllegalNotation(String),
}

/// The text describing a move error.
pub open spec fn move_error_text(e: MoveError) -> Seq<char> {
    match e {
        MoveError::IllegalMove(m) => "illegal move: "@ + move_text(m),
        MoveError::IllegalNotation(s) => "illegal move notation: "@ + s@,
    }
}

impl MoveError {
    /// A human readable description of the error.
    pub fn message(&self) -> (r: String)
        requires
            self matches MoveError::IllegalMove(m) ==> writable(m.from) && writable(m.to),
        ensures
            r@ == move_error_text(*self),
    {
        let mut out: Vec<char> = Vec::new();
        match self {
            MoveError::IllegalMove(m) => {
                push_str(&mut out, "illegal move: ");
                let mut text = m.uci_chars();
                out.append(&mut text);
            },
            MoveError::IllegalNotation(s) => {
                push_str(&mut out, "illegal move notation: ");
                push_str(&mut out, s.as_str());
            },
        }
        string_of(&out)
    }
}

} // verus!
