//! A game: a position plus the history needed for repetition draws.
use vstd::prelude::*;
use crate::attack::in_check;
use crate::board::Board;
use crate::legal::{checkmate_spec, legal_spec, notation_move, stalemate_spec, MoveError};
use crate::mv::{Move, MoveKind};
use crate::position::Position;
use crate::rules::CastlingRights;
use crate::types::{Color, Square};

verus! {

broadcast use {crate::position::Position::lemma_after};

#[derive(Clone, Copy, Debug, PartialEq, Eq, Structural)]
pub enum DrawReason {
    Stalemate,
    FiftyMoveRule,
    ThreefoldRepetition,
}

#[derive(Clone, Copy, Debug, PartialEq, Eq, Structural)]
pub enum GameOutcome {
    Ongoing,
    Check,
    Win { winner: Color },
    Draw(DrawReason),
}

/// What makes two positions the same for repetition: the placement, the side
/// to move, the castling rights, and the en passant capture actually
/// available. Move clocks do not count.
#[derive(Clone, Copy, Debug, PartialEq, Eq)]
pub struct RepetitionKey {
    pub board: Board,
    pub side: Color,
    pub rights: CastlingRights,
    pub en_passant: Option<Square>,
}

/// The target of the first legal en passant capture in `ms`, if any.
pub open spec fn first_en_passant(ms: Seq<Move>) -> Option<Square>
    decreases ms.len(),
{
    if ms.len() == 0 {
        None
    } else {
        match first_en_passant(ms.drop_last()) {
            Some(s) => Some(s),
            None => if ms.last().kind == MoveKind::EnPassant {
                Some(ms.last().to)
            } else {
                None
            },
        }
    }
}

pub open spec fn key_of(pos: Position) -> RepetitionKey {
    RepetitionKey {
        board: pos.board_spec(),
        side: pos.side_spec(),
        rights: pos.rights_spec(),
        en_passant: first_en_passant(legal_spec(pos)),
    }
}

/// How many entries of `keys` equal `key`.
pub open spec fn occurrences(keys: Seq<RepetitionKey>, key: RepetitionKey) -> nat
    decreases keys.len(),
{
    if keys.len() == 0 {
        0
    } else {
        occurrences(keys.drop_last(), key) + if keys.last() == key {
            1nat
        } else {
            0nat
        }
    }
}

/// The state of a game: mate or stalemate when no legal move is left, then
/// the fifty-move rule, then threefold repetition, then check.
pub open spec fn outcome_spec(pos: Position, keys: Seq<RepetitionKey>) -> GameOutcome {
    let checked = in_check(pos.board_spec(), pos.side_spec());
    if legal_spec(pos).len() == 0 {
        if checked {
            GameOutcome::Win { winner: pos.side_spec().other() }
        } else {
            GameOutcome::Draw(DrawReason::Stalemate)
        }
    } else if pos.halfmove_spec() >= 100 {
        GameOutcome::Draw(DrawReason::FiftyMoveRule)
    } else if occurrences(keys, key_of(pos)) >= 3 {
        GameOutcome::Draw(DrawReason::ThreefoldRepetition)
    } else if checked {
        GameOutcome::Check
    } else {
        GameOutcome::Ongoing
    }
}

/// A game is won exactly when the side to move is checkmated, and drawn by
/// stalemate exactly when it is stalemated, whatever the history.
pub proof fn lemma_outcome_reports_mate(pos: Position, keys: Seq<RepetitionKey>)
    ensures
        checkmate_spec(pos) <==> outcome_spec(pos, keys) == (GameOutcome::Win { winner: pos.side_spec().other() }),
        stalemate_spec(pos) <==> outcome_spec(pos, keys) == GameOutcome::Draw(DrawReason::Stalemate),
{
}


/// `occurrences` counts entries: it is the multiplicity of `key` among `keys`.
proof fn lemma_occurrences_count(keys: Seq<RepetitionKey>, key: RepetitionKey)
    ensures
        occurrences(keys, key) == keys.to_multiset().count(key),
    decreases keys.len(),
{
    broadcast use {vstd::seq_lib::group_to_multiset_ensures, vstd::multiset::group_multiset_axioms};

    if keys.len() == 0 {
        assert(!keys.contains(key));
    } else {
        let rest = keys.drop_last();
        lemma_occurrences_count(rest, key);
        assert(rest.push(keys.last()) =~= keys);
    }
}

/// A game is drawn by repetition exactly when the side to move still has a
/// legal move, the fifty-move count is not reached, and the current position
/// has occurred at least three times in the history: a position seen only
/// once or twice is no draw by repetition.
pub proof fn lemma_repetition_needs_three(pos: Position, keys: Seq<RepetitionKey>)
    ensures
        outcome_spec(pos, keys) == GameOutcome::Draw(DrawReason::ThreefoldRepetition) <==> (legal_spec(pos).len() > 0
            && pos.halfmove_spec() < 100 && keys.to_multiset().count(key_of(pos)) >= 3),
        legal_spec(pos).len() > 0 && pos.halfmove_spec() < 100 && keys.to_multiset().count(key_of(pos)) < 3
            ==> (outcome_spec(pos, keys) == GameOutcome::Ongoing || outcome_spec(pos, keys) == GameOutcome::Check),
{
    lemma_occurrences_count(keys, key_of(pos));
}

/// A position plus repetition history.
#[derive(Clone, Debug)]
pub struct Game {
    position: Position,
    repetitions: Vec<RepetitionKey>,
}

fn same_key(a: &RepetitionKey, b: &RepetitionKey) -> (r: bool)
    ensures
        r == (*a == *b),
{
    let ep_same = match (a.en_passant, b.en_passant) {
        (Some(x), Some(y)) => x == y,
        (None, None) => true,
        _ => false,
    };
    a.board.equals(&b.board) && a.side == b.side && a.rights == b.rights && ep_same
}

fn repetition_key(position: &Position) -> (r: RepetitionKey)
    requires
        position.wf(),
    ensures
        r == key_of(*position),
{
    let moves = position.legal_moves();
    let mut i: usize = 0;
    while i < moves.len()
        invariant
            i <= moves@.len(),
            moves@ == legal_spec(*position),
            first_en_passant(moves@.take(i as int)) is None,
        decreases moves.len() - i,
    {
        assert(moves@.take(i + 1).drop_last() =~= moves@.take(i as int));
        if moves[i].kind == MoveKind::EnPassant {
            proof {
                lemma_first_en_passant_prefix(moves@, (i + 1) as int);
            }
            return RepetitionKey {
                board: *position.board(),
                side: position.side_to_move(),
                rights: position.castling_rights(),
                en_passant: Some(moves[i].to),
            };
        }
        i += 1;
    }
    assert(moves@.take(moves@.len() as int) =~= moves@);
    let en_passant: Option<Square> = None;
    RepetitionKey {
        board: *position.board(),
        side: position.side_to_move(),
        rights: position.castling_rights(),
        en_passant,
    }
}

proof fn lemma_first_en_passant_prefix(ms: Seq<Move>, k: int)
    requires
        0 <= k <= ms.len(),
        first_en_passant(ms.take(k)) is Some,
    ensures
        first_en_passant(ms) == first_en_passant(ms.take(k)),
    decreases ms.len() - k,
{
    if k < ms.len() {
        assert(ms.take(k + 1).drop_last() =~= ms.take(k));
        lemma_first_en_passant_prefix(ms, k + 1);
    } else {
        assert(ms.take(k) =~= ms);
    }
}

impl Game {
    pub closed spec fn position_spec(self) -> Position {
        self.position
    }

    /// The repetition keys of every position reached, the first one first.
    pub closed spec fn history(self) -> Seq<RepetitionKey> {
        self.repetitions@
    }

    pub open spec fn wf(self) -> bool {
        self.position_spec().wf()
    }

    pub fn new(position: Position) -> (r: Self)
        requires
            position.wf(),
        ensures
            r.position_spec() == position,
            r.history() == seq![key_of(position)],
            r.wf(),
    {
        let key = repetition_key(&position);
        let mut repetitions: Vec<RepetitionKey> = Vec::new();
        repetitions.push(key);
        assert(repetitions@ =~= seq![key_of(position)]);
        Game { position, repetitions }
    }

    pub fn position(&self) -> (r: &Position)
        ensures
            *r == self.position_spec(),
    {
        &self.position
    }

    fn record_position(&mut self)
        requires
            old(self).wf(),
        ensures
            final(self).position_spec() == old(self).position_spec(),
            final(self).history() == old(self).history().push(key_of(old(self).position_spec())),
    {
        let key = repetition_key(&self.position);
        self.repetitions.push(key);
    }

    /// Plays a legal move and records the position it leads to.
    pub fn play(&mut self, chess_move: Move) -> (r: Result<(), MoveError>)
        requires
            old(self).wf(),
        ensures
            final(self).wf(),
            r is Ok <==> legal_spec(old(self).position_spec()).contains(chess_move),
            r is Ok ==> final(self).position_spec() == old(self).position_spec().after(chess_move)
                && final(self).history() == old(self).history().push(key_of(final(self).position_spec())),
            r matches Err(e) ==> e == MoveError::IllegalMove(chess_move) && *final(self) == *old(self),
    {
        match self.position.play(chess_move) {
            Ok(()) => {},
            Err(e) => return Err(e),
        }
        self.record_position();
        Ok(())
    }

    /// Plays the legal move that coordinate notation names.
    pub fn play_uci(&mut self, value: &str) -> (r: Result<Move, MoveError>)
        requires
            old(self).wf(),
        ensures
            final(self).wf(),
            r is Ok <==> notation_move(old(self).position_spec(), value@) is Some,
            r matches Ok(m) ==> notation_move(old(self).position_spec(), value@) == Some(m)
                && final(self).position_spec() == old(self).position_spec().after(m)
                && final(self).history() == old(self).history().push(key_of(final(self).position_spec())),
            r matches Err(e) ==> e matches MoveError::IllegalNotation(s) && s@ == value@ && *final(self) == *old(self),
    {
        let chess_move = match self.position.parse_uci_move(value) {
            Ok(m) => m,
            Err(e) => return Err(e),
        };
        match self.position.play(chess_move) {
            Ok(()) => {},
            Err(_) => {
                proof {
                    old(self).position_spec().lemma_notation_move_sound(value@);
                }
                return Err(MoveError::IllegalMove(chess_move));
            },
        }
        self.record_position();
        Ok(chess_move)
    }

    pub fn outcome(&self) -> (r: GameOutcome)
        requires
            self.wf(),
        ensures
            r == outcome_spec(self.position_spec(), self.history()),
    {
        let in_check = self.position.is_in_check(self.position.side_to_move());
        let no_moves = self.position.legal_moves().len() == 0;
        if no_moves {
            return if in_check {
                GameOutcome::Win { winner: self.position.side_to_move().opposite() }
            } else {
                GameOutcome::Draw(DrawReason::Stalemate)
            };
        }
        if self.position.halfmove_clock() >= 100 {
            return GameOutcome::Draw(DrawReason::FiftyMoveRule);
        }
        let key = repetition_key(&self.position);
        let mut count: u64 = 0;
        let mut i: usize = 0;
        while i < self.repetitions.len()
            invariant
                i <= self.repetitions@.len(),
                count == occurrences(self.repetitions@.take(i as int), key),
                count <= i,
            decreases self.repetitions.len() - i,
        {
            assert(self.repetitions@.take(i + 1).drop_last() =~= self.repetitions@.take(i as int));
            if same_key(&self.repetitions[i], &key) {
                count += 1;
            }
            i += 1;
        }
        assert(self.repetitions@.take(i as int) =~= self.repetitions@);
        if count >= 3 {
            return GameOutcome::Draw(DrawReason::ThreefoldRepetition);
        }
        if in_check {
            GameOutcome::Check
        } else {
            GameOutcome::Ongoing
        }
    }
}

} // verus!
