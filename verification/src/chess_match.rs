//! The client's match: the game, who controls each side, the selected
//! square, the promotion being chosen, and the status line.
use vstd::prelude::*;
use crate::client::{
    describe_move, describe_move_spec, is_playable, joined, outcome_message, outcome_text, promotion_prompt,
    prompt_labels, side_name, side_name_spec, Controller,
};
use crate::game::{key_of, outcome_spec, Game, GameOutcome};
use crate::legal::{legal_spec, notation_move, MoveError};
use crate::movegen::pseudo_moves;
use crate::mv::{writable, Move, MoveKind};
use crate::position::Position;
use crate::search::SearchResult;
use crate::server::{first_failure, is_starting_position, keys_of, replay_positions, texts};
use crate::text::{decimal, push_decimal, push_str, string_of};
use crate::types::{square_text, Color, Piece, PieceKind, Square};
use crate::variant::Variant;

verus! {

broadcast use crate::board::Board::lemma_wf_size;

/// The moves of `ms` from `from` to `to`, in order.
pub open spec fn moves_between(ms: Seq<Move>, from: Square, to: Square) -> Seq<Move>
    decreases ms.len(),
{
    if ms.len() == 0 {
        Seq::empty()
    } else {
        let rest = moves_between(ms.drop_last(), from, to);
        if ms.last().from == from && ms.last().to == to {
            rest.push(ms.last())
        } else {
            rest
        }
    }
}

/// The destinations of the moves of `ms` from `from`, each once, in
/// first-seen order.
pub open spec fn destinations(ms: Seq<Move>, from: Square) -> Seq<Square>
    decreases ms.len(),
{
    if ms.len() == 0 {
        Seq::empty()
    } else {
        let rest = destinations(ms.drop_last(), from);
        if ms.last().from == from && !rest.contains(ms.last().to) {
            rest.push(ms.last().to)
        } else {
            rest
        }
    }
}

/// Whether some move of `ms` starts on `from`.
pub open spec fn has_move_from(ms: Seq<Move>, from: Square) -> bool {
    exists|i: int| 0 <= i < ms.len() && (#[trigger] ms[i]).from == from
}

/// A square the player may select: it holds a piece of the side to move that
/// has a legal move.
pub open spec fn selectable_spec(pos: Position, sq: Square) -> bool {
    &&& pos.board_spec().at(sq) matches Some(p) && p.color == pos.side_spec()
    &&& has_move_from(legal_spec(pos), sq)
}

/// What an engine reported of the move it chose: the score in centipawns
/// from the mover's side, the depth reached and the nodes searched.
#[derive(Clone, Copy, Debug, PartialEq, Eq, Structural)]
pub struct MoveAnalysis {
    pub score: i32,
    pub depth: u8,
    pub nodes: u64,
}

impl Default for MoveAnalysis {
    fn default() -> (r: Self)
        ensures
            r.score == 0,
            r.depth == 0,
            r.nodes == 0,
    {
        MoveAnalysis { score: 0, depth: 0, nodes: 0 }
    }
}

impl MoveAnalysis {
    /// The figures of a search of this library's engine.
    pub fn of_search(result: &SearchResult) -> (r: Self)
        ensures
            r.score == result.score,
            r.depth == result.depth,
            r.nodes == result.nodes,
    {
        MoveAnalysis { score: result.score, depth: result.depth, nodes: result.nodes }
    }
}

/// The evaluation note added after an engine move: the score in pawns with
/// two decimals and a sign, the depth and the node count.
pub open spec fn analysis_text(analysis: Option<MoveAnalysis>) -> Seq<char> {
    match analysis {
        None => Seq::empty(),
        Some(result) => {
            let magnitude = if result.score < 0 { -result.score } else { result.score as int };
            "  Evaluation "@ + seq![if result.score < 0 { '-' } else { '+' }] + decimal((magnitude / 100) as nat)
                + "."@ + decimal((magnitude % 100 / 10) as nat) + decimal((magnitude % 10) as nat) + ", depth "@
                + decimal(result.depth as nat) + ", "@ + decimal(result.nodes as nat) + " nodes."@
        },
    }
}

/// A legal move starts and ends on the board, from a piece of the side to
/// move.
pub proof fn lemma_legal_move_has_mover(pos: Position, m: Move)
    requires
        pos.wf(),
        legal_spec(pos).contains(m),
    ensures
        pos.board_spec().dims().holds(m.from),
        pos.board_spec().dims().holds(m.to),
        pos.board_spec().at(m.from) matches Some(p) && p.color == pos.side_spec(),
{
    crate::legal::lemma_legal_moves_leave_king_safe(pos, m);
    crate::movegen::lemma_pseudo_moves_on_board(pos);
    let k = choose|k: int| 0 <= k < pseudo_moves(pos).len() && pseudo_moves(pos)[k] == m;
    assert(pseudo_moves(pos)[k] == m);
}

/// Every move of `ms` is legal in `pos`.
pub open spec fn all_legal(pos: Position, ms: Seq<Move>) -> bool {
    forall|i: int| 0 <= i < ms.len() ==> legal_spec(pos).contains(#[trigger] ms[i])
}

/// The first move of `ms` that promotes to `promotion` (or promotes to
/// nothing, for `None`).
pub open spec fn first_promoting(ms: Seq<Move>, promotion: Option<PieceKind>) -> Option<Move>
    decreases ms.len(),
{
    if ms.len() == 0 {
        None
    } else if ms[0].promotion == promotion {
        Some(ms[0])
    } else {
        first_promoting(ms.drop_first(), promotion)
    }
}

/// `after` is `before` started over with a new game of `variant`; the
/// controllers are not part of it.
pub open spec fn restarted(before: ChessMatch, after: ChessMatch, variant: Variant) -> bool {
    &&& after.wf()
    &&& after.variant == variant
    &&& after.selected is None
    &&& after.pending_promotion is None
    &&& after.last_move is None
    &&& after.generation == next_generation(before.generation)
    &&& after.animate_last_move == before.animate_last_move
    &&& is_starting_position(variant, after.game.position_spec())
    &&& after.game.history() == seq![key_of(after.game.position_spec())]
    &&& after.status@ == "New "@ + after.game.position_spec().rules_spec().name_spec() + " game. White to move."@
}

/// The fields of a match that a selection leaves alone.
pub open spec fn same_match(a: ChessMatch, b: ChessMatch) -> bool {
    &&& b.game == a.game
    &&& b.variant == a.variant
    &&& b.controllers == a.controllers
    &&& b.last_move == a.last_move
    &&& b.generation == a.generation
    &&& b.animate_last_move == a.animate_last_move
}

/// `b` is `a` with only its status line changed.
pub open spec fn only_status_changed(a: ChessMatch, b: ChessMatch) -> bool {
    &&& same_match(a, b)
    &&& b.selected == a.selected
    &&& b.pending_promotion == a.pending_promotion
}

/// The report of a move: its description, the engine's evaluation when there
/// is one, and the state of the game after it.
pub open spec fn move_report(pos: Position, m: Move, analysis: Option<MoveAnalysis>, outcome: GameOutcome) -> Seq<char> {
    let b = pos.board_spec();
    let capture = m.kind == MoveKind::EnPassant || b.at(m.to) is Some;
    describe_move_spec(b.at(m.from)->Some_0, m, capture) + "."@ + analysis_text(analysis) + " "@ + outcome_text(outcome)
}

/// `after` is `before` once the legal move `m` has been played and reported.
pub open spec fn played(before: ChessMatch, after: ChessMatch, m: Move, analysis: Option<MoveAnalysis>) -> bool {
    let pos = before.game.position_spec();
    &&& after.wf()
    &&& after.game.position_spec() == pos.after(m)
    &&& after.game.history() == before.game.history().push(key_of(after.game.position_spec()))
    &&& after.variant == before.variant
    &&& after.controllers == before.controllers
    &&& after.selected is None
    &&& after.pending_promotion is None
    &&& after.last_move == Some(m)
    &&& after.generation == next_generation(before.generation)
    &&& after.animate_last_move
    &&& after.status@ == move_report(pos, m, analysis, outcome_spec(after.game.position_spec(), after.game.history()))
}

/// `after` is `before` with `square` selected and its destinations counted.
pub open spec fn square_selected(before: ChessMatch, after: ChessMatch, square: Square) -> bool {
    let pos = before.game.position_spec();
    &&& same_match(before, after)
    &&& after.pending_promotion == before.pending_promotion
    &&& after.selected == Some(square)
    &&& after.status@ == square_text(square) + " selected: "@ + decimal(destinations(legal_spec(pos), square).len())
        + " destination(s)."@
}

/// The prompt asked when the player picks a square without a movable piece.
pub open spec fn select_prompt(side: Color) -> Seq<char> {
    match side {
        Color::White => "Select a white piece."@,
        Color::Black => "Select a black piece."@,
    }
}

/// What a click on `square` does to the match `before`.
pub open spec fn selection_result(before: ChessMatch, after: ChessMatch, square: Square) -> bool {
    let pos = before.game.position_spec();
    let outcome = outcome_spec(pos, before.game.history());
    let side = pos.side_spec();
    if before.pending_promotion is Some {
        after == before
    } else if !(outcome is Ongoing || outcome is Check) {
        only_status_changed(before, after) && after.status@ == outcome_text(outcome)
    } else if before.controllers[side.idx()] == Controller::Computer {
        only_status_changed(before, after) && after.status@ == side_name_spec(side) + " is controlled by the computer."@
    } else {
        match before.selected {
            Some(from) => {
                let candidates = moves_between(legal_spec(pos), from, square);
                if candidates.len() == 0 {
                    if selectable_spec(pos, square) {
                        square_selected(before, after, square)
                    } else {
                        &&& same_match(before, after)
                        &&& after.pending_promotion == before.pending_promotion
                        &&& after.selected is None
                        &&& after.status@ == square_text(square) + " is not a legal destination."@
                    }
                } else if candidates.len() == 1 {
                    played(before, after, candidates[0], None)
                } else {
                    &&& same_match(before, after)
                    &&& after.selected == before.selected
                    &&& after.pending_promotion matches Some(v) && v@ == candidates
                    &&& after.status@ == "Choose promotion: "@ + joined(prompt_labels(candidates), ", "@) + "."@
                }
            },
            None => if selectable_spec(pos, square) {
                square_selected(before, after, square)
            } else {
                only_status_changed(before, after) && after.status@ == select_prompt(side)
            },
        }
    }
}

/// The generation counter after `n` changes of the board.
pub open spec fn advanced(g: u64, n: nat) -> u64
    decreases n,
{
    if n == 0 {
        g
    } else {
        next_generation(advanced(g, (n - 1) as nat))
    }
}

/// `after` is `before` restarted at `start`, with the player on `player`'s
/// side and the server on the other, and the first `n` moves of `hist`
/// played.
pub open spec fn history_loaded(
    before: ChessMatch,
    after: ChessMatch,
    variant: Variant,
    player: Color,
    start: Position,
    hist: Seq<Seq<char>>,
    n: nat,
) -> bool {
    let ps = replay_positions(start, hist.take(n as int))->Some_0;
    &&& n <= hist.len()
    &&& replay_positions(start, hist.take(n as int)) is Some
    &&& after.wf()
    &&& after.game.position_spec() == ps.last()
    &&& after.game.history() == keys_of(ps)
    &&& after.variant == variant
    &&& after.controllers[player.idx()] == Controller::Human
    &&& after.controllers[player.other().idx()] == Controller::Remote
    &&& after.selected is None
    &&& after.pending_promotion is None
    &&& after.generation == advanced(before.generation, n + 1)
    &&& if n == 0 {
        &&& after.last_move is None
        &&& after.status@ == "New "@ + start.rules_spec().name_spec() + " game. White to move."@
    } else {
        let m = notation_move(ps[n - 1], hist[n - 1])->Some_0;
        &&& after.last_move == Some(m)
        &&& after.status@ == move_report(ps[n - 1], m, None, outcome_spec(ps.last(), keys_of(ps)))
    }
}

/// The message for a history whose length is not the revision.
pub open spec fn revision_mismatch_text(len: nat, revision: nat) -> Seq<char> {
    "Server history has "@ + decimal(len) + " moves but revision is "@ + decimal(revision) + "."@
}

/// The message for the server move of index `k`, written `uci`, that names
/// no legal move.
pub open spec fn invalid_server_move_text(k: nat, uci: Seq<char>) -> Seq<char> {
    "Invalid server move "@ + decimal(k + 1) + " ("@ + uci + "): "@ + "illegal move notation: "@ + uci
}

/// What loading the server's record `hist` at `revision` gives: the error
/// when the record's length is not the revision (the match unchanged), else
/// the match replayed from a starting position of the variant, up to the
/// first entry that names no legal move.
pub open spec fn history_load_result(
    before: ChessMatch,
    after: ChessMatch,
    variant: Variant,
    player_side: Color,
    revision: nat,
    hist: Seq<Seq<char>>,
    r: Result<(), String>,
) -> bool {
    if revision != hist.len() {
        r matches Err(e) && e@ == revision_mismatch_text(hist.len(), revision) && after == before
    } else {
        exists|start: Position|
            #![trigger is_starting_position(variant, start)]
            {
                &&& is_starting_position(variant, start)
                &&& match replay_positions(start, hist) {
                    Some(ps) => {
                        &&& r is Ok
                        &&& history_loaded(before, after, variant, player_side, start, hist, hist.len())
                        &&& !after.animate_last_move
                    },
                    None => {
                        let k = first_failure(start, hist);
                        &&& k < hist.len()
                        &&& r matches Err(e) && e@ == invalid_server_move_text(k, hist[k as int])
                        &&& history_loaded(before, after, variant, player_side, start, hist, k)
                        &&& after.animate_last_move == (if k == 0 {
                            before.animate_last_move
                        } else {
                            true
                        })
                    },
                }
            }
    }
}

proof fn lemma_replay_len(start: Position, hist: Seq<Seq<char>>)
    requires
        replay_positions(start, hist) is Some,
    ensures
        replay_positions(start, hist)->Some_0.len() == hist.len() + 1,
    decreases hist.len(),
{
    if hist.len() > 0 {
        lemma_replay_len(start, hist.drop_last());
    }
}

/// The report of a server move that names no legal move.
fn invalid_server_move(index: usize, uci: &str, error: &MoveError) -> (r: String)
    requires
        index < usize::MAX,
        error matches MoveError::IllegalNotation(t) && t@ == uci@,
    ensures
        r@ == invalid_server_move_text(index as nat, uci@),
{
    let mut message: Vec<char> = Vec::new();
    push_str(&mut message, "Invalid server move ");
    let number: u64 = index as u64 + 1;
    push_decimal(&mut message, number);
    assert(message@ == "Invalid server move "@ + decimal(index as nat + 1));
    push_str(&mut message, " (");
    push_str(&mut message, uci);
    push_str(&mut message, "): ");
    let text = error.message();
    assert(text@ == "illegal move notation: "@ + uci@);
    push_str(&mut message, text.as_str());
    assert(message@ =~= invalid_server_move_text(index as nat, uci@));
    string_of(&message)
}

/// Playing the move that entry `i` names extends the replay by one position.
proof fn lemma_replay_next(start: Position, hist: Seq<Seq<char>>, i: nat, m: Move)
    requires
        i < hist.len(),
        replay_positions(start, hist.take(i as int)) is Some,
        notation_move(replay_positions(start, hist.take(i as int))->Some_0.last(), hist[i as int]) == Some(m),
    ensures
        ({
            let ps = replay_positions(start, hist.take(i as int))->Some_0;
            let next = ps.push(ps.last().after(m));
            &&& replay_positions(start, hist.take((i + 1) as int)) == Some(next)
            &&& keys_of(next) == keys_of(ps).push(key_of(ps.last().after(m)))
            &&& next[i as int] == ps.last()
            &&& next.last() == ps.last().after(m)
        }),
{
    let ps = replay_positions(start, hist.take(i as int))->Some_0;
    lemma_replay_len(start, hist.take(i as int));
    assert(hist.take((i + 1) as int).drop_last() =~= hist.take(i as int));
    assert(hist.take((i + 1) as int).last() == hist[i as int]);
    let next = ps.push(ps.last().after(m));
    assert(keys_of(next) =~= keys_of(ps).push(key_of(ps.last().after(m))));
}

/// The client's state of one match.
pub struct ChessMatch {
    pub game: Game,
    pub variant: Variant,
    /// Who controls White and Black.
    pub controllers: [Controller; 2],
    pub selected: Option<Square>,
    /// The moves among which a promotion is being chosen.
    pub pending_promotion: Option<Vec<Move>>,
    pub last_move: Option<Move>,
    pub status: String,
    /// Counts changes of the board, so that animations can tell them apart.
    pub generation: u64,
    /// Whether the last move is to be shown moving.
    pub animate_last_move: bool,
}

pub open spec fn next_generation(g: u64) -> u64 {
    if g == u64::MAX {
        0
    } else {
        (g + 1) as u64
    }
}

fn bump(g: u64) -> (r: u64)
    ensures
        r == next_generation(g),
{
    if g == u64::MAX {
        0
    } else {
        g + 1
    }
}

impl Default for ChessMatch {
    /// A Capablanca game of a player against the computer.
    fn default() -> (r: Self)
        ensures
            r.wf(),
            r.variant == Variant::Capablanca,
            r.controllers == [Controller::Human, Controller::Computer],
            r.selected is None,
            r.pending_promotion is None,
            r.last_move is None,
            r.status@ == "White to move."@,
            r.generation == 0,
            !r.animate_last_move,
            is_starting_position(Variant::Capablanca, r.game.position_spec()),
            r.game.history() == seq![key_of(r.game.position_spec())],
    {
        ChessMatch::new(Variant::Capablanca, [Controller::Human, Controller::Computer])
    }
}

impl ChessMatch {
    /// The game is well formed, and the moves among which a promotion is
    /// being chosen are legal.
    pub open spec fn wf(self) -> bool {
        &&& self.game.wf()
        &&& self.pending_promotion matches Some(v) ==> all_legal(self.game.position_spec(), v@)
    }

    /// A new match of the given variant; White moves first.
    pub fn new(variant: Variant, controllers: [Controller; 2]) -> (r: Self)
        ensures
            r.wf(),
            r.variant == variant,
            r.controllers == controllers,
            r.selected is None,
            r.pending_promotion is None,
            r.last_move is None,
            r.status@ == "White to move."@,
            r.generation == 0,
            !r.animate_last_move,
            is_starting_position(variant, r.game.position_spec()),
            r.game.history() == seq![key_of(r.game.position_spec())],
    {
        let position = variant.starting_position();
        ChessMatch {
            game: Game::new(position),
            variant,
            controllers,
            selected: None,
            pending_promotion: None,
            last_move: None,
            status: "White to move.".to_owned(),
            generation: 0,
            animate_last_move: false,
        }
    }

    /// Starts the match over with a variant, keeping the controllers.
    pub fn restart(&mut self, variant: Variant)
        ensures
            restarted(*old(self), *final(self), variant),
            final(self).controllers == old(self).controllers,
    {
        let position = variant.starting_position();
        let mut status: Vec<char> = Vec::new();
        push_str(&mut status, "New ");
        push_str(&mut status, position.rules().name());
        push_str(&mut status, " game. White to move.");
        self.game = Game::new(position);
        self.variant = variant;
        self.selected = None;
        self.pending_promotion = None;
        self.last_move = None;
        self.status = string_of(&status);
        self.generation = bump(self.generation);
    }

    /// The status line naming the side to move.
    pub fn side_to_move_message(&self) -> (r: String)
        ensures
            r@ == side_name_spec(self.game.position_spec().side_spec()) + " to move."@,
    {
        let mut out: Vec<char> = Vec::new();
        push_str(&mut out, side_name(self.game.position().side_to_move()));
        push_str(&mut out, " to move.");
        string_of(&out)
    }

    /// Plays a legal move and reports it, with the engine's evaluation when
    /// one is given.
    #[verifier::spinoff_prover]
    #[verifier::rlimit(40)]
    pub fn apply_move(&mut self, chess_move: Move, analysis: Option<&MoveAnalysis>)
        requires
            old(self).wf(),
            legal_spec(old(self).game.position_spec()).contains(chess_move),
        ensures
            played(
                *old(self),
                *final(self),
                chess_move,
                match analysis {
                    Some(a) => Some(*a),
                    None => None,
                },
            ),
    {
        let ghost pos = self.game.position_spec();
        proof {
            lemma_legal_move_has_mover(pos, chess_move);
        }
        let board = self.game.position().board();
        let moving_piece = match board.piece_at(chess_move.from) {
            Some(p) => p,
            None => {
                assert(false);
                return;
            },
        };
        let is_capture = chess_move.kind == MoveKind::EnPassant || board.piece_at(chess_move.to).is_some();
        let description = describe_move(moving_piece, chess_move, is_capture);
        match self.game.play(chess_move) {
            Ok(()) => {},
            Err(_) => {
                assert(false);
            },
        }
        self.selected = None;
        self.pending_promotion = None;
        self.last_move = Some(chess_move);
        self.generation = bump(self.generation);
        self.animate_last_move = true;
        let mut status: Vec<char> = Vec::new();
        push_str(&mut status, description.as_str());
        push_str(&mut status, ".");
        let ghost head = status@;
        let ghost an = match analysis {
            Some(a) => Some(*a),
            None => None,
        };
        match analysis {
            Some(result) => {
                push_str(&mut status, "  Evaluation ");
                let magnitude: u64 = if result.score < 0 {
                    (-(result.score as i64)) as u64
                } else {
                    result.score as u64
                };
                status.push(if result.score < 0 { '-' } else { '+' });
                push_decimal(&mut status, magnitude / 100);
                push_str(&mut status, ".");
                push_decimal(&mut status, magnitude % 100 / 10);
                push_decimal(&mut status, magnitude % 10);
                push_str(&mut status, ", depth ");
                push_decimal(&mut status, result.depth as u64);
                push_str(&mut status, ", ");
                push_decimal(&mut status, result.nodes);
                push_str(&mut status, " nodes.");
                assert(status@ =~= head + analysis_text(an));
            },
            None => {
                assert(status@ =~= head + analysis_text(an));
            },
        }
        push_str(&mut status, " ");
        let outcome = self.game.outcome();
        let message = outcome_message(outcome);
        push_str(&mut status, message.as_str());
        assert(status@ =~= move_report(pos, chess_move, an, outcome));
        self.status = string_of(&status);
    }

    /// Rebuilds the match from the server's record: the variant, the side the
    /// player holds and every move played so far. The last move is shown in
    /// place, without animation.
    pub fn load_server_history(&mut self, variant: Variant, player_side: Color, revision: u64, history: &[String]) -> (r:
        Result<(), String>)
        requires
            old(self).wf(),
        ensures
            final(self).wf(),
            history_load_result(*old(self), *final(self), variant, player_side, revision as nat, texts(history@), r),
    {
        let ghost before = *self;
        if history.len() as u64 != revision {
            let mut message: Vec<char> = Vec::new();
            push_str(&mut message, "Server history has ");
            push_decimal(&mut message, history.len() as u64);
            push_str(&mut message, " moves but revision is ");
            push_decimal(&mut message, revision);
            push_str(&mut message, ".");
            return Err(string_of(&message));
        }
        self.restart(variant);
        let ghost start = self.game.position_spec();
        self.controllers = match player_side {
            Color::White => [Controller::Human, Controller::Remote],
            Color::Black => [Controller::Remote, Controller::Human],
        };
        let ghost hist = texts(history@);
        proof {
            assert(hist.take(0) =~= Seq::<Seq<char>>::empty());
            assert(keys_of(seq![start]) =~= seq![key_of(start)]);
            assert(replay_positions(start, hist.take(0)) == Some(seq![start]));
            assert(self.game.position_spec() == start);
            assert(self.controllers[player_side.idx()] == Controller::Human);
            assert(self.controllers[player_side.other().idx()] == Controller::Remote);
            reveal_with_fuel(advanced, 2);
            assert(self.generation == advanced(before.generation, 1));
            assert(self.status@ == "New "@ + start.rules_spec().name_spec() + " game. White to move."@);
        }
        let mut i: usize = 0;
        while i < history.len()
            invariant
                i <= history@.len(),
                revision == history@.len(),
                before == *old(self),
                hist == texts(history@),
                is_starting_position(variant, start),
                history_loaded(before, *self, variant, player_side, start, hist, i as nat),
                self.animate_last_move == (if i == 0 {
                    before.animate_last_move
                } else {
                    true
                }),
            decreases history.len() - i,
        {
            let ghost ps = replay_positions(start, hist.take(i as int))->Some_0;
            proof {
                lemma_replay_len(start, hist.take(i as int));
                assert(hist.take(i + 1).drop_last() =~= hist.take(i as int));
                assert(hist[i as int] == history@[i as int]@);
                assert(hist.take(i + 1).last() == history@[i as int]@);
            }
            let chess_move = match self.game.position().parse_uci_move(history[i].as_str()) {
                Ok(m) => m,
                Err(error) => {
                    let message = invalid_server_move(i, history[i].as_str(), &error);
                    proof {
                        assert(first_failure(start, hist.take(i + 1)) == i);
                        crate::server::lemma_replay_prefix_fails(start, hist, i + 1);
                    }
                    return Err(message);
                },
            };
            let ghost s0 = *self;
            proof {
                s0.game.position_spec().lemma_notation_move_sound(history@[i as int]@);
            }
            self.apply_move(chess_move, None);
            proof {
                lemma_replay_next(start, hist, i as nat, chess_move);
            }
            i += 1;
        }
        proof {
            assert(hist.take(history@.len() as int) =~= hist);
        }
        self.animate_last_move = false;
        self.selected = None;
        self.pending_promotion = None;
        Ok(())
    }

    /// The pending promotion move that promotes to `promotion`, if any.
    pub fn promotion_choice(&self, promotion: Option<PieceKind>) -> (r: Option<Move>)
        ensures
            match self.pending_promotion {
                Some(v) => r == first_promoting(v@, promotion),
                None => r is None,
            },
    {
        let moves = match &self.pending_promotion {
            Some(moves) => moves,
            None => {
                return None;
            },
        };
        let mut i: usize = 0;
        assert(moves@.skip(0) =~= moves@);
        while i < moves.len()
            invariant
                i <= moves@.len(),
                self.pending_promotion matches Some(v) && v@ == moves@,
                first_promoting(moves@, promotion) == first_promoting(moves@.skip(i as int), promotion),
            decreases moves.len() - i,
        {
            assert(moves@.skip(i as int)[0] == moves@[i as int]);
            assert(moves@.skip(i as int).drop_first() =~= moves@.skip(i + 1));
            let same = match (moves[i].promotion, promotion) {
                (Some(a), Some(b)) => a == b,
                (None, None) => true,
                _ => false,
            };
            if same {
                return Some(moves[i]);
            }
            i += 1;
        }
        None
    }

    /// Handles the keys of one frame: while a promotion is being chosen,
    /// Escape cancels it and a piece key (or Space, for no promotion) picks
    /// the move; otherwise Escape drops the selection.
    pub fn handle_keyboard(
        &mut self,
        menu_open: bool,
        escape: bool,
        requested: Option<Option<PieceKind>>,
        space: bool,
    )
        requires
            old(self).wf(),
        ensures
            final(self).wf(),
            keyboard_result(*old(self), *final(self), menu_open, escape, requested, space),
    {
        if menu_open {
            return;
        }
        if self.pending_promotion.is_some() {
            if escape {
                self.pending_promotion = None;
                self.selected = None;
                self.status = "Promotion cancelled.".to_owned();
                return;
            }
            if requested.is_some() || space {
                let promotion = match requested {
                    Some(p) => p,
                    None => None,
                };
                match self.promotion_choice(promotion) {
                    Some(chess_move) => {
                        proof {
                            let v = self.pending_promotion->Some_0@;
                            lemma_first_promoting_member(v, promotion);
                        }
                        self.apply_move(chess_move, None);
                    },
                    None => {
                        let prompt = match &self.pending_promotion {
                            Some(moves) => promotion_prompt(moves.as_slice()),
                            None => String::new(),
                        };
                        self.status = prompt;
                    },
                }
                return;
            }
        }
        if escape {
            self.selected = None;
            self.status = self.side_to_move_message();
        }
    }

    /// Hands one side to the other controller (the computer or the player)
    /// and drops the selection and any promotion being chosen.
    pub fn toggle_controller(&mut self, black: bool)
        requires
            old(self).wf(),
        ensures
            final(self).wf(),
            ({
                let index: int = if black { 1 } else { 0 };
                let side = if black { Color::Black } else { Color::White };
                let now = match old(self).controllers[index] {
                    Controller::Human => Controller::Computer,
                    Controller::Computer => Controller::Human,
                    Controller::Remote => Controller::Remote,
                };
                &&& final(self).controllers[index] == now
                &&& final(self).controllers[1 - index] == old(self).controllers[1 - index]
                &&& final(self).game == old(self).game
                &&& final(self).variant == old(self).variant
                &&& final(self).last_move == old(self).last_move
                &&& final(self).generation == old(self).generation
                &&& final(self).animate_last_move == old(self).animate_last_move
                &&& final(self).selected is None
                &&& final(self).pending_promotion is None
                &&& final(self).status@ == side_name_spec(side) + " is now controlled by the "@ + match now {
                    Controller::Human => "human"@,
                    Controller::Computer => "computer"@,
                    Controller::Remote => "remote"@,
                } + "."@
            }),
    {
        let index: usize = if black { 1 } else { 0 };
        let mut controller = self.controllers[index];
        controller.toggle();
        self.controllers[index] = controller;
        self.selected = None;
        self.pending_promotion = None;
        let mut status: Vec<char> = Vec::new();
        push_str(&mut status, side_name(if black { Color::Black } else { Color::White }));
        push_str(&mut status, " is now controlled by the ");
        push_str(
            &mut status,
            match controller {
                Controller::Human => "human",
                Controller::Computer => "computer",
                Controller::Remote => "remote",
            },
        );
        push_str(&mut status, ".");
        self.status = string_of(&status);
    }

    /// When it is the computer's turn and no search runs (`busy` is false),
    /// announces that this library's engine thinks at `depth` and hands back
    /// the position to search and the board generation it belongs to.
    pub fn begin_engine_turn(&mut self, busy: bool, depth: u8) -> (r: Option<(Position, u64)>)
        requires
            old(self).wf(),
        ensures
            final(self).wf(),
            ({
                let pos = old(self).game.position_spec();
                let outcome = outcome_spec(pos, old(self).game.history());
                if busy || old(self).pending_promotion is Some || !(outcome is Ongoing || outcome is Check)
                    || old(self).controllers[pos.side_spec().idx()] != Controller::Computer {
                    r is None && *final(self) == *old(self)
                } else {
                    &&& r == Some((pos, old(self).generation))
                    &&& only_status_changed(*old(self), *final(self))
                    &&& final(self).status@ == side_name_spec(pos.side_spec()) + " computer is thinking at depth "@
                        + decimal(depth as nat) + "…"@
                }
            }),
    {
        if busy || self.pending_promotion.is_some() || !is_playable(self.game.outcome()) {
            return None;
        }
        let side = self.game.position().side_to_move();
        if self.controllers[side.index()] != Controller::Computer {
            return None;
        }
        let position = self.game.position().duplicate();
        let mut status: Vec<char> = Vec::new();
        push_str(&mut status, side_name(side));
        push_str(&mut status, " computer is thinking at depth ");
        push_decimal(&mut status, depth as u64);
        push_str(&mut status, "…");
        self.status = string_of(&status);
        Some((position, self.generation))
    }

    /// Takes the engine's answer for the board of `generation`: an answer
    /// for an older board is dropped, a move is played with its figures,
    /// and no move reports how the game ended.
    pub fn finish_engine_turn(&mut self, generation: u64, result: Option<SearchResult>)
        requires
            old(self).wf(),
            generation == old(self).generation ==> (result matches Some(r) ==> legal_spec(
                old(self).game.position_spec(),
            ).contains(r.best_move)),
        ensures
            final(self).wf(),
            generation != old(self).generation ==> *final(self) == *old(self),
            generation == old(self).generation ==> match result {
                Some(r) => played(
                    *old(self),
                    *final(self),
                    r.best_move,
                    Some(MoveAnalysis { score: r.score, depth: r.depth, nodes: r.nodes }),
                ),
                None => only_status_changed(*old(self), *final(self)) && final(self).status@ == outcome_text(
                    outcome_spec(old(self).game.position_spec(), old(self).game.history()),
                ),
            },
    {
        if generation != self.generation {
            return;
        }
        match result {
            Some(found) => {
                let analysis = MoveAnalysis::of_search(&found);
                self.apply_move(found.best_move, Some(&analysis));
            },
            None => {
                self.status = outcome_message(self.game.outcome());
            },
        }
    }

    /// Where the piece now on `square` is drawn moving from: the last move's
    /// source for the piece that moved, the rook's corner for the rook of a
    /// castling move, and nowhere (it is drawn in place) otherwise or when
    /// the last move is not to be shown moving.
    pub fn animation_start(&self, square: Square, piece: Piece) -> (r: Option<Square>)
        ensures
            r == if !self.animate_last_move {
                None
            } else {
                match self.last_move {
                    None => None,
                    Some(m) => if square == m.to {
                        Some(m.from)
                    } else {
                        match m.kind {
                            MoveKind::Castle(side) => match self.game.position_spec().rules_spec().castling_spec().route_of(
                                piece.color,
                                side,
                            ) {
                                Some(route) => if square == route.rook_to {
                                    Some(route.rook_from)
                                } else {
                                    None
                                },
                                None => None,
                            },
                            _ => None,
                        }
                    },
                }
            },
    {
        if !self.animate_last_move {
            return None;
        }
        let chess_move = match self.last_move {
            Some(m) => m,
            None => {
                return None;
            },
        };
        if square == chess_move.to {
            return Some(chess_move.from);
        }
        let side = match chess_move.kind {
            MoveKind::Castle(side) => side,
            _ => {
                return None;
            },
        };
        match self.game.position().rules().castling().route(piece.color, side) {
            Some(route) => if square == route.rook_to {
                Some(route.rook_from)
            } else {
                None
            },
            None => None,
        }
    }

    /// Whether `square` holds a piece of the side to move that has a legal
    /// move.
    pub fn selectable_piece(&self, square: Square) -> (r: bool)
        requires
            self.wf(),
        ensures
            r == selectable_spec(self.game.position_spec(), square),
    {
        let position = self.game.position();
        match position.board().piece_at(square) {
            Some(piece) => {
                if piece.color != position.side_to_move() {
                    return false;
                }
            },
            None => {
                return false;
            },
        }
        let moves = position.legal_moves();
        let mut i: usize = 0;
        while i < moves.len()
            invariant
                i <= moves@.len(),
                moves@ == legal_spec(*position),
                *position == self.game.position_spec(),
                position.board_spec().at(square) matches Some(p) && p.color == position.side_spec(),
                forall|k: int| 0 <= k < i ==> (#[trigger] moves@[k]).from != square,
            decreases moves.len() - i,
        {
            if moves[i].from == square {
                assert(moves@[i as int].from == square);
                return true;
            }
            i += 1;
        }
        false
    }

    /// Selects `square` and reports how many squares its piece can reach.
    pub fn select_square(&mut self, square: Square)
        requires
            old(self).wf(),
            writable(square),
        ensures
            square_selected(*old(self), *final(self), square),
    {
        let moves = self.game.position().legal_moves();
        let ghost all = moves@;
        let mut seen: Vec<Square> = Vec::new();
        let mut i: usize = 0;
        while i < moves.len()
            invariant
                i <= all.len(),
                all == moves@,
                seen@ == destinations(all.take(i as int), square),
            decreases moves.len() - i,
        {
            let chess_move = moves[i];
            assert(all.take(i + 1).drop_last() =~= all.take(i as int));
            assert(all.take(i + 1).last() == chess_move);
            if chess_move.from == square {
                let mut j: usize = 0;
                let mut found = false;
                while j < seen.len()
                    invariant
                        j <= seen@.len(),
                        found <==> seen@.take(j as int).contains(chess_move.to),
                    decreases seen.len() - j,
                {
                    if seen[j] == chess_move.to {
                        found = true;
                    }
                    assert(seen@.take(j + 1).drop_last() =~= seen@.take(j as int));
                    proof {
                        if seen@.take(j + 1).contains(chess_move.to) && seen@[j as int] != chess_move.to {
                            let k = choose|k: int| 0 <= k < j + 1 && #[trigger] seen@.take(j + 1)[k] == chess_move.to;
                            assert(seen@.take(j as int)[k] == chess_move.to);
                        }
                        if seen@.take(j as int).contains(chess_move.to) {
                            let k = choose|k: int| 0 <= k < j && #[trigger] seen@.take(j as int)[k] == chess_move.to;
                            assert(seen@.take(j + 1)[k] == chess_move.to);
                        }
                        if seen@[j as int] == chess_move.to {
                            assert(seen@.take(j + 1)[j as int] == chess_move.to);
                        }
                    }
                    j += 1;
                }
                assert(seen@.take(seen@.len() as int) =~= seen@);
                if !found {
                    seen.push(chess_move.to);
                }
            }
            i += 1;
        }
        assert(all.take(all.len() as int) =~= all);
        let mut status: Vec<char> = Vec::new();
        square.push_notation(&mut status);
        push_str(&mut status, " selected: ");
        push_decimal(&mut status, seen.len() as u64);
        push_str(&mut status, " destination(s).");
        self.selected = Some(square);
        self.status = string_of(&status);
    }

    /// Handles a click on `square`: selects a piece, moves the selected piece
    /// there, or asks which piece a promotion makes.
    pub fn handle_square_selection(&mut self, square: Square)
        requires
            old(self).wf(),
            writable(square),
        ensures
            final(self).wf(),
            selection_result(*old(self), *final(self), square),
    {
        if self.pending_promotion.is_some() {
            return;
        }
        let outcome = self.game.outcome();
        if !is_playable(outcome) {
            self.status = outcome_message(outcome);
            return;
        }
        let side = self.game.position().side_to_move();
        if self.controllers[side.index()] == Controller::Computer {
            let mut status: Vec<char> = Vec::new();
            push_str(&mut status, side_name(side));
            push_str(&mut status, " is controlled by the computer.");
            self.status = string_of(&status);
            return;
        }
        match self.selected {
            Some(from) => {
                let moves = self.game.position().legal_moves();
                let ghost all = moves@;
                let mut candidates: Vec<Move> = Vec::new();
                let mut i: usize = 0;
                while i < moves.len()
                    invariant
                        i <= all.len(),
                        all == moves@,
                        candidates@ == moves_between(all.take(i as int), from, square),
                    decreases moves.len() - i,
                {
                    assert(all.take(i + 1).drop_last() =~= all.take(i as int));
                    if moves[i].from == from && moves[i].to == square {
                        candidates.push(moves[i]);
                    }
                    i += 1;
                }
                assert(all.take(all.len() as int) =~= all);
                if candidates.len() == 0 {
                    if self.selectable_piece(square) {
                        self.select_square(square);
                    } else {
                        self.selected = None;
                        let mut status: Vec<char> = Vec::new();
                        square.push_notation(&mut status);
                        push_str(&mut status, " is not a legal destination.");
                        self.status = string_of(&status);
                    }
                } else if candidates.len() == 1 {
                    proof {
                        lemma_moves_between_members(all, from, square, 0);
                    }
                    self.apply_move(candidates[0], None);
                } else {
                    proof {
                        assert forall|k: int| 0 <= k < candidates@.len() implies legal_spec(
                            self.game.position_spec(),
                        ).contains(#[trigger] candidates@[k]) by {
                            lemma_moves_between_members(all, from, square, k);
                        }
                    }
                    self.status = promotion_prompt(candidates.as_slice());
                    self.pending_promotion = Some(candidates);
                }
            },
            None => {
                if self.selectable_piece(square) {
                    self.select_square(square);
                } else {
                    self.status =
                        match side {
                            Color::White => "Select a white piece.".to_owned(),
                            Color::Black => "Select a black piece.".to_owned(),
                        };
                }
            },
        }
    }
}

/// The move `first_promoting` finds is one of the moves.
proof fn lemma_first_promoting_member(ms: Seq<Move>, promotion: Option<PieceKind>)
    ensures
        first_promoting(ms, promotion) matches Some(m) ==> exists|i: int| 0 <= i < ms.len() && ms[i] == m,
    decreases ms.len(),
{
    if ms.len() > 0 && ms[0].promotion != promotion {
        lemma_first_promoting_member(ms.drop_first(), promotion);
        if first_promoting(ms, promotion) is Some {
            let i = choose|i: int| 0 <= i < ms.drop_first().len() && ms.drop_first()[i] == first_promoting(ms, promotion)->Some_0;
            assert(ms[i + 1] == ms.drop_first()[i]);
        }
    }
}

/// A click changes the board only by playing a legal move of the position
/// it was made in.
pub proof fn lemma_clicks_play_only_legal_moves(before: ChessMatch, after: ChessMatch, square: Square)
    requires
        before.wf(),
        selection_result(before, after, square),
        after.game != before.game,
    ensures
        after.last_move matches Some(m) && legal_spec(before.game.position_spec()).contains(m)
            && after.game.position_spec() == before.game.position_spec().after(m),
{
    let pos = before.game.position_spec();
    match before.selected {
        Some(from) => {
            let candidates = moves_between(legal_spec(pos), from, square);
            if candidates.len() == 1 {
                lemma_moves_between_members(legal_spec(pos), from, square, 0);
            }
        },
        None => {},
    }
}

/// What the keys of one frame do to the match `before`.
pub open spec fn keyboard_result(
    before: ChessMatch,
    after: ChessMatch,
    menu_open: bool,
    escape: bool,
    requested: Option<Option<PieceKind>>,
    space: bool,
) -> bool {
    if menu_open {
        after == before
    } else {
        match before.pending_promotion {
            Some(v) if escape => {
                &&& same_match(before, after)
                &&& after.pending_promotion is None
                &&& after.selected is None
                &&& after.status@ == "Promotion cancelled."@
            },
            Some(v) if requested is Some || space => {
                let promotion = match requested {
                    Some(p) => p,
                    None => None,
                };
                match first_promoting(v@, promotion) {
                    Some(m) => played(before, after, m, None),
                    None => only_status_changed(before, after) && after.status@ == "Choose promotion: "@ + joined(
                        prompt_labels(v@),
                        ", "@,
                    ) + "."@,
                }
            },
            _ => if escape {
                &&& same_match(before, after)
                &&& after.pending_promotion == before.pending_promotion
                &&& after.selected is None
                &&& after.status@ == side_name_spec(before.game.position_spec().side_spec()) + " to move."@
            } else {
                after == before
            },
        }
    }
}

/// Keys change the board only by playing one of the moves offered for the
/// promotion being chosen, which is legal.
pub proof fn lemma_keys_play_only_offered_moves(
    before: ChessMatch,
    after: ChessMatch,
    menu_open: bool,
    escape: bool,
    requested: Option<Option<PieceKind>>,
    space: bool,
)
    requires
        before.wf(),
        keyboard_result(before, after, menu_open, escape, requested, space),
        after.game != before.game,
    ensures
        before.pending_promotion matches Some(v) && after.last_move matches Some(m) && v@.contains(m)
            && legal_spec(before.game.position_spec()).contains(m) && after.game.position_spec()
            == before.game.position_spec().after(m),
{
    match before.pending_promotion {
        Some(v) => {
            let promotion = match requested {
                Some(p) => p,
                None => None,
            };
            lemma_first_promoting_member(v@, promotion);
        },
        None => {},
    }
}

/// Each move that `moves_between` keeps is one of the given moves.
proof fn lemma_moves_between_members(ms: Seq<Move>, from: Square, to: Square, k: int)
    requires
        0 <= k < moves_between(ms, from, to).len(),
    ensures
        ms.contains(moves_between(ms, from, to)[k]),
    decreases ms.len(),
{
    if ms.len() > 0 {
        let rest = moves_between(ms.drop_last(), from, to);
        if k < rest.len() {
            lemma_moves_between_members(ms.drop_last(), from, to, k);
            let j = choose|j: int| 0 <= j < ms.drop_last().len() && ms.drop_last()[j] == rest[k];
            assert(ms[j] == rest[k]);
        } else {
            assert(ms[ms.len() - 1] == ms.last());
        }
    }
}

/// The engine's search depth of the desktop game.
pub struct SearchDepth {
    pub depth: u8,
}

pub const DEFAULT_SEARCH_DEPTH: u8 = 3;

pub const MIN_SEARCH_DEPTH: u8 = 1;

pub const MAX_SEARCH_DEPTH: u8 = 6;

impl Default for SearchDepth {
    fn default() -> (r: Self)
        ensures
            r.depth == DEFAULT_SEARCH_DEPTH,
    {
        SearchDepth { depth: DEFAULT_SEARCH_DEPTH }
    }
}

/// The depth after a step up, then a step down, each kept within range.
pub open spec fn stepped_depth(depth: u8, increase: bool, decrease: bool) -> u8 {
    let up = if increase {
        if depth >= MAX_SEARCH_DEPTH {
            MAX_SEARCH_DEPTH
        } else {
            (depth + 1) as u8
        }
    } else {
        depth
    };
    if decrease {
        if up <= MIN_SEARCH_DEPTH {
            MIN_SEARCH_DEPTH
        } else {
            (up - 1) as u8
        }
    } else {
        up
    }
}

/// Steps the search depth up or down; when it changes, the status line
/// says so. Returns whether it changed.
pub fn adjust_search_depth(settings: &mut SearchDepth, chess_match: &mut ChessMatch, increase: bool, decrease: bool) -> (changed:
    bool)
    ensures
        final(settings).depth == stepped_depth(old(settings).depth, increase, decrease),
        changed == (final(settings).depth != old(settings).depth),
        changed ==> only_status_changed(*old(chess_match), *final(chess_match)) && final(chess_match).status@
            == "Engine search depth set to "@ + decimal(final(settings).depth as nat) + "."@,
        !changed ==> *final(chess_match) == *old(chess_match),
{
    let old_depth = settings.depth;
    if increase {
        let raised: u8 = if settings.depth == 255 { 255 } else { settings.depth + 1 };
        settings.depth = if raised > MAX_SEARCH_DEPTH { MAX_SEARCH_DEPTH } else { raised };
    }
    if decrease {
        let lowered: u8 = if settings.depth == 0 { 0 } else { settings.depth - 1 };
        settings.depth = if lowered < MIN_SEARCH_DEPTH { MIN_SEARCH_DEPTH } else { lowered };
    }
    if settings.depth != old_depth {
        let mut status: Vec<char> = Vec::new();
        push_str(&mut status, "Engine search depth set to ");
        push_decimal(&mut status, settings.depth as u64);
        push_str(&mut status, ".");
        chess_match.status = string_of(&status);
        true
    } else {
        false
    }
}

} // verus!
