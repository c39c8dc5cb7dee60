//! A deterministic alpha-beta search over the legal moves.
use vstd::prelude::*;
use crate::attack::in_check;
use crate::board::{all_squares, count_of, occupied, squares_before, Board};
use crate::legal::{legal_spec, lemma_legal_moves_are_safe, lemma_play_adds_no_king};
use crate::movegen::sound_from;
use crate::mv::{Move, MoveKind};
use crate::position::{sound, Position};
use crate::types::{Color, Piece, PieceKind, Square};

verus! {

broadcast use {
    crate::board::Board::lemma_wf_size,
    crate::position::Position::lemma_after,
    vstd::seq_lib::group_to_multiset_ensures,
};

/// The score of being mated at the root; a mate `n` plies away scores
/// `n - CHECKMATE_SCORE` for the side that is mated.
pub const CHECKMATE_SCORE: i32 = 1_000_000;

/// A score beyond every score a search returns.
pub const INFINITY: i32 = CHECKMATE_SCORE + 1;

/// The largest value in magnitude a static evaluation can reach: a hundred
/// squares, each holding a king on its most active square.
pub const EVALUATION_BOUND: i32 = 2_001_600;

pub open spec fn abs_int(x: int) -> int {
    if x < 0 {
        -x
    } else {
        x
    }
}

/// Eight minus the distance, in half squares along each axis, from the
/// board's centre.
pub open spec fn centrality(sq: Square, files: int, ranks: int) -> int {
    8 - abs_int(sq.file * 2 - (files - 1)) - abs_int(sq.rank * 2 - (ranks - 1))
}

/// The bonus for standing near the centre; minor pieces count it twice.
pub open spec fn activity(kind: PieceKind, centre: int) -> int {
    let c = if centre > 0 {
        centre
    } else {
        0
    };
    if kind == PieceKind::Knight || kind == PieceKind::Bishop || kind == PieceKind::Archbishop {
        c * 2
    } else {
        c
    }
}

pub open spec fn piece_score(sq: Square, p: Piece, files: int, ranks: int) -> int {
    p.kind.value() + activity(p.kind, centrality(sq, files, ranks))
}

/// The summed scores of the entries of `list` of one color.
pub open spec fn side_total(list: Seq<(Square, Piece)>, color: Color, files: int, ranks: int) -> int
    decreases list.len(),
{
    if list.len() == 0 {
        0
    } else {
        side_total(list.drop_last(), color, files, ranks) + if list.last().1.color == color {
            piece_score(list.last().0, list.last().1, files, ranks)
        } else {
            0
        }
    }
}

/// The static evaluation: material plus centralisation, white minus black,
/// from the side to move's point of view.
pub open spec fn eval_spec(pos: Position) -> int {
    let b = pos.board_spec();
    let files = b.dims().width() as int;
    let ranks = b.dims().height() as int;
    let list = occupied(b, all_squares(b.dims()));
    let score = side_total(list, Color::White, files, ranks) - side_total(list, Color::Black, files, ranks);
    if pos.side_spec() == Color::White {
        score
    } else {
        -score
    }
}

/// The value of the piece on `sq`, or zero.
pub open spec fn value_at(b: Board, sq: Square) -> int {
    match b.at(sq) {
        Some(p) => p.kind.value(),
        None => 0,
    }
}

/// Captures of valuable pieces by cheap ones first, then promotions.
pub open spec fn priority_spec(pos: Position, m: Move) -> int {
    let b = pos.board_spec();
    let captured = match m.kind {
        MoveKind::EnPassant => PieceKind::Pawn.value(),
        _ => value_at(b, m.to),
    };
    let promotion = match m.promotion {
        Some(k) => k.value(),
        None => 0,
    };
    captured * 10 - value_at(b, m.from) + promotion
}

proof fn lemma_squares_before_len(files: nat, r: nat, f: nat)
    ensures
        squares_before(files, r, f).len() == r * files + f,
    decreases r, f,
{
    if f == 0 {
        if r > 0 {
            lemma_squares_before_len(files, (r - 1) as nat, files);
            assert((r - 1) * files + files == r * files) by (nonlinear_arith);
        } else {
            assert(r * files == 0) by (nonlinear_arith)
                requires
                    r == 0,
            ;
        }
    } else {
        lemma_squares_before_len(files, r, (f - 1) as nat);
    }
}

proof fn lemma_occupied_len(board: Board, sqs: Seq<Square>)
    ensures
        occupied(board, sqs).len() <= sqs.len(),
    decreases sqs.len(),
{
    if sqs.len() > 0 {
        lemma_occupied_len(board, sqs.drop_last());
    }
}

/// A board holds at most a hundred pieces.
proof fn lemma_piece_count(b: Board)
    requires
        b.wf(),
    ensures
        occupied(b, all_squares(b.dims())).len() <= 100,
{
    let w = b.dims().width() as nat;
    let h = b.dims().height() as nat;
    lemma_squares_before_len(w, h, 0);
    lemma_occupied_len(b, all_squares(b.dims()));
    assert(h * w <= 100) by (nonlinear_arith)
        requires
            h <= 10,
            w <= 10,
    ;
}

proof fn lemma_side_total_bounds(list: Seq<(Square, Piece)>, color: Color, files: int, ranks: int)
    ensures
        0 <= side_total(list, color, files, ranks) <= 20016 * list.len(),
    decreases list.len(),
{
    if list.len() > 0 {
        lemma_side_total_bounds(list.drop_last(), color, files, ranks);
    }
}

/// Every static evaluation lies within the evaluation bound.
pub proof fn lemma_eval_bounds(pos: Position)
    requires
        pos.wf(),
    ensures
        -EVALUATION_BOUND <= eval_spec(pos) <= EVALUATION_BOUND,
{
    let b = pos.board_spec();
    let list = occupied(b, all_squares(b.dims()));
    lemma_piece_count(b);
    lemma_side_total_bounds(list, Color::White, b.dims().width() as int, b.dims().height() as int);
    lemma_side_total_bounds(list, Color::Black, b.dims().width() as int, b.dims().height() as int);
}

proof fn lemma_side_total_kings(list: Seq<(Square, Piece)>, color: Color, files: int, ranks: int)
    ensures
        side_total(list, color, files, ranks) <= 20016 * count_of(list, color, PieceKind::King) + 1032 * list.len(),
    decreases list.len(),
{
    if list.len() > 0 {
        lemma_side_total_kings(list.drop_last(), color, files, ranks);
    }
}

/// With at most one king of each color on the board, the static evaluation
/// lies strictly within the mate score.
pub proof fn lemma_eval_single_kings(pos: Position)
    requires
        pos.wf(),
        pos.board_spec().single_kings(),
    ensures
        -CHECKMATE_SCORE < eval_spec(pos) < CHECKMATE_SCORE,
{
    let b = pos.board_spec();
    let list = occupied(b, all_squares(b.dims()));
    let files = b.dims().width() as int;
    let ranks = b.dims().height() as int;
    lemma_piece_count(b);
    lemma_side_total_kings(list, Color::White, files, ranks);
    lemma_side_total_kings(list, Color::Black, files, ranks);
    lemma_side_total_bounds(list, Color::White, files, ranks);
    lemma_side_total_bounds(list, Color::Black, files, ranks);
}

fn abs_i32(x: i32) -> (r: i32)
    requires
        x > i32::MIN,
    ensures
        r == abs_int(x as int),
{
    if x < 0 {
        -x
    } else {
        x
    }
}

/// Scores the position for the side to move.
pub fn evaluate(position: &Position) -> (r: i32)
    requires
        position.wf(),
    ensures
        r == eval_spec(*position),
        -EVALUATION_BOUND <= r <= EVALUATION_BOUND,
{
    let board = position.board();
    let size = board.size();
    let center_file_twice: i32 = size.files() as i32 - 1;
    let center_rank_twice: i32 = size.ranks() as i32 - 1;
    let list = board.pieces();
    let ghost files = size.width() as int;
    let ghost ranks = size.height() as int;
    proof {
        lemma_piece_count(*board);
    }
    let mut white: i32 = 0;
    let mut black: i32 = 0;
    let mut i: usize = 0;
    while i < list.len()
        invariant
            i <= list@.len() <= 100,
            files == center_file_twice + 1,
            ranks == center_rank_twice + 1,
            1 <= files <= 10,
            1 <= ranks <= 10,
            white == side_total(list@.take(i as int), Color::White, files, ranks),
            black == side_total(list@.take(i as int), Color::Black, files, ranks),
            0 <= white <= 20016 * i,
            0 <= black <= 20016 * i,
        decreases list.len() - i,
    {
        let (square, piece) = list[i];
        assert(list@.take(i + 1).drop_last() =~= list@.take(i as int));
        let centre: i32 = 8 - abs_i32(square.file as i32 * 2 - center_file_twice) - abs_i32(
            square.rank as i32 * 2 - center_rank_twice,
        );
        let bonus: i32 = if centre > 0 {
            centre
        } else {
            0
        };
        let activity_bonus: i32 = if piece.kind == PieceKind::Knight || piece.kind == PieceKind::Bishop
            || piece.kind == PieceKind::Archbishop {
            bonus * 2
        } else {
            bonus
        };
        let value = piece.kind.material_value() + activity_bonus;
        match piece.color {
            Color::White => white = white + value,
            Color::Black => black = black + value,
        }
        i += 1;
    }
    assert(list@.take(i as int) =~= list@);
    proof {
        lemma_eval_bounds(*position);
    }
    let score = white - black;
    match position.side_to_move() {
        Color::White => score,
        Color::Black => -score,
    }
}

fn value_on(board: &Board, square: Square) -> (r: i32)
    requires
        board.wf(),
    ensures
        r == value_at(*board, square),
{
    match board.piece_at(square) {
        Some(piece) => piece.kind.material_value(),
        None => 0,
    }
}

/// How promising a move looks before it is searched.
pub fn move_priority(position: &Position, chess_move: Move) -> (r: i32)
    requires
        position.wf(),
    ensures
        r == priority_spec(*position, chess_move),
{
    let board = position.board();
    let moving_value = value_on(board, chess_move.from);
    let captured_value = match chess_move.kind {
        MoveKind::EnPassant => PieceKind::Pawn.material_value(),
        _ => value_on(board, chess_move.to),
    };
    let promotion_value = match chess_move.promotion {
        Some(kind) => kind.material_value(),
        None => 0,
    };
    captured_value * 10 - moving_value + promotion_value
}

/// The key by which moves are ordered: the most promising first.
pub fn order_key(position: &Position, chess_move: Move) -> (r: i32)
    requires
        position.wf(),
    ensures
        r == -priority_spec(*position, chess_move),
{
    -move_priority(position, chess_move)
}

/// Sorts the moves by `order_key`, smallest key first, with
/// `slice::sort_unstable_by_key`. Its documentation promises a permutation of
/// the input in which the keys do not decrease; which of several moves with
/// equal keys comes first it leaves open, and so does this contract.
#[verifier::external_body]
fn sort_by_order_key(position: &Position, moves: &mut Vec<Move>)
    requires
        position.wf(),
    ensures
        final(moves)@.to_multiset() == old(moves)@.to_multiset(),
        forall|i: int, j: int|
            0 <= i < j < final(moves)@.len() ==> -priority_spec(*position, #[trigger] final(moves)@[i])
                <= -priority_spec(*position, #[trigger] final(moves)@[j]),
{
    moves.sort_unstable_by_key(|chess_move| order_key(position, *chess_move));
}

/// Orders moves so that the most promising come first.
pub fn order_moves(position: &Position, moves: &mut Vec<Move>)
    requires
        position.wf(),
    ensures
        final(moves)@.to_multiset() == old(moves)@.to_multiset(),
        forall|i: int, j: int|
            0 <= i < j < final(moves)@.len() ==> priority_spec(*position, #[trigger] final(moves)@[i])
                >= priority_spec(*position, #[trigger] final(moves)@[j]),
{
    sort_by_order_key(position, moves);
}


/// The value of a position for its side to move, searched `depth` plies
/// deep `ply` plies from the root: the static evaluation once the fifty-move
/// count is reached or the depth is spent, a mate or stalemate score when no
/// legal move is left, and otherwise the best of the negated values of the
/// positions the legal moves lead to.
pub open spec fn node_value(pos: Position, depth: nat, ply: int) -> int
    decreases depth + 1, 0nat,
{
    if pos.halfmove_spec() >= 100 {
        eval_spec(pos)
    } else if legal_spec(pos).len() == 0 {
        if in_check(pos.board_spec(), pos.side_spec()) {
            ply - CHECKMATE_SCORE
        } else {
            0
        }
    } else if depth == 0 {
        eval_spec(pos)
    } else {
        best_of(pos, legal_spec(pos), (depth - 1) as nat, ply + 1)
    }
}

/// Stalemate is a draw and mate a loss: a position (short of the fifty-move
/// count) whose side to move has no legal move is worth 0 when that side is
/// not in check, and the mate score `ply - CHECKMATE_SCORE`, below every
/// other value, when it is; at any depth.
pub proof fn lemma_no_moves_value(pos: Position, depth: nat, ply: int)
    requires
        legal_spec(pos).len() == 0,
        pos.halfmove_spec() < 100,
    ensures
        !in_check(pos.board_spec(), pos.side_spec()) ==> node_value(pos, depth, ply) == 0,
        in_check(pos.board_spec(), pos.side_spec()) ==> node_value(pos, depth, ply) == ply - CHECKMATE_SCORE,
        1 <= ply <= 256 ==> (node_value(pos, depth, ply) == 0 <==> !in_check(pos.board_spec(), pos.side_spec())),
{
}

/// The largest negated value, searched `depth` plies deep, of the positions
/// that the moves of `ms` lead to; `-INFINITY` when none is larger.
pub open spec fn best_of(pos: Position, ms: Seq<Move>, depth: nat, ply: int) -> int
    decreases depth + 1, ms.len(),
{
    if ms.len() == 0 {
        -INFINITY
    } else {
        let rest = best_of(pos, ms.drop_last(), depth, ply);
        let score = -node_value(pos.after(ms.last()), depth, ply);
        if score > rest {
            score
        } else {
            rest
        }
    }
}

/// The score of the root searched `depth` plies deep.
pub open spec fn root_value(pos: Position, depth: nat) -> int {
    best_of(pos, legal_spec(pos), (depth - 1) as nat, 1)
}

/// Every static evaluation that a search of `depth` plies performs from
/// `pos` lies within the mate score.
pub open spec fn values_bounded(pos: Position, depth: nat) -> bool
    decreases depth + 1, 0nat,
{
    if pos.halfmove_spec() >= 100 {
        -CHECKMATE_SCORE <= eval_spec(pos) <= CHECKMATE_SCORE
    } else if legal_spec(pos).len() == 0 {
        true
    } else if depth == 0 {
        -CHECKMATE_SCORE <= eval_spec(pos) <= CHECKMATE_SCORE
    } else {
        all_bounded(pos, legal_spec(pos), (depth - 1) as nat)
    }
}

/// `values_bounded` holds, `depth` plies deep, of every position that a move
/// of `ms` leads to.
pub open spec fn all_bounded(pos: Position, ms: Seq<Move>, depth: nat) -> bool
    decreases depth + 1, ms.len(),
{
    ms.len() == 0 || (all_bounded(pos, ms.drop_last(), depth) && values_bounded(pos.after(ms.last()), depth))
}

/// The same holds of a search from the root, which evaluates only below it.
pub open spec fn search_bounded(pos: Position, depth: nat) -> bool {
    all_bounded(pos, legal_spec(pos), (depth - 1) as nat)
}

/// From a position with at most one king of each color, every evaluation
/// that a search of any depth performs lies within the mate score.
pub proof fn lemma_single_kings_bounded(pos: Position, depth: nat)
    requires
        pos.wf(),
        pos.board_spec().single_kings(),
    ensures
        values_bounded(pos, depth),
    decreases depth + 1, 0nat,
{
    lemma_eval_single_kings(pos);
    if pos.halfmove_spec() < 100 && legal_spec(pos).len() > 0 && depth > 0 {
        lemma_single_kings_all(pos, legal_spec(pos), (depth - 1) as nat);
    }
}

proof fn lemma_single_kings_all(pos: Position, ms: Seq<Move>, depth: nat)
    requires
        pos.wf(),
        pos.board_spec().single_kings(),
        forall|m: Move| ms.contains(m) ==> legal_spec(pos).contains(m),
    ensures
        all_bounded(pos, ms, depth),
    decreases depth + 1, ms.len(),
{
    if ms.len() > 0 {
        let m = ms.last();
        let rest = ms.drop_last();
        assert(ms[ms.len() - 1] == m);
        assert(ms.contains(m));
        assert forall|x: Move| rest.contains(x) implies legal_spec(pos).contains(x) by {
            let k = choose|k: int| 0 <= k < rest.len() && rest[k] == x;
            assert(ms[k] == x);
            assert(ms.contains(x));
        }
        lemma_single_kings_all(pos, rest, depth);
        lemma_legal_moves_are_safe(pos, m);
        pos.lemma_after_wf(m);
        lemma_play_adds_no_king(pos, m);
        lemma_single_kings_bounded(pos.after(m), depth);
    }
}

proof fn lemma_all_bounded(pos: Position, ms: Seq<Move>, depth: nat, m: Move)
    requires
        all_bounded(pos, ms, depth),
        ms.contains(m),
    ensures
        values_bounded(pos.after(m), depth),
    decreases ms.len(),
{
    if m != ms.last() {
        let k = choose|k: int| 0 <= k < ms.len() && ms[k] == m;
        assert(ms.drop_last()[k] == m);
        lemma_all_bounded(pos, ms.drop_last(), depth, m);
    }
}

/// A sequence of moves each legal in the position the previous ones lead to.
pub open spec fn line_ok(pos: Position, line: Seq<Move>) -> bool
    decreases line.len(),
{
    line.len() == 0 || (legal_spec(pos).contains(line[0]) && line_ok(pos.after(line[0]), line.drop_first()))
}

/// What an alpha-beta search with window `(alpha, beta)` promises of the
/// score `r` it returns for a position of true value `v`: a score at or
/// below the window bounds the value from above, one at or above it bounds
/// it from below, and one inside it is exact.
pub open spec fn fail_soft(r: int, alpha: int, beta: int, v: int) -> bool {
    &&& r <= alpha ==> v <= r
    &&& r >= beta ==> v >= r
    &&& alpha < r < beta ==> v == r
}

/// The best of a list of moves is at least `-INFINITY`, at least the score
/// of each of its moves, and, unless it is `-INFINITY`, the score of one.
pub proof fn lemma_best_of_props(pos: Position, ms: Seq<Move>, depth: nat, ply: int)
    ensures
        best_of(pos, ms, depth, ply) >= -INFINITY,
        forall|m: Move|
            ms.contains(m) ==> -node_value(pos.after(m), depth, ply) <= best_of(pos, ms, depth, ply),
        best_of(pos, ms, depth, ply) == -INFINITY || exists|m: Move|
            #[trigger] ms.contains(m) && best_of(pos, ms, depth, ply) == -node_value(pos.after(m), depth, ply),
    decreases ms.len(),
{
    if ms.len() > 0 {
        let rest = ms.drop_last();
        lemma_best_of_props(pos, rest, depth, ply);
        let b = best_of(pos, ms, depth, ply);
        assert forall|m: Move| ms.contains(m) implies -node_value(pos.after(m), depth, ply) <= b by {
            if m != ms.last() {
                let k = choose|k: int| 0 <= k < ms.len() && ms[k] == m;
                assert(k < ms.len() - 1);
                assert(rest[k] == m);
                assert(rest.contains(m));
            }
        }
        if b != -INFINITY {
            if b == -node_value(pos.after(ms.last()), depth, ply) {
                assert(ms.contains(ms.last()));
            } else {
                let m = choose|m: Move| #[trigger] rest.contains(m) && best_of(pos, rest, depth, ply)
                    == -node_value(pos.after(m), depth, ply);
                let k = choose|k: int| 0 <= k < rest.len() && rest[k] == m;
                assert(ms[k] == m);
                assert(ms.contains(m));
            }
        }
    }
}

/// The best of a list of moves does not depend on their order: two lists
/// with the same moves have the same best.
pub proof fn lemma_best_of_same_moves(pos: Position, a: Seq<Move>, b: Seq<Move>, depth: nat, ply: int)
    requires
        forall|m: Move| a.contains(m) <==> b.contains(m),
    ensures
        best_of(pos, a, depth, ply) == best_of(pos, b, depth, ply),
{
    lemma_best_of_props(pos, a, depth, ply);
    lemma_best_of_props(pos, b, depth, ply);
    let ba = best_of(pos, a, depth, ply);
    let bb = best_of(pos, b, depth, ply);
    if bb != -INFINITY {
        let m = choose|m: Move| #[trigger] b.contains(m) && bb == -node_value(pos.after(m), depth, ply);
        assert(a.contains(m));
    }
    if ba != -INFINITY {
        let m = choose|m: Move| #[trigger] a.contains(m) && ba == -node_value(pos.after(m), depth, ply);
        assert(b.contains(m));
    }
}

/// When every evaluation is within the mate score, so is the value.
pub proof fn lemma_node_value_bounds(pos: Position, depth: nat, ply: int)
    requires
        values_bounded(pos, depth),
        1 <= ply,
        ply + depth <= CHECKMATE_SCORE,
    ensures
        -CHECKMATE_SCORE <= node_value(pos, depth, ply) <= CHECKMATE_SCORE,
    decreases depth,
{
    if pos.halfmove_spec() < 100 && legal_spec(pos).len() > 0 && depth > 0 {
        let ms = legal_spec(pos);
        let d = (depth - 1) as nat;
        assert forall|m: Move| ms.contains(m) implies -CHECKMATE_SCORE <= node_value(pos.after(m), d, ply + 1)
            <= CHECKMATE_SCORE by {
            lemma_all_bounded(pos, ms, d, m);
            lemma_node_value_bounds(pos.after(m), d, ply + 1);
        }
        lemma_best_of_props(pos, ms, d, ply + 1);
        assert(ms.contains(ms[0]));
        if best_of(pos, ms, d, ply + 1) != -INFINITY {
            let m = choose|m: Move| #[trigger] ms.contains(m) && best_of(pos, ms, d, ply + 1)
                == -node_value(pos.after(m), d, ply + 1);
            assert(ms.contains(m));
        }
    }
}

/// Moves of a reordering of `legal` are legal and, with `legal`, sound.
proof fn lemma_reordered(pos: Position, legal: Seq<Move>, moves: Seq<Move>)
    requires
        legal == legal_spec(pos),
        sound_from(pos, legal, 0),
        moves.to_multiset() == legal.to_multiset(),
    ensures
        moves.len() == legal.len(),
        forall|m: Move| moves.contains(m) <==> legal.contains(m),
        sound_from(pos, moves, 0),
        forall|k: int| 0 <= k < moves.len() ==> legal.contains(#[trigger] moves[k]),
{
    assert(moves.to_multiset().len() == moves.len());
    assert(legal.to_multiset().len() == legal.len());
    assert forall|m: Move| moves.contains(m) <==> legal.contains(m) by {
        if moves.contains(m) {
            assert(moves.to_multiset().count(m) > 0);
        }
        if legal.contains(m) {
            assert(legal.to_multiset().count(m) > 0);
        }
    }
    assert forall|k: int| 0 <= k < moves.len() implies legal.contains(#[trigger] moves[k]) by {
        assert(moves.contains(moves[k]));
    }
    assert forall|k: int| 0 <= k < moves.len() implies sound(pos, #[trigger] moves[k]) by {
        assert(legal.contains(moves[k]));
        let j = choose|j: int| 0 <= j < legal.len() && legal[j] == moves[k];
        assert(sound(pos, legal[j]));
    }
}

proof fn lemma_line_cons(pos: Position, m: Move, rest: Seq<Move>)
    requires
        legal_spec(pos).contains(m),
        line_ok(pos.after(m), rest),
    ensures
        line_ok(pos, seq![m] + rest),
{
    let line = seq![m] + rest;
    assert(line[0] == m);
    assert(line.drop_first() =~= rest);
}

/// Whether `nodes` positions stay below the budget, if there is one.
pub open spec fn within_limit(limit: Option<u64>, nodes: u64) -> bool {
    limit matches Some(l) ==> nodes < l
}

/// Counts visited positions against an optional budget.
struct SearchContext {
    nodes: u64,
    node_limit: Option<u64>,
}

impl SearchContext {
    fn visit(&mut self)
        ensures
            final(self).nodes == old(self).nodes.saturating_add(1),
            final(self).node_limit == old(self).node_limit,
    {
        self.nodes = self.nodes.saturating_add(1);
    }

    fn limit_reached(&self) -> (r: bool)
        ensures
            r == (self.node_limit matches Some(limit) && self.nodes >= limit),
    {
        match self.node_limit {
            Some(limit) => self.nodes >= limit,
            None => false,
        }
    }
}

/// Fail-soft alpha-beta from `position`, `ply` plies below the root.
/// Returns the score and the line that reaches it.
#[verifier::rlimit(40)]
fn negamax(
    position: &Position,
    depth: u8,
    ply: i32,
    alpha: i32,
    beta: i32,
    context: &mut SearchContext,
) -> (r: (i32, Vec<Move>))
    requires
        position.wf(),
        1 <= ply,
        ply + depth <= 256,
        -EVALUATION_BOUND <= alpha <= EVALUATION_BOUND,
        -EVALUATION_BOUND <= beta <= EVALUATION_BOUND,
    ensures
        -EVALUATION_BOUND <= r.0 <= EVALUATION_BOUND,
        position.board_spec().single_kings() ==> -CHECKMATE_SCORE <= r.0 <= CHECKMATE_SCORE,
        line_ok(*position, r.1@),
        r.1@.len() <= depth,
        final(context).node_limit == old(context).node_limit,
        final(context).nodes >= 1,
        final(context).nodes >= old(context).nodes,
        old(context).node_limit matches Some(l) ==> final(context).nodes <= if old(context).nodes < l {
            l as int
        } else {
            old(context).nodes + 1
        },
        within_limit(old(context).node_limit, final(context).nodes) && -INFINITY <= alpha < beta <= INFINITY
            ==> fail_soft(
            r.0 as int,
            alpha as int,
            beta as int,
            node_value(*position, depth as nat, ply as int),
        ),
    decreases depth,
{
    let ghost entry = context.nodes;
    let ghost single = position.board_spec().single_kings();
    proof {
        if single {
            lemma_eval_single_kings(*position);
        }
    }
    context.visit();
    if context.limit_reached() || position.halfmove_clock() >= 100 {
        return (evaluate(position), Vec::new());
    }
    let mut moves = position.legal_moves();
    if moves.len() == 0 {
        let score = if position.is_in_check(position.side_to_move()) {
            ply - CHECKMATE_SCORE
        } else {
            0
        };
        return (score, Vec::new());
    }
    if depth == 0 {
        return (evaluate(position), Vec::new());
    }
    let ghost legal = moves@;
    order_moves(position, &mut moves);
    proof {
        lemma_reordered(*position, legal, moves@);
    }
    let ghost d = (depth - 1) as nat;
    let ghost lawful = -INFINITY <= alpha < beta <= INFINITY;
    let mut best_line: Vec<Move> = Vec::new();
    let mut best_score: i32 = -INFINITY;
    let mut window: i32 = alpha;
    let mut i: usize = 0;
    loop
        invariant_except_break
            context.node_limit matches Some(l) ==> context.nodes < l,
            lawful ==> window < beta,
            lawful ==> {
                let t = best_of(*position, moves@.take(i as int), d, ply + 1);
                &&& best_score > alpha ==> t == best_score
                &&& best_score <= alpha ==> t <= best_score
            },
        invariant
            position.wf(),
            single == position.board_spec().single_kings(),
            single ==> best_score <= CHECKMATE_SCORE,
            single && i > 0 ==> best_score >= -CHECKMATE_SCORE,
            moves@.len() > 0,
            1 <= ply,
            ply + depth <= 256,
            depth >= 1,
            d == depth - 1,
            -EVALUATION_BOUND <= alpha <= EVALUATION_BOUND,
            -EVALUATION_BOUND <= beta <= EVALUATION_BOUND,
            legal == legal_spec(*position),
            forall|m: Move| moves@.contains(m) <==> legal.contains(m),
            forall|k: int| 0 <= k < moves@.len() ==> legal.contains(#[trigger] moves@[k]),
            sound_from(*position, moves@, 0),
            i <= moves@.len(),
            context.node_limit == old(context).node_limit,
            context.nodes >= 1,
            old(context).nodes == entry,
            context.nodes >= entry,
            context.node_limit matches Some(l) ==> entry < l && context.nodes <= l,
            lawful == (-INFINITY <= alpha < beta <= INFINITY),
            -INFINITY <= best_score <= EVALUATION_BOUND,
            -EVALUATION_BOUND <= window <= EVALUATION_BOUND,
            alpha <= window <= (if alpha > best_score { alpha } else { best_score }),
            alpha >= -INFINITY ==> window == (if alpha > best_score { alpha } else { best_score }),
            line_ok(*position, best_line@),
            best_line@.len() <= depth,
        ensures
            i <= moves@.len(),
            single ==> -CHECKMATE_SCORE <= best_score <= CHECKMATE_SCORE,
            context.node_limit == old(context).node_limit,
            context.nodes >= 1,
            context.nodes >= entry,
            context.node_limit matches Some(l) ==> entry < l && context.nodes <= l,
            -INFINITY <= best_score <= EVALUATION_BOUND,
            line_ok(*position, best_line@),
            best_line@.len() <= depth,
            lawful && within_limit(context.node_limit, context.nodes) ==> {
                let t = best_of(*position, moves@.take(i as int), d, ply + 1);
                ||| {
                    &&& i == moves@.len()
                    &&& best_score < beta
                    &&& best_score > alpha ==> t == best_score
                    &&& best_score <= alpha ==> t <= best_score
                }
                ||| best_score >= beta && t >= best_score
            },
        decreases moves@.len() - i,
    {
        if i >= moves.len() {
            break;
        }
        let chess_move = moves[i];
        assert(sound(*position, moves@[i as int]));
        let child = position.after_move_unchecked(chess_move);
        proof {
            lemma_play_adds_no_king(*position, chess_move);
        }
        let (child_score, mut child_line) = negamax(&child, depth - 1, ply + 1, -beta, -window, context);
        let score = -child_score;
        proof {
            assert(moves@.take(i + 1).drop_last() =~= moves@.take(i as int));
            assert(moves@.take(i + 1).last() == chess_move);
            if lawful && within_limit(context.node_limit, context.nodes) {
                let t_prev = best_of(*position, moves@.take(i as int), d, ply + 1);
                let s_true = -node_value(child, d, ply + 1);
                assert(best_of(*position, moves@.take(i + 1), d, ply + 1) == if s_true > t_prev {
                    s_true
                } else {
                    t_prev
                });
                assert(score >= beta ==> s_true >= score);
                assert(score <= window ==> s_true <= score);
                assert(window < score < beta ==> s_true == score);
            }
        }
        if score > best_score {
            best_score = score;
            let ghost rest = child_line@;
            let mut line: Vec<Move> = Vec::new();
            line.push(chess_move);
            line.append(&mut child_line);
            proof {
                assert(line@ =~= seq![chess_move] + rest);
                lemma_line_cons(*position, chess_move, rest);
            }
            best_line = line;
        }
        if score > window {
            window = score;
        }
        i += 1;
        if window >= beta || context.limit_reached() {
            break;
        }
    }
    proof {
        if lawful && within_limit(context.node_limit, context.nodes) {
            let all = moves@;
            lemma_best_of_same_moves(*position, all, legal, d, ply + 1);
            if i < all.len() {
                let prefix = all.take(i as int);
                lemma_best_of_props(*position, prefix, d, ply + 1);
                lemma_best_of_props(*position, all, d, ply + 1);
                let m = choose|m: Move| #[trigger] prefix.contains(m) && best_of(*position, prefix, d, ply + 1)
                    == -node_value(position.after(m), d, ply + 1);
                let k = choose|k: int| 0 <= k < prefix.len() && prefix[k] == m;
                assert(all[k] == m);
                assert(all.contains(m));
            } else {
                assert(all.take(i as int) =~= all);
            }
        }
    }
    (best_score, best_line)
}


/// The outcome of a search.
#[derive(Clone, Debug, PartialEq, Eq)]
pub struct SearchResult {
    pub best_move: Move,
    /// Centipawns from the root side's point of view; mate scores lie near
    /// plus or minus `CHECKMATE_SCORE`.
    pub score: i32,
    pub depth: u8,
    pub nodes: u64,
    pub principal_variation: Vec<Move>,
}

/// A deterministic alpha-beta engine.
#[derive(Clone, Debug, Default)]
pub struct Engine;

impl Engine {
    pub fn new() -> (r: Self)
        ensures
            r == Engine,
    {
        Engine
    }

    /// Searches the legal moves of `position` to `limits.depth` plies (at
    /// least one). A node budget is never overrun (a budget of zero still
    /// visits one position). With at most one king of each color, as in every
    /// position that the rules and legal play produce, the line found starts
    /// with the best move and the score lies within the mate score, however
    /// soon the budget runs out. When the budget, if any, is not used up, and
    /// every evaluation met lies within the mate score (which one king a side
    /// ensures), the score is the full-width negamax value of the root,
    /// whatever order the moves are tried in, and the best move reaches it.
    pub fn search(&self, position: &Position, limits: SearchLimits) -> (r: Option<SearchResult>)
        requires
            position.wf(),
        ensures
            r is None <==> legal_spec(*position).len() == 0,
            r matches Some(res) ==> {
                &&& legal_spec(*position).contains(res.best_move)
                &&& res.depth == (if limits.depth == 0 { 1 } else { limits.depth })
                &&& res.nodes >= 1
                &&& limits.node_limit matches Some(l) ==> res.nodes <= (if l == 0 {
                    1
                } else {
                    l
                })
                &&& -INFINITY <= res.score <= EVALUATION_BOUND
                &&& line_ok(*position, res.principal_variation@)
                &&& res.principal_variation@.len() <= res.depth
                &&& (res.principal_variation@.len() == 0 <==> res.score == -INFINITY)
                &&& res.principal_variation@.len() > 0 ==> res.principal_variation@[0] == res.best_move
                &&& position.board_spec().single_kings() ==> {
                    &&& res.principal_variation@.len() > 0
                    &&& -CHECKMATE_SCORE <= res.score <= CHECKMATE_SCORE
                }
                &&& within_limit(limits.node_limit, res.nodes) && (search_bounded(*position, res.depth as nat)
                    || position.board_spec().single_kings()) ==> {
                    &&& res.score == root_value(*position, res.depth as nat)
                    &&& res.score == -node_value(position.after(res.best_move), (res.depth - 1) as nat, 1)
                    &&& -CHECKMATE_SCORE <= res.score <= CHECKMATE_SCORE
                }
            },
    {
        let depth: u8 = if limits.depth == 0 {
            1
        } else {
            limits.depth
        };
        let mut moves = position.legal_moves();
        if moves.len() == 0 {
            return None;
        }
        let ghost legal = moves@;
        order_moves(position, &mut moves);
        proof {
            lemma_reordered(*position, legal, moves@);
        }
        let ghost d = (depth - 1) as nat;
        let ghost single = position.board_spec().single_kings();
        proof {
            if single {
                lemma_single_kings_all(*position, legal, d);
            }
        }
        let ghost lawful = search_bounded(*position, depth as nat);
        let mut context = SearchContext { nodes: 0, node_limit: limits.node_limit };
        let mut best_move = moves[0];
        let mut best_score: i32 = -INFINITY;
        let mut best_line: Vec<Move> = Vec::new();
        let mut i: usize = 0;
        assert(legal.contains(moves@[0]));
        loop
            invariant_except_break
                limits.node_limit matches Some(l) ==> (i == 0 && context.nodes == 0) || context.nodes < l,
            invariant
                limits.node_limit matches Some(l) ==> context.nodes <= (if l == 0 {
                    1
                } else {
                    l
                }),
                position.wf(),
                single == position.board_spec().single_kings(),
                single ==> lawful,
                single ==> best_score <= CHECKMATE_SCORE,
                single && i > 0 ==> best_score >= -CHECKMATE_SCORE,
                1 <= depth,
                d == depth - 1,
                legal == legal_spec(*position),
                forall|m: Move| moves@.contains(m) <==> legal.contains(m),
                forall|k: int| 0 <= k < moves@.len() ==> legal.contains(#[trigger] moves@[k]),
                sound_from(*position, moves@, 0),
                moves@.len() > 0,
                i <= moves@.len(),
                context.node_limit == limits.node_limit,
                i > 0 ==> context.nodes >= 1,
                lawful == search_bounded(*position, depth as nat),
                legal.contains(best_move),
                -INFINITY <= best_score <= EVALUATION_BOUND,
                line_ok(*position, best_line@),
                best_line@.len() <= depth,
                best_line@.len() == 0 <==> best_score == -INFINITY,
                best_line@.len() > 0 ==> best_line@[0] == best_move,
                lawful && within_limit(context.node_limit, context.nodes) ==> {
                    &&& best_score == best_of(*position, moves@.take(i as int), d, 1)
                    &&& i > 0 ==> best_score == -node_value(position.after(best_move), d, 1)
                    &&& i > 0 ==> -CHECKMATE_SCORE <= best_score <= CHECKMATE_SCORE
                },
            ensures
                i > 0,
                single ==> lawful && -CHECKMATE_SCORE <= best_score <= CHECKMATE_SCORE,
                i == moves@.len() || !within_limit(limits.node_limit, context.nodes),
                context.nodes >= 1,
                limits.node_limit matches Some(l) ==> context.nodes <= (if l == 0 {
                    1
                } else {
                    l
                }),
                legal.contains(best_move),
                -INFINITY <= best_score <= EVALUATION_BOUND,
                line_ok(*position, best_line@),
                best_line@.len() <= depth,
                best_line@.len() == 0 <==> best_score == -INFINITY,
                best_line@.len() > 0 ==> best_line@[0] == best_move,
                lawful && within_limit(context.node_limit, context.nodes) ==> {
                    &&& best_score == best_of(*position, moves@.take(i as int), d, 1)
                    &&& best_score == -node_value(position.after(best_move), d, 1)
                    &&& -CHECKMATE_SCORE <= best_score <= CHECKMATE_SCORE
                },
            decreases moves@.len() - i,
        {
            if i >= moves.len() {
                break;
            }
            let chess_move = moves[i];
            assert(sound(*position, moves@[i as int]));
            let child = position.after_move_unchecked(chess_move);
            proof {
                lemma_play_adds_no_king(*position, chess_move);
                if lawful {
                    lemma_all_bounded(*position, legal, d, chess_move);
                    lemma_node_value_bounds(child, d, 1);
                }
            }
            let (child_score, mut child_line) = negamax(&child, depth - 1, 1, -INFINITY, -best_score, &mut context);
            let score = -child_score;
            proof {
                assert(moves@.take(i + 1).drop_last() =~= moves@.take(i as int));
                assert(moves@.take(i + 1).last() == chess_move);
            }
            if score > best_score {
                best_score = score;
                best_move = chess_move;
                let ghost rest = child_line@;
                let mut line: Vec<Move> = Vec::new();
                line.push(chess_move);
                line.append(&mut child_line);
                proof {
                    assert(line@ =~= seq![chess_move] + rest);
                    lemma_line_cons(*position, chess_move, rest);
                }
                best_line = line;
            }
            i += 1;
            if context.limit_reached() {
                break;
            }
        }
        proof {
            if lawful && within_limit(context.node_limit, context.nodes) {
                assert(moves@.take(i as int) =~= moves@);
                lemma_best_of_same_moves(*position, moves@, legal, d, 1);
            }
        }
        Some(
            SearchResult {
                best_move,
                score: best_score,
                depth,
                nodes: context.nodes,
                principal_variation: best_line,
            },
        )
    }
}

/// How deep to search, and an optional budget of visited positions.
#[derive(Clone, Copy, Debug, PartialEq, Eq, Structural)]
pub struct SearchLimits {
    pub depth: u8,
    pub node_limit: Option<u64>,
}

impl SearchLimits {
    pub fn depth(depth: u8) -> (r: Self)
        ensures
            r == (SearchLimits { depth, node_limit: None }),
    {
        SearchLimits { depth, node_limit: None }
    }

    pub fn with_node_limit(self, node_limit: u64) -> (r: Self)
        ensures
            r == (SearchLimits { depth: self.depth, node_limit: Some(node_limit) }),
    {
        SearchLimits { depth: self.depth, node_limit: Some(node_limit) }
    }
}

impl Default for SearchLimits {
    fn default() -> (r: Self)
        ensures
            r == (SearchLimits { depth: 4, node_limit: None }),
    {
        SearchLimits::depth(4)
    }
}

} // verus!
