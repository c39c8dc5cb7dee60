//! Pseudo-legal move generation: every move that the pieces of the side to
//! move can make, before moves that leave its own king attacked are removed.
use vstd::prelude::*;
use crate::attack::{
    attacked, diagonal, diagonal_exec, edge_measure, is_square_attacked_on, king_offsets,
    king_offsets_exec, knight_offsets, knight_offsets_exec, orthogonal, orthogonal_exec, step_on,
    step_square, unit_step,
};
use crate::board::{all_squares, occupied, Board};
use crate::mv::{CastleSide, Move, MoveKind};
use crate::position::{sound, Position};
use crate::rules::{promotion_ok, CastleRoute, PromotionRule, VariantRules};
use crate::types::{promotion_pieces, promotion_pieces_spec, Color, Piece, PieceKind, Square};

verus! {

broadcast use {
    crate::board::Board::lemma_wf_size,
    crate::board::Board::lemma_with,
    crate::board::Board::lemma_with_shape,
};

pub open spec fn plain(from: Square, to: Square) -> Move {
    Move { from, to, promotion: None, kind: MoveKind::Normal }
}

/// A king or leaper step to `to`: allowed onto an empty square or onto an
/// opposing piece other than the king.
pub open spec fn step_moves(b: Board, from: Square, to: Square, color: Color) -> Seq<Move> {
    match b.at(to) {
        None => seq![plain(from, to)],
        Some(p) => if p.color != color && p.kind != PieceKind::King {
            seq![plain(from, to)]
        } else {
            Seq::empty()
        },
    }
}

/// Steps by each offset in turn.
pub open spec fn leap_moves(b: Board, from: Square, color: Color, offs: Seq<(int, int)>) -> Seq<Move>
    decreases offs.len(),
{
    if offs.len() == 0 {
        Seq::empty()
    } else {
        leap_moves(b, from, color, offs.drop_last()) + match step_on(b, from, offs.last().0, offs.last().1) {
            Some(to) => step_moves(b, from, to, color),
            None => Seq::empty(),
        }
    }
}

/// Slides from `cur` (excluded) along one direction until the edge, a piece
/// of one's own, or a capture.
pub open spec fn ray(b: Board, from: Square, color: Color, cur: Square, df: int, dr: int) -> Seq<Move>
    decreases edge_measure(cur, df, dr),
{
    if !unit_step(df, dr) || !b.dims().valid() {
        Seq::empty()
    } else {
        match step_on(b, cur, df, dr) {
            Some(to) => match b.at(to) {
                None => seq![plain(from, to)] + ray(b, from, color, to, df, dr),
                Some(p) => if p.color != color && p.kind != PieceKind::King {
                    seq![plain(from, to)]
                } else {
                    Seq::empty()
                },
            },
            None => Seq::empty(),
        }
    }
}

/// Slides along each direction in turn.
pub open spec fn slide_moves(b: Board, from: Square, color: Color, dirs: Seq<(int, int)>) -> Seq<Move>
    decreases dirs.len(),
{
    if dirs.len() == 0 {
        Seq::empty()
    } else {
        slide_moves(b, from, color, dirs.drop_last()) + ray(b, from, color, from, dirs.last().0, dirs.last().1)
    }
}

/// The kinds among `ks` of which `color` has fewer on the board than it
/// started with.
pub open spec fn still_missing(b: Board, rules: VariantRules, color: Color, ks: Seq<PieceKind>) -> Seq<PieceKind>
    decreases ks.len(),
{
    if ks.len() == 0 {
        Seq::empty()
    } else {
        let rest = still_missing(b, rules, color, ks.drop_last());
        if b.count_spec(color, ks.last()) < rules.initial_spec(color, ks.last()) {
            rest.push(ks.last())
        } else {
            rest
        }
    }
}

/// The promotion pieces of which `color` still has fewer on the board than
/// it started with: in Grand Chess only captured material comes back.
pub open spec fn grand_choices(b: Board, rules: VariantRules, color: Color) -> Seq<PieceKind> {
    still_missing(b, rules, color, promotion_pieces_spec())
}

pub open spec fn with_promotion(from: Square, to: Square, kind: MoveKind, choices: Seq<PieceKind>) -> Seq<Move> {
    choices.map_values(|k: PieceKind| Move { from, to, promotion: Some(k), kind })
}

/// The moves of a pawn reaching `to`: every promotion choice on the last rank
/// (and, in Grand Chess, the plain move too before the last rank), otherwise
/// the plain move.
pub open spec fn pawn_arrivals(b: Board, rules: VariantRules, from: Square, to: Square, color: Color, kind: MoveKind) -> Seq<Move> {
    let h = b.dims().height();
    let relative = match color {
        Color::White => to.rank + 1,
        Color::Black => h - to.rank,
    };
    let plain_move = Move { from, to, promotion: None, kind };
    match rules.promotion_spec() {
        PromotionRule::LastRank { choices } => if relative == h {
            with_promotion(from, to, kind, choices@)
        } else {
            seq![plain_move]
        },
        PromotionRule::Grand => if relative >= 8 {
            (if relative == h { Seq::empty() } else { seq![plain_move] }) + with_promotion(
                from,
                to,
                kind,
                grand_choices(b, rules, color),
            )
        } else {
            seq![plain_move]
        },
    }
}

/// A diagonal pawn step toward file offset `df`: a capture of an opposing
/// piece other than the king, or an en passant capture.
pub open spec fn pawn_capture(pos: Position, from: Square, color: Color, df: int) -> Seq<Move> {
    let b = pos.board_spec();
    match step_on(b, from, df, color.direction()) {
        Some(to) => if b.at(to) matches Some(p) && p.color != color && p.kind != PieceKind::King {
            pawn_arrivals(b, pos.rules_spec(), from, to, color, MoveKind::Normal)
        } else if pos.ep_spec() == Some(to) {
            if b.at(Square { file: to.file, rank: from.rank }) == Some(Piece { color: color.other(), kind: PieceKind::Pawn }) {
                pawn_arrivals(b, pos.rules_spec(), from, to, color, MoveKind::EnPassant)
            } else {
                Seq::empty()
            }
        } else {
            Seq::empty()
        },
        None => Seq::empty(),
    }
}

/// Pawn pushes: one square forward onto an empty square, and two from the
/// start rank when both squares are empty.
pub open spec fn pawn_pushes(pos: Position, from: Square, color: Color) -> Seq<Move> {
    let b = pos.board_spec();
    let dir = color.direction();
    match step_on(b, from, 0, dir) {
        Some(one) => if b.at(one) is None {
            pawn_arrivals(b, pos.rules_spec(), from, one, color, MoveKind::Normal) + if from.rank
                == pos.rules_spec().pawn_rank_spec(color) {
                match step_on(b, from, 0, 2 * dir) {
                    Some(two) => if b.at(two) is None {
                        seq![plain(from, two)]
                    } else {
                        Seq::empty()
                    },
                    None => Seq::empty(),
                }
            } else {
                Seq::empty()
            }
        } else {
            Seq::empty()
        },
        None => Seq::empty(),
    }
}

/// Pawn pushes and captures.
pub open spec fn pawn_moves(pos: Position, from: Square, color: Color) -> Seq<Move> {
    pawn_pushes(pos, from, color) + pawn_capture(pos, from, color, -1) + pawn_capture(pos, from, color, 1)
}

/// The files strictly between the king and the rook of a route are empty.
pub open spec fn between_clear(b: Board, rt: CastleRoute) -> bool {
    let kf = rt.king_from.file as int;
    let rf = rt.rook_from.file as int;
    let low = (if kf < rf { kf } else { rf }) + 1;
    let high = if kf < rf { rf } else { kf };
    forall|f: int| low <= f < high ==> (#[trigger] b.at(Square { file: f as u8, rank: rt.king_from.rank })) is None
}

/// The destinations of king and rook are empty unless one of them starts there.
pub open spec fn destinations_clear(b: Board, rt: CastleRoute) -> bool {
    &&& (rt.king_to == rt.king_from || rt.king_to == rt.rook_from || b.at(rt.king_to) is None)
    &&& (rt.rook_to == rt.king_from || rt.rook_to == rt.rook_from || b.at(rt.rook_to) is None)
}

pub open spec fn file_gap(a: Square, b: Square) -> int {
    if a.file <= b.file {
        b.file - a.file
    } else {
        a.file - b.file
    }
}

/// The king walks square by square from `cur` to `target` (the board already
/// showing it on `cur` unless `first`), and no square it stands on is attacked.
pub open spec fn walk_safe(b: Board, color: Color, cur: Square, target: Square, step: int, first: bool) -> bool
    decreases file_gap(cur, target),
{
    let b2 = if first {
        b
    } else {
        b.with(Square { file: (cur.file - step) as u8, rank: cur.rank }, None).with(
            cur,
            Some(Piece { color, kind: PieceKind::King }),
        )
    };
    if attacked(b2, cur, color.other()) {
        false
    } else if cur == target {
        true
    } else if cur.rank == target.rank && ((step == 1 && cur.file < target.file) || (step == -1
        && cur.file > target.file)) {
        walk_safe(b2, color, Square { file: (cur.file + step) as u8, rank: cur.rank }, target, step, false)
    } else {
        false
    }
}

/// The `k`-th square of a walk along the rank of `from`, one file at a time,
/// toward higher files when `step` is 1 and toward lower files otherwise.
pub open spec fn walk_square(from: Square, step: int, k: int) -> Square {
    Square {
        file: (if step == 1 {
            from.file + k
        } else {
            from.file - k
        }) as u8,
        rank: from.rank,
    }
}

/// The number of steps of a walk from `from` to `target`.
pub open spec fn walk_length(from: Square, target: Square, step: int) -> int {
    if step == 1 {
        target.file - from.file
    } else {
        from.file - target.file
    }
}

/// The board while the king of `color`, walking from `from`, stands `k`
/// steps along: every square it has left is empty.
pub open spec fn walk_board(b: Board, color: Color, from: Square, step: int, k: int) -> Board
    decreases k,
{
    if k <= 0 {
        b
    } else {
        walk_board(b, color, from, step, k - 1).with(walk_square(from, step, k - 1), None).with(
            walk_square(from, step, k),
            Some(Piece { color, kind: PieceKind::King }),
        )
    }
}

proof fn lemma_walk_from(b: Board, color: Color, from: Square, target: Square, step: int, j: int)
    requires
        step == 1 || step == -1,
        target.rank == from.rank,
        0 <= j <= walk_length(from, target, step),
    ensures
        walk_safe(
            if j == 0 {
                b
            } else {
                walk_board(b, color, from, step, j - 1)
            },
            color,
            walk_square(from, step, j),
            target,
            step,
            j == 0,
        ) == forall|k: int|
            j <= k <= walk_length(from, target, step) ==> !attacked(
                #[trigger] walk_board(b, color, from, step, k),
                walk_square(from, step, k),
                color.other(),
            ),
    decreases walk_length(from, target, step) - j,
{
    let n = walk_length(from, target, step);
    let cur = walk_square(from, step, j);
    assert(cur.file == if step == 1 { from.file + j } else { from.file - j });
    if j > 0 {
        assert(Square { file: (cur.file - step) as u8, rank: cur.rank } == walk_square(from, step, j - 1));
    } else {
        assert(cur == from);
    }
    let here = walk_board(b, color, from, step, j);
    if !attacked(here, cur, color.other()) && j < n {
        let next = walk_square(from, step, j + 1);
        assert(Square { file: (cur.file + step) as u8, rank: cur.rank } == next);
        assert(cur != target);
        lemma_walk_from(b, color, from, target, step, j + 1);
    }
    if j == n {
        assert(cur == target);
    }
}

/// The castling walk in direct terms: it is safe exactly when the target
/// lies on the king's rank in the walking direction and no square of the
/// walk, from the start to the target, is attacked while the king stands on
/// it with every square it has left empty.
pub proof fn lemma_walk_safe_squares(b: Board, color: Color, from: Square, target: Square, step: int)
    requires
        step == 1 || step == -1,
    ensures
        walk_safe(b, color, from, target, step, true) == (target.rank == from.rank && walk_length(from, target, step)
            >= 0 && forall|k: int|
            0 <= k <= walk_length(from, target, step) ==> !attacked(
                #[trigger] walk_board(b, color, from, step, k),
                walk_square(from, step, k),
                color.other(),
            )),
{
    if target.rank == from.rank && walk_length(from, target, step) >= 0 {
        lemma_walk_from(b, color, from, target, step, 0);
        assert(walk_square(from, step, 0) == from);
    }
}

/// Castling on `side` is available to the king on `king_sq`.
pub open spec fn can_castle_spec(pos: Position, color: Color, side: CastleSide, king_sq: Square) -> bool {
    let b = pos.board_spec();
    &&& pos.rights_spec().allows(color, side)
    &&& pos.rules_spec().castling_spec().route_of(color, side) matches Some(rt)
    &&& rt.king_from == king_sq
    &&& b.at(rt.king_from) == Some(Piece { color, kind: PieceKind::King })
    &&& b.at(rt.rook_from) == Some(Piece { color, kind: PieceKind::Rook })
    &&& between_clear(b, rt)
    &&& destinations_clear(b, rt)
    &&& walk_safe(b, color, rt.king_from, rt.king_to, if rt.king_to.file > rt.king_from.file { 1 } else { -1 }, true)
}

pub open spec fn castle_move(pos: Position, from: Square, color: Color, side: CastleSide) -> Seq<Move> {
    if can_castle_spec(pos, color, side, from) {
        seq![
            Move {
                from,
                to: pos.rules_spec().castling_spec().route_of(color, side)->Some_0.king_to,
                promotion: None,
                kind: MoveKind::Castle(side),
            },
        ]
    } else {
        Seq::empty()
    }
}

pub open spec fn king_moves(pos: Position, from: Square, color: Color) -> Seq<Move> {
    leap_moves(pos.board_spec(), from, color, king_offsets()) + castle_move(pos, from, color, CastleSide::QueenSide)
        + castle_move(pos, from, color, CastleSide::KingSide)
}

/// The moves of one piece, by the way its kind moves.
pub open spec fn piece_moves(pos: Position, from: Square, piece: Piece) -> Seq<Move> {
    let b = pos.board_spec();
    let c = piece.color;
    match piece.kind {
        PieceKind::Pawn => pawn_moves(pos, from, c),
        PieceKind::Knight => leap_moves(b, from, c, knight_offsets()),
        PieceKind::Bishop => slide_moves(b, from, c, diagonal()),
        PieceKind::Rook => slide_moves(b, from, c, orthogonal()),
        PieceKind::Queen => slide_moves(b, from, c, orthogonal()) + slide_moves(b, from, c, diagonal()),
        PieceKind::King => king_moves(pos, from, c),
        PieceKind::Archbishop => slide_moves(b, from, c, diagonal()) + leap_moves(b, from, c, knight_offsets()),
        PieceKind::Chancellor => slide_moves(b, from, c, orthogonal()) + leap_moves(b, from, c, knight_offsets()),
    }
}

/// The moves of the side to move's pieces among `list`, in order.
pub open spec fn moves_of_pieces(pos: Position, list: Seq<(Square, Piece)>) -> Seq<Move>
    decreases list.len(),
{
    if list.len() == 0 {
        Seq::empty()
    } else {
        moves_of_pieces(pos, list.drop_last()) + if list.last().1.color == pos.side_spec() {
            piece_moves(pos, list.last().0, list.last().1)
        } else {
            Seq::empty()
        }
    }
}

/// Every pseudo-legal move of the side to move, square by square.
pub open spec fn pseudo_moves(pos: Position) -> Seq<Move> {
    moves_of_pieces(pos, occupied(pos.board_spec(), all_squares(pos.board_spec().dims())))
}

/// New moves in `moves` past `start` are sound for the position.
pub open spec fn sound_from(pos: Position, moves: Seq<Move>, start: int) -> bool {
    forall|i: int| start <= i < moves.len() ==> sound(pos, #[trigger] moves[i])
}

/// What the generators may assume about the moving piece.
pub open spec fn mover_ok(pos: Position, from: Square, color: Color) -> bool {
    &&& pos.wf()
    &&& pos.board_spec().dims().holds(from)
    &&& pos.board_spec().at(from) matches Some(p) && p.color == color
    &&& color == pos.side_spec()
}

fn push_step(pos: &Position, from: Square, to: Square, color: Color, moves: &mut Vec<Move>)
    requires
        mover_ok(*pos, from, color),
        pos.board_spec().dims().holds(to),
    ensures
        final(moves)@ == old(moves)@ + step_moves(pos.board_spec(), from, to, color),
        sound_from(*pos, final(moves)@, old(moves)@.len() as int),
{
    match pos.board().piece_at(to) {
        None => moves.push(Move::normal(from, to)),
        Some(piece) => if piece.color != color && piece.kind != PieceKind::King {
            moves.push(Move::normal(from, to));
        },
    }
    assert(final(moves)@ =~= old(moves)@ + step_moves(pos.board_spec(), from, to, color));
}

fn generate_offsets(
    pos: &Position,
    from: Square,
    color: Color,
    offsets: [(i8, i8); 8],
    Ghost(offs): Ghost<Seq<(int, int)>>,
    moves: &mut Vec<Move>,
)
    requires
        mover_ok(*pos, from, color),
        offs.len() == 8,
        forall|i: int| 0 <= i < 8 ==> (#[trigger] offsets[i]).0 == offs[i].0 && offsets[i].1 == offs[i].1,
    ensures
        final(moves)@ == old(moves)@ + leap_moves(pos.board_spec(), from, color, offs),
        sound_from(*pos, final(moves)@, old(moves)@.len() as int),
{
    let ghost b = pos.board_spec();
    let mut i: usize = 0;
    assert(offs.take(0) =~= Seq::<(int, int)>::empty());
    while i < 8
        invariant
            i <= 8,
            mover_ok(*pos, from, color),
            b == pos.board_spec(),
            offs.len() == 8,
            forall|k: int| 0 <= k < 8 ==> (#[trigger] offsets[k]).0 == offs[k].0 && offsets[k].1 == offs[k].1,
            moves@ == old(moves)@ + leap_moves(b, from, color, offs.take(i as int)),
            sound_from(*pos, moves@, old(moves)@.len() as int),
        decreases 8 - i,
    {
        let (df, dr) = offsets[i];
        let ghost before = moves@;
        assert(offs.take(i + 1).drop_last() =~= offs.take(i as int));
        assert(offs.take(i + 1).last() == offs[i as int]);
        match step_square(pos.board(), from, df, dr) {
            Some(to) => push_step(pos, from, to, color, moves),
            None => {},
        }
        assert(moves@ =~= old(moves)@ + leap_moves(b, from, color, offs.take(i + 1)));
        i += 1;
    }
    assert(offs.take(8) =~= offs);
}

fn generate_ray(pos: &Position, from: Square, color: Color, df: i8, dr: i8, moves: &mut Vec<Move>)
    requires
        mover_ok(*pos, from, color),
        unit_step(df as int, dr as int),
    ensures
        final(moves)@ == old(moves)@ + ray(pos.board_spec(), from, color, from, df as int, dr as int),
        sound_from(*pos, final(moves)@, old(moves)@.len() as int),
{
    let ghost b = pos.board_spec();
    let board = pos.board();
    let mut current = from;
    assert(moves@ + ray(b, from, color, current, df as int, dr as int) =~= old(moves)@ + ray(
        b,
        from,
        color,
        from,
        df as int,
        dr as int,
    ));
    loop
        invariant_except_break
            moves@ + ray(b, from, color, current, df as int, dr as int) == old(moves)@ + ray(
                b,
                from,
                color,
                from,
                df as int,
                dr as int,
            ),
        invariant
            mover_ok(*pos, from, color),
            unit_step(df as int, dr as int),
            b == pos.board_spec(),
            *board == b,
            sound_from(*pos, moves@, old(moves)@.len() as int),
        ensures
            moves@ == old(moves)@ + ray(b, from, color, from, df as int, dr as int),
            sound_from(*pos, moves@, old(moves)@.len() as int),
        decreases edge_measure(current, df as int, dr as int),
    {
        match step_square(board, current, df, dr) {
            Some(to) => match board.piece_at(to) {
                None => {
                    let ghost before = moves@;
                    moves.push(Move::normal(from, to));
                    assert(moves@ + ray(b, from, color, to, df as int, dr as int) =~= before + ray(
                        b,
                        from,
                        color,
                        current,
                        df as int,
                        dr as int,
                    ));
                    current = to;
                },
                Some(piece) => {
                    let ghost before = moves@;
                    if piece.color != color && piece.kind != PieceKind::King {
                        moves.push(Move::normal(from, to));
                    }
                    assert(moves@ =~= before + ray(b, from, color, current, df as int, dr as int));
                    break;
                },
            },
            None => {
                assert(moves@ =~= moves@ + ray(b, from, color, current, df as int, dr as int));
                break;
            },
        }
    }
}

fn generate_slides(
    pos: &Position,
    from: Square,
    color: Color,
    dirs: [(i8, i8); 4],
    Ghost(ds): Ghost<Seq<(int, int)>>,
    moves: &mut Vec<Move>,
)
    requires
        mover_ok(*pos, from, color),
        ds.len() == 4,
        forall|i: int| 0 <= i < 4 ==> (#[trigger] dirs[i]).0 == ds[i].0 && dirs[i].1 == ds[i].1,
        forall|i: int| 0 <= i < 4 ==> unit_step((#[trigger] ds[i]).0, ds[i].1),
    ensures
        final(moves)@ == old(moves)@ + slide_moves(pos.board_spec(), from, color, ds),
        sound_from(*pos, final(moves)@, old(moves)@.len() as int),
{
    let ghost b = pos.board_spec();
    let mut i: usize = 0;
    assert(ds.take(0) =~= Seq::<(int, int)>::empty());
    while i < 4
        invariant
            i <= 4,
            mover_ok(*pos, from, color),
            b == pos.board_spec(),
            ds.len() == 4,
            forall|k: int| 0 <= k < 4 ==> (#[trigger] dirs[k]).0 == ds[k].0 && dirs[k].1 == ds[k].1,
            forall|k: int| 0 <= k < 4 ==> unit_step((#[trigger] ds[k]).0, ds[k].1),
            moves@ == old(moves)@ + slide_moves(b, from, color, ds.take(i as int)),
            sound_from(*pos, moves@, old(moves)@.len() as int),
        decreases 4 - i,
    {
        let (df, dr) = dirs[i];
        assert(ds.take(i + 1).drop_last() =~= ds.take(i as int));
        assert(ds.take(i + 1).last() == ds[i as int]);
        assert(unit_step(ds[i as int].0, ds[i as int].1));
        generate_ray(pos, from, color, df, dr, moves);
        assert(moves@ =~= old(moves)@ + slide_moves(b, from, color, ds.take(i + 1)));
        i += 1;
    }
    assert(ds.take(4) =~= ds);
}


fn grand_promotion_choices(pos: &Position, color: Color) -> (r: Vec<PieceKind>)
    requires
        pos.wf(),
    ensures
        r@ == grand_choices(pos.board_spec(), pos.rules_spec(), color),
{
    let all = promotion_pieces();
    let mut r: Vec<PieceKind> = Vec::new();
    let mut i: usize = 0;
    while i < all.len()
        invariant
            pos.wf(),
            i <= all@.len(),
            all@ == promotion_pieces_spec(),
            r@ == still_missing(pos.board_spec(), pos.rules_spec(), color, all@.take(i as int)),
        decreases all.len() - i,
    {
        let kind = all[i];
        assert(all@.take(i + 1).drop_last() =~= all@.take(i as int));
        if pos.board().count(color, kind) < pos.rules().initial_count(color, kind) {
            r.push(kind);
        }
        i += 1;
    }
    assert(all@.take(all@.len() as int) =~= all@);
    r
}

fn push_promotions(
    pos: &Position,
    from: Square,
    to: Square,
    color: Color,
    kind: MoveKind,
    choices: &Vec<PieceKind>,
    moves: &mut Vec<Move>,
)
    requires
        mover_ok(*pos, from, color),
        pos.board_spec().dims().holds(to),
        !(kind is Castle),
    ensures
        final(moves)@ == old(moves)@ + with_promotion(from, to, kind, choices@),
        sound_from(*pos, final(moves)@, old(moves)@.len() as int),
{
    let mut i: usize = 0;
    while i < choices.len()
        invariant
            mover_ok(*pos, from, color),
            pos.board_spec().dims().holds(to),
            !(kind is Castle),
            i <= choices@.len(),
            moves@ == old(moves)@ + with_promotion(from, to, kind, choices@.take(i as int)),
            sound_from(*pos, moves@, old(moves)@.len() as int),
        decreases choices.len() - i,
    {
        moves.push(Move { from, to, promotion: Some(choices[i]), kind });
        assert(with_promotion(from, to, kind, choices@.take(i + 1)) =~= with_promotion(
            from,
            to,
            kind,
            choices@.take(i as int),
        ).push(Move { from, to, promotion: Some(choices@[i as int]), kind }));
        i += 1;
    }
    assert(choices@.take(choices@.len() as int) =~= choices@);
}

fn push_pawn_move(pos: &Position, from: Square, to: Square, color: Color, kind: MoveKind, moves: &mut Vec<Move>)
    requires
        mover_ok(*pos, from, color),
        pos.board_spec().dims().holds(to),
        !(kind is Castle),
    ensures
        final(moves)@ == old(moves)@ + pawn_arrivals(pos.board_spec(), pos.rules_spec(), from, to, color, kind),
        sound_from(*pos, final(moves)@, old(moves)@.len() as int),
{
    let ranks = pos.board().size().ranks();
    let relative: u8 = match color {
        Color::White => to.rank + 1,
        Color::Black => ranks - to.rank,
    };
    let ghost start = moves@;
    match pos.rules().promotion() {
        PromotionRule::LastRank { choices } => {
            if relative == ranks {
                push_promotions(pos, from, to, color, kind, choices, moves);
            } else {
                moves.push(Move { from, to, promotion: None, kind });
                assert(moves@ =~= start + pawn_arrivals(pos.board_spec(), pos.rules_spec(), from, to, color, kind));
            }
        },
        PromotionRule::Grand => {
            if relative >= 8 {
                let choices = grand_promotion_choices(pos, color);
                let mandatory = relative == ranks;
                if !mandatory {
                    moves.push(Move { from, to, promotion: None, kind });
                }
                let ghost mid = moves@;
                push_promotions(pos, from, to, color, kind, &choices, moves);
                assert(moves@ =~= start + pawn_arrivals(pos.board_spec(), pos.rules_spec(), from, to, color, kind));
            } else {
                moves.push(Move { from, to, promotion: None, kind });
                assert(moves@ =~= start + pawn_arrivals(pos.board_spec(), pos.rules_spec(), from, to, color, kind));
            }
        },
    }
}

fn is_pawn_of(p: Option<Piece>, color: Color) -> (r: bool)
    ensures
        r == (p == Some(Piece { color, kind: PieceKind::Pawn })),
{
    match p {
        Some(q) => q.color == color && q.kind == PieceKind::Pawn,
        None => false,
    }
}

fn same_square(a: Option<Square>, b: Square) -> (r: bool)
    ensures
        r == (a == Some(b)),
{
    match a {
        Some(x) => x == b,
        None => false,
    }
}

fn generate_pawn_capture(pos: &Position, from: Square, color: Color, df: i8, moves: &mut Vec<Move>)
    requires
        mover_ok(*pos, from, color),
        df == -1 || df == 1,
    ensures
        final(moves)@ == old(moves)@ + pawn_capture(*pos, from, color, df as int),
        sound_from(*pos, final(moves)@, old(moves)@.len() as int),
{
    let board = pos.board();
    let direction = color.pawn_direction();
    match step_square(board, from, df, direction) {
        Some(to) => {
            let target = board.piece_at(to);
            let enemy = match target {
                Some(piece) => piece.color != color && piece.kind != PieceKind::King,
                None => false,
            };
            if enemy {
                push_pawn_move(pos, from, to, color, MoveKind::Normal, moves);
            } else if same_square(pos.en_passant(), to) {
                let captured = Square::new(to.file, from.rank);
                if is_pawn_of(board.piece_at(captured), color.opposite()) {
                    push_pawn_move(pos, from, to, color, MoveKind::EnPassant, moves);
                } else {
                    assert(moves@ =~= old(moves)@ + pawn_capture(*pos, from, color, df as int));
                }
            } else {
                assert(moves@ =~= old(moves)@ + pawn_capture(*pos, from, color, df as int));
            }
        },
        None => {
            assert(moves@ =~= old(moves)@ + pawn_capture(*pos, from, color, df as int));
        },
    }
}

fn generate_pawn_pushes(pos: &Position, from: Square, color: Color, moves: &mut Vec<Move>)
    requires
        mover_ok(*pos, from, color),
    ensures
        final(moves)@ == old(moves)@ + pawn_pushes(*pos, from, color),
        sound_from(*pos, final(moves)@, old(moves)@.len() as int),
{
    let board = pos.board();
    let direction = color.pawn_direction();
    match step_square(board, from, 0, direction) {
        Some(one) => {
            if board.piece_at(one).is_none() {
                push_pawn_move(pos, from, one, color, MoveKind::Normal, moves);
                let ghost mid = moves@;
                if from.rank == pos.rules().pawn_start_rank(color) {
                    match step_square(board, from, 0, direction * 2) {
                        Some(two) => {
                            if board.piece_at(two).is_none() {
                                moves.push(Move::normal(from, two));
                            }
                        },
                        None => {},
                    }
                }
                assert(moves@ =~= old(moves)@ + pawn_pushes(*pos, from, color));
            } else {
                assert(moves@ =~= old(moves)@ + pawn_pushes(*pos, from, color));
            }
        },
        None => {
            assert(moves@ =~= old(moves)@ + pawn_pushes(*pos, from, color));
        },
    }
}

#[verifier::spinoff_prover]
#[verifier::rlimit(40)]
fn generate_pawn_moves(pos: &Position, from: Square, color: Color, moves: &mut Vec<Move>)
    requires
        mover_ok(*pos, from, color),
    ensures
        final(moves)@ == old(moves)@ + pawn_moves(*pos, from, color),
        sound_from(*pos, final(moves)@, old(moves)@.len() as int),
{
    let ghost m0 = moves@;
    generate_pawn_pushes(pos, from, color, moves);
    let ghost m1 = moves@;
    generate_pawn_capture(pos, from, color, -1, moves);
    let ghost m2 = moves@;
    proof {
        assert(m2.take(m1.len() as int) =~= m1);
        lemma_sound_from_extend(*pos, m1, m2, m0.len() as int);
    }
    generate_pawn_capture(pos, from, color, 1, moves);
    proof {
        assert(moves@.take(m2.len() as int) =~= m2);
        lemma_sound_from_extend(*pos, m2, moves@, m0.len() as int);
    }
    assert(moves@ =~= m0 + pawn_moves(*pos, from, color));
}

proof fn lemma_sound_from_extend(pos: Position, short: Seq<Move>, long: Seq<Move>, start: int)
    requires
        0 <= start <= short.len() <= long.len(),
        long.take(short.len() as int) == short,
        sound_from(pos, short, start),
        sound_from(pos, long, short.len() as int),
    ensures
        sound_from(pos, long, start),
{
    assert forall|i: int| start <= i < long.len() implies sound(pos, #[trigger] long[i]) by {
        if i < short.len() {
            assert(long[i] == long.take(short.len() as int)[i]);
        }
    }
}

fn is_piece(p: Option<Piece>, color: Color, kind: PieceKind) -> (r: bool)
    ensures
        r == (p == Some(Piece { color, kind })),
{
    match p {
        Some(q) => q.color == color && q.kind == kind,
        None => false,
    }
}

fn king_castling_path_is_safe(board: &Board, color: Color, route: CastleRoute) -> (r: bool)
    requires
        board.wf(),
        board.dims().holds(route.king_from),
        board.dims().holds(route.king_to),
        route.king_to.rank == route.king_from.rank,
    ensures
        r == walk_safe(
            *board,
            color,
            route.king_from,
            route.king_to,
            if route.king_to.file > route.king_from.file { 1 } else { -1 },
            true,
        ),
{
    let step: i8 = if route.king_to.file > route.king_from.file { 1 } else { -1 };
    let ghost st: int = step as int;
    let kf = route.king_from;
    let kt = route.king_to;
    let mut b = *board;
    let mut current = kf;
    loop
        invariant
            b.wf(),
            b.dims() == board.dims(),
            board.dims().holds(kf),
            board.dims().holds(kt),
            kt.rank == kf.rank,
            current.rank == kf.rank,
            st == step as int,
            st == (if kt.file > kf.file { 1int } else { -1int }),
            kf == route.king_from,
            kt == route.king_to,
            step == 1 ==> kf.file <= current.file <= kt.file,
            step == -1 ==> kt.file <= current.file <= kf.file && kt.file <= kf.file,
            step == 1 || step == -1,
            walk_safe(*board, color, kf, kt, st, true) == walk_safe(b, color, current, kt, st, current == kf),
        decreases file_gap(current, kt),
    {
        let ghost before = b;
        if current != kf {
            let previous = current.offset(-step, 0).unwrap();
            b.set_piece_unchecked(previous, None);
            b.set_piece_unchecked(current, Some(Piece::new(color, PieceKind::King)));
        }
        assert(b == if current == kf {
            before
        } else {
            before.with(Square { file: (current.file - st) as u8, rank: current.rank }, None).with(
                current,
                Some(Piece { color, kind: PieceKind::King }),
            )
        });
        let hit = is_square_attacked_on(&b, current, color.opposite());
        if hit {
            assert(!walk_safe(before, color, current, kt, st, current == kf));
            return false;
        }
        if current == kt {
            assert(walk_safe(before, color, current, kt, st, current == kf));
            return true;
        }
        assert(walk_safe(before, color, current, kt, st, current == kf) == walk_safe(
            b,
            color,
            Square { file: (current.file + st) as u8, rank: current.rank },
            kt,
            st,
            false,
        ));
        let next = current.offset(step, 0).unwrap();
        assert(next == Square { file: (current.file + st) as u8, rank: current.rank });
        current = next;
    }
}

fn files_between_clear(board: &Board, route: CastleRoute) -> (r: bool)
    requires
        board.wf(),
        board.dims().holds(route.king_from),
        board.dims().holds(route.rook_from),
    ensures
        r == between_clear(*board, route),
{
    let kf = route.king_from.file;
    let rf = route.rook_from.file;
    let low: u8 = (if kf < rf { kf } else { rf }) + 1;
    let high: u8 = if kf < rf { rf } else { kf };
    let mut file: u8 = low;
    while file < high
        invariant
            board.wf(),
            low <= file,
            high < 10,
            low == (if route.king_from.file < route.rook_from.file { route.king_from.file } else { route.rook_from.file }) + 1,
            high == (if route.king_from.file < route.rook_from.file { route.rook_from.file } else { route.king_from.file }),
            forall|f: int| low <= f < file ==> (#[trigger] board.at(Square { file: f as u8, rank: route.king_from.rank })) is None,
        decreases high - file,
    {
        if board.piece_at(Square::new(file, route.king_from.rank)).is_some() {
            assert(board.at(Square { file: (file as int) as u8, rank: route.king_from.rank }) is Some);
            return false;
        }
        file += 1;
    }
    true
}

fn can_castle(pos: &Position, color: Color, side: CastleSide, king_square: Square) -> (r: bool)
    requires
        pos.wf(),
    ensures
        r == can_castle_spec(*pos, color, side, king_square),
{
    if !pos.castling_rights().has(color, side) {
        return false;
    }
    let route = match pos.rules().castling().route(color, side) {
        Some(route) => route,
        None => return false,
    };
    proof {
        pos.rules_spec().lemma_valid_parts(color, side);
    }
    let board = pos.board();
    if route.king_from != king_square || !is_piece(board.piece_at(route.king_from), color, PieceKind::King)
        || !is_piece(board.piece_at(route.rook_from), color, PieceKind::Rook) {
        return false;
    }
    if !files_between_clear(board, route) {
        return false;
    }
    if route.king_to != route.king_from && route.king_to != route.rook_from && board.piece_at(route.king_to).is_some() {
        return false;
    }
    if route.rook_to != route.king_from && route.rook_to != route.rook_from && board.piece_at(route.rook_to).is_some() {
        return false;
    }
    king_castling_path_is_safe(board, color, route)
}

fn generate_king_moves(pos: &Position, from: Square, color: Color, moves: &mut Vec<Move>)
    requires
        mover_ok(*pos, from, color),
    ensures
        final(moves)@ == old(moves)@ + king_moves(*pos, from, color),
        sound_from(*pos, final(moves)@, old(moves)@.len() as int),
{
    let ghost start = moves@;
    generate_offsets(pos, from, color, king_offsets_exec(), Ghost(king_offsets()), moves);
    let ghost after_steps = moves@;
    if can_castle(pos, color, CastleSide::QueenSide, from) {
        let route = pos.rules().castling().route(color, CastleSide::QueenSide).unwrap();
        proof {
            pos.rules_spec().lemma_valid_parts(color, CastleSide::QueenSide);
        }
        moves.push(Move { from, to: route.king_to, promotion: None, kind: MoveKind::Castle(CastleSide::QueenSide) });
    }
    assert(moves@ =~= after_steps + castle_move(*pos, from, color, CastleSide::QueenSide));
    let ghost after_queen = moves@;
    if can_castle(pos, color, CastleSide::KingSide, from) {
        let route = pos.rules().castling().route(color, CastleSide::KingSide).unwrap();
        proof {
            pos.rules_spec().lemma_valid_parts(color, CastleSide::KingSide);
        }
        moves.push(Move { from, to: route.king_to, promotion: None, kind: MoveKind::Castle(CastleSide::KingSide) });
    }
    assert(moves@ =~= after_queen + castle_move(*pos, from, color, CastleSide::KingSide));
    assert(moves@ =~= start + king_moves(*pos, from, color));
}

proof fn lemma_unit_dirs()
    ensures
        forall|i: int| 0 <= i < 4 ==> unit_step((#[trigger] orthogonal()[i]).0, orthogonal()[i].1),
        forall|i: int| 0 <= i < 4 ==> unit_step((#[trigger] diagonal()[i]).0, diagonal()[i].1),
{
}

fn generate_piece_moves(pos: &Position, from: Square, piece: Piece, moves: &mut Vec<Move>)
    requires
        mover_ok(*pos, from, piece.color),
        pos.board_spec().at(from) == Some(piece),
    ensures
        final(moves)@ == old(moves)@ + piece_moves(*pos, from, piece),
        sound_from(*pos, final(moves)@, old(moves)@.len() as int),
{
    proof {
        lemma_unit_dirs();
    }
    let ghost start = moves@;
    let c = piece.color;
    match piece.kind {
        PieceKind::Pawn => generate_pawn_moves(pos, from, c, moves),
        PieceKind::Knight => generate_offsets(pos, from, c, knight_offsets_exec(), Ghost(knight_offsets()), moves),
        PieceKind::Bishop => generate_slides(pos, from, c, diagonal_exec(), Ghost(diagonal()), moves),
        PieceKind::Rook => generate_slides(pos, from, c, orthogonal_exec(), Ghost(orthogonal()), moves),
        PieceKind::Queen => {
            generate_slides(pos, from, c, orthogonal_exec(), Ghost(orthogonal()), moves);
            generate_slides(pos, from, c, diagonal_exec(), Ghost(diagonal()), moves);
        },
        PieceKind::King => generate_king_moves(pos, from, c, moves),
        PieceKind::Archbishop => {
            generate_slides(pos, from, c, diagonal_exec(), Ghost(diagonal()), moves);
            generate_offsets(pos, from, c, knight_offsets_exec(), Ghost(knight_offsets()), moves);
        },
        PieceKind::Chancellor => {
            generate_slides(pos, from, c, orthogonal_exec(), Ghost(orthogonal()), moves);
            generate_offsets(pos, from, c, knight_offsets_exec(), Ghost(knight_offsets()), moves);
        },
    }
    assert(moves@ =~= start + piece_moves(*pos, from, piece));
}

/// Whether every entry of an occupied-square list is on the board and holds
/// the listed piece.
pub open spec fn list_matches(b: Board, list: Seq<(Square, Piece)>) -> bool {
    forall|i: int| 0 <= i < list.len() ==> b.dims().holds((#[trigger] list[i]).0) && b.at(list[i].0) == Some(list[i].1)
}

proof fn lemma_occupied_matches(b: Board, sqs: Seq<Square>)
    requires
        forall|i: int| 0 <= i < sqs.len() ==> b.dims().holds(#[trigger] sqs[i]),
    ensures
        list_matches(b, occupied(b, sqs)),
    decreases sqs.len(),
{
    if sqs.len() > 0 {
        lemma_occupied_matches(b, sqs.drop_last());
    }
}

proof fn lemma_squares_before_on_board(files: nat, ranks: nat, r: nat, f: nat)
    requires
        r <= ranks,
        f <= files,
        r == ranks ==> f == 0,
        files <= 10,
        ranks <= 10,
    ensures
        forall|i: int| 0 <= i < crate::board::squares_before(files, r, f).len()
            ==> (#[trigger] crate::board::squares_before(files, r, f)[i]).file < files
                && crate::board::squares_before(files, r, f)[i].rank < ranks,
    decreases r, f,
{
    let sq = crate::board::squares_before(files, r, f);
    if f == 0 {
        if r > 0 {
            lemma_squares_before_on_board(files, ranks, (r - 1) as nat, files);
            assert(sq == crate::board::squares_before(files, (r - 1) as nat, files));
        }
    } else {
        lemma_squares_before_on_board(files, ranks, r, (f - 1) as nat);
        let prev = crate::board::squares_before(files, r, (f - 1) as nat);
        assert(sq == prev.push(Square { file: (f - 1) as u8, rank: r as u8 }));
        assert forall|i: int| 0 <= i < sq.len() implies (#[trigger] sq[i]).file < files && sq[i].rank < ranks by {
            if i < prev.len() {
                assert(sq[i] == prev[i]);
            }
        }
    }
}

/// Every move of `ms` starts and ends on the board.
pub open spec fn on_board(b: Board, ms: Seq<Move>) -> bool {
    forall|i: int| 0 <= i < ms.len() ==> b.dims().holds((#[trigger] ms[i]).from) && b.dims().holds(ms[i].to)
}

proof fn lemma_on_board_concat(b: Board, x: Seq<Move>, y: Seq<Move>)
    requires
        on_board(b, x),
        on_board(b, y),
    ensures
        on_board(b, x + y),
{
    assert forall|i: int| 0 <= i < (x + y).len() implies b.dims().holds((#[trigger] (x + y)[i]).from) && b.dims().holds(
        (x + y)[i].to,
    ) by {
        if i < x.len() {
            assert((x + y)[i] == x[i]);
        } else {
            assert((x + y)[i] == y[i - x.len()]);
        }
    }
}

/// Every move of `ms` starts on `from`.
pub open spec fn starts_on(ms: Seq<Move>, from: Square) -> bool {
    forall|i: int| 0 <= i < ms.len() ==> (#[trigger] ms[i]).from == from
}

/// Every move of `ms` starts on a piece of the side to move.
pub open spec fn movers_present(pos: Position, ms: Seq<Move>) -> bool {
    forall|i: int|
        0 <= i < ms.len() ==> (pos.board_spec().at((#[trigger] ms[i]).from) matches Some(p) && p.color == pos.side_spec())
}

proof fn lemma_starts_on_concat(x: Seq<Move>, y: Seq<Move>, from: Square)
    requires
        starts_on(x, from),
        starts_on(y, from),
    ensures
        starts_on(x + y, from),
{
    assert forall|i: int| 0 <= i < (x + y).len() implies (#[trigger] (x + y)[i]).from == from by {
        if i < x.len() {
            assert((x + y)[i] == x[i]);
        } else {
            assert((x + y)[i] == y[i - x.len()]);
        }
    }
}

proof fn lemma_movers_present_concat(pos: Position, x: Seq<Move>, y: Seq<Move>)
    requires
        movers_present(pos, x),
        movers_present(pos, y),
    ensures
        movers_present(pos, x + y),
{
    assert forall|i: int| 0 <= i < (x + y).len() implies (pos.board_spec().at((#[trigger] (x + y)[i]).from) matches Some(p)
        && p.color == pos.side_spec()) by {
        if i < x.len() {
            assert((x + y)[i] == x[i]);
        } else {
            assert((x + y)[i] == y[i - x.len()]);
        }
    }
}

proof fn lemma_leaps_on_board(b: Board, from: Square, color: Color, offs: Seq<(int, int)>)
    requires
        b.dims().holds(from),
    ensures
        on_board(b, leap_moves(b, from, color, offs)),
        starts_on(leap_moves(b, from, color, offs), from),
    decreases offs.len(),
{
    if offs.len() > 0 {
        lemma_leaps_on_board(b, from, color, offs.drop_last());
        let tail = match step_on(b, from, offs.last().0, offs.last().1) {
            Some(to) => step_moves(b, from, to, color),
            None => Seq::empty(),
        };
        lemma_on_board_concat(b, leap_moves(b, from, color, offs.drop_last()), tail);
        lemma_starts_on_concat(leap_moves(b, from, color, offs.drop_last()), tail, from);
    }
}

proof fn lemma_ray_on_board(b: Board, from: Square, color: Color, cur: Square, df: int, dr: int)
    requires
        b.dims().holds(from),
    ensures
        on_board(b, ray(b, from, color, cur, df, dr)),
        starts_on(ray(b, from, color, cur, df, dr), from),
    decreases edge_measure(cur, df, dr),
{
    if unit_step(df, dr) && b.dims().valid() {
        match step_on(b, cur, df, dr) {
            Some(to) => {
                if b.at(to) is None {
                    lemma_ray_on_board(b, from, color, to, df, dr);
                    lemma_on_board_concat(b, seq![plain(from, to)], ray(b, from, color, to, df, dr));
                    lemma_starts_on_concat(seq![plain(from, to)], ray(b, from, color, to, df, dr), from);
                }
            },
            None => {},
        }
    }
}

proof fn lemma_slides_on_board(b: Board, from: Square, color: Color, dirs: Seq<(int, int)>)
    requires
        b.dims().holds(from),
    ensures
        on_board(b, slide_moves(b, from, color, dirs)),
        starts_on(slide_moves(b, from, color, dirs), from),
    decreases dirs.len(),
{
    if dirs.len() > 0 {
        lemma_slides_on_board(b, from, color, dirs.drop_last());
        lemma_ray_on_board(b, from, color, from, dirs.last().0, dirs.last().1);
        lemma_on_board_concat(
            b,
            slide_moves(b, from, color, dirs.drop_last()),
            ray(b, from, color, from, dirs.last().0, dirs.last().1),
        );
        lemma_starts_on_concat(
            slide_moves(b, from, color, dirs.drop_last()),
            ray(b, from, color, from, dirs.last().0, dirs.last().1),
            from,
        );
    }
}

proof fn lemma_arrivals_on_board(b: Board, rules: VariantRules, from: Square, to: Square, color: Color, kind: MoveKind)
    requires
        b.dims().holds(from),
        b.dims().holds(to),
    ensures
        on_board(b, pawn_arrivals(b, rules, from, to, color, kind)),
        starts_on(pawn_arrivals(b, rules, from, to, color, kind), from),
{
    let choices_all = match rules.promotion_spec() {
        PromotionRule::LastRank { choices } => choices@,
        PromotionRule::Grand => grand_choices(b, rules, color),
    };
    let promoted = with_promotion(from, to, kind, choices_all);
    assert(on_board(b, promoted));
    let plain_move = Move { from, to, promotion: None, kind };
    assert(on_board(b, seq![plain_move]));
    assert(on_board(b, Seq::<Move>::empty()));
    lemma_on_board_concat(b, seq![plain_move], promoted);
    lemma_on_board_concat(b, Seq::<Move>::empty(), promoted);
    assert(starts_on(promoted, from));
    assert(starts_on(seq![plain_move], from));
    assert(starts_on(Seq::<Move>::empty(), from));
    lemma_starts_on_concat(seq![plain_move], promoted, from);
    lemma_starts_on_concat(Seq::<Move>::empty(), promoted, from);
}

proof fn lemma_pawn_on_board(pos: Position, from: Square, color: Color)
    requires
        pos.wf(),
        pos.board_spec().dims().holds(from),
    ensures
        on_board(pos.board_spec(), pawn_moves(pos, from, color)),
        starts_on(pawn_moves(pos, from, color), from),
{
    let b = pos.board_spec();
    let rules = pos.rules_spec();
    let dir = color.direction();
    let pushes = pawn_pushes(pos, from, color);
    match step_on(b, from, 0, dir) {
        Some(one) => {
            lemma_arrivals_on_board(b, rules, from, one, color, MoveKind::Normal);
            let second = if from.rank == rules.pawn_rank_spec(color) {
                match step_on(b, from, 0, 2 * dir) {
                    Some(two) => if b.at(two) is None {
                        seq![plain(from, two)]
                    } else {
                        Seq::empty()
                    },
                    None => Seq::empty(),
                }
            } else {
                Seq::empty()
            };
            assert(on_board(b, second));
            assert(starts_on(second, from));
            lemma_on_board_concat(b, pawn_arrivals(b, rules, from, one, color, MoveKind::Normal), second);
            lemma_starts_on_concat(pawn_arrivals(b, rules, from, one, color, MoveKind::Normal), second, from);
        },
        None => {},
    }
    assert(on_board(b, pushes));
    assert(starts_on(pushes, from));
    assert forall|df: int| df == -1 || df == 1 implies on_board(b, #[trigger] pawn_capture(pos, from, color, df))
        && starts_on(pawn_capture(pos, from, color, df), from) by {
        match step_on(b, from, df, dir) {
            Some(to) => {
                lemma_arrivals_on_board(b, rules, from, to, color, MoveKind::Normal);
                lemma_arrivals_on_board(b, rules, from, to, color, MoveKind::EnPassant);
            },
            None => {},
        }
    }
    lemma_on_board_concat(b, pushes, pawn_capture(pos, from, color, -1));
    lemma_on_board_concat(b, pushes + pawn_capture(pos, from, color, -1), pawn_capture(pos, from, color, 1));
    lemma_starts_on_concat(pushes, pawn_capture(pos, from, color, -1), from);
    lemma_starts_on_concat(pushes + pawn_capture(pos, from, color, -1), pawn_capture(pos, from, color, 1), from);
}

proof fn lemma_king_on_board(pos: Position, from: Square, color: Color)
    requires
        pos.wf(),
        pos.board_spec().dims().holds(from),
    ensures
        on_board(pos.board_spec(), king_moves(pos, from, color)),
        starts_on(king_moves(pos, from, color), from),
{
    let b = pos.board_spec();
    lemma_leaps_on_board(b, from, color, king_offsets());
    assert forall|side: CastleSide| #![auto] on_board(b, castle_move(pos, from, color, side)) && starts_on(
        castle_move(pos, from, color, side),
        from,
    ) by {
        pos.rules_spec().lemma_valid_parts(color, side);
    }
    lemma_on_board_concat(b, leap_moves(b, from, color, king_offsets()), castle_move(pos, from, color, CastleSide::QueenSide));
    lemma_on_board_concat(
        b,
        leap_moves(b, from, color, king_offsets()) + castle_move(pos, from, color, CastleSide::QueenSide),
        castle_move(pos, from, color, CastleSide::KingSide),
    );
    lemma_starts_on_concat(leap_moves(b, from, color, king_offsets()), castle_move(pos, from, color, CastleSide::QueenSide), from);
    lemma_starts_on_concat(
        leap_moves(b, from, color, king_offsets()) + castle_move(pos, from, color, CastleSide::QueenSide),
        castle_move(pos, from, color, CastleSide::KingSide),
        from,
    );
}

proof fn lemma_piece_on_board(pos: Position, from: Square, piece: Piece)
    requires
        pos.wf(),
        pos.board_spec().dims().holds(from),
    ensures
        on_board(pos.board_spec(), piece_moves(pos, from, piece)),
        starts_on(piece_moves(pos, from, piece), from),
{
    let b = pos.board_spec();
    let c = piece.color;
    lemma_slides_on_board(b, from, c, orthogonal());
    lemma_slides_on_board(b, from, c, diagonal());
    lemma_leaps_on_board(b, from, c, knight_offsets());
    lemma_pawn_on_board(pos, from, c);
    lemma_king_on_board(pos, from, c);
    lemma_on_board_concat(b, slide_moves(b, from, c, orthogonal()), slide_moves(b, from, c, diagonal()));
    lemma_on_board_concat(b, slide_moves(b, from, c, diagonal()), leap_moves(b, from, c, knight_offsets()));
    lemma_on_board_concat(b, slide_moves(b, from, c, orthogonal()), leap_moves(b, from, c, knight_offsets()));
    lemma_starts_on_concat(slide_moves(b, from, c, orthogonal()), slide_moves(b, from, c, diagonal()), from);
    lemma_starts_on_concat(slide_moves(b, from, c, diagonal()), leap_moves(b, from, c, knight_offsets()), from);
    lemma_starts_on_concat(slide_moves(b, from, c, orthogonal()), leap_moves(b, from, c, knight_offsets()), from);
}

proof fn lemma_pieces_on_board(pos: Position, list: Seq<(Square, Piece)>)
    requires
        pos.wf(),
        list_matches(pos.board_spec(), list),
    ensures
        on_board(pos.board_spec(), moves_of_pieces(pos, list)),
        movers_present(pos, moves_of_pieces(pos, list)),
    decreases list.len(),
{
    if list.len() > 0 {
        let rest = list.drop_last();
        assert(list_matches(pos.board_spec(), rest)) by {
            assert forall|i: int| 0 <= i < rest.len() implies pos.board_spec().dims().holds((#[trigger] rest[i]).0)
                && pos.board_spec().at(rest[i].0) == Some(rest[i].1) by {
                assert(rest[i] == list[i]);
            }
        }
        lemma_pieces_on_board(pos, rest);
        assert(list.last() == list[list.len() - 1]);
        lemma_piece_on_board(pos, list.last().0, list.last().1);
        assert(on_board(pos.board_spec(), Seq::<Move>::empty()));
        let tail = if list.last().1.color == pos.side_spec() {
            piece_moves(pos, list.last().0, list.last().1)
        } else {
            Seq::empty()
        };
        lemma_on_board_concat(pos.board_spec(), moves_of_pieces(pos, rest), tail);
        assert(movers_present(pos, tail));
        lemma_movers_present_concat(pos, moves_of_pieces(pos, rest), tail);
    }
}

/// Every generated move starts and ends on the board, and starts on a piece
/// of the side to move.
pub proof fn lemma_pseudo_moves_on_board(pos: Position)
    requires
        pos.wf(),
    ensures
        on_board(pos.board_spec(), pseudo_moves(pos)),
        movers_present(pos, pseudo_moves(pos)),
{
    let b = pos.board_spec();
    let w = b.dims().width() as nat;
    let h = b.dims().height() as nat;
    lemma_squares_before_on_board(w, h, h, 0);
    let sqs = all_squares(b.dims());
    assert forall|i: int| 0 <= i < sqs.len() implies b.dims().holds(#[trigger] sqs[i]) by {
        assert(sqs[i].file < w && sqs[i].rank < h);
    }
    lemma_occupied_matches(b, sqs);
    lemma_pieces_on_board(pos, occupied(b, sqs));
}

/// Whether a king of either color stands on `sq`.
pub open spec fn king_at(b: Board, sq: Square) -> bool {
    b.at(sq) matches Some(p) && p.kind == PieceKind::King
}

/// No ordinary move of `ms` lands on a king, and none is an en passant
/// capture unless `pawn` holds.
pub open spec fn fair(b: Board, ms: Seq<Move>, pawn: bool) -> bool {
    forall|i: int|
        0 <= i < ms.len() ==> ((#[trigger] ms[i]).kind == MoveKind::EnPassant ==> pawn) && (ms[i].kind
            == MoveKind::Normal ==> !king_at(b, ms[i].to))
}

/// No ordinary move of `ms` lands on a king, and every en passant capture is
/// made by a pawn.
pub open spec fn tame(pos: Position, ms: Seq<Move>) -> bool {
    forall|i: int|
        0 <= i < ms.len() ==> ((#[trigger] ms[i]).kind == MoveKind::EnPassant ==> (pos.board_spec().at(ms[i].from) matches Some(
            p,
        ) && p.kind == PieceKind::Pawn)) && (ms[i].kind == MoveKind::Normal ==> !king_at(pos.board_spec(), ms[i].to))
}

proof fn lemma_fair_concat(b: Board, x: Seq<Move>, y: Seq<Move>, pawn: bool)
    requires
        fair(b, x, pawn),
        fair(b, y, pawn),
    ensures
        fair(b, x + y, pawn),
{
    assert forall|i: int| 0 <= i < (x + y).len() implies ((#[trigger] (x + y)[i]).kind == MoveKind::EnPassant ==> pawn)
        && ((x + y)[i].kind == MoveKind::Normal ==> !king_at(b, (x + y)[i].to)) by {
        if i < x.len() {
            assert((x + y)[i] == x[i]);
        } else {
            assert((x + y)[i] == y[i - x.len()]);
        }
    }
}

proof fn lemma_tame_concat(pos: Position, x: Seq<Move>, y: Seq<Move>)
    requires
        tame(pos, x),
        tame(pos, y),
    ensures
        tame(pos, x + y),
{
    assert forall|i: int| 0 <= i < (x + y).len() implies ((#[trigger] (x + y)[i]).kind == MoveKind::EnPassant ==> (
    pos.board_spec().at((x + y)[i].from) matches Some(p) && p.kind == PieceKind::Pawn)) && ((x + y)[i].kind
        == MoveKind::Normal ==> !king_at(pos.board_spec(), (x + y)[i].to)) by {
        if i < x.len() {
            assert((x + y)[i] == x[i]);
        } else {
            assert((x + y)[i] == y[i - x.len()]);
        }
    }
}

proof fn lemma_leaps_fair(b: Board, from: Square, color: Color, offs: Seq<(int, int)>)
    ensures
        fair(b, leap_moves(b, from, color, offs), false),
    decreases offs.len(),
{
    if offs.len() > 0 {
        lemma_leaps_fair(b, from, color, offs.drop_last());
        let tail = match step_on(b, from, offs.last().0, offs.last().1) {
            Some(to) => step_moves(b, from, to, color),
            None => Seq::empty(),
        };
        assert(fair(b, tail, false));
        lemma_fair_concat(b, leap_moves(b, from, color, offs.drop_last()), tail, false);
    }
}

proof fn lemma_ray_fair(b: Board, from: Square, color: Color, cur: Square, df: int, dr: int)
    ensures
        fair(b, ray(b, from, color, cur, df, dr), false),
    decreases edge_measure(cur, df, dr),
{
    if unit_step(df, dr) && b.dims().valid() {
        match step_on(b, cur, df, dr) {
            Some(to) => {
                if b.at(to) is None {
                    lemma_ray_fair(b, from, color, to, df, dr);
                    assert(fair(b, seq![plain(from, to)], false));
                    lemma_fair_concat(b, seq![plain(from, to)], ray(b, from, color, to, df, dr), false);
                } else {
                    assert(fair(b, ray(b, from, color, cur, df, dr), false));
                }
            },
            None => {},
        }
    }
}

proof fn lemma_slides_fair(b: Board, from: Square, color: Color, dirs: Seq<(int, int)>)
    ensures
        fair(b, slide_moves(b, from, color, dirs), false),
    decreases dirs.len(),
{
    if dirs.len() > 0 {
        lemma_slides_fair(b, from, color, dirs.drop_last());
        lemma_ray_fair(b, from, color, from, dirs.last().0, dirs.last().1);
        lemma_fair_concat(
            b,
            slide_moves(b, from, color, dirs.drop_last()),
            ray(b, from, color, from, dirs.last().0, dirs.last().1),
            false,
        );
    }
}

proof fn lemma_arrivals_fair(b: Board, rules: VariantRules, from: Square, to: Square, color: Color, kind: MoveKind)
    requires
        kind == MoveKind::EnPassant || (kind == MoveKind::Normal && !king_at(b, to)),
    ensures
        fair(b, pawn_arrivals(b, rules, from, to, color, kind), true),
{
    let choices_all = match rules.promotion_spec() {
        PromotionRule::LastRank { choices } => choices@,
        PromotionRule::Grand => grand_choices(b, rules, color),
    };
    let promoted = with_promotion(from, to, kind, choices_all);
    assert(fair(b, promoted, true));
    let plain_move = Move { from, to, promotion: None, kind };
    assert(fair(b, seq![plain_move], true));
    assert(fair(b, Seq::<Move>::empty(), true));
    lemma_fair_concat(b, seq![plain_move], promoted, true);
    lemma_fair_concat(b, Seq::<Move>::empty(), promoted, true);
}

proof fn lemma_pawn_fair(pos: Position, from: Square, color: Color)
    ensures
        fair(pos.board_spec(), pawn_moves(pos, from, color), true),
{
    let b = pos.board_spec();
    let rules = pos.rules_spec();
    let dir = color.direction();
    let pushes = pawn_pushes(pos, from, color);
    match step_on(b, from, 0, dir) {
        Some(one) => {
            if b.at(one) is None {
                lemma_arrivals_fair(b, rules, from, one, color, MoveKind::Normal);
                let second = if from.rank == rules.pawn_rank_spec(color) {
                    match step_on(b, from, 0, 2 * dir) {
                        Some(two) => if b.at(two) is None {
                            seq![plain(from, two)]
                        } else {
                            Seq::empty()
                        },
                        None => Seq::empty(),
                    }
                } else {
                    Seq::empty()
                };
                assert(fair(b, second, true));
                lemma_fair_concat(b, pawn_arrivals(b, rules, from, one, color, MoveKind::Normal), second, true);
            }
        },
        None => {},
    }
    assert(fair(b, pushes, true));
    assert forall|df: int| df == -1 || df == 1 implies fair(b, #[trigger] pawn_capture(pos, from, color, df), true) by {
        match step_on(b, from, df, dir) {
            Some(to) => {
                if b.at(to) matches Some(p) && p.color != color && p.kind != PieceKind::King {
                    lemma_arrivals_fair(b, rules, from, to, color, MoveKind::Normal);
                } else {
                    lemma_arrivals_fair(b, rules, from, to, color, MoveKind::EnPassant);
                }
            },
            None => {},
        }
    }
    lemma_fair_concat(b, pushes, pawn_capture(pos, from, color, -1), true);
    lemma_fair_concat(b, pushes + pawn_capture(pos, from, color, -1), pawn_capture(pos, from, color, 1), true);
}

proof fn lemma_king_fair(pos: Position, from: Square, color: Color)
    ensures
        fair(pos.board_spec(), king_moves(pos, from, color), false),
{
    let b = pos.board_spec();
    lemma_leaps_fair(b, from, color, king_offsets());
    assert forall|side: CastleSide| #![auto] fair(b, castle_move(pos, from, color, side), false) by {}
    lemma_fair_concat(b, leap_moves(b, from, color, king_offsets()), castle_move(pos, from, color, CastleSide::QueenSide), false);
    lemma_fair_concat(
        b,
        leap_moves(b, from, color, king_offsets()) + castle_move(pos, from, color, CastleSide::QueenSide),
        castle_move(pos, from, color, CastleSide::KingSide),
        false,
    );
}

proof fn lemma_piece_fair(pos: Position, from: Square, piece: Piece)
    ensures
        fair(pos.board_spec(), piece_moves(pos, from, piece), piece.kind == PieceKind::Pawn),
{
    let b = pos.board_spec();
    let c = piece.color;
    lemma_slides_fair(b, from, c, orthogonal());
    lemma_slides_fair(b, from, c, diagonal());
    lemma_leaps_fair(b, from, c, knight_offsets());
    lemma_pawn_fair(pos, from, c);
    lemma_king_fair(pos, from, c);
    lemma_fair_concat(b, slide_moves(b, from, c, orthogonal()), slide_moves(b, from, c, diagonal()), false);
    lemma_fair_concat(b, slide_moves(b, from, c, diagonal()), leap_moves(b, from, c, knight_offsets()), false);
    lemma_fair_concat(b, slide_moves(b, from, c, orthogonal()), leap_moves(b, from, c, knight_offsets()), false);
}

proof fn lemma_pieces_tame(pos: Position, list: Seq<(Square, Piece)>)
    requires
        pos.wf(),
        list_matches(pos.board_spec(), list),
    ensures
        tame(pos, moves_of_pieces(pos, list)),
    decreases list.len(),
{
    if list.len() > 0 {
        let rest = list.drop_last();
        assert(list_matches(pos.board_spec(), rest)) by {
            assert forall|i: int| 0 <= i < rest.len() implies pos.board_spec().dims().holds((#[trigger] rest[i]).0)
                && pos.board_spec().at(rest[i].0) == Some(rest[i].1) by {
                assert(rest[i] == list[i]);
            }
        }
        lemma_pieces_tame(pos, rest);
        assert(list.last() == list[list.len() - 1]);
        let sq = list.last().0;
        let piece = list.last().1;
        let tail = if piece.color == pos.side_spec() {
            piece_moves(pos, sq, piece)
        } else {
            Seq::empty()
        };
        if piece.color == pos.side_spec() {
            lemma_piece_on_board(pos, sq, piece);
            lemma_piece_fair(pos, sq, piece);
            assert forall|i: int| 0 <= i < tail.len() implies ((#[trigger] tail[i]).kind == MoveKind::EnPassant ==> (
            pos.board_spec().at(tail[i].from) matches Some(p) && p.kind == PieceKind::Pawn)) && (tail[i].kind
                == MoveKind::Normal ==> !king_at(pos.board_spec(), tail[i].to)) by {
                assert(tail[i].from == sq);
            }
        }
        assert(tame(pos, tail));
        lemma_tame_concat(pos, moves_of_pieces(pos, rest), tail);
    }
}

/// No generated move that is not castling or en passant lands on a king,
/// and every generated en passant capture is made by a pawn.
pub proof fn lemma_pseudo_moves_tame(pos: Position)
    requires
        pos.wf(),
    ensures
        tame(pos, pseudo_moves(pos)),
{
    let b = pos.board_spec();
    let w = b.dims().width() as nat;
    let h = b.dims().height() as nat;
    lemma_squares_before_on_board(w, h, h, 0);
    let sqs = all_squares(b.dims());
    assert forall|i: int| 0 <= i < sqs.len() implies b.dims().holds(#[trigger] sqs[i]) by {
        assert(sqs[i].file < w && sqs[i].rank < h);
    }
    lemma_occupied_matches(b, sqs);
    lemma_pieces_tame(pos, occupied(b, sqs));
}

/// Whether a pawn stands on `sq`.
pub open spec fn pawn_at(b: Board, sq: Square) -> bool {
    b.at(sq) matches Some(p) && p.kind == PieceKind::Pawn
}

/// A move that promotes only a pawn and never to a king; whose en passant
/// capture is a diagonal step beside an opposing pawn; whose pawn double
/// step goes straight over an empty square; and whose castling fits a route
/// of the side to move.
pub open spec fn orderly(pos: Position, m: Move) -> bool {
    let b = pos.board_spec();
    &&& (m.promotion matches Some(k) ==> k != PieceKind::King && pawn_at(b, m.from))
    &&& (m.kind == MoveKind::EnPassant ==> en_passant_fits(pos, m.from, m.to))
    &&& (pawn_at(b, m.from) && (m.from.rank - m.to.rank == 2 || m.to.rank - m.from.rank == 2) ==> (m.kind
        == MoveKind::Normal && double_step_fits(pos, m.from, m.to)))
    &&& (m.kind matches MoveKind::Castle(s) ==> castle_fits(pos, m, s))
}

/// An en passant capture from `from` to `to`: a diagonal step onto the en
/// passant square, with an opposing pawn beside `from` on the file of `to`.
pub open spec fn en_passant_fits(pos: Position, from: Square, to: Square) -> bool {
    &&& pos.ep_spec() == Some(to)
    &&& to.rank != from.rank
    &&& to.file != from.file
    &&& pos.board_spec().at(Square { file: to.file, rank: from.rank }) == Some(
        Piece { color: pos.side_spec().other(), kind: PieceKind::Pawn },
    )
}

/// A double step from `from` to `to`: straight ahead over an empty square.
pub open spec fn double_step_fits(pos: Position, from: Square, to: Square) -> bool {
    &&& to.file == from.file
    &&& pos.board_spec().at(Square { file: from.file, rank: ((from.rank + to.rank) / 2) as u8 }) is None
}

/// A castling move on `side` that starts from the side to move's king on the
/// start of its route, ends on the route's king destination, finds the
/// route's rook in place and the destinations clear, and ends on no king
/// unless the route leaves the king where it stands.
pub open spec fn castle_fits(pos: Position, m: Move, side: CastleSide) -> bool {
    let b = pos.board_spec();
    &&& pos.rules_spec().castling_spec().route_of(pos.side_spec(), side) matches Some(rt)
    &&& rt.king_from == m.from
    &&& rt.king_to == m.to
    &&& b.at(m.from) == Some(Piece { color: pos.side_spec(), kind: PieceKind::King })
    &&& b.at(rt.rook_from) == Some(Piece { color: pos.side_spec(), kind: PieceKind::Rook })
    &&& destinations_clear(b, rt)
    &&& (m.to == m.from || !king_at(b, m.to))
}

pub open spec fn all_orderly(pos: Position, ms: Seq<Move>) -> bool {
    forall|i: int| 0 <= i < ms.len() ==> orderly(pos, #[trigger] ms[i])
}

proof fn lemma_orderly_concat(pos: Position, x: Seq<Move>, y: Seq<Move>)
    requires
        all_orderly(pos, x),
        all_orderly(pos, y),
    ensures
        all_orderly(pos, x + y),
{
    assert forall|i: int| 0 <= i < (x + y).len() implies orderly(pos, #[trigger] (x + y)[i]) by {
        if i < x.len() {
            assert((x + y)[i] == x[i]);
        } else {
            assert((x + y)[i] == y[i - x.len()]);
        }
    }
}

proof fn lemma_leaps_orderly(pos: Position, b: Board, from: Square, color: Color, offs: Seq<(int, int)>)
    requires
        !pawn_at(pos.board_spec(), from),
    ensures
        all_orderly(pos, leap_moves(b, from, color, offs)),
    decreases offs.len(),
{
    if offs.len() > 0 {
        lemma_leaps_orderly(pos, b, from, color, offs.drop_last());
        let tail = match step_on(b, from, offs.last().0, offs.last().1) {
            Some(to) => step_moves(b, from, to, color),
            None => Seq::empty(),
        };
        assert(all_orderly(pos, tail));
        lemma_orderly_concat(pos, leap_moves(b, from, color, offs.drop_last()), tail);
    }
}

proof fn lemma_ray_orderly(pos: Position, b: Board, from: Square, color: Color, cur: Square, df: int, dr: int)
    requires
        !pawn_at(pos.board_spec(), from),
    ensures
        all_orderly(pos, ray(b, from, color, cur, df, dr)),
    decreases edge_measure(cur, df, dr),
{
    if unit_step(df, dr) && b.dims().valid() {
        match step_on(b, cur, df, dr) {
            Some(to) => {
                if b.at(to) is None {
                    lemma_ray_orderly(pos, b, from, color, to, df, dr);
                    assert(all_orderly(pos, seq![plain(from, to)]));
                    lemma_orderly_concat(pos, seq![plain(from, to)], ray(b, from, color, to, df, dr));
                } else {
                    assert(all_orderly(pos, ray(b, from, color, cur, df, dr)));
                }
            },
            None => {},
        }
    }
}

proof fn lemma_slides_orderly(pos: Position, b: Board, from: Square, color: Color, dirs: Seq<(int, int)>)
    requires
        !pawn_at(pos.board_spec(), from),
    ensures
        all_orderly(pos, slide_moves(b, from, color, dirs)),
    decreases dirs.len(),
{
    if dirs.len() > 0 {
        lemma_slides_orderly(pos, b, from, color, dirs.drop_last());
        lemma_ray_orderly(pos, b, from, color, from, dirs.last().0, dirs.last().1);
        lemma_orderly_concat(
            pos,
            slide_moves(b, from, color, dirs.drop_last()),
            ray(b, from, color, from, dirs.last().0, dirs.last().1),
        );
    }
}

proof fn lemma_still_missing_from(b: Board, rules: VariantRules, color: Color, ks: Seq<PieceKind>)
    ensures
        forall|i: int|
            0 <= i < still_missing(b, rules, color, ks).len() ==> ks.contains(
                #[trigger] still_missing(b, rules, color, ks)[i],
            ),
    decreases ks.len(),
{
    if ks.len() > 0 {
        let rest = still_missing(b, rules, color, ks.drop_last());
        lemma_still_missing_from(b, rules, color, ks.drop_last());
        let sm = still_missing(b, rules, color, ks);
        assert forall|i: int| 0 <= i < sm.len() implies ks.contains(#[trigger] sm[i]) by {
            if i < rest.len() {
                assert(sm[i] == rest[i]);
                assert(ks.drop_last().contains(rest[i]));
                let k = choose|k: int| 0 <= k < ks.drop_last().len() && ks.drop_last()[k] == rest[i];
                assert(ks[k] == rest[i]);
            } else {
                assert(sm[i] == ks.last());
                assert(ks[ks.len() - 1] == ks.last());
            }
        }
    }
}

proof fn lemma_arrivals_orderly(
    pos: Position,
    b: Board,
    rules: VariantRules,
    from: Square,
    to: Square,
    color: Color,
    kind: MoveKind,
)
    requires
        promotion_ok(rules.promotion_spec()),
        pawn_at(pos.board_spec(), from),
        to.rank == from.rank + 1 || from.rank == to.rank + 1,
        kind == MoveKind::Normal || (kind == MoveKind::EnPassant && en_passant_fits(pos, from, to)),
    ensures
        all_orderly(pos, pawn_arrivals(b, rules, from, to, color, kind)),
{
    let plain_move = Move { from, to, promotion: None, kind };
    assert(all_orderly(pos, seq![plain_move]));
    assert(all_orderly(pos, Seq::<Move>::empty()));
    match rules.promotion_spec() {
        PromotionRule::LastRank { choices } => {
            let promoted = with_promotion(from, to, kind, choices@);
            assert forall|i: int| 0 <= i < promoted.len() implies orderly(pos, #[trigger] promoted[i]) by {
                assert(choices@[i] != PieceKind::King);
            }
        },
        PromotionRule::Grand => {
            let g = grand_choices(b, rules, color);
            let pp = promotion_pieces_spec();
            lemma_still_missing_from(b, rules, color, pp);
            assert(pp.len() == 6);
            assert(pp[0] != PieceKind::King && pp[1] != PieceKind::King && pp[2] != PieceKind::King && pp[3]
                != PieceKind::King && pp[4] != PieceKind::King && pp[5] != PieceKind::King);
            let promoted = with_promotion(from, to, kind, g);
            assert forall|i: int| 0 <= i < promoted.len() implies orderly(pos, #[trigger] promoted[i]) by {
                assert(pp.contains(g[i]));
                let k = choose|k: int| 0 <= k < pp.len() && pp[k] == g[i];
                assert(k == 0 || k == 1 || k == 2 || k == 3 || k == 4 || k == 5);
            }
            lemma_orderly_concat(pos, seq![plain_move], promoted);
            lemma_orderly_concat(pos, Seq::<Move>::empty(), promoted);
        },
    }
}

proof fn lemma_pawn_orderly(pos: Position, from: Square, color: Color)
    requires
        pos.wf(),
        color == pos.side_spec(),
        pos.board_spec().at(from) == Some(Piece { color, kind: PieceKind::Pawn }),
    ensures
        all_orderly(pos, pawn_moves(pos, from, color)),
{
    let b = pos.board_spec();
    let rules = pos.rules_spec();
    rules.lemma_valid_parts(color, CastleSide::KingSide);
    let dir = color.direction();
    let pushes = pawn_pushes(pos, from, color);
    match step_on(b, from, 0, dir) {
        Some(one) => {
            if b.at(one) is None {
                lemma_arrivals_orderly(pos, b, rules, from, one, color, MoveKind::Normal);
                let second = if from.rank == rules.pawn_rank_spec(color) {
                    match step_on(b, from, 0, 2 * dir) {
                        Some(two) => if b.at(two) is None {
                            seq![plain(from, two)]
                        } else {
                            Seq::empty()
                        },
                        None => Seq::empty(),
                    }
                } else {
                    Seq::empty()
                };
                assert(one.rank == from.rank + dir && one.file == from.file);
                match step_on(b, from, 0, 2 * dir) {
                    Some(two) => {
                        assert(two.rank == from.rank + 2 * dir && two.file == from.file);
                        assert((from.rank + two.rank) / 2 == from.rank + dir);
                        assert(Square { file: from.file, rank: ((from.rank + two.rank) / 2) as u8 } == one);
                    },
                    None => {},
                }
                assert(all_orderly(pos, second));
                lemma_orderly_concat(pos, pawn_arrivals(b, rules, from, one, color, MoveKind::Normal), second);
            }
        },
        None => {},
    }
    assert(all_orderly(pos, pushes));
    assert forall|df: int| df == -1 || df == 1 implies all_orderly(pos, #[trigger] pawn_capture(pos, from, color, df)) by {
        match step_on(b, from, df, dir) {
            Some(to) => {
                assert(to.rank == from.rank + dir && to.file == from.file + df);
                if b.at(to) matches Some(p) && p.color != color && p.kind != PieceKind::King {
                    lemma_arrivals_orderly(pos, b, rules, from, to, color, MoveKind::Normal);
                } else if pos.ep_spec() == Some(to) && b.at(Square { file: to.file, rank: from.rank }) == Some(
                    Piece { color: color.other(), kind: PieceKind::Pawn },
                ) {
                    lemma_arrivals_orderly(pos, b, rules, from, to, color, MoveKind::EnPassant);
                }
            },
            None => {},
        }
    }
    lemma_orderly_concat(pos, pushes, pawn_capture(pos, from, color, -1));
    lemma_orderly_concat(pos, pushes + pawn_capture(pos, from, color, -1), pawn_capture(pos, from, color, 1));
}

proof fn lemma_king_orderly(pos: Position, from: Square, color: Color)
    requires
        color == pos.side_spec(),
        !pawn_at(pos.board_spec(), from),
    ensures
        all_orderly(pos, king_moves(pos, from, color)),
{
    let b = pos.board_spec();
    lemma_leaps_orderly(pos, b, from, color, king_offsets());
    assert forall|side: CastleSide| #![auto] all_orderly(pos, castle_move(pos, from, color, side)) by {
        if can_castle_spec(pos, color, side, from) {
            let m = castle_move(pos, from, color, side)[0];
            assert(castle_fits(pos, m, side));
        }
    }
    lemma_orderly_concat(pos, leap_moves(b, from, color, king_offsets()), castle_move(pos, from, color, CastleSide::QueenSide));
    lemma_orderly_concat(
        pos,
        leap_moves(b, from, color, king_offsets()) + castle_move(pos, from, color, CastleSide::QueenSide),
        castle_move(pos, from, color, CastleSide::KingSide),
    );
}

proof fn lemma_piece_orderly(pos: Position, from: Square, piece: Piece)
    requires
        pos.wf(),
        piece.color == pos.side_spec(),
        pos.board_spec().at(from) == Some(piece),
    ensures
        all_orderly(pos, piece_moves(pos, from, piece)),
{
    let b = pos.board_spec();
    let c = piece.color;
    if piece.kind == PieceKind::Pawn {
        lemma_pawn_orderly(pos, from, c);
    } else {
        lemma_slides_orderly(pos, b, from, c, orthogonal());
        lemma_slides_orderly(pos, b, from, c, diagonal());
        lemma_leaps_orderly(pos, b, from, c, knight_offsets());
        lemma_king_orderly(pos, from, c);
        lemma_orderly_concat(pos, slide_moves(b, from, c, orthogonal()), slide_moves(b, from, c, diagonal()));
        lemma_orderly_concat(pos, slide_moves(b, from, c, diagonal()), leap_moves(b, from, c, knight_offsets()));
        lemma_orderly_concat(pos, slide_moves(b, from, c, orthogonal()), leap_moves(b, from, c, knight_offsets()));
    }
}

proof fn lemma_pieces_orderly(pos: Position, list: Seq<(Square, Piece)>)
    requires
        pos.wf(),
        list_matches(pos.board_spec(), list),
    ensures
        all_orderly(pos, moves_of_pieces(pos, list)),
    decreases list.len(),
{
    if list.len() > 0 {
        let rest = list.drop_last();
        assert(list_matches(pos.board_spec(), rest)) by {
            assert forall|i: int| 0 <= i < rest.len() implies pos.board_spec().dims().holds((#[trigger] rest[i]).0)
                && pos.board_spec().at(rest[i].0) == Some(rest[i].1) by {
                assert(rest[i] == list[i]);
            }
        }
        assert(list.last() == list[list.len() - 1]);
        lemma_pieces_orderly(pos, list.drop_last());
        let sq = list.last().0;
        let piece = list.last().1;
        let tail = if piece.color == pos.side_spec() {
            piece_moves(pos, sq, piece)
        } else {
            Seq::empty()
        };
        if piece.color == pos.side_spec() {
            lemma_piece_orderly(pos, sq, piece);
        }
        assert(all_orderly(pos, tail));
        lemma_orderly_concat(pos, moves_of_pieces(pos, list.drop_last()), tail);
    }
}

/// Every generated move is orderly: only pawns promote, never to a king; an
/// en passant capture is a diagonal step beside an opposing pawn; a pawn's
/// double step goes straight over an empty square; and a castling move fits
/// a route of the side to move.
pub proof fn lemma_pseudo_moves_orderly(pos: Position)
    requires
        pos.wf(),
    ensures
        all_orderly(pos, pseudo_moves(pos)),
{
    let b = pos.board_spec();
    let w = b.dims().width() as nat;
    let h = b.dims().height() as nat;
    lemma_squares_before_on_board(w, h, h, 0);
    let sqs = all_squares(b.dims());
    assert forall|i: int| 0 <= i < sqs.len() implies b.dims().holds(#[trigger] sqs[i]) by {
        assert(sqs[i].file < w && sqs[i].rank < h);
    }
    lemma_occupied_matches(b, sqs);
    lemma_pieces_orderly(pos, occupied(b, sqs));
}

proof fn lemma_contains_concat(x: Seq<Move>, y: Seq<Move>, e: Move)
    ensures
        x.contains(e) ==> (x + y).contains(e),
        y.contains(e) ==> (x + y).contains(e),
{
    if x.contains(e) {
        let k = choose|k: int| 0 <= k < x.len() && x[k] == e;
        assert((x + y)[k] == e);
    }
    if y.contains(e) {
        let k = choose|k: int| 0 <= k < y.len() && y[k] == e;
        assert((x + y)[x.len() + k] == e);
    }
}

proof fn lemma_occupied_contains(b: Board, sqs: Seq<Square>, sq: Square, p: Piece)
    requires
        sqs.contains(sq),
        b.at(sq) == Some(p),
    ensures
        occupied(b, sqs).contains((sq, p)),
    decreases sqs.len(),
{
    let rest = sqs.drop_last();
    let o = occupied(b, rest);
    if sqs.last() == sq {
        assert(occupied(b, sqs) == o.push((sq, p)));
        assert(occupied(b, sqs)[o.len() as int] == (sq, p));
    } else {
        let k = choose|k: int| 0 <= k < sqs.len() && sqs[k] == sq;
        assert(k < rest.len());
        assert(rest[k] == sq);
        lemma_occupied_contains(b, rest, sq, p);
        let j = choose|j: int| 0 <= j < o.len() && o[j] == (sq, p);
        match b.at(sqs.last()) {
            Some(q) => {
                assert(occupied(b, sqs) == o.push((sqs.last(), q)));
                assert(occupied(b, sqs)[j] == (sq, p));
            },
            None => {},
        }
    }
}

proof fn lemma_moves_of_pieces_contains(pos: Position, list: Seq<(Square, Piece)>, sq: Square, p: Piece, m: Move)
    requires
        list.contains((sq, p)),
        p.color == pos.side_spec(),
        piece_moves(pos, sq, p).contains(m),
    ensures
        moves_of_pieces(pos, list).contains(m),
    decreases list.len(),
{
    let rest = list.drop_last();
    let tail = if list.last().1.color == pos.side_spec() {
        piece_moves(pos, list.last().0, list.last().1)
    } else {
        Seq::empty()
    };
    if list.last() == (sq, p) {
        lemma_contains_concat(moves_of_pieces(pos, rest), tail, m);
    } else {
        let k = choose|k: int| 0 <= k < list.len() && list[k] == (sq, p);
        assert(k < rest.len());
        assert(rest[k] == (sq, p));
        lemma_moves_of_pieces_contains(pos, rest, sq, p, m);
        lemma_contains_concat(moves_of_pieces(pos, rest), tail, m);
    }
}

/// Every move of a piece of the side to move, by the way its kind moves, is
/// among the generated moves.
pub proof fn lemma_piece_moves_generated(pos: Position, from: Square, m: Move)
    requires
        pos.wf(),
        pos.board_spec().at(from) matches Some(p) && p.color == pos.side_spec(),
        piece_moves(pos, from, pos.board_spec().at(from)->Some_0).contains(m),
    ensures
        pseudo_moves(pos).contains(m),
{
    let b = pos.board_spec();
    let p = b.at(from)->Some_0;
    b.lemma_outside_empty(from);
    crate::board::lemma_all_squares_order(b.dims());
    assert(all_squares(b.dims()).contains(from));
    lemma_occupied_contains(b, all_squares(b.dims()), from, p);
    lemma_moves_of_pieces_contains(pos, occupied(b, all_squares(b.dims())), from, p, m);
}

/// Every move of a pawn of the side to move, its pushes and its captures
/// toward either file alike, is among the generated moves.
pub proof fn lemma_pawn_moves_generated(pos: Position, from: Square, df: int, m: Move)
    requires
        pos.wf(),
        pos.board_spec().at(from) == Some(Piece { color: pos.side_spec(), kind: PieceKind::Pawn }),
        df == -1 || df == 1,
        pawn_capture(pos, from, pos.side_spec(), df).contains(m) || pawn_pushes(pos, from, pos.side_spec()).contains(m),
    ensures
        pseudo_moves(pos).contains(m),
{
    let c = pos.side_spec();
    let pushes = pawn_pushes(pos, from, c);
    let left = pawn_capture(pos, from, c, -1);
    let right = pawn_capture(pos, from, c, 1);
    lemma_contains_concat(pushes, left, m);
    lemma_contains_concat(pushes + left, right, m);
    lemma_piece_moves_generated(pos, from, m);
}

/// Every pseudo-legal move of the side to move.
pub fn pseudo_legal_moves(pos: &Position) -> (r: Vec<Move>)
    requires
        pos.wf(),
    ensures
        r@ == pseudo_moves(*pos),
        sound_from(*pos, r@, 0),
{
    let board = pos.board();
    let list = board.pieces();
    let ghost b = pos.board_spec();
    proof {
        let size = b.dims();
        lemma_squares_before_on_board(size.width() as nat, size.height() as nat, size.height() as nat, 0);
        lemma_occupied_matches(b, all_squares(size));
    }
    let side = pos.side_to_move();
    let mut moves: Vec<Move> = Vec::new();
    let mut i: usize = 0;
    while i < list.len()
        invariant
            pos.wf(),
            b == pos.board_spec(),
            side == pos.side_spec(),
            i <= list@.len(),
            list@ == occupied(b, all_squares(b.dims())),
            list_matches(b, list@),
            moves@ == moves_of_pieces(*pos, list@.take(i as int)),
            sound_from(*pos, moves@, 0),
        decreases list.len() - i,
    {
        let (from, piece) = list[i];
        assert(list@.take(i + 1).drop_last() =~= list@.take(i as int));
        let ghost before = moves@;
        if piece.color == side {
            generate_piece_moves(pos, from, piece, &mut moves);
        }
        assert(moves@ =~= moves_of_pieces(*pos, list@.take(i + 1)));
        i += 1;
    }
    assert(list@.take(list@.len() as int) =~= list@);
    moves
}

} // verus!
