//! Which squares a side attacks.
use vstd::prelude::*;
use crate::board::Board;
use crate::types::{offset_spec, Color, Piece, PieceKind, Square};

verus! {

broadcast use crate::board::Board::lemma_wf_size;

pub open spec fn knight_offsets() -> Seq<(int, int)> {
    seq![(1, 2), (2, 1), (2, -1), (1, -2), (-1, -2), (-2, -1), (-2, 1), (-1, 2)]
}

/// The eight neighbouring steps, file by file from the lower file.
pub open spec fn king_offsets() -> Seq<(int, int)> {
    seq![(-1, -1), (-1, 0), (-1, 1), (0, -1), (0, 1), (1, -1), (1, 0), (1, 1)]
}

pub open spec fn orthogonal() -> Seq<(int, int)> {
    seq![(1, 0), (-1, 0), (0, 1), (0, -1)]
}

pub open spec fn diagonal() -> Seq<(int, int)> {
    seq![(1, 1), (1, -1), (-1, 1), (-1, -1)]
}

pub fn knight_offsets_exec() -> (r: [(i8, i8); 8])
    ensures
        forall|i: int| 0 <= i < 8 ==> (#[trigger] r[i]).0 == knight_offsets()[i].0 && r[i].1 == knight_offsets()[i].1,
{
    [(1, 2), (2, 1), (2, -1), (1, -2), (-1, -2), (-2, -1), (-2, 1), (-1, 2)]
}

pub fn king_offsets_exec() -> (r: [(i8, i8); 8])
    ensures
        forall|i: int| 0 <= i < 8 ==> (#[trigger] r[i]).0 == king_offsets()[i].0 && r[i].1 == king_offsets()[i].1,
{
    [(-1, -1), (-1, 0), (-1, 1), (0, -1), (0, 1), (1, -1), (1, 0), (1, 1)]
}

pub fn orthogonal_exec() -> (r: [(i8, i8); 4])
    ensures
        forall|i: int| 0 <= i < 4 ==> (#[trigger] r[i]).0 == orthogonal()[i].0 && r[i].1 == orthogonal()[i].1,
{
    [(1, 0), (-1, 0), (0, 1), (0, -1)]
}

pub fn diagonal_exec() -> (r: [(i8, i8); 4])
    ensures
        forall|i: int| 0 <= i < 4 ==> (#[trigger] r[i]).0 == diagonal()[i].0 && r[i].1 == diagonal()[i].1,
{
    [(1, 1), (1, -1), (-1, 1), (-1, -1)]
}

/// A step of at most one square along each axis that moves somewhere.
pub open spec fn unit_step(df: int, dr: int) -> bool {
    (df == -1 || df == 0 || df == 1) && (dr == -1 || dr == 0 || dr == 1) && !(df == 0 && dr == 0)
}

/// How many more steps can be taken from `sq` toward the board's far edges.
pub open spec fn edge_measure(sq: Square, df: int, dr: int) -> int {
    (if df > 0 { 10 - sq.file } else if df < 0 { sq.file + 1 } else { 0 }) + (if dr > 0 {
        10 - sq.rank
    } else if dr < 0 {
        sq.rank + 1
    } else {
        0
    })
}

/// The square one step from `sq`, if it is on the board.
pub open spec fn step_on(b: Board, sq: Square, df: int, dr: int) -> Option<Square> {
    match offset_spec(sq, df, dr) {
        Some(s) => if b.dims().holds(s) {
            Some(s)
        } else {
            None
        },
        None => None,
    }
}

/// The first piece met when walking from `cur` (excluded) along a direction.
pub open spec fn first_piece(b: Board, cur: Square, df: int, dr: int) -> Option<Piece>
    decreases edge_measure(cur, df, dr),
{
    if !unit_step(df, dr) || !b.dims().valid() {
        None
    } else {
        match step_on(b, cur, df, dr) {
            Some(next) => match b.at(next) {
                Some(p) => Some(p),
                None => first_piece(b, next, df, dr),
            },
            None => None,
        }
    }
}

pub open spec fn pawn_attack(b: Board, target: Square, by: Color, df: int) -> bool {
    match step_on(b, target, df, -by.direction()) {
        Some(s) => b.at(s) == Some(Piece { color: by, kind: PieceKind::Pawn }),
        None => false,
    }
}

pub open spec fn leaps_like_knight(kind: PieceKind) -> bool {
    kind == PieceKind::Knight || kind == PieceKind::Archbishop || kind == PieceKind::Chancellor
}

pub open spec fn slides_straight(kind: PieceKind) -> bool {
    kind == PieceKind::Rook || kind == PieceKind::Queen || kind == PieceKind::Chancellor
}

pub open spec fn slides_diagonally(kind: PieceKind) -> bool {
    kind == PieceKind::Bishop || kind == PieceKind::Queen || kind == PieceKind::Archbishop
}

pub open spec fn knight_attack_at(b: Board, target: Square, by: Color, i: int) -> bool {
    match step_on(b, target, knight_offsets()[i].0, knight_offsets()[i].1) {
        Some(s) => match b.at(s) {
            Some(p) => p.color == by && leaps_like_knight(p.kind),
            None => false,
        },
        None => false,
    }
}

pub open spec fn king_attack_at(b: Board, target: Square, by: Color, i: int) -> bool {
    match step_on(b, target, king_offsets()[i].0, king_offsets()[i].1) {
        Some(s) => b.at(s) == Some(Piece { color: by, kind: PieceKind::King }),
        None => false,
    }
}

pub open spec fn line_attack_at(b: Board, target: Square, by: Color, dirs: Seq<(int, int)>, diag: bool, i: int) -> bool {
    match first_piece(b, target, dirs[i].0, dirs[i].1) {
        Some(p) => p.color == by && if diag {
            slides_diagonally(p.kind)
        } else {
            slides_straight(p.kind)
        },
        None => false,
    }
}

/// Whether a piece of `by` attacks `target`: a pawn diagonally behind it (as
/// seen from `by`), a knight-like leaper, a slider with a clear line, or a
/// king next to it.
pub open spec fn attacked(b: Board, target: Square, by: Color) -> bool {
    ||| pawn_attack(b, target, by, -1)
    ||| pawn_attack(b, target, by, 1)
    ||| (exists|i: int| 0 <= i < 8 && #[trigger] knight_attack_at(b, target, by, i))
    ||| (exists|i: int| 0 <= i < 4 && #[trigger] line_attack_at(b, target, by, orthogonal(), false, i))
    ||| (exists|i: int| 0 <= i < 4 && #[trigger] line_attack_at(b, target, by, diagonal(), true, i))
    ||| (exists|i: int| 0 <= i < 8 && #[trigger] king_attack_at(b, target, by, i))
}

/// Whether `color`'s king (the first one found, if any) is attacked.
pub open spec fn in_check(b: Board, color: Color) -> bool {
    match b.king_spec(color) {
        Some(k) => attacked(b, k, color.other()),
        None => false,
    }
}

pub fn step_square(b: &Board, sq: Square, df: i8, dr: i8) -> (r: Option<Square>)
    requires
        b.wf(),
    ensures
        r == step_on(*b, sq, df as int, dr as int),
{
    match sq.offset(df, dr) {
        Some(s) => if b.size().contains(s) {
            Some(s)
        } else {
            None
        },
        None => None,
    }
}

fn same_piece(a: Option<Piece>, b: Piece) -> (r: bool)
    ensures
        r == (a == Some(b)),
{
    match a {
        Some(p) => p == b,
        None => false,
    }
}

/// Walks along one direction and reports whether the first piece met is one
/// of `by`'s sliders of the given sort.
fn attacked_along_dir(b: &Board, target: Square, by: Color, df: i8, dr: i8, diag: bool) -> (r: bool)
    requires
        b.wf(),
        unit_step(df as int, dr as int),
    ensures
        r == (match first_piece(*b, target, df as int, dr as int) {
            Some(p) => p.color == by && if diag {
                slides_diagonally(p.kind)
            } else {
                slides_straight(p.kind)
            },
            None => false,
        }),
{
    let mut current = target;
    loop
        invariant
            b.wf(),
            unit_step(df as int, dr as int),
            first_piece(*b, target, df as int, dr as int) == first_piece(*b, current, df as int, dr as int),
        decreases edge_measure(current, df as int, dr as int),
    {
        match step_square(b, current, df, dr) {
            Some(square) => {
                match b.piece_at(square) {
                    Some(piece) => {
                        let hit = piece.color == by && if diag {
                            piece.kind == PieceKind::Bishop || piece.kind == PieceKind::Queen
                                || piece.kind == PieceKind::Archbishop
                        } else {
                            piece.kind == PieceKind::Rook || piece.kind == PieceKind::Queen
                                || piece.kind == PieceKind::Chancellor
                        };
                        return hit;
                    },
                    None => {
                        current = square;
                    },
                }
            },
            None => {
                return false;
            },
        }
    }
}

/// Whether `by` attacks `target` on the board.
pub fn is_square_attacked_on(board: &Board, target: Square, by: Color) -> (r: bool)
    requires
        board.wf(),
    ensures
        r == attacked(*board, target, by),
{
    let pawn_source_delta: i8 = -by.pawn_direction();
    let p1 = match step_square(board, target, -1, pawn_source_delta) {
        Some(s) => same_piece(board.piece_at(s), Piece::new(by, PieceKind::Pawn)),
        None => false,
    };
    if p1 {
        return true;
    }
    let p2 = match step_square(board, target, 1, pawn_source_delta) {
        Some(s) => same_piece(board.piece_at(s), Piece::new(by, PieceKind::Pawn)),
        None => false,
    };
    if p2 {
        return true;
    }
    let knight = knight_offsets_exec();
    let mut i: usize = 0;
    while i < 8
        invariant
            board.wf(),
            i <= 8,
            forall|k: int| 0 <= k < 8 ==> (#[trigger] knight[k]).0 == knight_offsets()[k].0 && knight[k].1 == knight_offsets()[k].1,
            forall|k: int| 0 <= k < i ==> !(#[trigger] knight_attack_at(*board, target, by, k)),
        decreases 8 - i,
    {
        let (df, dr) = knight[i];
        let hit = match step_square(board, target, df, dr) {
            Some(s) => match board.piece_at(s) {
                Some(p) => p.color == by && (p.kind == PieceKind::Knight || p.kind == PieceKind::Archbishop
                    || p.kind == PieceKind::Chancellor),
                None => false,
            },
            None => false,
        };
        if hit {
            assert(knight_attack_at(*board, target, by, i as int));
            return true;
        }
        i += 1;
    }
    let orth = orthogonal_exec();
    let mut j: usize = 0;
    while j < 4
        invariant
            board.wf(),
            j <= 4,
            forall|k: int| 0 <= k < 4 ==> (#[trigger] orth[k]).0 == orthogonal()[k].0 && orth[k].1 == orthogonal()[k].1,
            forall|k: int| 0 <= k < j ==> !(#[trigger] line_attack_at(*board, target, by, orthogonal(), false, k)),
        decreases 4 - j,
    {
        let (df, dr) = orth[j];
        if attacked_along_dir(board, target, by, df, dr, false) {
            assert(line_attack_at(*board, target, by, orthogonal(), false, j as int));
            return true;
        }
        j += 1;
    }
    let diag = diagonal_exec();
    let mut j: usize = 0;
    while j < 4
        invariant
            board.wf(),
            j <= 4,
            forall|k: int| 0 <= k < 4 ==> (#[trigger] diag[k]).0 == diagonal()[k].0 && diag[k].1 == diagonal()[k].1,
            forall|k: int| 0 <= k < j ==> !(#[trigger] line_attack_at(*board, target, by, diagonal(), true, k)),
        decreases 4 - j,
    {
        let (df, dr) = diag[j];
        if attacked_along_dir(board, target, by, df, dr, true) {
            assert(line_attack_at(*board, target, by, diagonal(), true, j as int));
            return true;
        }
        j += 1;
    }
    let king = king_offsets_exec();
    let mut i: usize = 0;
    while i < 8
        invariant
            board.wf(),
            i <= 8,
            forall|k: int| 0 <= k < 8 ==> (#[trigger] king[k]).0 == king_offsets()[k].0 && king[k].1 == king_offsets()[k].1,
            forall|k: int| 0 <= k < i ==> !(#[trigger] king_attack_at(*board, target, by, k)),
        decreases 8 - i,
    {
        let (df, dr) = king[i];
        let hit = match step_square(board, target, df, dr) {
            Some(s) => same_piece(board.piece_at(s), Piece::new(by, PieceKind::King)),
            None => false,
        };
        if hit {
            assert(king_attack_at(*board, target, by, i as int));
            return true;
        }
        i += 1;
    }
    false
}

/// Whether `color`'s king is attacked on the board.
pub fn board_in_check(board: &Board, color: Color) -> (r: bool)
    requires
        board.wf(),
    ensures
        r == in_check(*board, color),
{
    match board.king_square(color) {
        Some(king) => is_square_attacked_on(board, king, color.opposite()),
        None => false,
    }
}

/// A pawn attacks both squares diagonally ahead of it: when a pawn of `by`
/// stands one file to either side of `target` and one rank behind it in
/// `by`'s direction of travel, `target` is attacked by `by`, and a king of
/// the other color standing there (the first one found) is in check.
pub proof fn lemma_pawn_attacks_both_diagonals(b: Board, target: Square, by: Color, source: Square)
    requires
        source.file == target.file + 1 || source.file + 1 == target.file,
        source.rank + by.direction() == target.rank,
        b.at(source) == Some(Piece { color: by, kind: PieceKind::Pawn }),
    ensures
        attacked(b, target, by),
        b.king_spec(by.other()) == Some(target) ==> in_check(b, by.other()),
{
    b.lemma_outside_empty(source);
    let df = source.file - target.file;
    assert(offset_spec(target, df, -by.direction()) == Some(source));
    assert(step_on(b, target, df, -by.direction()) == Some(source));
    assert(pawn_attack(b, target, by, df));
    match by {
        Color::White => {},
        Color::Black => {},
    }
}

} // verus!
