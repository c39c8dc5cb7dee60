//! Extended FEN: `A` is the archbishop and `C` (or `M` when reading) the
//! chancellor; ranks may hold up to ten files.
use vstd::prelude::*;
use std::sync::Arc;
use crate::board::{Board, BoardSize};
use crate::mv::CastleSide;
use crate::position::Position;
use crate::rules::{CastlingRights, CastlingRules, VariantRules};
use crate::text::{
    all_digits, chars_of, decimal, digits_value, is_digit, parse_unsigned, parse_unsigned_spec, push_decimal,
    split_at_char, split_on, split_whitespace, string_of, words,
};
use crate::types::{fen_letter_spec, parse_square_spec, square_text, Color, Piece, PieceKind, Square};

verus! {

broadcast use {
    crate::board::Board::lemma_wf_size,
    crate::board::Board::lemma_with,
    crate::board::Board::lemma_with_shape,
    crate::board::Board::lemma_blank,
    crate::rules::CastlingRights::lemma_with_right,
    crate::rules::CastlingRights::lemma_empty_rights,
};

/// What went wrong reading FEN, with the offending text as characters.
pub enum FenProblem {
    FieldCount(nat),
    RankCount(nat),
    InvalidPlacement(Seq<char>),
    UnknownPiece(char),
    KingCount(Color, nat),
    InvalidSide(Seq<char>),
    InvalidCastling(Seq<char>),
    InvalidEnPassant(Seq<char>),
    InvalidClock(Seq<char>),
}

#[derive(Clone, Debug, PartialEq, Eq)]
pub enum FenError {
    FieldCount(usize),
    RankCount(usize),
    InvalidPlacement(String),
    UnknownPiece(char),
    KingCount { color: Color, count: usize },
    InvalidSide(String),
    InvalidCastling(String),
    InvalidEnPassant(String),
    InvalidClock(String),
}

impl FenError {
    pub open spec fn problem(self) -> FenProblem {
        match self {
            FenError::FieldCount(n) => FenProblem::FieldCount(n as nat),
            FenError::RankCount(n) => FenProblem::RankCount(n as nat),
            FenError::InvalidPlacement(s) => FenProblem::InvalidPlacement(s@),
            FenError::UnknownPiece(c) => FenProblem::UnknownPiece(c),
            FenError::KingCount { color, count } => FenProblem::KingCount(color, count as nat),
            FenError::InvalidSide(s) => FenProblem::InvalidSide(s@),
            FenError::InvalidCastling(s) => FenProblem::InvalidCastling(s@),
            FenError::InvalidEnPassant(s) => FenProblem::InvalidEnPassant(s@),
            FenError::InvalidClock(s) => FenProblem::InvalidClock(s@),
        }
    }
}

pub enum RankProblem {
    Placement,
    Unknown(char),
}

/// The file reached after a pending run of empty squares, if the run is
/// acceptable: one to `files` squares, and the file stays within a byte.
pub open spec fn finish_run(run: Option<nat>, file: int, files: int) -> Option<int> {
    match run {
        None => Some(file),
        Some(v) => if v == 0 || v > files || file + v > 255 {
            None
        } else {
            Some(file + v)
        },
    }
}

/// Reads one FEN rank from character `i` on, placing its pieces on `rank`
/// of `b`; `file` is the next file and `run` a pending count of empty squares.
pub open spec fn scan_rank(s: Seq<char>, i: nat, file: int, run: Option<nat>, files: int, rank: u8, b: Board) -> Result<
    Board,
    RankProblem,
>
    decreases s.len() - i,
{
    if i >= s.len() {
        match finish_run(run, file, files) {
            None => Err(RankProblem::Placement),
            Some(f) => if f == files {
                Ok(b)
            } else {
                Err(RankProblem::Placement)
            },
        }
    } else {
        let c = s[i as int];
        if is_digit(c) {
            let d = ((c as u32) - 48) as nat;
            scan_rank(
                s,
                i + 1,
                file,
                Some(
                    match run {
                        Some(v) => v * 10 + d,
                        None => d,
                    },
                ),
                files,
                rank,
                b,
            )
        } else {
            match finish_run(run, file, files) {
                None => Err(RankProblem::Placement),
                Some(f) => match fen_letter_spec(c) {
                    None => Err(RankProblem::Unknown(c)),
                    Some((kind, color)) => if f >= files {
                        Err(RankProblem::Placement)
                    } else {
                        scan_rank(s, i + 1, f + 1, None, files, rank, b.with(Square { file: f as u8, rank }, Some(Piece { color, kind })))
                    },
                },
            }
        }
    }
}

/// Reads the FEN ranks from the `k`-th on, the first of them being the top rank.
pub open spec fn scan_ranks(fields: Seq<Seq<char>>, k: nat, ranks: int, files: int, b: Board) -> Result<
    Board,
    (Seq<char>, RankProblem),
>
    decreases fields.len() - k,
{
    if k >= fields.len() {
        Ok(b)
    } else {
        match scan_rank(fields[k as int], 0, 0, None, files, (ranks - 1 - k) as u8, b) {
            Err(p) => Err((fields[k as int], p)),
            Ok(b2) => scan_ranks(fields, k + 1, ranks, files, b2),
        }
    }
}

pub open spec fn castling_token(c: char) -> Option<(Color, CastleSide)> {
    if c == 'K' {
        Some((Color::White, CastleSide::KingSide))
    } else if c == 'Q' {
        Some((Color::White, CastleSide::QueenSide))
    } else if c == 'k' {
        Some((Color::Black, CastleSide::KingSide))
    } else if c == 'q' {
        Some((Color::Black, CastleSide::QueenSide))
    } else {
        None
    }
}

/// Rights named by letters `KQkq`, each of which must have a route.
pub open spec fn rights_from(castling: CastlingRules, v: Seq<char>) -> Option<CastlingRights>
    decreases v.len(),
{
    if v.len() == 0 {
        Some(CastlingRights::empty_rights())
    } else {
        match rights_from(castling, v.drop_last()) {
            None => None,
            Some(r) => match castling_token(v.last()) {
                None => None,
                Some((c, s)) => if castling.route_of(c, s) is None {
                    None
                } else {
                    Some(r.with_right(c, s))
                },
            },
        }
    }
}

pub open spec fn parse_castling_spec(castling: CastlingRules, v: Seq<char>) -> Option<CastlingRights> {
    if v == seq!['-'] {
        Some(CastlingRights::empty_rights())
    } else {
        rights_from(castling, v)
    }
}

/// Every right held has its king and rook on their route squares.
pub open spec fn routes_present(castling: CastlingRules, board: Board, rights: CastlingRights) -> bool {
    forall|c: Color, s: CastleSide| #[trigger] rights.allows(c, s) ==> (castling.route_of(c, s) matches Some(rt)
        && board.at(rt.king_from) == Some(Piece { color: c, kind: PieceKind::King })
        && board.at(rt.rook_from) == Some(Piece { color: c, kind: PieceKind::Rook }))
}

pub open spec fn side_field(v: Seq<char>) -> Option<Color> {
    if v == seq!['w'] {
        Some(Color::White)
    } else if v == seq!['b'] {
        Some(Color::Black)
    } else {
        None
    }
}

/// The en passant field: `-`, or an empty square of the board.
pub open spec fn en_passant_field(v: Seq<char>, board: Board) -> Option<Option<Square>> {
    if v == seq!['-'] {
        Some(None)
    } else {
        match parse_square_spec(v) {
            None => None,
            Some(sq) => if !board.dims().holds(sq) || board.at(sq) is Some {
                None
            } else {
                Some(Some(sq))
            },
        }
    }
}

/// The parts of a position that FEN gives.
pub struct FenParts {
    pub board: Board,
    pub side: Color,
    pub rights: CastlingRights,
    pub ep: Option<Square>,
    pub halfmove: u32,
    pub fullmove: u32,
}

/// How FEN text is read under the given rules: six fields separated by white
/// space; the ranks from the top, each exactly filling the board's files;
/// exactly one king per side; `w` or `b`; castling letters that the rules
/// allow, with king and rook in place; an en passant square that is empty;
/// then the halfmove clock and a positive fullmove number.
pub open spec fn fen_spec(rules: VariantRules, text: Seq<char>) -> Result<FenParts, FenProblem> {
    let fields = words(text);
    let size = rules.size_spec();
    if fields.len() != 6 {
        Err(FenProblem::FieldCount(fields.len()))
    } else {
        let rank_fields = split_on(fields[0], '/');
        if rank_fields.len() != size.height() {
            Err(FenProblem::RankCount(rank_fields.len()))
        } else {
            match scan_ranks(rank_fields, 0, size.height() as int, size.width() as int, Board::blank(size)) {
                Err((contents, p)) => Err(
                    match p {
                        RankProblem::Placement => FenProblem::InvalidPlacement(contents),
                        RankProblem::Unknown(c) => FenProblem::UnknownPiece(c),
                    },
                ),
                Ok(board) => if board.count_spec(Color::White, PieceKind::King) != 1 {
                    Err(FenProblem::KingCount(Color::White, board.count_spec(Color::White, PieceKind::King)))
                } else if board.count_spec(Color::Black, PieceKind::King) != 1 {
                    Err(FenProblem::KingCount(Color::Black, board.count_spec(Color::Black, PieceKind::King)))
                } else {
                    match side_field(fields[1]) {
                        None => Err(FenProblem::InvalidSide(fields[1])),
                        Some(side) => match parse_castling_spec(rules.castling_spec(), fields[2]) {
                            None => Err(FenProblem::InvalidCastling(fields[2])),
                            Some(rights) => if !routes_present(rules.castling_spec(), board, rights) {
                                Err(FenProblem::InvalidCastling(fields[2]))
                            } else {
                                match en_passant_field(fields[3], board) {
                                    None => Err(FenProblem::InvalidEnPassant(fields[3])),
                                    Some(ep) => match parse_unsigned_spec(fields[4], u32::MAX as nat) {
                                        None => Err(FenProblem::InvalidClock(fields[4])),
                                        Some(half) => match parse_unsigned_spec(fields[5], u32::MAX as nat) {
                                            Some(full) => if full > 0 {
                                                Ok(
                                                    FenParts {
                                                        board,
                                                        side,
                                                        rights,
                                                        ep,
                                                        halfmove: half as u32,
                                                        fullmove: full as u32,
                                                    },
                                                )
                                            } else {
                                                Err(FenProblem::InvalidClock(fields[5]))
                                            },
                                            None => Err(FenProblem::InvalidClock(fields[5])),
                                        },
                                    },
                                }
                            },
                        },
                    }
                }
            }
        }
    }
}

fn scan_one_rank(contents: &Vec<char>, files: u8, rank: u8, board: &mut Board) -> (r: Result<(), RankProblem>)
    requires
        old(board).wf(),
        1 <= files <= 10,
        old(board).dims().width() == files,
        rank < old(board).dims().height(),
    ensures
        final(board).wf(),
        final(board).dims() == old(board).dims(),
        match scan_rank(contents@, 0, 0, None, files as int, rank, *old(board)) {
            Ok(b) => r is Ok && *final(board) == b,
            Err(p) => r is Err && r->Err_0 == p,
        },
{
    let ghost start = *board;
    let mut file: u8 = 0;
    let mut run: Option<u32> = None;
    let ghost mut spec_run: Option<nat> = None;
    let mut i: usize = 0;
    while i < contents.len()
        invariant
            i <= contents@.len(),
            start == *old(board),
            board.wf(),
            board.dims() == start.dims(),
            1 <= files <= 10,
            start.dims().width() == files,
            rank < start.dims().height(),
            file <= files,
            (run is None) == (spec_run is None),
            run matches Some(v) ==> v == (if spec_run->Some_0 > 11 { 11 } else { spec_run->Some_0 }),
            scan_rank(contents@, 0, 0, None, files as int, rank, start) == scan_rank(
                contents@,
                i as nat,
                file as int,
                spec_run,
                files as int,
                rank,
                *board,
            ),
        decreases contents.len() - i,
    {
        let c = contents[i];
        if '0' <= c && c <= '9' {
            let d: u32 = (c as u32) - 48;
            let next: u32 = match run {
                Some(v) => if v * 10 + d > 11 { 11 } else { v * 10 + d },
                None => d,
            };
            proof {
                spec_run = Some(
                    match spec_run {
                        Some(v) => v * 10 + (d as nat),
                        None => d as nat,
                    },
                );
            }
            run = Some(next);
        } else {
            let ghost file0 = file as int;
            let ghost run0 = spec_run;
            assert(!is_digit(c));
            assert(scan_rank(contents@, i as nat, file0, run0, files as int, rank, *board) == match finish_run(run0, file0, files as int) {
                None => Err(RankProblem::Placement),
                Some(f) => match fen_letter_spec(c) {
                    None => Err(RankProblem::Unknown(c)),
                    Some((kind, color)) => if f >= files {
                        Err(RankProblem::Placement)
                    } else {
                        scan_rank(contents@, (i + 1) as nat, f + 1, None, files as int, rank, board.with(Square { file: f as u8, rank }, Some(Piece { color, kind })))
                    },
                },
            });
            match run {
                Some(v) => {
                    if v == 0 || v > files as u32 {
                        assert(finish_run(run0, file0, files as int) is None);
                        return Err(RankProblem::Placement);
                    }
                    file = file + v as u8;
                },
                None => {},
            }
            assert(finish_run(run0, file0, files as int) == Some(file as int));
            run = None;
            proof {
                spec_run = None;
            }
            match PieceKind::from_fen_char(c) {
                None => {
                    return Err(RankProblem::Unknown(c));
                },
                Some((kind, color)) => {
                    if file >= files {
                        return Err(RankProblem::Placement);
                    }
                    board.set_piece_unchecked(Square::new(file, rank), Some(Piece::new(color, kind)));
                    file += 1;
                },
            }
        }
        i += 1;
    }
    match run {
        Some(v) => {
            if v == 0 || v > files as u32 {
                return Err(RankProblem::Placement);
            }
            file = file + v as u8;
        },
        None => {},
    }
    if file != files {
        return Err(RankProblem::Placement);
    }
    Ok(())
}


fn scan_all_ranks(rank_fields: &Vec<Vec<char>>, size: BoardSize, board: &mut Board) -> (r: Result<(), (usize, RankProblem)>)
    requires
        old(board).wf(),
        old(board).dims() == size,
        size.valid(),
        rank_fields@.len() == size.height(),
    ensures
        final(board).wf(),
        final(board).dims() == size,
        ({
            let fields = Seq::new(rank_fields@.len(), |k: int| rank_fields@[k]@);
            match scan_ranks(fields, 0, size.height() as int, size.width() as int, *old(board)) {
                Ok(b) => r is Ok && *final(board) == b,
                Err((contents, p)) => r matches Err((k, q)) && k < rank_fields@.len() && rank_fields@[k as int]@ == contents
                    && q == p,
            }
        }),
{
    let ghost fields = Seq::new(rank_fields@.len(), |k: int| rank_fields@[k]@);
    let ranks = size.ranks();
    let files = size.files();
    let mut k: usize = 0;
    while k < rank_fields.len()
        invariant
            k <= rank_fields@.len(),
            rank_fields@.len() == ranks,
            ranks == size.height(),
            files == size.width(),
            size.valid(),
            board.wf(),
            board.dims() == size,
            fields == Seq::new(rank_fields@.len(), |j: int| rank_fields@[j]@),
            scan_ranks(fields, 0, ranks as int, files as int, *old(board)) == scan_ranks(fields, k as nat, ranks as int, files as int, *board),
        decreases rank_fields.len() - k,
    {
        let rank: u8 = ranks - 1 - (k as u8);
        let ghost before = *board;
        assert(fields[k as int] == rank_fields@[k as int]@);
        match scan_one_rank(&rank_fields[k], files, rank, board) {
            Ok(()) => {},
            Err(p) => {
                return Err((k, p));
            },
        }
        k += 1;
    }
    Ok(())
}

fn castling_token_exec(c: char) -> (r: Option<(Color, CastleSide)>)
    ensures
        r == castling_token(c),
{
    if c == 'K' {
        Some((Color::White, CastleSide::KingSide))
    } else if c == 'Q' {
        Some((Color::White, CastleSide::QueenSide))
    } else if c == 'k' {
        Some((Color::Black, CastleSide::KingSide))
    } else if c == 'q' {
        Some((Color::Black, CastleSide::QueenSide))
    } else {
        None
    }
}

fn is_single(v: &Vec<char>, c: char) -> (r: bool)
    ensures
        r == (v@ == seq![c]),
{
    let r = v.len() == 1 && v[0] == c;
    proof {
        if v@.len() == 1 && v@[0] == c {
            assert(v@ =~= seq![c]);
        }
    }
    r
}

fn parse_castling_rights(castling: &CastlingRules, value: &Vec<char>) -> (r: Option<CastlingRights>)
    ensures
        r == parse_castling_spec(*castling, value@),
        r matches Some(x) ==> x.bits() < 16,
{
    if is_single(value, '-') {
        return Some(CastlingRights::none());
    }
    let mut rights = CastlingRights::none();
    let mut i: usize = 0;
    while i < value.len()
        invariant
            i <= value@.len(),
            value@ != seq!['-'],
            rights.bits() < 16,
            rights_from(*castling, value@.take(i as int)) == Some(rights),
        decreases value.len() - i,
    {
        assert(value@.take(i + 1).drop_last() =~= value@.take(i as int));
        match castling_token_exec(value[i]) {
            None => {
                proof {
                    lemma_rights_from_stuck(*castling, value@, (i + 1) as int);
                }
                return None;
            },
            Some((color, side)) => {
                if castling.route(color, side).is_none() {
                    proof {
                        lemma_rights_from_stuck(*castling, value@, (i + 1) as int);
                    }
                    return None;
                }
                rights.set(color, side, true);
            },
        }
        i += 1;
    }
    assert(value@.take(i as int) =~= value@);
    Some(rights)
}

proof fn lemma_rights_from_stuck(castling: CastlingRules, v: Seq<char>, k: int)
    requires
        0 <= k <= v.len(),
        rights_from(castling, v.take(k)) is None,
    ensures
        rights_from(castling, v) is None,
    decreases v.len() - k,
{
    if k < v.len() {
        assert(v.take(k + 1).drop_last() =~= v.take(k));
        lemma_rights_from_stuck(castling, v, k + 1);
    } else {
        assert(v.take(k) =~= v);
    }
}

fn is_piece_at(board: &Board, sq: Square, color: Color, kind: PieceKind) -> (r: bool)
    requires
        board.wf(),
    ensures
        r == (board.at(sq) == Some(Piece { color, kind })),
{
    match board.piece_at(sq) {
        Some(p) => p.color == color && p.kind == kind,
        None => false,
    }
}

fn check_routes_present(castling: &CastlingRules, board: &Board, rights: CastlingRights) -> (r: bool)
    requires
        board.wf(),
        forall|c: Color, s: CastleSide| #[trigger] rights.allows(c, s) ==> castling.route_of(c, s) is Some,
    ensures
        r == routes_present(*castling, *board, rights),
{
    let colors = crate::types::all_colors();
    let sides = crate::mv::all_sides();
    let mut i: usize = 0;
    while i < 2
        invariant
            i <= 2,
            board.wf(),
            colors[0] == Color::White,
            colors[1] == Color::Black,
            sides[0] == CastleSide::QueenSide,
            sides[1] == CastleSide::KingSide,
            forall|c: Color, s: CastleSide| #[trigger] rights.allows(c, s) ==> castling.route_of(c, s) is Some,
            forall|c: Color, s: CastleSide| c.idx() < i ==> (#[trigger] rights.allows(c, s) ==> (castling.route_of(c, s) matches Some(rt)
                && board.at(rt.king_from) == Some(Piece { color: c, kind: PieceKind::King })
                && board.at(rt.rook_from) == Some(Piece { color: c, kind: PieceKind::Rook }))),
        decreases 2 - i,
    {
        let color = colors[i];
        let mut j: usize = 0;
        while j < 2
            invariant
                i < 2,
                j <= 2,
                board.wf(),
                color == colors[i as int],
                colors[0] == Color::White,
                colors[1] == Color::Black,
                sides[0] == CastleSide::QueenSide,
                sides[1] == CastleSide::KingSide,
                forall|c: Color, s: CastleSide| #[trigger] rights.allows(c, s) ==> castling.route_of(c, s) is Some,
                forall|c: Color, s: CastleSide| (c.idx() < i || (c == color && s.idx() < j)) ==> (#[trigger] rights.allows(c, s) ==> (castling.route_of(c, s) matches Some(rt)
                    && board.at(rt.king_from) == Some(Piece { color: c, kind: PieceKind::King })
                    && board.at(rt.rook_from) == Some(Piece { color: c, kind: PieceKind::Rook }))),
            decreases 2 - j,
        {
            let side = sides[j];
            if rights.has(color, side) {
                let route = castling.route(color, side).unwrap();
                if !is_piece_at(board, route.king_from, color, PieceKind::King)
                    || !is_piece_at(board, route.rook_from, color, PieceKind::Rook) {
                    return false;
                }
            }
            j += 1;
        }
        i += 1;
    }
    proof {
        assert forall|c: Color, s: CastleSide| #[trigger] rights.allows(c, s) implies (castling.route_of(c, s) matches Some(rt)
            && board.at(rt.king_from) == Some(Piece { color: c, kind: PieceKind::King })
            && board.at(rt.rook_from) == Some(Piece { color: c, kind: PieceKind::Rook })) by {
            assert(c.idx() < 2);
        }
    }
    true
}

proof fn lemma_rights_from_routes(castling: CastlingRules, v: Seq<char>)
    requires
        rights_from(castling, v) is Some,
    ensures
        forall|c: Color, s: CastleSide| #[trigger] rights_from(castling, v)->Some_0.allows(c, s) ==> castling.route_of(c, s) is Some,
        rights_from(castling, v)->Some_0.bits() < 16,
    decreases v.len(),
{
    if v.len() > 0 {
        lemma_rights_from_routes(castling, v.drop_last());
        let prev = rights_from(castling, v.drop_last())->Some_0;
        let (c, s) = castling_token(v.last())->Some_0;
        prev.lemma_with_right(c, s, c, s);
        assert forall|c2: Color, s2: CastleSide| #[trigger] rights_from(castling, v)->Some_0.allows(c2, s2) implies castling.route_of(c2, s2) is Some by {
            prev.lemma_with_right(c, s, c2, s2);
        }
    } else {
        CastlingRights::lemma_empty_rights(Color::White, CastleSide::QueenSide);
        assert forall|c2: Color, s2: CastleSide| !(#[trigger] rights_from(castling, v)->Some_0.allows(c2, s2)) by {
            CastlingRights::lemma_empty_rights(c2, s2);
        }
    }
}

fn char_vec_to_string(v: &Vec<char>) -> (r: String)
    ensures
        r@ == v@,
{
    string_of(v)
}

impl Position {
    /// Parses extended FEN. `A` denotes an archbishop/cardinal and `C` (or
    /// accepted input alias `M`) denotes a chancellor/marshal.
    pub fn from_fen(rules: VariantRules, fen: &str) -> (r: Result<Position, FenError>)
        requires
            rules.valid(),
        ensures
            r is Ok <==> fen_spec(rules, fen@) is Ok,
            r matches Err(e) ==> fen_spec(rules, fen@) == Err::<FenParts, FenProblem>(e.problem()),
            r matches Ok(p) ==> {
                let parts = fen_spec(rules, fen@)->Ok_0;
                &&& p.wf()
                &&& p.rules_spec() == rules
                &&& p.board_spec() == parts.board
                &&& p.side_spec() == parts.side
                &&& p.rights_spec() == parts.rights
                &&& p.ep_spec() == parts.ep
                &&& p.halfmove_spec() == parts.halfmove
                &&& p.fullmove_spec() == parts.fullmove
            },
    {
        let text = chars_of(fen);
        let fields = split_whitespace(&text);
        let ghost ws = words(fen@);
        if fields.len() != 6 {
            return Err(FenError::FieldCount(fields.len()));
        }
        let size = rules.board_size();
        let rank_fields = split_at_char(&fields[0], '/');
        if rank_fields.len() != size.ranks() as usize {
            return Err(FenError::RankCount(rank_fields.len()));
        }
        let ghost rfs = Seq::new(rank_fields@.len(), |k: int| rank_fields@[k]@);
        assert(rfs =~= split_on(ws[0], '/'));
        proof {
            rules.lemma_valid_parts(Color::White, CastleSide::QueenSide);
        }
        let mut board = Board::empty(size);
        match scan_all_ranks(&rank_fields, size, &mut board) {
            Ok(()) => {},
            Err((k, problem)) => {
                let contents = &rank_fields[k];
                return match problem {
                    RankProblem::Placement => Err(FenError::InvalidPlacement(char_vec_to_string(contents))),
                    RankProblem::Unknown(c) => Err(FenError::UnknownPiece(c)),
                };
            },
        }
        let white_kings = board.count(Color::White, PieceKind::King);
        if white_kings != 1 {
            return Err(FenError::KingCount { color: Color::White, count: white_kings });
        }
        let black_kings = board.count(Color::Black, PieceKind::King);
        if black_kings != 1 {
            return Err(FenError::KingCount { color: Color::Black, count: black_kings });
        }
        let side_to_move = if is_single(&fields[1], 'w') {
            Color::White
        } else if is_single(&fields[1], 'b') {
            Color::Black
        } else {
            return Err(FenError::InvalidSide(char_vec_to_string(&fields[1])));
        };
        let castling_rights = match parse_castling_rights(rules.castling(), &fields[2]) {
            Some(r) => r,
            None => return Err(FenError::InvalidCastling(char_vec_to_string(&fields[2]))),
        };
        proof {
            if fields@[2]@ != seq!['-'] {
                lemma_rights_from_routes(rules.castling_spec(), fields@[2]@);
            }
        }
        if !check_routes_present(rules.castling(), &board, castling_rights) {
            return Err(FenError::InvalidCastling(char_vec_to_string(&fields[2])));
        }
        let en_passant = if is_single(&fields[3], '-') {
            None
        } else {
            match Square::parse_chars(&fields[3]) {
                None => return Err(FenError::InvalidEnPassant(char_vec_to_string(&fields[3]))),
                Some(square) => {
                    if !size.contains(square) || board.piece_at(square).is_some() {
                        return Err(FenError::InvalidEnPassant(char_vec_to_string(&fields[3])));
                    }
                    Some(square)
                },
            }
        };
        let halfmove_clock: u32 = match parse_unsigned(&fields[4], 4294967295) {
            Some(v) => v as u32,
            None => return Err(FenError::InvalidClock(char_vec_to_string(&fields[4]))),
        };
        let fullmove_number: u32 = match parse_unsigned(&fields[5], 4294967295) {
            Some(v) => {
                if v == 0 {
                    return Err(FenError::InvalidClock(char_vec_to_string(&fields[5])));
                }
                v as u32
            },
            None => return Err(FenError::InvalidClock(char_vec_to_string(&fields[5]))),
        };
        Ok(Position::from_parts(Arc::new(rules), board, side_to_move, castling_rights, en_passant, halfmove_clock, fullmove_number))
    }
}


/// A pending count of empty squares as written in FEN.
pub open spec fn pending(e: nat) -> Seq<char> {
    if e > 0 {
        decimal(e)
    } else {
        Seq::empty()
    }
}

/// The text for the first `f` files of a rank, and the number of empty
/// squares not yet written.
pub open spec fn encode_prefix(b: Board, rank: u8, f: nat) -> (Seq<char>, nat)
    decreases f,
{
    if f == 0 {
        (Seq::empty(), 0)
    } else {
        let (t, e) = encode_prefix(b, rank, (f - 1) as nat);
        match b.at(Square { file: (f - 1) as u8, rank }) {
            Some(p) => (t + pending(e) + seq![p.letter()], 0),
            None => (t, e + 1),
        }
    }
}

/// One rank in FEN: piece letters, with runs of empty squares as numbers.
pub open spec fn rank_text(b: Board, rank: u8) -> Seq<char> {
    let (t, e) = encode_prefix(b, rank, b.dims().width() as nat);
    t + pending(e)
}

/// The first `k` ranks from the top, separated by `/`.
pub open spec fn placement_text(b: Board, k: nat) -> Seq<char>
    decreases k,
{
    let h = b.dims().height() as int;
    if k == 0 {
        Seq::empty()
    } else if k == 1 {
        rank_text(b, (h - 1) as u8)
    } else {
        placement_text(b, (k - 1) as nat) + seq!['/'] + rank_text(b, (h - k) as u8)
    }
}

pub open spec fn castling_text(r: CastlingRights) -> Seq<char> {
    let t = (if r.allows(Color::White, CastleSide::KingSide) { seq!['K'] } else { Seq::empty() }) + (if r.allows(
        Color::White,
        CastleSide::QueenSide,
    ) {
        seq!['Q']
    } else {
        Seq::empty()
    }) + (if r.allows(Color::Black, CastleSide::KingSide) { seq!['k'] } else { Seq::empty() }) + (if r.allows(
        Color::Black,
        CastleSide::QueenSide,
    ) {
        seq!['q']
    } else {
        Seq::empty()
    });
    if t.len() == 0 {
        seq!['-']
    } else {
        t
    }
}

/// The position in extended FEN.
pub open spec fn fen_text(pos: Position) -> Seq<char> {
    let b = pos.board_spec();
    placement_text(b, b.dims().height() as nat) + seq![' '] + seq![
        if pos.side_spec() == Color::White { 'w' } else { 'b' },
    ] + seq![' '] + castling_text(pos.rights_spec()) + seq![' '] + match pos.ep_spec() {
        None => seq!['-'],
        Some(sq) => square_text(sq),
    } + seq![' '] + decimal(pos.halfmove_spec() as nat) + seq![' '] + decimal(pos.fullmove_spec() as nat)
}

fn push_pending(out: &mut Vec<char>, e: u8)
    ensures
        final(out)@ == old(out)@ + pending(e as nat),
{
    if e > 0 {
        push_decimal(out, e as u64);
    } else {
        assert(final(out)@ =~= old(out)@ + pending(e as nat));
    }
}

fn push_rank(board: &Board, rank: u8, out: &mut Vec<char>)
    requires
        board.wf(),
    ensures
        final(out)@ == old(out)@ + rank_text(*board, rank),
{
    let files = board.size().files();
    let mut empty: u8 = 0;
    let ghost start = out@;
    let mut file: u8 = 0;
    while file < files
        invariant
            board.wf(),
            files == board.dims().width(),
            file <= files,
            empty <= file,
            (out@.skip(start.len() as int), empty as nat) == encode_prefix(*board, rank, file as nat),
            out@.len() >= start.len(),
            out@.take(start.len() as int) == start,
        decreases files - file,
    {
        let ghost before = out@;
        match board.piece_at(Square::new(file, rank)) {
            Some(piece) => {
                push_pending(out, empty);
                empty = 0;
                out.push(piece.fen_char());
                assert(out@.skip(start.len() as int) =~= before.skip(start.len() as int) + pending(
                    (encode_prefix(*board, rank, file as nat)).1,
                ) + seq![piece.letter()]);
                assert(out@.take(start.len() as int) =~= start);
            },
            None => {
                empty = empty + 1;
            },
        }
        file += 1;
    }
    let ghost before = out@;
    push_pending(out, empty);
    assert(out@.skip(start.len() as int) =~= before.skip(start.len() as int) + pending(empty as nat));
    assert(out@ =~= start + out@.skip(start.len() as int));
}

fn push_castling(rights: CastlingRights, out: &mut Vec<char>)
    ensures
        final(out)@ == old(out)@ + castling_text(rights),
{
    let mut t: Vec<char> = Vec::new();
    if rights.has(Color::White, CastleSide::KingSide) {
        t.push('K');
    }
    if rights.has(Color::White, CastleSide::QueenSide) {
        t.push('Q');
    }
    if rights.has(Color::Black, CastleSide::KingSide) {
        t.push('k');
    }
    if rights.has(Color::Black, CastleSide::QueenSide) {
        t.push('q');
    }
    if t.len() == 0 {
        t.push('-');
    }
    assert(t@ =~= castling_text(rights));
    let mut i: usize = 0;
    while i < t.len()
        invariant
            i <= t@.len(),
            out@ == old(out)@ + t@.take(i as int),
        decreases t.len() - i,
    {
        out.push(t[i]);
        assert(t@.take(i + 1) =~= t@.take(i as int).push(t@[i as int]));
        assert(out@ =~= old(out)@ + t@.take(i + 1));
        i += 1;
    }
    assert(t@.take(i as int) =~= t@);
}

impl Position {
    /// Serializes the position using extended FEN piece letters.
    pub fn to_fen(&self) -> (r: String)
        requires
            self.wf(),
        ensures
            r@ == fen_text(*self),
    {
        let board = self.board();
        let ranks = board.size().ranks();
        let mut out: Vec<char> = Vec::new();
        let mut k: u8 = 0;
        while k < ranks
            invariant
                board.wf(),
                ranks == board.dims().height(),
                k <= ranks,
                out@ == placement_text(*board, k as nat),
            decreases ranks - k,
        {
            if k > 0 {
                out.push('/');
            }
            let rank: u8 = ranks - 1 - k;
            push_rank(board, rank, &mut out);
            assert(out@ =~= placement_text(*board, (k + 1) as nat));
            k += 1;
        }
        let ghost placed = out@;
        out.push(' ');
        out.push(
            match self.side_to_move() {
                Color::White => 'w',
                Color::Black => 'b',
            },
        );
        out.push(' ');
        push_castling(self.castling_rights(), &mut out);
        out.push(' ');
        match self.en_passant() {
            None => out.push('-'),
            Some(square) => square.push_notation(&mut out),
        }
        out.push(' ');
        push_decimal(&mut out, self.halfmove_clock() as u64);
        out.push(' ');
        push_decimal(&mut out, self.fullmove_number() as u64);
        assert(out@ =~= fen_text(*self));
        string_of(&out)
    }
}

} // verus!
