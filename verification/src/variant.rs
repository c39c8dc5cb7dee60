//! Built-in variants and the Capablanca-family rules builder.
use vstd::prelude::*;
use std::sync::Arc;
use crate::board::{all_squares, count_of, lemma_count_append, lemma_occupied_push, occupied, squares_before, Board, BoardSize};
use crate::mv::CastleSide;
use crate::position::Position;
use crate::rules::{
    color_error, mirror_spec, parts_error, promotion_ok, route_ok, routes_apart, CastleRoute, CastlingRules, PromotionRule,
    RuleError, VariantRules,
};
use crate::text::trim;
use crate::types::{promotion_pieces, promotion_pieces_spec, Color, Piece, PieceKind, Square};

verus! {

broadcast use {
    crate::board::Board::lemma_wf_size,
    crate::board::Board::lemma_with,
    crate::board::Board::lemma_with_shape,
    vstd::array::group_array_axioms,
};

/// The files (indices below `n`) of `s` holding `kind`, in order.
pub open spec fn indices_of(s: Seq<PieceKind>, kind: PieceKind, n: int) -> Seq<int>
    decreases n,
{
    if n <= 0 {
        Seq::empty()
    } else {
        indices_of(s, kind, n - 1) + if s[n - 1] == kind {
            seq![n - 1]
        } else {
            Seq::empty()
        }
    }
}

fn files_of(back_rank: &[PieceKind; 10], kind: PieceKind) -> (r: Vec<u8>)
    ensures
        r@.len() == indices_of(back_rank@, kind, 10).len(),
        forall|i: int| 0 <= i < r@.len() ==> r@[i] as int == #[trigger] indices_of(back_rank@, kind, 10)[i],
        forall|i: int| 0 <= i < r@.len() ==> r@[i] < 10,
{
    let mut r: Vec<u8> = Vec::new();
    let mut f: usize = 0;
    while f < 10
        invariant
            f <= 10,
            r@.len() == indices_of(back_rank@, kind, f as int).len(),
            forall|i: int| 0 <= i < r@.len() ==> r@[i] as int == #[trigger] indices_of(back_rank@, kind, f as int)[i],
            forall|i: int| 0 <= i < r@.len() ==> r@[i] < f,
        decreases 10 - f,
    {
        let ghost prev = indices_of(back_rank@, kind, f as int);
        if back_rank[f] == kind {
            r.push(f as u8);
        }
        assert forall|i: int| 0 <= i < r@.len() implies r@[i] as int == #[trigger] indices_of(back_rank@, kind, f + 1)[i] by {
            assert(indices_of(back_rank@, kind, f + 1)[i] == (prev + if back_rank@[f as int] == kind {
                seq![f as int]
            } else {
                Seq::empty()
            })[i]);
        }
        f += 1;
    }
    r
}

fn exactly_one_file(back_rank: &[PieceKind; 10], kind: PieceKind) -> (r: Result<u8, RuleError>)
    ensures
        r is Ok <==> indices_of(back_rank@, kind, 10).len() == 1,
        r matches Ok(f) ==> f as int == indices_of(back_rank@, kind, 10)[0],
        r matches Err(e) ==> e == RuleError::ExactlyOneBackRankPiece(kind),
{
    let files = files_of(back_rank, kind);
    if files.len() == 1 {
        Ok(files[0])
    } else {
        Err(RuleError::ExactlyOneBackRankPiece(kind))
    }
}

/// The Capablanca-family arrangement: the back rank on the first and last
/// ranks, pawns in front of them, on a ten-by-eight board.
pub open spec fn capablanca_layout(back: Seq<PieceKind>, sq: Square) -> Option<Piece> {
    if sq.file >= 10 || sq.rank >= 8 {
        None
    } else if sq.rank == 0 {
        Some(Piece { color: Color::White, kind: back[sq.file as int] })
    } else if sq.rank == 7 {
        Some(Piece { color: Color::Black, kind: back[sq.file as int] })
    } else if sq.rank == 1 {
        Some(Piece { color: Color::White, kind: PieceKind::Pawn })
    } else if sq.rank == 6 {
        Some(Piece { color: Color::Black, kind: PieceKind::Pawn })
    } else {
        None
    }
}

/// The routes of Capablanca-family castling: the king moves three files
/// toward a corner rook, which lands next to it.
pub open spec fn capablanca_routes(king: int, rooks: Seq<int>) -> (CastleRoute, CastleRoute) {
    (
        CastleRoute {
            king_from: Square { file: king as u8, rank: 0 },
            rook_from: Square { file: rooks[0] as u8, rank: 0 },
            king_to: Square { file: (king - 3) as u8, rank: 0 },
            rook_to: Square { file: (king - 2) as u8, rank: 0 },
        },
        CastleRoute {
            king_from: Square { file: king as u8, rank: 0 },
            rook_from: Square { file: rooks[1] as u8, rank: 0 },
            king_to: Square { file: (king + 3) as u8, rank: 0 },
            rook_to: Square { file: (king + 2) as u8, rank: 0 },
        },
    )
}

/// Why a Capablanca-family back rank is refused, if it is.
pub open spec fn capablanca_error(name: Seq<char>, back: Seq<PieceKind>, castling: bool) -> Option<RuleError> {
    let kings = indices_of(back, PieceKind::King, 10);
    let rooks = indices_of(back, PieceKind::Rook, 10);
    if kings.len() != 1 {
        Some(RuleError::ExactlyOneBackRankPiece(PieceKind::King))
    } else if rooks.len() != 2 || rooks[0] >= kings[0] || rooks[1] <= kings[0] {
        Some(RuleError::KingMustBeBetweenTwoRooks)
    } else if castling && (kings[0] < 3 || kings[0] + 3 >= 10) {
        Some(RuleError::InvalidCastlingTarget)
    } else if trim(name).len() == 0 {
        Some(RuleError::EmptyName)
    } else {
        None
    }
}

pub open spec fn kings_before(back: Seq<PieceKind>, f: int) -> nat {
    indices_of(back, PieceKind::King, f).len()
}

proof fn lemma_capablanca_kings(b: Board, back: Seq<PieceKind>, r: nat, f: nat)
    requires
        back.len() == 10,
        forall|sq: Square| #[trigger] b.at(sq) == capablanca_layout(back, sq),
        r <= 8,
        f <= 10,
        r == 8 ==> f == 0,
    ensures
        count_of(occupied(b, squares_before(10, r, f)), Color::White, PieceKind::King) == if r == 0 {
            kings_before(back, f as int)
        } else {
            kings_before(back, 10)
        },
        count_of(occupied(b, squares_before(10, r, f)), Color::Black, PieceKind::King) == if r < 7 {
            0
        } else if r == 7 {
            kings_before(back, f as int)
        } else {
            kings_before(back, 10)
        },
    decreases r, f,
{
    if f == 0 {
        if r > 0 {
            lemma_capablanca_kings(b, back, (r - 1) as nat, 10);
        }
    } else {
        lemma_capablanca_kings(b, back, r, (f - 1) as nat);
        let prev = squares_before(10, r, (f - 1) as nat);
        let x = Square { file: (f - 1) as u8, rank: r as u8 };
        assert(squares_before(10, r, f) == prev.push(x));
        lemma_occupied_push(b, prev, x);
        let extra = match b.at(x) {
            Some(p) => seq![(x, p)],
            None => Seq::<(Square, Piece)>::empty(),
        };
        lemma_count_append(occupied(b, prev), extra, Color::White, PieceKind::King);
        lemma_count_append(occupied(b, prev), extra, Color::Black, PieceKind::King);
    }
}

impl VariantRules {
    /// Creates a conventional Capablanca-family variant from a mirrored back
    /// rank. When enabled, castling moves the king three files toward either
    /// corner rook and places that rook next to the king.
    pub fn capablanca_family(name: &str, back_rank: [PieceKind; 10], castling_enabled: bool) -> (r: Result<
        Self,
        RuleError,
    >)
        ensures
            r is Err <==> capablanca_error(name@, back_rank@, castling_enabled) is Some,
            r matches Err(e) ==> capablanca_error(name@, back_rank@, castling_enabled) == Some(e),
            r matches Ok(v) ==> {
                let king = indices_of(back_rank@, PieceKind::King, 10)[0];
                let rooks = indices_of(back_rank@, PieceKind::Rook, 10);
                let routes = capablanca_routes(king, rooks);
                &&& v.valid()
                &&& v.name_spec() == name@
                &&& v.size_spec().width() == 10
                &&& v.size_spec().height() == 8
                &&& forall|sq: Square| #[trigger] v.start_board().at(sq) == capablanca_layout(back_rank@, sq)
                &&& v.pawn_rank_spec(Color::White) == 1
                &&& v.pawn_rank_spec(Color::Black) == 6
                &&& v.promotion_spec() matches PromotionRule::LastRank { choices } && choices@ == promotion_pieces_spec()
                &&& if castling_enabled {
                    &&& v.castling_spec().route_of(Color::White, CastleSide::QueenSide) == Some(routes.0)
                    &&& v.castling_spec().route_of(Color::White, CastleSide::KingSide) == Some(routes.1)
                    &&& v.castling_spec().route_of(Color::Black, CastleSide::QueenSide) == Some(mirror_spec(routes.0, 7))
                    &&& v.castling_spec().route_of(Color::Black, CastleSide::KingSide) == Some(mirror_spec(routes.1, 7))
                } else {
                    forall|c: Color, s: CastleSide| (#[trigger] v.castling_spec().route_of(c, s)) is None
                }
            },
    {
        let king_file = match exactly_one_file(&back_rank, PieceKind::King) {
            Ok(f) => f,
            Err(e) => return Err(e),
        };
        let rook_files = files_of(&back_rank, PieceKind::Rook);
        if rook_files.len() != 2 || rook_files[0] >= king_file || rook_files[1] <= king_file {
            return Err(RuleError::KingMustBeBetweenTwoRooks);
        }
        let ghost rooks = indices_of(back_rank@, PieceKind::Rook, 10);
        let ghost routes = capablanca_routes(king_file as int, rooks);
        let castling = if castling_enabled {
            if king_file < 3 {
                return Err(RuleError::InvalidCastlingTarget);
            }
            let queen_king_file: u8 = king_file - 3;
            if king_file + 3 >= 10 {
                return Err(RuleError::InvalidCastlingTarget);
            }
            let king_king_file: u8 = king_file + 3;
            let queen = CastleRoute::new(
                Square::new(king_file, 0),
                Square::new(rook_files[0], 0),
                Square::new(queen_king_file, 0),
                Square::new(queen_king_file + 1, 0),
            );
            let king = CastleRoute::new(
                Square::new(king_file, 0),
                Square::new(rook_files[1], 0),
                Square::new(king_king_file, 0),
                Square::new(king_king_file - 1, 0),
            );
            assert(queen == routes.0);
            assert(king == routes.1);
            CastlingRules::mirrored(8, queen, king)
        } else {
            CastlingRules::none()
        };
        let size = BoardSize::capablanca();
        let mut board = Board::empty(size);
        let mut file: usize = 0;
        while file < 10
            invariant
                file <= 10,
                board.wf(),
                board.dims() == size,
                size.width() == 10,
                size.height() == 8,
                forall|sq: Square| #[trigger] board.at(sq) == if sq.file < file {
                    capablanca_layout(back_rank@, sq)
                } else {
                    None
                },
            decreases 10 - file,
        {
            let f = file as u8;
            let kind = back_rank[file];
            board.set_piece_unchecked(Square::new(f, 0), Some(Piece::new(Color::White, kind)));
            board.set_piece_unchecked(Square::new(f, 7), Some(Piece::new(Color::Black, kind)));
            board.set_piece_unchecked(Square::new(f, 1), Some(Piece::new(Color::White, PieceKind::Pawn)));
            board.set_piece_unchecked(Square::new(f, 6), Some(Piece::new(Color::Black, PieceKind::Pawn)));
            file += 1;
        }
        proof {
            lemma_capablanca_kings(board, back_rank@, 8, 0);
            assert(all_squares(board.dims()) == squares_before(10, 8, 0));
            assert(board.count_spec(Color::White, PieceKind::King) == 1);
            assert(board.count_spec(Color::Black, PieceKind::King) == 1);
            let k = king_file as int;
            assert(back_rank@[k] == PieceKind::King) by {
                lemma_indices_member(back_rank@, PieceKind::King, 10, 0);
            }
            lemma_indices_member(back_rank@, PieceKind::Rook, 10, 0);
            lemma_indices_member(back_rank@, PieceKind::Rook, 10, 1);
            if castling_enabled {
                assert(route_ok(size, Color::White, routes.0, board));
                assert(route_ok(size, Color::White, routes.1, board));
                assert(route_ok(size, Color::Black, mirror_spec(routes.0, 7), board));
                assert(route_ok(size, Color::Black, mirror_spec(routes.1, 7), board));
            }
        }
        let promotion = PromotionRule::LastRank { choices: promotion_pieces() };
        proof {
            assert(promotion_ok(promotion));
        }
        Self::from_parts(name.to_owned(), board, [1, 6], castling, promotion)
    }
}

proof fn lemma_indices_member(s: Seq<PieceKind>, kind: PieceKind, n: int, i: int)
    requires
        0 <= i < indices_of(s, kind, n).len(),
    ensures
        0 <= indices_of(s, kind, n)[i] < n,
        s[indices_of(s, kind, n)[i]] == kind,
    decreases n,
{
    if n > 0 {
        let prev = indices_of(s, kind, n - 1);
        if i < prev.len() {
            lemma_indices_member(s, kind, n - 1, i);
        }
    }
}

} // verus!

verus! {

/// The Grand Chess arrangement on a ten-by-ten board: rooks in the corners,
/// the other pieces one rank further in, pawns on the third rank.
pub open spec fn grand_inner(file: int) -> PieceKind {
    if file == 1 || file == 8 {
        PieceKind::Knight
    } else if file == 2 || file == 7 {
        PieceKind::Bishop
    } else if file == 3 {
        PieceKind::Queen
    } else if file == 4 {
        PieceKind::King
    } else if file == 5 {
        PieceKind::Chancellor
    } else {
        PieceKind::Archbishop
    }
}

pub open spec fn grand_layout(sq: Square) -> Option<Piece> {
    let f = sq.file as int;
    if sq.file >= 10 || sq.rank >= 10 {
        None
    } else if sq.rank == 0 || sq.rank == 9 {
        if f == 0 || f == 9 {
            Some(Piece { color: if sq.rank == 0 { Color::White } else { Color::Black }, kind: PieceKind::Rook })
        } else {
            None
        }
    } else if sq.rank == 1 || sq.rank == 8 {
        if 1 <= f <= 8 {
            Some(Piece { color: if sq.rank == 1 { Color::White } else { Color::Black }, kind: grand_inner(f) })
        } else {
            None
        }
    } else if sq.rank == 2 {
        Some(Piece { color: Color::White, kind: PieceKind::Pawn })
    } else if sq.rank == 7 {
        Some(Piece { color: Color::Black, kind: PieceKind::Pawn })
    } else {
        None
    }
}

proof fn lemma_grand_kings(b: Board, r: nat, f: nat)
    requires
        forall|sq: Square| #[trigger] b.at(sq) == grand_layout(sq),
        r <= 10,
        f <= 10,
        r == 10 ==> f == 0,
    ensures
        count_of(occupied(b, squares_before(10, r, f)), Color::White, PieceKind::King) == if r == 0 {
            0
        } else if r == 1 {
            if f > 4 { 1nat } else { 0nat }
        } else {
            1
        },
        count_of(occupied(b, squares_before(10, r, f)), Color::Black, PieceKind::King) == if r < 8 {
            0
        } else if r == 8 {
            if f > 4 { 1nat } else { 0nat }
        } else {
            1
        },
    decreases r, f,
{
    if f == 0 {
        if r > 0 {
            lemma_grand_kings(b, (r - 1) as nat, 10);
        }
    } else {
        lemma_grand_kings(b, r, (f - 1) as nat);
        let prev = squares_before(10, r, (f - 1) as nat);
        let x = Square { file: (f - 1) as u8, rank: r as u8 };
        assert(squares_before(10, r, f) == prev.push(x));
        lemma_occupied_push(b, prev, x);
        let extra = match b.at(x) {
            Some(p) => seq![(x, p)],
            None => Seq::<(Square, Piece)>::empty(),
        };
        lemma_count_append(occupied(b, prev), extra, Color::White, PieceKind::King);
        lemma_count_append(occupied(b, prev), extra, Color::Black, PieceKind::King);
    }
}

fn grand_inner_exec(file: u8) -> (r: PieceKind)
    ensures
        r == grand_inner(file as int),
{
    if file == 1 || file == 8 {
        PieceKind::Knight
    } else if file == 2 || file == 7 {
        PieceKind::Bishop
    } else if file == 3 {
        PieceKind::Queen
    } else if file == 4 {
        PieceKind::King
    } else if file == 5 {
        PieceKind::Chancellor
    } else {
        PieceKind::Archbishop
    }
}

impl VariantRules {
    fn grand() -> (r: Self)
        ensures
            r.valid(),
            r.name_spec() == "Grand Chess"@,
            r.size_spec().width() == 10,
            r.size_spec().height() == 10,
            forall|sq: Square| #[trigger] r.start_board().at(sq) == grand_layout(sq),
            r.pawn_rank_spec(Color::White) == 2,
            r.pawn_rank_spec(Color::Black) == 7,
            r.promotion_spec() == PromotionRule::Grand,
            forall|c: Color, s: CastleSide| (#[trigger] r.castling_spec().route_of(c, s)) is None,
    {
        let size = BoardSize::grand();
        let mut board = Board::empty(size);
        let mut file: u8 = 0;
        while file < 10
            invariant
                file <= 10,
                board.wf(),
                board.dims() == size,
                size.width() == 10,
                size.height() == 10,
                forall|sq: Square| #[trigger] board.at(sq) == if sq.file < file {
                    grand_layout(sq)
                } else {
                    None
                },
            decreases 10 - file,
        {
            board.set_piece_unchecked(Square::new(file, 2), Some(Piece::new(Color::White, PieceKind::Pawn)));
            board.set_piece_unchecked(Square::new(file, 7), Some(Piece::new(Color::Black, PieceKind::Pawn)));
            if file == 0 || file == 9 {
                board.set_piece_unchecked(Square::new(file, 0), Some(Piece::new(Color::White, PieceKind::Rook)));
                board.set_piece_unchecked(Square::new(file, 9), Some(Piece::new(Color::Black, PieceKind::Rook)));
            } else {
                let kind = grand_inner_exec(file);
                board.set_piece_unchecked(Square::new(file, 1), Some(Piece::new(Color::White, kind)));
                board.set_piece_unchecked(Square::new(file, 8), Some(Piece::new(Color::Black, kind)));
            }
            file += 1;
        }
        proof {
            lemma_grand_kings(board, 10, 0);
            assert(all_squares(board.dims()) == squares_before(10, 10, 0));
        }
        let name = "Grand Chess";
        proof {
            reveal_strlit("Grand Chess");
            assert(trim(name@) == name@);
        }
        let castling = CastlingRules::none();
        let rules = Self::from_parts(name.to_owned(), board, [2, 7], castling, PromotionRule::Grand);
        rules.unwrap()
    }
}

/// Built-in variants.
#[derive(Clone, Copy, Debug, PartialEq, Eq, Hash, Structural)]
pub enum Variant {
    Capablanca,
    Gothic,
    Embassy,
    Schoolbook,
    Bird,
    /// Carrera's historical rules, which do not include castling.
    Carrera,
    Grand,
}

/// The back rank of a Capablanca-family variant.
pub open spec fn back_rank_of(v: Variant) -> Seq<PieceKind> {
    let (r, n, b, q, k, a, c) = (
        PieceKind::Rook,
        PieceKind::Knight,
        PieceKind::Bishop,
        PieceKind::Queen,
        PieceKind::King,
        PieceKind::Archbishop,
        PieceKind::Chancellor,
    );
    match v {
        Variant::Capablanca => seq![r, n, a, b, q, k, b, c, n, r],
        Variant::Gothic => seq![r, n, b, q, c, k, a, b, n, r],
        Variant::Embassy => seq![r, n, b, q, k, c, a, b, n, r],
        Variant::Schoolbook => seq![r, q, n, b, a, k, b, n, c, r],
        Variant::Bird => seq![r, n, b, c, q, k, a, b, n, r],
        Variant::Carrera => seq![r, c, n, b, k, q, b, n, a, r],
        Variant::Grand => Seq::empty(),
    }
}

pub open spec fn variant_name(v: Variant) -> Seq<char> {
    match v {
        Variant::Capablanca => "Capablanca Chess"@,
        Variant::Gothic => "Gothic Chess"@,
        Variant::Embassy => "Embassy Chess"@,
        Variant::Schoolbook => "Schoolbook Chess"@,
        Variant::Bird => "Bird's Chess"@,
        Variant::Carrera => "Carrera's Chess"@,
        Variant::Grand => "Grand Chess"@,
    }
}

/// What the rules of a built-in variant are.
pub open spec fn variant_rules_spec(v: Variant, rules: VariantRules) -> bool {
    &&& rules.valid()
    &&& rules.name_spec() == variant_name(v)
    &&& rules.size_spec().width() == 10
    &&& if v == Variant::Grand {
        &&& rules.size_spec().height() == 10
        &&& forall|sq: Square| #[trigger] rules.start_board().at(sq) == grand_layout(sq)
        &&& rules.pawn_rank_spec(Color::White) == 2
        &&& rules.pawn_rank_spec(Color::Black) == 7
        &&& rules.promotion_spec() == PromotionRule::Grand
        &&& forall|c: Color, s: CastleSide| (#[trigger] rules.castling_spec().route_of(c, s)) is None
    } else {
        &&& rules.size_spec().height() == 8
        &&& forall|sq: Square| #[trigger] rules.start_board().at(sq) == capablanca_layout(back_rank_of(v), sq)
        &&& rules.pawn_rank_spec(Color::White) == 1
        &&& rules.pawn_rank_spec(Color::Black) == 6
        &&& rules.promotion_spec() matches PromotionRule::LastRank { choices } && choices@ == promotion_pieces_spec()
        &&& (v == Variant::Carrera) == !rules.castling_spec().has_any()
        &&& if v == Variant::Carrera {
            forall|c: Color, s: CastleSide| (#[trigger] rules.castling_spec().route_of(c, s)) is None
        } else {
            let routes = capablanca_routes(king_file_of(v), seq![0int, 9]);
            &&& rules.castling_spec().route_of(Color::White, CastleSide::QueenSide) == Some(routes.0)
            &&& rules.castling_spec().route_of(Color::White, CastleSide::KingSide) == Some(routes.1)
            &&& rules.castling_spec().route_of(Color::Black, CastleSide::QueenSide) == Some(mirror_spec(routes.0, 7))
            &&& rules.castling_spec().route_of(Color::Black, CastleSide::KingSide) == Some(mirror_spec(routes.1, 7))
        }
    }
}

/// The file of the king in a built-in Capablanca-family array.
pub open spec fn king_file_of(v: Variant) -> int {
    if v == Variant::Embassy || v == Variant::Carrera {
        4
    } else {
        5
    }
}

/// Two results of `Variant::rules` for one variant agree in every part:
/// name, size, starting placement and material, pawn ranks, castling routes
/// and promotion choices (the name and the list of choices by their
/// contents).
pub proof fn lemma_rules_agree(v: Variant, a: VariantRules, b: VariantRules)
    requires
        variant_rules_spec(v, a),
        variant_rules_spec(v, b),
    ensures
        a.name_spec() == b.name_spec(),
        a.size_spec() == b.size_spec(),
        a.start_board() == b.start_board(),
        forall|c: Color| #[trigger] a.pawn_rank_spec(c) == b.pawn_rank_spec(c),
        forall|c: Color, s: CastleSide| #[trigger] a.castling_spec().route_of(c, s) == b.castling_spec().route_of(c, s),
        forall|c: Color, k: PieceKind| #[trigger] a.initial_spec(c, k) == b.initial_spec(c, k),
        match (a.promotion_spec(), b.promotion_spec()) {
            (PromotionRule::LastRank { choices: x }, PromotionRule::LastRank { choices: y }) => x@ == y@,
            (PromotionRule::Grand, PromotionRule::Grand) => true,
            _ => false,
        },
{
    BoardSize::lemma_ext(a.size_spec(), b.size_spec());
    Board::lemma_ext(a.start_board(), b.start_board());
    assert forall|c: Color| #[trigger] a.pawn_rank_spec(c) == b.pawn_rank_spec(c) by {
        match c {
            Color::White => {},
            Color::Black => {},
        }
    }
}

/// The castling routes of every built-in variant keep king and rook apart.
pub proof fn lemma_builtin_routes_apart(v: Variant, rules: VariantRules)
    requires
        variant_rules_spec(v, rules),
    ensures
        routes_apart(rules.castling_spec()),
{
    assert forall|c: Color, s: CastleSide| (#[trigger] rules.castling_spec().route_of(c, s) matches Some(rt)
        ==> rt.king_to != rt.rook_to) by {
        match c {
            Color::White => {},
            Color::Black => {},
        }
        match s {
            CastleSide::QueenSide => {},
            CastleSide::KingSide => {},
        }
    }
}

impl Variant {
    pub fn rules(self) -> (r: VariantRules)
        ensures
            variant_rules_spec(self, r),
    {
        let (r, n, b, q, k, a, c) = (
            PieceKind::Rook,
            PieceKind::Knight,
            PieceKind::Bishop,
            PieceKind::Queen,
            PieceKind::King,
            PieceKind::Archbishop,
            PieceKind::Chancellor,
        );
        let (name, back, castling): (&str, [PieceKind; 10], bool) = match self {
            Variant::Capablanca => ("Capablanca Chess", [r, n, a, b, q, k, b, c, n, r], true),
            Variant::Gothic => ("Gothic Chess", [r, n, b, q, c, k, a, b, n, r], true),
            Variant::Embassy => ("Embassy Chess", [r, n, b, q, k, c, a, b, n, r], true),
            Variant::Schoolbook => ("Schoolbook Chess", [r, q, n, b, a, k, b, n, c, r], true),
            Variant::Bird => ("Bird's Chess", [r, n, b, c, q, k, a, b, n, r], true),
            Variant::Carrera => ("Carrera's Chess", [r, c, n, b, k, q, b, n, a, r], false),
            Variant::Grand => return VariantRules::grand(),
        };
        proof {
            reveal_strlit("Capablanca Chess");
            reveal_strlit("Gothic Chess");
            reveal_strlit("Embassy Chess");
            reveal_strlit("Schoolbook Chess");
            reveal_strlit("Bird's Chess");
            reveal_strlit("Carrera's Chess");
            assert(back@ =~= back_rank_of(self));
            assert(trim(name@) == name@);
            reveal_with_fuel(indices_of, 11);
            assert(capablanca_error(name@, back@, castling) is None);
        }
        let rules = VariantRules::capablanca_family(name, back, castling).unwrap();
        proof {
            assert(indices_of(back@, PieceKind::King, 10)[0] == king_file_of(self));
            assert(indices_of(back@, PieceKind::Rook, 10) =~= seq![0int, 9]);
            if castling {
                assert(rules.castling_spec().route_of(Color::White, CastleSide::QueenSide) is Some);
            } else {
                assert(!rules.castling_spec().has_any());
            }
        }
        rules
    }

    pub fn starting_position(self) -> (r: Position)
        ensures
            r.wf(),
            variant_rules_spec(self, r.rules_spec()),
            r.board_spec() == r.rules_spec().start_board(),
            r.side_spec() == Color::White,
            forall|c: Color, s: CastleSide| #[trigger] r.rights_spec().allows(c, s)
                == r.rules_spec().castling_spec().route_of(c, s) is Some,
            r.ep_spec() is None,
            r.halfmove_spec() == 0,
            r.fullmove_spec() == 1,
    {
        self.rules().into_starting_position()
    }
}

impl VariantRules {
    /// The variant's starting position.
    pub fn starting_position(self: &Arc<Self>) -> (r: Position)
        requires
            self.valid(),
        ensures
            r.wf(),
            r.rules_spec() == **self,
            r.board_spec() == self.start_board(),
            r.side_spec() == Color::White,
            forall|c: Color, s: CastleSide| #[trigger] r.rights_spec().allows(c, s)
                == self.castling_spec().route_of(c, s) is Some,
            r.ep_spec() is None,
            r.halfmove_spec() == 0,
            r.fullmove_spec() == 1,
    {
        let board = self.starting_board();
        Position::from_starting_board(crate::position::share(self), board)
    }

    pub fn into_starting_position(self) -> (r: Position)
        requires
            self.valid(),
        ensures
            r.wf(),
            r.rules_spec() == self,
            r.board_spec() == self.start_board(),
            r.side_spec() == Color::White,
            forall|c: Color, s: CastleSide| #[trigger] r.rights_spec().allows(c, s)
                == self.castling_spec().route_of(c, s) is Some,
            r.ep_spec() is None,
            r.halfmove_spec() == 0,
            r.fullmove_spec() == 1,
    {
        let shared = Arc::new(self);
        shared.starting_position()
    }
}

} // verus!
