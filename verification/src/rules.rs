//! Variant rules: castling routes and rights, promotion and starting material.
use vstd::prelude::*;
use crate::board::{Board, BoardSize};
use crate::mv::{all_sides, CastleSide};
use crate::text::trim;
use crate::types::{all_colors, promotion_pieces, promotion_pieces_spec, Color, Piece, PieceKind, Square};

verus! {

broadcast use vstd::array::group_array_axioms;

/// The source and destination squares for one castling move.
#[derive(Clone, Copy, Debug, PartialEq, Eq, Hash, Structural)]
pub struct CastleRoute {
    pub king_from: Square,
    pub rook_from: Square,
    pub king_to: Square,
    pub rook_to: Square,
}

impl CastleRoute {
    pub fn new(king_from: Square, rook_from: Square, king_to: Square, rook_to: Square) -> (r: Self)
        ensures
            r == (CastleRoute { king_from, rook_from, king_to, rook_to }),
    {
        CastleRoute { king_from, rook_from, king_to, rook_to }
    }
}

/// The route with every square moved to `rank`.
pub open spec fn mirror_spec(route: CastleRoute, rank: u8) -> CastleRoute {
    CastleRoute {
        king_from: Square { file: route.king_from.file, rank },
        rook_from: Square { file: route.rook_from.file, rank },
        king_to: Square { file: route.king_to.file, rank },
        rook_to: Square { file: route.rook_to.file, rank },
    }
}

fn mirror_route(route: CastleRoute, rank: u8) -> (r: CastleRoute)
    ensures
        r == mirror_spec(route, rank),
{
    CastleRoute::new(
        Square::new(route.king_from.file, rank),
        Square::new(route.rook_from.file, rank),
        Square::new(route.king_to.file, rank),
        Square::new(route.rook_to.file, rank),
    )
}

/// Castling routes indexed by color and side.
#[derive(Clone, Copy, Debug, PartialEq, Eq, Hash)]
pub struct CastlingRules {
    routes: [[Option<CastleRoute>; 2]; 2],
}

impl CastlingRules {
    pub closed spec fn route_of(self, color: Color, side: CastleSide) -> Option<CastleRoute> {
        self.routes@[color.idx()]@[side.idx()]
    }

    pub open spec fn has_any(self) -> bool {
        exists|c: Color, s: CastleSide| (#[trigger] self.route_of(c, s)) is Some
    }

    /// Creates an arbitrary set of routes. Each array is ordered queen side,
    /// then king side.
    pub fn new(white: [Option<CastleRoute>; 2], black: [Option<CastleRoute>; 2]) -> (r: Self)
        ensures
            r.route_of(Color::White, CastleSide::QueenSide) == white[0],
            r.route_of(Color::White, CastleSide::KingSide) == white[1],
            r.route_of(Color::Black, CastleSide::QueenSide) == black[0],
            r.route_of(Color::Black, CastleSide::KingSide) == black[1],
    {
        CastlingRules { routes: [white, black] }
    }

    pub fn none() -> (r: Self)
        ensures
            forall|c: Color, s: CastleSide| (#[trigger] r.route_of(c, s)) is None,
    {
        CastlingRules { routes: [[None, None], [None, None]] }
    }

    /// White's routes as given, and black's routes moved to the last rank.
    pub fn mirrored(ranks: u8, queen_side: CastleRoute, king_side: CastleRoute) -> (r: Self)
        ensures
            r.route_of(Color::White, CastleSide::QueenSide) == Some(queen_side),
            r.route_of(Color::White, CastleSide::KingSide) == Some(king_side),
            r.route_of(Color::Black, CastleSide::QueenSide) == Some(
                mirror_spec(queen_side, if ranks == 0 { 0 } else { (ranks - 1) as u8 }),
            ),
            r.route_of(Color::Black, CastleSide::KingSide) == Some(
                mirror_spec(king_side, if ranks == 0 { 0 } else { (ranks - 1) as u8 }),
            ),
    {
        let last_rank: u8 = if ranks == 0 { 0 } else { ranks - 1 };
        CastlingRules {
            routes: [
                [Some(queen_side), Some(king_side)],
                [Some(mirror_route(queen_side, last_rank)), Some(mirror_route(king_side, last_rank))],
            ],
        }
    }

    pub fn route(&self, color: Color, side: CastleSide) -> (r: Option<CastleRoute>)
        ensures
            r == self.route_of(color, side),
    {
        self.routes[color.index()][side.index()]
    }

    /// Whether any color may castle at all under these rules.
    pub fn any(&self) -> (r: bool)
        ensures
            r == self.has_any(),
    {
        let r = self.route(Color::White, CastleSide::QueenSide).is_some()
            || self.route(Color::White, CastleSide::KingSide).is_some()
            || self.route(Color::Black, CastleSide::QueenSide).is_some()
            || self.route(Color::Black, CastleSide::KingSide).is_some();
        proof {
            if !r {
                assert forall|c: Color, s: CastleSide| (#[trigger] self.route_of(c, s)) is None by {
                    match c {
                        Color::White => match s {
                            CastleSide::QueenSide => {},
                            CastleSide::KingSide => {},
                        },
                        Color::Black => match s {
                            CastleSide::QueenSide => {},
                            CastleSide::KingSide => {},
                        },
                    }
                }
            }
        }
        r
    }
}

/// The bit of a castling right.
pub open spec fn bit_of(color: Color, side: CastleSide) -> u8 {
    match (color, side) {
        (Color::White, CastleSide::QueenSide) => 1,
        (Color::White, CastleSide::KingSide) => 2,
        (Color::Black, CastleSide::QueenSide) => 4,
        (Color::Black, CastleSide::KingSide) => 8,
    }
}

fn right_bit(color: Color, side: CastleSide) -> (r: u8)
    ensures
        r == bit_of(color, side),
{
    match (color, side) {
        (Color::White, CastleSide::QueenSide) => 1,
        (Color::White, CastleSide::KingSide) => 2,
        (Color::Black, CastleSide::QueenSide) => 4,
        (Color::Black, CastleSide::KingSide) => 8,
    }
}

proof fn lemma_bits(x: u8, b: u8, c: u8)
    by (bit_vector)
    requires
        b == 1 || b == 2 || b == 4 || b == 8,
        c == 1 || c == 2 || c == 4 || c == 8,
    ensures
        ((x | b) & c != 0) == ((x & c != 0) || b == c),
        ((x & !b) & c != 0) == ((x & c != 0) && b != c),
{
}

proof fn lemma_bit_of_injective(c1: Color, s1: CastleSide, c2: Color, s2: CastleSide)
    ensures
        (bit_of(c1, s1) == bit_of(c2, s2)) == (c1 == c2 && s1 == s2),
{
}

/// The castling rights retained by a position.
#[derive(Clone, Copy, Debug, PartialEq, Eq, Hash, Structural)]
pub struct CastlingRights(u8);

impl CastlingRights {
    pub closed spec fn allows(self, color: Color, side: CastleSide) -> bool {
        self.0 & bit_of(color, side) != 0
    }

    pub closed spec fn bits(self) -> u8 {
        self.0
    }

    /// No rights at all.
    pub closed spec fn empty_rights() -> CastlingRights {
        CastlingRights(0)
    }

    pub broadcast proof fn lemma_with_right(self, color: Color, side: CastleSide, c: Color, s: CastleSide)
        ensures
            #[trigger] self.with_right(color, side).allows(c, s) == (self.allows(c, s) || (c == color
                && s == side)),
            self.bits() < 16 ==> self.with_right(color, side).bits() < 16,
    {
        lemma_bits(self.0, bit_of(color, side), bit_of(c, s));
        lemma_bit_of_injective(c, s, color, side);
        let x = self.0;
        let bit = bit_of(color, side);
        if x < 16 {
            assert(x | bit < 16) by (bit_vector)
                requires
                    x < 16,
                    bit == 1 || bit == 2 || bit == 4 || bit == 8,
            ;
        }
    }

    pub broadcast proof fn lemma_empty_rights(c: Color, s: CastleSide)
        ensures
            !(#[trigger] CastlingRights::empty_rights().allows(c, s)),
            CastlingRights::empty_rights().bits() == 0,
    {
        let b = bit_of(c, s);
        assert(0u8 & b == 0) by (bit_vector);
    }

    /// These rights with one right removed.
    pub closed spec fn without(self, color: Color, side: CastleSide) -> CastlingRights {
        CastlingRights(self.0 & !bit_of(color, side))
    }

    /// These rights with one right added.
    pub closed spec fn with_right(self, color: Color, side: CastleSide) -> CastlingRights {
        CastlingRights(self.0 | bit_of(color, side))
    }

    pub broadcast proof fn lemma_without(self, color: Color, side: CastleSide, c: Color, s: CastleSide)
        ensures
            #[trigger] self.without(color, side).allows(c, s) == (self.allows(c, s) && !(c == color
                && s == side)),
            self.bits() < 16 ==> self.without(color, side).bits() < 16,
    {
        lemma_bits(self.0, bit_of(color, side), bit_of(c, s));
        lemma_bit_of_injective(c, s, color, side);
        let x = self.0;
        let bit = bit_of(color, side);
        if x < 16 {
            assert(x & !bit < 16) by (bit_vector)
                requires
                    x < 16,
            ;
        }
    }

    /// Rights are determined by which of the four rights they hold.
    pub proof fn lemma_ext(a: CastlingRights, b: CastlingRights)
        requires
            a.bits() < 16,
            b.bits() < 16,
            forall|c: Color, s: CastleSide| a.allows(c, s) == b.allows(c, s),
        ensures
            a == b,
    {
        assert(a.allows(Color::White, CastleSide::QueenSide) == b.allows(Color::White, CastleSide::QueenSide));
        assert(a.allows(Color::White, CastleSide::KingSide) == b.allows(Color::White, CastleSide::KingSide));
        assert(a.allows(Color::Black, CastleSide::QueenSide) == b.allows(Color::Black, CastleSide::QueenSide));
        assert(a.allows(Color::Black, CastleSide::KingSide) == b.allows(Color::Black, CastleSide::KingSide));
        let x = a.0;
        let y = b.0;
        assert(x == y) by (bit_vector)
            requires
                x < 16,
                y < 16,
                (x & 1 != 0) == (y & 1 != 0),
                (x & 2 != 0) == (y & 2 != 0),
                (x & 4 != 0) == (y & 4 != 0),
                (x & 8 != 0) == (y & 8 != 0),
        ;
    }

    pub fn none() -> (r: Self)
        ensures
            forall|c: Color, s: CastleSide| !(#[trigger] r.allows(c, s)),
            r.bits() == 0,
            r == CastlingRights::empty_rights(),
    {
        proof {
            assert forall|c: Color, s: CastleSide| (0u8 & #[trigger] bit_of(c, s)) == 0 by {
                let b = bit_of(c, s);
                assert(0u8 & b == 0) by (bit_vector);
            }
        }
        CastlingRights(0)
    }

    /// The rights granted by every route that the rules define.
    pub fn from_rules(rules: &CastlingRules) -> (r: Self)
        ensures
            forall|c: Color, s: CastleSide| #[trigger] r.allows(c, s) == rules.route_of(c, s) is Some,
            r.bits() < 16,
    {
        let mut rights = Self::none();
        let colors = all_colors();
        let sides = all_sides();
        let mut i: usize = 0;
        while i < 2
            invariant
                i <= 2,
                colors[0] == Color::White,
                colors[1] == Color::Black,
                sides[0] == CastleSide::QueenSide,
                sides[1] == CastleSide::KingSide,
                rights.bits() < 16,
                forall|c: Color, s: CastleSide| #[trigger]
                    rights.allows(c, s) == (c.idx() < i && rules.route_of(c, s) is Some),
            decreases 2 - i,
        {
            let color = colors[i];
            let mut j: usize = 0;
            while j < 2
                invariant
                    i < 2,
                    j <= 2,
                    color == colors[i as int],
                    colors[0] == Color::White,
                    colors[1] == Color::Black,
                    sides[0] == CastleSide::QueenSide,
                    sides[1] == CastleSide::KingSide,
                    rights.bits() < 16,
                    forall|c: Color, s: CastleSide| #[trigger]
                        rights.allows(c, s) == ((c.idx() < i || (c == color && s.idx() < j))
                            && rules.route_of(c, s) is Some),
                decreases 2 - j,
            {
                let side = sides[j];
                if rules.route(color, side).is_some() {
                    rights.set(color, side, true);
                }
                j += 1;
            }
            i += 1;
        }
        rights
    }

    pub fn has(self, color: Color, side: CastleSide) -> (r: bool)
        ensures
            r == self.allows(color, side),
    {
        self.0 & right_bit(color, side) != 0
    }

    /// Grants or removes one right; the others stay as they were.
    pub fn set(&mut self, color: Color, side: CastleSide, enabled: bool)
        ensures
            final(self).allows(color, side) == enabled,
            forall|c: Color, s: CastleSide|
                !(c == color && s == side) ==> #[trigger] final(self).allows(c, s) == old(self).allows(c, s),
            old(self).bits() < 16 ==> final(self).bits() < 16,
            *final(self) == if enabled {
                old(self).with_right(color, side)
            } else {
                old(self).without(color, side)
            },
    {
        let bit = right_bit(color, side);
        let x = self.0;
        if enabled {
            self.0 = x | bit;
        } else {
            self.0 = x & !bit;
        }
        proof {
            assert forall|c: Color, s: CastleSide|
                #[trigger] final(self).allows(c, s) == if c == color && s == side {
                    enabled
                } else {
                    old(self).allows(c, s)
                } by {
                lemma_bits(x, bit, bit_of(c, s));
                lemma_bit_of_injective(c, s, color, side);
            }
            if x < 16 {
                assert(x | bit < 16 && x & !bit < 16) by (bit_vector)
                    requires
                        x < 16,
                        bit == 1 || bit == 2 || bit == 4 || bit == 8,
                ;
            }
        }
    }

    /// Removes both rights of one color.
    pub fn clear_color(&mut self, color: Color)
        ensures
            forall|s: CastleSide| !(#[trigger] final(self).allows(color, s)),
            forall|s: CastleSide| #[trigger] final(self).allows(color.other(), s) == old(self).allows(color.other(), s),
            old(self).bits() < 16 ==> final(self).bits() < 16,
            *final(self) == old(self).without(color, CastleSide::QueenSide).without(color, CastleSide::KingSide),
    {
        self.set(color, CastleSide::QueenSide, false);
        self.set(color, CastleSide::KingSide, false);
        assert forall|s: CastleSide| !(#[trigger] self.allows(color, s)) by {
            match s {
                CastleSide::QueenSide => {},
                CastleSide::KingSide => {},
            }
        }
    }
}

impl Default for CastlingRights {
    fn default() -> (r: Self)
        ensures
            r.bits() == 0,
    {
        CastlingRights::none()
    }
}

/// Promotion behavior for a variant.
#[derive(Clone, Debug, PartialEq, Eq, Hash)]
pub enum PromotionRule {
    /// Promotion is mandatory on the last rank to any listed piece.
    LastRank { choices: Vec<PieceKind> },
    /// Grand Chess: optional in the last three ranks, mandatory on the last,
    /// and restricted to captured original pieces.
    Grand,
}

/// Promotion rules whose choices are usable: at least one, and never a pawn
/// or a king.
pub open spec fn promotion_ok(p: PromotionRule) -> bool {
    match p {
        PromotionRule::LastRank { choices } => choices@.len() > 0 && forall|i: int|
            0 <= i < choices@.len() ==> #[trigger] choices@[i] != PieceKind::Pawn && choices@[i]
                != PieceKind::King,
        PromotionRule::Grand => true,
    }
}

/// A castling route that lies on one rank of the board and starts from the
/// color's king and rook on the given board.
pub open spec fn route_ok(size: BoardSize, color: Color, route: CastleRoute, board: Board) -> bool {
    &&& size.holds(route.king_from)
    &&& size.holds(route.rook_from)
    &&& size.holds(route.king_to)
    &&& size.holds(route.rook_to)
    &&& route.rook_from.rank == route.king_from.rank
    &&& route.king_to.rank == route.king_from.rank
    &&& route.rook_to.rank == route.king_from.rank
    &&& board.at(route.king_from) == Some(Piece { color, kind: PieceKind::King })
    &&& board.at(route.rook_from) == Some(Piece { color, kind: PieceKind::Rook })
}

/// The first failed check when rules are built from these parts, in the
/// order the checks are made.
pub open spec fn parts_error(
    name: Seq<char>,
    board: Board,
    pawn_ranks: [u8; 2],
    castling: CastlingRules,
    promotion: PromotionRule,
) -> Option<RuleError> {
    if trim(name).len() == 0 {
        Some(RuleError::EmptyName)
    } else {
        match color_error(Color::White, board, pawn_ranks[0], castling) {
            Some(e) => Some(e),
            None => match color_error(Color::Black, board, pawn_ranks[1], castling) {
                Some(e) => Some(e),
                None => if !promotion_ok(promotion) {
                    Some(RuleError::InvalidPromotionChoices)
                } else {
                    None
                },
            },
        }
    }
}

/// The first failed check for one color: its king, its pawn rank, then its
/// queen-side and king-side routes.
pub open spec fn color_error(color: Color, board: Board, pawn_rank: u8, castling: CastlingRules) -> Option<RuleError> {
    let size = board.dims();
    if board.count_spec(color, PieceKind::King) != 1 {
        Some(RuleError::ExactlyOneKing(color))
    } else if pawn_rank >= size.height() {
        Some(RuleError::InvalidPawnStartRank { color, rank: pawn_rank })
    } else if castling.route_of(color, CastleSide::QueenSide) matches Some(rt) && !route_ok(size, color, rt, board) {
        Some(RuleError::InvalidCastlingRoute { color })
    } else if castling.route_of(color, CastleSide::KingSide) matches Some(rt) && !route_ok(size, color, rt, board) {
        Some(RuleError::InvalidCastlingRoute { color })
    } else {
        None
    }
}

/// The position of a piece kind in material tables.
pub open spec fn kind_index(kind: PieceKind) -> int {
    match kind {
        PieceKind::Pawn => 0,
        PieceKind::Knight => 1,
        PieceKind::Bishop => 2,
        PieceKind::Rook => 3,
        PieceKind::Queen => 4,
        PieceKind::King => 5,
        PieceKind::Archbishop => 6,
        PieceKind::Chancellor => 7,
    }
}

pub fn piece_index(kind: PieceKind) -> (r: usize)
    ensures
        r == kind_index(kind),
{
    match kind {
        PieceKind::Pawn => 0,
        PieceKind::Knight => 1,
        PieceKind::Bishop => 2,
        PieceKind::Rook => 3,
        PieceKind::Queen => 4,
        PieceKind::King => 5,
        PieceKind::Archbishop => 6,
        PieceKind::Chancellor => 7,
    }
}

/// Castling routes that never send king and rook to one square.
pub open spec fn routes_apart(castling: CastlingRules) -> bool {
    forall|c: Color, s: CastleSide| #[trigger] castling.route_of(c, s) matches Some(rt) ==> rt.king_to != rt.rook_to
}

/// Immutable rules and initial material for a chess variant.
#[derive(Clone, Debug, PartialEq, Eq)]
pub struct VariantRules {
    name: String,
    board_size: BoardSize,
    starting_board: Board,
    pawn_start_ranks: [u8; 2],
    castling: CastlingRules,
    promotion: PromotionRule,
    initial_material: [[usize; 8]; 2],
}

impl VariantRules {
    pub closed spec fn name_spec(self) -> Seq<char> {
        self.name@
    }

    pub closed spec fn size_spec(self) -> BoardSize {
        self.board_size
    }

    pub closed spec fn start_board(self) -> Board {
        self.starting_board
    }

    pub closed spec fn pawn_rank_spec(self, color: Color) -> u8 {
        self.pawn_start_ranks@[color.idx()]
    }

    pub closed spec fn castling_spec(self) -> CastlingRules {
        self.castling
    }

    pub closed spec fn promotion_spec(self) -> PromotionRule {
        self.promotion
    }

    pub closed spec fn initial_spec(self, color: Color, kind: PieceKind) -> nat {
        self.initial_material@[color.idx()]@[kind_index(kind)] as nat
    }

    /// Rules that passed every check made when they were built.
    pub open spec fn valid(self) -> bool {
        &&& self.start_board().wf()
        &&& self.size_spec() == self.start_board().dims()
        &&& parts_error(
            self.name_spec(),
            self.start_board(),
            [self.pawn_rank_spec(Color::White), self.pawn_rank_spec(Color::Black)],
            self.castling_spec(),
            self.promotion_spec(),
        ) is None
        &&& forall|c: Color, k: PieceKind| #[trigger] self.initial_spec(c, k) == self.start_board().count_spec(c, k)
    }

    /// What valid rules guarantee about their parts.
    pub proof fn lemma_valid_parts(self, color: Color, side: CastleSide)
        requires
            self.valid(),
        ensures
            self.castling_spec().route_of(color, side) matches Some(rt) ==> route_ok(
                self.size_spec(),
                color,
                rt,
                self.start_board(),
            ),
            self.pawn_rank_spec(color) < self.size_spec().height(),
            self.start_board().count_spec(color, PieceKind::King) == 1,
            promotion_ok(self.promotion_spec()),
            trim(self.name_spec()).len() > 0,
    {
        let b = self.start_board();
        assert(color_error(Color::White, b, self.pawn_rank_spec(Color::White), self.castling_spec()) is None);
        assert(color_error(Color::Black, b, self.pawn_rank_spec(Color::Black), self.castling_spec()) is None);
        match side {
            CastleSide::QueenSide => {},
            CastleSide::KingSide => {},
        }
    }

    /// Builds fully custom rules. This is intended for applications that need
    /// positions beyond the built-in presets.
    pub fn custom(
        name: &str,
        starting_board: Board,
        pawn_start_ranks: [u8; 2],
        castling: CastlingRules,
        promotion: PromotionRule,
    ) -> (r: Result<Self, RuleError>)
        requires
            starting_board.wf(),
        ensures
            r is Err <==> parts_error(name@, starting_board, pawn_start_ranks, castling, promotion) is Some,
            r matches Err(e) ==> parts_error(name@, starting_board, pawn_start_ranks, castling, promotion) == Some(e),
            r matches Ok(v) ==> v.valid() && v.name_spec() == name@ && v.start_board() == starting_board
                && v.pawn_rank_spec(Color::White) == pawn_start_ranks[0]
                && v.pawn_rank_spec(Color::Black) == pawn_start_ranks[1]
                && v.castling_spec() == castling && v.promotion_spec() == promotion,
    {
        Self::from_parts(name.to_owned(), starting_board, pawn_start_ranks, castling, promotion)
    }

    pub(crate) fn from_parts(
        name: String,
        starting_board: Board,
        pawn_start_ranks: [u8; 2],
        castling: CastlingRules,
        promotion: PromotionRule,
    ) -> (r: Result<Self, RuleError>)
        requires
            starting_board.wf(),
        ensures
            r is Err <==> parts_error(name@, starting_board, pawn_start_ranks, castling, promotion) is Some,
            r matches Err(e) ==> parts_error(name@, starting_board, pawn_start_ranks, castling, promotion) == Some(e),
            r matches Ok(v) ==> v.valid() && v.name_spec() == name@ && v.start_board() == starting_board
                && v.pawn_rank_spec(Color::White) == pawn_start_ranks[0]
                && v.pawn_rank_spec(Color::Black) == pawn_start_ranks[1]
                && v.castling_spec() == castling && v.promotion_spec() == promotion,
    {
        let chars = crate::text::chars_of(name.as_str());
        let trimmed = crate::text::trimmed(&chars);
        if trimmed.len() == 0 {
            return Err(RuleError::EmptyName);
        }
        let size = starting_board.size();
        match check_color(Color::White, &starting_board, pawn_start_ranks[0], &castling) {
            Err(e) => return Err(e),
            Ok(()) => {},
        }
        match check_color(Color::Black, &starting_board, pawn_start_ranks[1], &castling) {
            Err(e) => return Err(e),
            Ok(()) => {},
        }
        if !check_promotion(&promotion) {
            return Err(RuleError::InvalidPromotionChoices);
        }
        let mut initial_material: [[usize; 8]; 2] = [[0; 8]; 2];
        let kinds = [
            PieceKind::Pawn,
            PieceKind::Knight,
            PieceKind::Bishop,
            PieceKind::Rook,
            PieceKind::Queen,
            PieceKind::King,
            PieceKind::Archbishop,
            PieceKind::Chancellor,
        ];
        let colors = all_colors();
        let mut ci: usize = 0;
        while ci < 2
            invariant
                ci <= 2,
                starting_board.wf(),
                colors[0] == Color::White,
                colors[1] == Color::Black,
                forall|k: int| 0 <= k < 8 ==> kind_index(#[trigger] kinds[k]) == k,
                forall|c: Color, k: PieceKind| c.idx() < ci ==> #[trigger] initial_material@[c.idx()]@[kind_index(k)]
                    == starting_board.count_spec(c, k),
            decreases 2 - ci,
        {
            let color = colors[ci];
            let mut ki: usize = 0;
            while ki < 8
                invariant
                    ci < 2,
                    ki <= 8,
                    starting_board.wf(),
                    color == colors[ci as int],
                    colors[0] == Color::White,
                    colors[1] == Color::Black,
                    forall|k: int| 0 <= k < 8 ==> kind_index(#[trigger] kinds[k]) == k,
                    forall|c: Color, k: PieceKind|
                        (c.idx() < ci || (c.idx() == ci && kind_index(k) < ki)) ==> #[trigger] initial_material@[c.idx()]@[kind_index(k)]
                            == starting_board.count_spec(c, k),
                decreases 8 - ki,
            {
                let kind = kinds[ki];
                let n = starting_board.count(color, kind);
                let mut row = initial_material[ci];
                row[ki] = n;
                initial_material[ci] = row;
                ki += 1;
            }
            ci += 1;
        }
        Ok(VariantRules {
            name,
            board_size: size,
            starting_board,
            pawn_start_ranks,
            castling,
            promotion,
            initial_material,
        })
    }

    pub fn name(&self) -> (r: &str)
        ensures
            r@ == self.name_spec(),
    {
        self.name.as_str()
    }

    pub fn board_size(&self) -> (r: BoardSize)
        ensures
            r == self.size_spec(),
    {
        self.board_size
    }

    pub fn pawn_start_rank(&self, color: Color) -> (r: u8)
        ensures
            r == self.pawn_rank_spec(color),
    {
        self.pawn_start_ranks[color.index()]
    }

    pub fn castling(&self) -> (r: &CastlingRules)
        ensures
            *r == self.castling_spec(),
    {
        &self.castling
    }

    pub fn promotion(&self) -> (r: &PromotionRule)
        ensures
            *r == self.promotion_spec(),
    {
        &self.promotion
    }

    pub fn starting_board(&self) -> (r: Board)
        ensures
            r == self.start_board(),
    {
        self.starting_board
    }

    pub fn initial_count(&self, color: Color, kind: PieceKind) -> (r: usize)
        ensures
            r == self.initial_spec(color, kind),
    {
        self.initial_material[color.index()][piece_index(kind)]
    }
}

fn check_promotion(promotion: &PromotionRule) -> (r: bool)
    ensures
        r == promotion_ok(*promotion),
{
    match promotion {
        PromotionRule::LastRank { choices } => {
            if choices.len() == 0 {
                return false;
            }
            let mut i: usize = 0;
            while i < choices.len()
                invariant
                    i <= choices@.len(),
                    choices@.len() > 0,
                    *promotion == (PromotionRule::LastRank { choices: *choices }),
                    forall|j: int| 0 <= j < i ==> #[trigger] choices@[j] != PieceKind::Pawn
                        && choices@[j] != PieceKind::King,
                decreases choices.len() - i,
            {
                if choices[i] == PieceKind::Pawn || choices[i] == PieceKind::King {
                    return false;
                }
                i += 1;
            }
            true
        },
        PromotionRule::Grand => true,
    }
}

/// Checks one color's king count, pawn start rank and routes.
fn check_color(color: Color, board: &Board, pawn_rank: u8, castling: &CastlingRules) -> (r: Result<(), RuleError>)
    requires
        board.wf(),
    ensures
        r is Err <==> color_error(color, *board, pawn_rank, *castling) is Some,
        r matches Err(e) ==> color_error(color, *board, pawn_rank, *castling) == Some(e),
{
    let size = board.size();
    if board.count(color, PieceKind::King) != 1 {
        return Err(RuleError::ExactlyOneKing(color));
    }
    if pawn_rank >= size.ranks() {
        return Err(RuleError::InvalidPawnStartRank { color, rank: pawn_rank });
    }
    match castling.route(color, CastleSide::QueenSide) {
        Some(route) => {
            match validate_route(size, color, route, board) {
                Err(e) => return Err(e),
                Ok(()) => {},
            }
        },
        None => {},
    }
    match castling.route(color, CastleSide::KingSide) {
        Some(route) => {
            match validate_route(size, color, route, board) {
                Err(e) => return Err(e),
                Ok(()) => {},
            }
        },
        None => {},
    }
    Ok(())
}

fn same_piece(a: Option<Piece>, b: Piece) -> (r: bool)
    ensures
        r == (a == Some(b)),
{
    match a {
        Some(p) => p == b,
        None => false,
    }
}

fn validate_route(size: BoardSize, color: Color, route: CastleRoute, board: &Board) -> (r: Result<(), RuleError>)
    requires
        board.wf(),
        size == board.dims(),
    ensures
        r is Ok <==> route_ok(size, color, route, *board),
        r matches Err(e) ==> e == (RuleError::InvalidCastlingRoute { color }),
{
    if !size.contains(route.king_from) || !size.contains(route.rook_from) || !size.contains(route.king_to)
        || !size.contains(route.rook_to) || route.rook_from.rank != route.king_from.rank
        || route.king_to.rank != route.king_from.rank || route.rook_to.rank != route.king_from.rank {
        return Err(RuleError::InvalidCastlingRoute { color });
    }
    if !same_piece(board.piece_at(route.king_from), Piece::new(color, PieceKind::King))
        || !same_piece(board.piece_at(route.rook_from), Piece::new(color, PieceKind::Rook)) {
        return Err(RuleError::InvalidCastlingRoute { color });
    }
    Ok(())
}

#[derive(Clone, Copy, Debug, PartialEq, Eq)]
pub enum RuleError {
    EmptyName,
    ExactlyOneBackRankPiece(PieceKind),
    KingMustBeBetweenTwoRooks,
    InvalidCastlingTarget,
    ExactlyOneKing(Color),
    InvalidPawnStartRank { color: Color, rank: u8 },
    InvalidCastlingRoute { color: Color },
    InvalidPromotionChoices,
}

} // verus!
