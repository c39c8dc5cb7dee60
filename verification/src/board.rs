//! Board dimensions and piece placement.
use vstd::prelude::*;
use crate::types::{Color, Piece, PieceKind, Square};

verus! {

broadcast use vstd::array::group_array_axioms;

/// Rectangular board dimensions supported by the engine: one to ten files
/// and one to ten ranks.
#[derive(Clone, Copy, Debug, PartialEq, Eq, Hash, Structural)]
pub struct BoardSize {
    files: u8,
    ranks: u8,
}

impl BoardSize {
    pub closed spec fn width(self) -> u8 {
        self.files
    }

    pub closed spec fn height(self) -> u8 {
        self.ranks
    }

    pub open spec fn valid(self) -> bool {
        1 <= self.width() <= 10 && 1 <= self.height() <= 10
    }

    pub open spec fn holds(self, sq: Square) -> bool {
        sq.file < self.width() && sq.rank < self.height()
    }

    /// Two sizes with the same files and ranks are equal.
    pub proof fn lemma_ext(a: BoardSize, b: BoardSize)
        requires
            a.width() == b.width(),
            a.height() == b.height(),
        ensures
            a == b,
    {
    }

    pub fn new(files: u8, ranks: u8) -> (r: Result<Self, BoardError>)
        ensures
            r is Ok <==> (1 <= files <= 10 && 1 <= ranks <= 10),
            r matches Ok(s) ==> s.width() == files && s.height() == ranks,
            r matches Err(e) ==> e == (BoardError::InvalidSize { files, ranks }),
    {
        if files == 0 || ranks == 0 || files > 10 || ranks > 10 {
            return Err(BoardError::InvalidSize { files, ranks });
        }
        Ok(BoardSize { files, ranks })
    }

    /// The ten-by-eight board of the Capablanca family.
    pub fn capablanca() -> (r: Self)
        ensures
            r.width() == 10,
            r.height() == 8,
            r.valid(),
    {
        BoardSize { files: 10, ranks: 8 }
    }

    /// The ten-by-ten board of Grand Chess.
    pub fn grand() -> (r: Self)
        ensures
            r.width() == 10,
            r.height() == 10,
            r.valid(),
    {
        BoardSize { files: 10, ranks: 10 }
    }

    pub fn files(self) -> (r: u8)
        ensures
            r == self.width(),
    {
        self.files
    }

    pub fn ranks(self) -> (r: u8)
        ensures
            r == self.height(),
    {
        self.ranks
    }

    pub fn contains(self, square: Square) -> (r: bool)
        ensures
            r == self.holds(square),
    {
        square.file < self.files && square.rank < self.ranks
    }
}

/// The squares of a board with `files` files, rank by rank from the first
/// rank and file by file within a rank, that come before file `f` of rank `r`.
pub open spec fn squares_before(files: nat, r: nat, f: nat) -> Seq<Square>
    decreases r, f,
{
    if f == 0 {
        if r == 0 {
            Seq::empty()
        } else {
            squares_before(files, (r - 1) as nat, files)
        }
    } else {
        squares_before(files, r, (f - 1) as nat).push(Square { file: (f - 1) as u8, rank: r as u8 })
    }
}

/// Every square of a board of the given size, in scanning order.
pub open spec fn all_squares(size: BoardSize) -> Seq<Square> {
    squares_before(size.width() as nat, size.height() as nat, 0)
}

/// The squares of `sqs` that hold a piece, with the piece, in order.
pub open spec fn occupied(board: Board, sqs: Seq<Square>) -> Seq<(Square, Piece)>
    decreases sqs.len(),
{
    if sqs.len() == 0 {
        Seq::empty()
    } else {
        let rest = occupied(board, sqs.drop_last());
        match board.at(sqs.last()) {
            Some(p) => rest.push((sqs.last(), p)),
            None => rest,
        }
    }
}

/// Scanning `sqs` in order, the first king of `color` found is on the first
/// of those squares that holds one; none is found exactly when none of them
/// holds one, which is when the count of such kings is zero.
proof fn lemma_first_king_scan(b: Board, sqs: Seq<Square>, color: Color)
    ensures
        match first_king(occupied(b, sqs), color) {
            Some(s) => exists|i: int|
                0 <= i < sqs.len() && sqs[i] == s && b.at(s) == Some(Piece { color, kind: PieceKind::King })
                    && forall|j: int| 0 <= j < i ==> b.at(#[trigger] sqs[j]) != Some(Piece { color, kind: PieceKind::King }),
            None => forall|j: int|
                0 <= j < sqs.len() ==> b.at(#[trigger] sqs[j]) != Some(Piece { color, kind: PieceKind::King }),
        },
        (first_king(occupied(b, sqs), color) is None) <==> count_of(occupied(b, sqs), color, PieceKind::King) == 0,
    decreases sqs.len(),
{
    let king = Piece { color, kind: PieceKind::King };
    if sqs.len() > 0 {
        let rest = sqs.drop_last();
        let x = sqs.last();
        lemma_first_king_scan(b, rest, color);
        let o = occupied(b, rest);
        let whole = occupied(b, sqs);
        assert(forall|j: int| 0 <= j < rest.len() ==> sqs[j] == #[trigger] rest[j]);
        assert(sqs[sqs.len() - 1] == x);
        match b.at(x) {
            Some(p) => {
                assert(whole == o.push((x, p)));
                assert(whole.drop_last() =~= o);
                assert(whole.last() == (x, p));
            },
            None => {
                assert(whole == o);
            },
        }
        match first_king(o, color) {
            Some(s) => {
                let i = choose|i: int|
                    0 <= i < rest.len() && rest[i] == s && b.at(s) == Some(king) && forall|j: int|
                        0 <= j < i ==> b.at(#[trigger] rest[j]) != Some(king);
                assert(sqs[i] == s);
                assert(first_king(whole, color) == Some(s));
                assert forall|j: int| 0 <= j < i implies b.at(#[trigger] sqs[j]) != Some(king) by {
                    assert(sqs[j] == rest[j]);
                }
            },
            None => {
                assert forall|j: int| 0 <= j < rest.len() implies b.at(#[trigger] sqs[j]) != Some(king) by {
                    assert(sqs[j] == rest[j]);
                }
                if b.at(x) == Some(king) {
                    let i = sqs.len() - 1;
                    assert(first_king(whole, color) == Some(x));
                    assert(sqs[i] == x);
                }
            },
        }
    }
}

/// The number of entries of `list` holding a piece of the given color and kind.
pub open spec fn count_of(list: Seq<(Square, Piece)>, color: Color, kind: PieceKind) -> nat
    decreases list.len(),
{
    if list.len() == 0 {
        0
    } else {
        count_of(list.drop_last(), color, kind) + if list.last().1 == (Piece { color, kind }) {
            1nat
        } else {
            0nat
        }
    }
}

/// The square of the first king of `color` in `list`.
pub open spec fn first_king(list: Seq<(Square, Piece)>, color: Color) -> Option<Square>
    decreases list.len(),
{
    if list.len() == 0 {
        None
    } else {
        match first_king(list.drop_last(), color) {
            Some(s) => Some(s),
            None => if list.last().1 == (Piece { color, kind: PieceKind::King }) {
                Some(list.last().0)
            } else {
                None
            },
        }
    }
}

pub proof fn lemma_occupied_push(board: Board, sqs: Seq<Square>, x: Square)
    ensures
        occupied(board, sqs.push(x)) == occupied(board, sqs) + match board.at(x) {
            Some(p) => seq![(x, p)],
            None => Seq::empty(),
        },
{
    assert(sqs.push(x).drop_last() =~= sqs);
    match board.at(x) {
        Some(p) => {
            assert(occupied(board, sqs).push((x, p)) =~= occupied(board, sqs) + seq![(x, p)]);
        },
        None => {
            assert(occupied(board, sqs) =~= occupied(board, sqs) + Seq::<(Square, Piece)>::empty());
        },
    }
}

pub proof fn lemma_count_append(list: Seq<(Square, Piece)>, extra: Seq<(Square, Piece)>, color: Color, kind: PieceKind)
    requires
        extra.len() <= 1,
    ensures
        count_of(list + extra, color, kind) == count_of(list, color, kind) + if extra.len() == 1
            && extra[0].1 == (Piece { color, kind }) {
            1nat
        } else {
            0nat
        },
{
    if extra.len() == 1 {
        assert((list + extra).drop_last() =~= list);
        assert((list + extra).last() == extra[0]);
    } else {
        assert(list + extra =~= list);
    }
}

/// Whether `a` comes before `b` when squares are read rank by rank from the
/// first rank, each rank from the first file.
pub open spec fn scans_before(a: Square, b: Square) -> bool {
    a.rank < b.rank || (a.rank == b.rank && a.file < b.file)
}

/// `squares_before` lists, strictly in scanning order, exactly the squares
/// of the board's files that come before file `f` of rank `r`.
proof fn lemma_squares_before_order(files: nat, r: nat, f: nat)
    requires
        files <= 10,
        r <= 10,
        f <= files,
    ensures
        forall|i: int|
            0 <= i < squares_before(files, r, f).len() ==> (#[trigger] squares_before(files, r, f)[i]).file < files
                && (squares_before(files, r, f)[i].rank < r || (squares_before(files, r, f)[i].rank == r
                && squares_before(files, r, f)[i].file < f)),
        forall|i: int, j: int|
            0 <= i < j < squares_before(files, r, f).len() ==> scans_before(
                #[trigger] squares_before(files, r, f)[i],
                #[trigger] squares_before(files, r, f)[j],
            ),
        forall|s: Square|
            s.file < files && (s.rank < r || (s.rank == r && s.file < f)) ==> #[trigger] squares_before(
                files,
                r,
                f,
            ).contains(s),
    decreases r, f,
{
    let sq = squares_before(files, r, f);
    if f == 0 {
        if r > 0 {
            lemma_squares_before_order(files, (r - 1) as nat, files);
            assert(sq == squares_before(files, (r - 1) as nat, files));
        }
    } else {
        let prev = squares_before(files, r, (f - 1) as nat);
        lemma_squares_before_order(files, r, (f - 1) as nat);
        let x = Square { file: (f - 1) as u8, rank: r as u8 };
        assert(sq == prev.push(x));
        assert(x.file == f - 1 && x.rank == r);
        assert forall|i: int| 0 <= i < sq.len() implies (#[trigger] sq[i]).file < files && (sq[i].rank < r || (
        sq[i].rank == r && sq[i].file < f)) by {
            if i < prev.len() {
                assert(sq[i] == prev[i]);
            }
        }
        assert forall|i: int, j: int| 0 <= i < j < sq.len() implies scans_before(#[trigger] sq[i], #[trigger] sq[j]) by {
            assert(sq[i] == prev[i]);
            if j < prev.len() {
                assert(sq[j] == prev[j]);
            }
        }
        assert forall|s: Square| s.file < files && (s.rank < r || (s.rank == r && s.file < f)) implies #[trigger] sq.contains(
            s,
        ) by {
            if s.rank == r && s.file == f - 1 {
                assert(s == x);
                assert(sq[prev.len() as int] == x);
            } else {
                assert(prev.contains(s));
                let k = choose|k: int| 0 <= k < prev.len() && prev[k] == s;
                assert(sq[k] == s);
            }
        }
    }
}

/// The squares of a supported size, in scanning order: each lies on the
/// board, each comes strictly before the next, and every square of the board
/// is among them.
pub proof fn lemma_all_squares_order(size: BoardSize)
    requires
        size.valid(),
    ensures
        forall|i: int| 0 <= i < all_squares(size).len() ==> size.holds(#[trigger] all_squares(size)[i]),
        forall|i: int, j: int|
            0 <= i < j < all_squares(size).len() ==> scans_before(
                #[trigger] all_squares(size)[i],
                #[trigger] all_squares(size)[j],
            ),
        forall|s: Square| size.holds(s) ==> #[trigger] all_squares(size).contains(s),
{
    lemma_squares_before_order(size.width() as nat, size.height() as nat, 0);
}

/// The count of `piece` among the occupied squares of `sqs` grows by one
/// for the last square when it holds `piece`.
proof fn lemma_count_occupied_last(b: Board, sqs: Seq<Square>, piece: Piece)
    requires
        sqs.len() > 0,
    ensures
        count_of(occupied(b, sqs), piece.color, piece.kind) == count_of(
            occupied(b, sqs.drop_last()),
            piece.color,
            piece.kind,
        ) + if b.at(sqs.last()) == Some(piece) {
            1int
        } else {
            0int
        },
{
    let rest = occupied(b, sqs.drop_last());
    match b.at(sqs.last()) {
        Some(p) => {
            assert(rest.push((sqs.last(), p)).drop_last() =~= rest);
        },
        None => {},
    }
}

/// Two boards differing at most on `x` count `piece` alike over squares
/// listed once each, but for what `x` holds on each.
proof fn lemma_count_one_change(b: Board, b2: Board, sqs: Seq<Square>, x: Square, piece: Piece)
    requires
        forall|s: Square| s != x ==> b.at(s) == b2.at(s),
        forall|i: int, j: int| 0 <= i < j < sqs.len() ==> sqs[i] != sqs[j],
    ensures
        count_of(occupied(b2, sqs), piece.color, piece.kind) + (if sqs.contains(x) && b.at(x) == Some(piece) {
            1int
        } else {
            0int
        }) == count_of(occupied(b, sqs), piece.color, piece.kind) + (if sqs.contains(x) && b2.at(x) == Some(
            piece,
        ) {
            1int
        } else {
            0int
        }),
    decreases sqs.len(),
{
    if sqs.len() > 0 {
        let rest = sqs.drop_last();
        let y = sqs.last();
        assert forall|i: int, j: int| 0 <= i < j < rest.len() implies rest[i] != rest[j] by {
            assert(rest[i] == sqs[i] && rest[j] == sqs[j]);
        }
        lemma_count_one_change(b, b2, rest, x, piece);
        lemma_count_occupied_last(b, sqs, piece);
        lemma_count_occupied_last(b2, sqs, piece);
        assert(sqs[sqs.len() - 1] == y);
        if y == x {
            assert(!rest.contains(x)) by {
                if rest.contains(x) {
                    let k = choose|k: int| 0 <= k < rest.len() && rest[k] == x;
                    assert(sqs[k] == x);
                }
            }
            assert(sqs.contains(x));
        } else {
            assert(sqs.contains(x) == rest.contains(x)) by {
                if sqs.contains(x) {
                    let k = choose|k: int| 0 <= k < sqs.len() && sqs[k] == x;
                    assert(k < rest.len());
                    assert(rest[k] == x);
                }
                if rest.contains(x) {
                    let k = choose|k: int| 0 <= k < rest.len() && rest[k] == x;
                    assert(sqs[k] == x);
                }
            }
        }
    }
}

/// A fixed-capacity board with runtime dimensions.
#[derive(Clone, Copy, Debug, PartialEq, Eq, Hash)]
pub struct Board {
    size: BoardSize,
    squares: [Option<Piece>; 100],
}

impl Board {
    pub closed spec fn dims(self) -> BoardSize {
        self.size
    }

    /// The piece on `sq`; squares outside the board are empty.
    pub closed spec fn at(self, sq: Square) -> Option<Piece> {
        if self.size.holds(sq) {
            self.squares@[sq.index_of()]
        } else {
            None
        }
    }

    /// The board with `sq` (a square of the board) holding `piece`.
    pub closed spec fn with(self, sq: Square, piece: Option<Piece>) -> Board {
        if self.size.holds(sq) && self.size.valid() {
            Board { size: self.size, squares: vstd::array::spec_array_update(self.squares, sq.index_of(), piece) }
        } else {
            self
        }
    }

    /// The size is supported and storage outside the board stays empty.
    pub closed spec fn wf(self) -> bool {
        &&& self.size.valid()
        &&& forall|f: int, r: int|
            0 <= f < 10 && 0 <= r < 10 && !(f < self.size.width() && r < self.size.height())
                ==> (#[trigger] self.squares@[r * 10 + f]) is None
    }

    pub open spec fn count_spec(self, color: Color, kind: PieceKind) -> nat {
        count_of(occupied(self, all_squares(self.dims())), color, kind)
    }

    pub open spec fn king_spec(self, color: Color) -> Option<Square> {
        first_king(occupied(self, all_squares(self.dims())), color)
    }

    /// `king_square` finds the first square, in the board's scanning order
    /// (rank by rank, each from file `a`), that holds a king of `color`; it
    /// finds none exactly when the board holds no such king.
    pub proof fn lemma_king_square_first(self, color: Color)
        ensures
            match self.king_spec(color) {
                Some(s) => exists|i: int|
                    0 <= i < all_squares(self.dims()).len() && all_squares(self.dims())[i] == s && self.at(s) == Some(
                        Piece { color, kind: PieceKind::King },
                    ) && forall|j: int|
                        0 <= j < i ==> self.at(#[trigger] all_squares(self.dims())[j]) != Some(
                            Piece { color, kind: PieceKind::King },
                        ),
                None => forall|j: int|
                    0 <= j < all_squares(self.dims()).len() ==> self.at(#[trigger] all_squares(self.dims())[j])
                        != Some(Piece { color, kind: PieceKind::King }),
            },
            (self.king_spec(color) is None) <==> self.count_spec(color, PieceKind::King) == 0,
    {
        lemma_first_king_scan(self, all_squares(self.dims()), color);
    }

    /// With at most one king of each color.
    pub open spec fn single_kings(self) -> bool {
        &&& self.count_spec(Color::White, PieceKind::King) <= 1
        &&& self.count_spec(Color::Black, PieceKind::King) <= 1
    }

    /// `king_square` in rank-then-file terms: the square found holds a king
    /// of `color` and no square of the board before it in rank-then-file
    /// order does; none is found exactly when the board holds no such king.
    pub proof fn lemma_king_square_rank_file(self, color: Color)
        requires
            self.wf(),
        ensures
            self.king_spec(color) matches Some(s) ==> {
                &&& self.dims().holds(s)
                &&& self.at(s) == Some(Piece { color, kind: PieceKind::King })
                &&& forall|sq: Square|
                    self.dims().holds(sq) && scans_before(sq, s) ==> self.at(sq) != Some(
                        Piece { color, kind: PieceKind::King },
                    )
            },
            (self.king_spec(color) is None) <==> self.count_spec(color, PieceKind::King) == 0,
    {
        self.lemma_king_square_first(color);
        let sqs = all_squares(self.dims());
        lemma_all_squares_order(self.dims());
        if let Some(s) = self.king_spec(color) {
            let i = choose|i: int|
                0 <= i < sqs.len() && sqs[i] == s && self.at(s) == Some(Piece { color, kind: PieceKind::King })
                    && forall|j: int|
                    0 <= j < i ==> self.at(#[trigger] sqs[j]) != Some(Piece { color, kind: PieceKind::King });
            assert(self.dims().holds(sqs[i]));
            assert forall|sq: Square| self.dims().holds(sq) && scans_before(sq, s) implies self.at(sq) != Some(
                Piece { color, kind: PieceKind::King },
            ) by {
                assert(sqs.contains(sq));
                let j = choose|j: int| 0 <= j < sqs.len() && sqs[j] == sq;
                if j >= i {
                    if j > i {
                        assert(scans_before(sqs[i], sqs[j]));
                    }
                    assert(false);
                }
            }
        }
    }

    /// Putting `put` on a square of the board changes the count of `piece`
    /// by what arrives less what was there.
    pub proof fn lemma_count_with(self, sq: Square, put: Option<Piece>, piece: Piece)
        requires
            self.wf(),
            self.dims().holds(sq),
        ensures
            self.with(sq, put).count_spec(piece.color, piece.kind) + (if self.at(sq) == Some(piece) {
                1int
            } else {
                0int
            }) == self.count_spec(piece.color, piece.kind) + (if put == Some(piece) {
                1int
            } else {
                0int
            }),
    {
        lemma_all_squares_order(self.dims());
        let b2 = self.with(sq, put);
        assert forall|s: Square| s != sq implies self.at(s) == b2.at(s) by {
            self.lemma_with(sq, put, s);
        }
        self.lemma_with(sq, put, sq);
        let sqs = all_squares(self.dims());
        assert forall|i: int, j: int| 0 <= i < j < sqs.len() implies sqs[i] != sqs[j] by {
            assert(scans_before(sqs[i], sqs[j]));
        }
        assert(sqs.contains(sq));
        lemma_count_one_change(self, b2, sqs, sq, piece);
    }

    pub broadcast proof fn lemma_with(self, sq: Square, piece: Option<Piece>, other: Square)
        requires
            self.wf(),
            self.dims().holds(sq),
        ensures
            #[trigger] self.with(sq, piece).at(other) == if other == sq {
                piece
            } else {
                self.at(other)
            },
            self.with(sq, piece).dims() == self.dims(),
            self.with(sq, piece).wf(),
    {
        let b = self.with(sq, piece);
        assert(b.squares@ == self.squares@.update(sq.index_of(), piece));
        assert forall|f: int, r: int|
            0 <= f < 10 && 0 <= r < 10 && !(f < b.size.width() && r < b.size.height())
                implies (#[trigger] b.squares@[r * 10 + f]) is None by {
            assert(r * 10 + f != sq.index_of());
        }
        if other != sq && self.size.holds(other) {
            assert(other.index_of() != sq.index_of());
        }
    }

    /// A well-formed board has a supported size.
    pub broadcast proof fn lemma_wf_size(self)
        ensures
            #[trigger] self.wf() ==> self.dims().valid(),
    {
    }

    pub broadcast proof fn lemma_with_shape(self, sq: Square, piece: Option<Piece>)
        ensures
            #![trigger self.with(sq, piece)]
            self.with(sq, piece).dims() == self.dims(),
            self.wf() && self.dims().holds(sq) ==> self.with(sq, piece).wf(),
    {
        if self.wf() && self.dims().holds(sq) {
            self.lemma_with(sq, piece, sq);
        }
    }

    pub proof fn lemma_outside_empty(self, sq: Square)
        ensures
            !self.dims().holds(sq) ==> self.at(sq) is None,
    {
    }

    /// Two well-formed boards of one size that agree on every square are equal.
    pub proof fn lemma_ext(a: Board, b: Board)
        requires
            a.wf(),
            b.wf(),
            a.dims() == b.dims(),
            forall|sq: Square| #[trigger] a.at(sq) == b.at(sq),
        ensures
            a == b,
    {
        assert forall|i: int| 0 <= i < 100 implies a.squares@[i] == b.squares@[i] by {
            let sq = Square { file: (i % 10) as u8, rank: (i / 10) as u8 };
            assert(i == (i / 10) * 10 + i % 10);
            assert(a.at(sq) == b.at(sq));
        }
        assert(a.squares =~= b.squares);
    }

    /// The board of the given size with no pieces.
    pub closed spec fn blank(size: BoardSize) -> Board {
        Board { size, squares: vstd::array::spec_array_fill_for_copy_type(None) }
    }

    pub broadcast proof fn lemma_blank(size: BoardSize, sq: Square)
        ensures
            size.valid() ==> #[trigger] Board::blank(size).at(sq) is None,
            Board::blank(size).dims() == size,
            size.valid() ==> Board::blank(size).wf(),
    {
        let b = Board::blank(size);
        if size.holds(sq) && size.valid() {
            assert(b.squares@[sq.index_of()] is None);
        }
    }

    pub fn empty(size: BoardSize) -> (r: Self)
        requires
            size.valid(),
        ensures
            r == Board::blank(size),
            r.wf(),
            r.dims() == size,
            forall|sq: Square| #[trigger] r.at(sq) is None,
    {
        Board { size, squares: [None; 100] }
    }

    /// Whether two boards are identical.
    pub fn equals(&self, other: &Board) -> (r: bool)
        ensures
            r == (*self == *other),
    {
        if self.size.files != other.size.files || self.size.ranks != other.size.ranks {
            return false;
        }
        let mut i: usize = 0;
        while i < 100
            invariant
                i <= 100,
                forall|j: int| 0 <= j < i ==> self.squares@[j] == other.squares@[j],
            decreases 100 - i,
        {
            let same = match (self.squares[i], other.squares[i]) {
                (Some(a), Some(b)) => a == b,
                (None, None) => true,
                _ => false,
            };
            if !same {
                return false;
            }
            i += 1;
        }
        assert(self.squares =~= other.squares);
        true
    }

    pub fn size(&self) -> (r: BoardSize)
        ensures
            r == self.dims(),
    {
        self.size
    }

    pub fn piece_at(&self, square: Square) -> (r: Option<Piece>)
        requires
            self.wf(),
        ensures
            r == self.at(square),
    {
        if self.size.contains(square) {
            self.squares[square.storage_index()]
        } else {
            None
        }
    }

    /// Places (or removes) a piece on a square of the board, returning what
    /// was there before.
    pub fn set_piece(&mut self, square: Square, piece: Option<Piece>) -> (r: Result<
        Option<Piece>,
        BoardError,
    >)
        requires
            old(self).wf(),
        ensures
            r is Ok <==> old(self).dims().holds(square),
            r matches Ok(prev) ==> prev == old(self).at(square) && *final(self) == old(self).with(
                square,
                piece,
            ),
            r matches Err(e) ==> e == BoardError::SquareOutsideBoard(square) && *final(self)
                == *old(self),
            final(self).wf(),
    {
        if !self.size.contains(square) {
            return Err(BoardError::SquareOutsideBoard(square));
        }
        let old = self.piece_at(square);
        self.set_piece_unchecked(square, piece);
        Ok(old)
    }

    pub fn set_piece_unchecked(&mut self, square: Square, piece: Option<Piece>)
        requires
            old(self).wf(),
            old(self).dims().holds(square),
        ensures
            *final(self) == old(self).with(square, piece),
            final(self).wf(),
            final(self).dims() == old(self).dims(),
    {
        let ghost before = *self;
        self.squares[square.storage_index()] = piece;
        proof {
            before.lemma_with(square, piece, square);
            assert(self.squares@ =~= before.with(square, piece).squares@);
        }
    }

    /// Every occupied square with its piece, rank by rank from the first rank.
    pub fn pieces(&self) -> (r: Vec<(Square, Piece)>)
        requires
            self.wf(),
        ensures
            r@ == occupied(*self, all_squares(self.dims())),
    {
        let files = self.size.files;
        let ranks = self.size.ranks;
        let mut r: Vec<(Square, Piece)> = Vec::new();
        let mut rank: u8 = 0;
        while rank < ranks
            invariant
                self.wf(),
                files == self.dims().width(),
                ranks == self.dims().height(),
                rank <= ranks,
                r@ == occupied(*self, squares_before(files as nat, rank as nat, 0)),
            decreases ranks - rank,
        {
            let mut file: u8 = 0;
            while file < files
                invariant
                    self.wf(),
                    files == self.dims().width(),
                    ranks == self.dims().height(),
                    rank < ranks,
                    file <= files,
                    r@ == occupied(*self, squares_before(files as nat, rank as nat, file as nat)),
                decreases files - file,
            {
                let square = Square { file, rank };
                let ghost sqs = squares_before(files as nat, rank as nat, (file + 1) as nat);
                assert(sqs.drop_last() == squares_before(files as nat, rank as nat, file as nat));
                assert(sqs.last() == square);
                match self.piece_at(square) {
                    Some(piece) => r.push((square, piece)),
                    None => {},
                }
                file += 1;
            }
            assert(squares_before(files as nat, (rank + 1) as nat, 0) == squares_before(
                files as nat,
                rank as nat,
                files as nat,
            ));
            rank += 1;
        }
        r
    }

    pub fn king_square(&self, color: Color) -> (r: Option<Square>)
        requires
            self.wf(),
        ensures
            r == self.king_spec(color),
    {
        let list = self.pieces();
        let mut i: usize = 0;
        while i < list.len()
            invariant
                i <= list@.len(),
                list@ == occupied(*self, all_squares(self.dims())),
                first_king(list@.take(i as int), color) is None,
            decreases list.len() - i,
        {
            let (square, piece) = list[i];
            assert(list@.take(i + 1).drop_last() =~= list@.take(i as int));
            if piece.color == color && piece.kind == PieceKind::King {
                proof {
                    lemma_first_king_prefix(list@, (i + 1) as int, color);
                }
                return Some(square);
            }
            i += 1;
        }
        assert(list@.take(i as int) =~= list@);
        None
    }

    pub fn count(&self, color: Color, kind: PieceKind) -> (r: usize)
        requires
            self.wf(),
        ensures
            r == self.count_spec(color, kind),
    {
        let list = self.pieces();
        let mut n: usize = 0;
        let mut i: usize = 0;
        while i < list.len()
            invariant
                i <= list@.len(),
                list@ == occupied(*self, all_squares(self.dims())),
                n == count_of(list@.take(i as int), color, kind),
                n <= i,
            decreases list.len() - i,
        {
            let (_square, piece) = list[i];
            assert(list@.take(i + 1).drop_last() =~= list@.take(i as int));
            if piece.color == color && piece.kind == kind {
                n += 1;
            }
            i += 1;
        }
        assert(list@.take(i as int) =~= list@);
        n
    }
}

/// Once a prefix of the list holds a king of `color`, the first king of the
/// whole list is the first king of that prefix.
pub proof fn lemma_first_king_prefix(list: Seq<(Square, Piece)>, k: int, color: Color)
    requires
        0 <= k <= list.len(),
        first_king(list.take(k), color) is Some,
    ensures
        first_king(list, color) == first_king(list.take(k), color),
    decreases list.len() - k,
{
    if k < list.len() {
        assert(list.take(k + 1).drop_last() =~= list.take(k));
        lemma_first_king_prefix(list, k + 1, color);
    } else {
        assert(list.take(k) =~= list);
    }
}

#[derive(Clone, Copy, Debug, PartialEq, Eq)]
pub enum BoardError {
    InvalidSize { files: u8, ranks: u8 },
    SquareOutsideBoard(Square),
}

} // verus!
