//! Reading back what `to_fen` writes: FEN text of a position, read under the
//! position's rules, gives the position's parts.
use vstd::prelude::*;
use crate::board::Board;
use crate::fen::{
    castling_text, castling_token, encode_prefix, en_passant_field, fen_spec, fen_text, finish_run, parse_castling_spec,
    pending, placement_text, rank_text, rights_from, routes_present, scan_rank, scan_ranks, side_field, FenParts,
    RankProblem,
};
use crate::legal::{legal_spec, lemma_after_castle_board, lemma_after_move_board, lemma_legal_moves_are_safe};
use crate::movegen::pawn_at;
use crate::mv::{CastleSide, Move, MoveKind};
use crate::search::line_ok;
use crate::variant::{lemma_builtin_routes_apart, variant_rules_spec, Variant};
use crate::position::{captured_piece, captured_square, mover, rights_after, without_rook_routes, Position};
use crate::rules::{routes_apart, CastlingRights, CastlingRules};
use crate::text::{decimal, digit_char, is_digit, is_space, split_on, words};
use crate::types::{fen_letter_spec, lemma_piece_letter_round_trip, square_text, Color, Piece, PieceKind, Square};

verus! {

broadcast use {
    crate::board::Board::lemma_wf_size,
    crate::board::Board::lemma_with,
    crate::board::Board::lemma_with_shape,
    crate::rules::CastlingRights::lemma_with_right,
    crate::rules::CastlingRights::lemma_empty_rights,
};

pub open spec fn is_ascii_letter(c: char) -> bool {
    ('a' <= c && c <= 'z') || ('A' <= c && c <= 'Z')
}

/// A character FEN placement text is made of: a digit or a piece letter.
pub open spec fn placement_char(c: char) -> bool {
    is_digit(c) || is_ascii_letter(c)
}

proof fn lemma_letter_is_ascii(p: Piece)
    ensures
        is_ascii_letter(p.letter()),
        fen_letter_spec(p.letter()) == Some((p.kind, p.color)),
{
    lemma_piece_letter_round_trip(p);
}

/// `acc` with the pieces that `b` has on the first `f` files of `rank`.
pub open spec fn fill_rank(acc: Board, b: Board, rank: u8, f: nat) -> Board
    decreases f,
{
    if f == 0 {
        acc
    } else {
        let prev = fill_rank(acc, b, rank, (f - 1) as nat);
        match b.at(Square { file: (f - 1) as u8, rank }) {
            Some(p) => prev.with(Square { file: (f - 1) as u8, rank }, Some(p)),
            None => prev,
        }
    }
}

proof fn lemma_pending_digits(e: nat)
    requires
        e <= 10,
    ensures
        forall|i: int| 0 <= i < pending(e).len() ==> is_digit(#[trigger] pending(e)[i]),
        1 <= e <= 9 ==> pending(e) == seq![digit_char(e)],
        e == 10 ==> pending(e) == seq!['1', '0'],
        e == 0 ==> pending(e) == Seq::<char>::empty(),
{
    if e == 10 {
        assert(decimal(10) == decimal(1).push(digit_char(0)));
        assert(decimal(10) =~= seq!['1', '0']);
    }
}

/// What the text written for the first `f` files holds: digits and piece
/// letters; the count of unwritten empty squares is at most `f`, and those
/// squares are empty.
proof fn lemma_encode_facts(b: Board, rank: u8, f: nat)
    requires
        f <= 10,
    ensures
        encode_prefix(b, rank, f).1 <= f,
        f > 0 && encode_prefix(b, rank, f).1 == 0 ==> encode_prefix(b, rank, f).0.len() > 0,
        forall|i: int|
            0 <= i < encode_prefix(b, rank, f).0.len() ==> placement_char(#[trigger] encode_prefix(b, rank, f).0[i]),
        forall|j: int|
            f - encode_prefix(b, rank, f).1 <= j < f ==> (#[trigger] b.at(Square { file: j as u8, rank })) is None,
    decreases f,
{
    if f > 0 {
        lemma_encode_facts(b, rank, (f - 1) as nat);
        let (t, e) = encode_prefix(b, rank, (f - 1) as nat);
        lemma_pending_digits(e);
        match b.at(Square { file: (f - 1) as u8, rank }) {
            Some(p) => {
                lemma_letter_is_ascii(p);
                let t2 = t + pending(e) + seq![p.letter()];
                assert forall|i: int| 0 <= i < t2.len() implies placement_char(#[trigger] t2[i]) by {
                    if i < t.len() {
                        assert(t2[i] == t[i]);
                    } else if i < t.len() + pending(e).len() {
                        assert(t2[i] == pending(e)[i - t.len()]);
                    } else {
                        assert(t2[i] == p.letter());
                    }
                }
            },
            None => {
                assert forall|j: int| f - (e + 1) <= j < f implies (#[trigger] b.at(
                    Square { file: j as u8, rank },
                )) is None by {
                    if j == f - 1 {
                        assert(Square { file: j as u8, rank } == Square { file: (f - 1) as u8, rank });
                    }
                }
            },
        }
    }
}

/// The text written for fewer files is a prefix of the text written for more.
proof fn lemma_encode_prefix_grows(b: Board, rank: u8, f: nat, g: nat)
    requires
        f <= g,
    ensures
        encode_prefix(b, rank, f).0.len() <= encode_prefix(b, rank, g).0.len(),
        encode_prefix(b, rank, g).0.take(encode_prefix(b, rank, f).0.len() as int) == encode_prefix(b, rank, f).0,
    decreases g,
{
    if f < g {
        lemma_encode_prefix_grows(b, rank, f, (g - 1) as nat);
        let (t, e) = encode_prefix(b, rank, (g - 1) as nat);
        let tf = encode_prefix(b, rank, f).0;
        let tg = encode_prefix(b, rank, g).0;
        assert(tg.take(t.len() as int) =~= t);
        assert(tg.take(tf.len() as int) =~= t.take(tf.len() as int));
    } else {
        assert(encode_prefix(b, rank, g).0.take(encode_prefix(b, rank, g).0.len() as int) =~= encode_prefix(
            b,
            rank,
            g,
        ).0);
    }
}

proof fn lemma_rank_text_prefix(b: Board, rank: u8, f: nat)
    requires
        b.wf(),
        f <= b.dims().width(),
    ensures
        encode_prefix(b, rank, f).0.len() <= rank_text(b, rank).len(),
        rank_text(b, rank).take(encode_prefix(b, rank, f).0.len() as int) == encode_prefix(b, rank, f).0,
{
    let w = b.dims().width() as nat;
    lemma_encode_prefix_grows(b, rank, f, w);
    let (tw, ew) = encode_prefix(b, rank, w);
    let tf = encode_prefix(b, rank, f).0;
    assert(rank_text(b, rank) == tw + pending(ew));
    assert((tw + pending(ew)).take(tf.len() as int) =~= tw.take(tf.len() as int));
}

/// Reading the text of one more file carries the scan from the state after
/// `f` files to the state after `f + 1`.
proof fn lemma_scan_step(b: Board, rank: u8, f: nat, acc: Board)
    requires
        b.wf(),
        f < b.dims().width(),
    ensures
        ({
            let w = b.dims().width() as int;
            let text = rank_text(b, rank);
            let (t, e) = encode_prefix(b, rank, f);
            let (t2, e2) = encode_prefix(b, rank, f + 1);
            scan_rank(text, t.len(), f - e, None, w, rank, fill_rank(acc, b, rank, f)) == scan_rank(
                text,
                t2.len(),
                f + 1 - e2,
                None,
                w,
                rank,
                fill_rank(acc, b, rank, f + 1),
            )
        }),
{
    let w = b.dims().width() as int;
    let text = rank_text(b, rank);
    let (t, e) = encode_prefix(b, rank, f);
    let sq = Square { file: f as u8, rank };
    lemma_encode_facts(b, rank, f);
    lemma_pending_digits(e);
    match b.at(sq) {
        None => {},
        Some(p) => {
            lemma_letter_is_ascii(p);
            lemma_rank_text_prefix(b, rank, f + 1);
            let t2 = t + pending(e) + seq![p.letter()];
            assert(encode_prefix(b, rank, f + 1).0 == t2);
            let acc_f = fill_rank(acc, b, rank, f);
            let next = acc_f.with(sq, Some(p));
            assert(fill_rank(acc, b, rank, f + 1) == next);
            let i = t.len();
            assert(text.take(t2.len() as int) == t2);
            assert(text[(i + pending(e).len()) as int] == t2[(i + pending(e).len()) as int]);
            assert(t2[(i + pending(e).len()) as int] == p.letter());
            if e == 0 {
                assert(scan_rank(text, i, f as int, None, w, rank, acc_f) == scan_rank(
                    text,
                    (i + 1) as nat,
                    (f + 1) as int,
                    None,
                    w,
                    rank,
                    next,
                ));
            } else {
                assert(text[i as int] == t2[i as int]);
                assert(t2[i as int] == digit_char(e));
                assert(scan_rank(text, i, f - e, None, w, rank, acc_f) == scan_rank(
                    text,
                    (i + 1) as nat,
                    f - e,
                    Some(e),
                    w,
                    rank,
                    acc_f,
                ));
                assert(finish_run(Some(e), f - e, w) == Some(f as int));
                assert(scan_rank(text, (i + 1) as nat, f - e, Some(e), w, rank, acc_f) == scan_rank(
                    text,
                    (i + 2) as nat,
                    (f + 1) as int,
                    None,
                    w,
                    rank,
                    next,
                ));
            }
        },
    }
}

/// The scan ends on the board with the whole rank filled in.
proof fn lemma_scan_end(b: Board, rank: u8, acc: Board)
    requires
        b.wf(),
    ensures
        ({
            let w = b.dims().width() as nat;
            let (t, e) = encode_prefix(b, rank, w);
            scan_rank(rank_text(b, rank), t.len(), w - e, None, w as int, rank, fill_rank(acc, b, rank, w)) == Ok::<
                Board,
                RankProblem,
            >(fill_rank(acc, b, rank, w))
        }),
{
    let w = b.dims().width() as nat;
    let (t, e) = encode_prefix(b, rank, w);
    let text = rank_text(b, rank);
    let full = fill_rank(acc, b, rank, w);
    lemma_encode_facts(b, rank, w);
    lemma_pending_digits(e);
    let i = t.len();
    assert(text == t + pending(e));
    if e == 0 {
        assert(text.len() == i);
    } else if e <= 9 {
        assert(text[i as int] == digit_char(e));
        assert(text.len() == i + 1);
        assert(scan_rank(text, i, w - e, None, w as int, rank, full) == scan_rank(
            text,
            (i + 1) as nat,
            w - e,
            Some(e),
            w as int,
            rank,
            full,
        ));
    } else {
        assert(text[i as int] == '1');
        assert(text[(i + 1) as int] == '0');
        assert(text.len() == i + 2);
        assert(scan_rank(text, i, 0, None, w as int, rank, full) == scan_rank(
            text,
            (i + 1) as nat,
            0,
            Some(1),
            w as int,
            rank,
            full,
        ));
        assert(scan_rank(text, (i + 1) as nat, 0, Some(1), w as int, rank, full) == scan_rank(
            text,
            (i + 2) as nat,
            0,
            Some(10),
            w as int,
            rank,
            full,
        ));
    }
}

proof fn lemma_scan_from(b: Board, rank: u8, f: nat, acc: Board)
    requires
        b.wf(),
        f <= b.dims().width(),
    ensures
        ({
            let w = b.dims().width() as nat;
            let (t, e) = encode_prefix(b, rank, f);
            scan_rank(rank_text(b, rank), t.len(), f - e, None, w as int, rank, fill_rank(acc, b, rank, f)) == Ok::<
                Board,
                RankProblem,
            >(fill_rank(acc, b, rank, w))
        }),
    decreases b.dims().width() - f,
{
    let w = b.dims().width() as nat;
    if f == w {
        lemma_scan_end(b, rank, acc);
    } else {
        lemma_scan_step(b, rank, f, acc);
        lemma_scan_from(b, rank, f + 1, acc);
    }
}

/// Reading the written text of a rank fills that rank in from the board.
pub proof fn lemma_scan_rank_text(b: Board, rank: u8, acc: Board)
    requires
        b.wf(),
    ensures
        scan_rank(rank_text(b, rank), 0, 0, None, b.dims().width() as int, rank, acc) == Ok::<Board, RankProblem>(
            fill_rank(acc, b, rank, b.dims().width() as nat),
        ),
{
    lemma_scan_from(b, rank, 0, acc);
}

/// Filling in a rank that `acc` leaves empty puts `b`'s pieces there and
/// changes nothing else.
proof fn lemma_fill_rank_at(acc: Board, b: Board, rank: u8, f: nat)
    requires
        acc.wf(),
        b.wf(),
        acc.dims() == b.dims(),
        f <= b.dims().width(),
        rank < b.dims().height(),
        forall|sq: Square| sq.rank == rank ==> (#[trigger] acc.at(sq)) is None,
    ensures
        fill_rank(acc, b, rank, f).wf(),
        fill_rank(acc, b, rank, f).dims() == b.dims(),
        forall|sq: Square|
            #[trigger] fill_rank(acc, b, rank, f).at(sq) == if sq.rank == rank && sq.file < f {
                b.at(sq)
            } else {
                acc.at(sq)
            },
    decreases f,
{
    if f > 0 {
        lemma_fill_rank_at(acc, b, rank, (f - 1) as nat);
        let prev = fill_rank(acc, b, rank, (f - 1) as nat);
        let cur = Square { file: (f - 1) as u8, rank };
        assert(b.dims().holds(cur));
        assert forall|sq: Square|
            #[trigger] fill_rank(acc, b, rank, f).at(sq) == if sq.rank == rank && sq.file < f {
                b.at(sq)
            } else {
                acc.at(sq)
            } by {
            if sq == cur {
                assert(sq.rank == rank && sq.file == f - 1);
            } else if sq.rank == rank && sq.file < f {
                assert(sq.file < f - 1);
            }
        }
    }
}

/// Reading rank texts from the `k`-th on, onto a board that already holds
/// `b`'s top `k` ranks and nothing else, gives `b`.
proof fn lemma_scan_ranks_from(b: Board, fields: Seq<Seq<char>>, k: nat, acc: Board)
    requires
        b.wf(),
        fields.len() == b.dims().height(),
        forall|j: int| 0 <= j < fields.len() ==> #[trigger] fields[j] == rank_text(b, (b.dims().height() - 1 - j) as u8),
        k <= b.dims().height(),
        acc.wf(),
        acc.dims() == b.dims(),
        forall|sq: Square|
            #[trigger] acc.at(sq) == if b.dims().holds(sq) && sq.rank >= b.dims().height() - k {
                b.at(sq)
            } else {
                None
            },
    ensures
        scan_ranks(fields, k, b.dims().height() as int, b.dims().width() as int, acc) == Ok::<
            Board,
            (Seq<char>, RankProblem),
        >(b),
    decreases b.dims().height() - k,
{
    let h = b.dims().height() as int;
    let w = b.dims().width() as int;
    if k < h {
        let rank = (h - 1 - k) as u8;
        lemma_scan_rank_text(b, rank, acc);
        lemma_fill_rank_at(acc, b, rank, w as nat);
        let next = fill_rank(acc, b, rank, w as nat);
        assert forall|sq: Square|
            #[trigger] next.at(sq) == if b.dims().holds(sq) && sq.rank >= h - (k + 1) {
                b.at(sq)
            } else {
                None
            } by {
            b.lemma_outside_empty(sq);
        }
        lemma_scan_ranks_from(b, fields, k + 1, next);
    } else {
        assert forall|sq: Square| #[trigger] acc.at(sq) == b.at(sq) by {
            b.lemma_outside_empty(sq);
        }
        Board::lemma_ext(acc, b);
    }
}

/// The characters of a rank's text are digits and piece letters, and there
/// is at least one.
proof fn lemma_rank_text_chars(b: Board, rank: u8)
    requires
        b.wf(),
    ensures
        rank_text(b, rank).len() > 0,
        forall|i: int| 0 <= i < rank_text(b, rank).len() ==> placement_char(#[trigger] rank_text(b, rank)[i]),
{
    let w = b.dims().width() as nat;
    lemma_encode_facts(b, rank, w);
    let (t, e) = encode_prefix(b, rank, w);
    lemma_pending_digits(e);
    let text = rank_text(b, rank);
    assert(text == t + pending(e));
    assert forall|i: int| 0 <= i < text.len() implies placement_char(#[trigger] text[i]) by {
        if i < t.len() {
            assert(text[i] == t[i]);
        } else {
            assert(text[i] == pending(e)[i - t.len()]);
        }
    }
}

/// The placement text splits at `/` into the rank texts, top rank first.
proof fn lemma_placement_split(b: Board, k: nat)
    requires
        b.wf(),
        1 <= k <= b.dims().height(),
    ensures
        split_on(placement_text(b, k), '/') == Seq::new(
            k,
            |j: int| rank_text(b, (b.dims().height() - 1 - j) as u8),
        ),
        placement_text(b, k).len() > 0,
        forall|i: int|
            0 <= i < placement_text(b, k).len() ==> placement_char(#[trigger] placement_text(b, k)[i])
                || placement_text(b, k)[i] == '/',
    decreases k,
{
    let h = b.dims().height() as int;
    let rank = (h - k) as u8;
    lemma_rank_text_chars(b, rank);
    let r = rank_text(b, rank);
    assert forall|i: int| 0 <= i < r.len() implies #[trigger] r[i] != '/' by {
        assert(placement_char(r[i]));
    }
    if k == 1 {
        crate::text::lemma_split_single(r, '/');
        assert(split_on(placement_text(b, k), '/') =~= Seq::new(
            k,
            |j: int| rank_text(b, (b.dims().height() - 1 - j) as u8),
        ));
    } else {
        lemma_placement_split(b, (k - 1) as nat);
        let prev = placement_text(b, (k - 1) as nat);
        crate::text::lemma_split_append_piece(prev, '/', r);
        assert(placement_text(b, k) == prev + seq!['/'] + r);
        assert(split_on(placement_text(b, k), '/') =~= Seq::new(
            k,
            |j: int| rank_text(b, (b.dims().height() - 1 - j) as u8),
        ));
        let t = placement_text(b, k);
        assert forall|i: int| 0 <= i < t.len() implies placement_char(#[trigger] t[i]) || t[i] == '/' by {
            if i < prev.len() {
                assert(t[i] == prev[i]);
            } else if i == prev.len() {
                assert(t[i] == '/');
            } else {
                assert(t[i] == r[i - prev.len() - 1]);
            }
        }
    }
}

/// Reading the placement text of a board gives the board.
pub proof fn lemma_placement_round_trip(b: Board)
    requires
        b.wf(),
    ensures
        scan_ranks(
            split_on(placement_text(b, b.dims().height() as nat), '/'),
            0,
            b.dims().height() as int,
            b.dims().width() as int,
            Board::blank(b.dims()),
        ) == Ok::<Board, (Seq<char>, RankProblem)>(b),
        split_on(placement_text(b, b.dims().height() as nat), '/').len() == b.dims().height(),
{
    let h = b.dims().height() as nat;
    lemma_placement_split(b, h);
    let fields = split_on(placement_text(b, h), '/');
    let blank = Board::blank(b.dims());
    assert forall|sq: Square|
        #[trigger] blank.at(sq) == if b.dims().holds(sq) && sq.rank >= b.dims().height() - 0 {
            b.at(sq)
        } else {
            None
        } by {
        crate::board::Board::lemma_blank(b.dims(), sq);
    }
    crate::board::Board::lemma_blank(b.dims(), Square { file: 0, rank: 0 });
    lemma_scan_ranks_from(b, fields, 0, blank);
}

proof fn lemma_rights_from_tokens(castling: CastlingRules, v: Seq<char>)
    requires
        forall|i: int|
            0 <= i < v.len() ==> ((#[trigger] castling_token(v[i])) matches Some((c, s)) && castling.route_of(c, s) is Some),
    ensures
        rights_from(castling, v) is Some,
        rights_from(castling, v)->Some_0.bits() < 16,
        forall|c: Color, s: CastleSide|
            #[trigger] rights_from(castling, v)->Some_0.allows(c, s) <==> exists|i: int|
                0 <= i < v.len() && castling_token(v[i]) == Some((c, s)),
    decreases v.len(),
{
    if v.len() > 0 {
        let rest = v.drop_last();
        assert forall|i: int| 0 <= i < rest.len() implies ((#[trigger] castling_token(rest[i])) matches Some((c, s))
            && castling.route_of(c, s) is Some) by {
            assert(rest[i] == v[i]);
        }
        lemma_rights_from_tokens(castling, rest);
        assert(castling_token(v[v.len() - 1]) is Some);
        let last = v.last();
        let (c0, s0) = castling_token(last)->Some_0;
        rights_from(castling, rest)->Some_0.lemma_with_right(c0, s0, c0, s0);
        assert(castling.route_of(c0, s0) is Some);
        assert(rights_from(castling, v) == Some(rights_from(castling, rest)->Some_0.with_right(c0, s0)));
        assert forall|c: Color, s: CastleSide|
            #[trigger] rights_from(castling, v)->Some_0.allows(c, s) <==> exists|i: int|
                0 <= i < v.len() && castling_token(v[i]) == Some((c, s)) by {
            if exists|i: int| 0 <= i < v.len() && castling_token(v[i]) == Some((c, s)) {
                let i = choose|i: int| 0 <= i < v.len() && castling_token(v[i]) == Some((c, s));
                if i < v.len() - 1 {
                    assert(rest[i] == v[i]);
                }
            }
            if exists|i: int| 0 <= i < rest.len() && castling_token(rest[i]) == Some((c, s)) {
                let i = choose|i: int| 0 <= i < rest.len() && castling_token(rest[i]) == Some((c, s));
                assert(v[i] == rest[i]);
            }
            if castling_token(last) == Some((c, s)) {
                assert(v[v.len() - 1] == last);
            }
        }
    } else {
        assert(rights_from(castling, v) == Some(CastlingRights::empty_rights()));
        CastlingRights::lemma_empty_rights(Color::White, CastleSide::KingSide);
    }
}

/// Reading back the castling field gives the rights it was written from.
proof fn lemma_castling_round_trip(castling: CastlingRules, r: CastlingRights)
    requires
        r.bits() < 16,
        forall|c: Color, s: CastleSide| #[trigger] r.allows(c, s) ==> castling.route_of(c, s) is Some,
    ensures
        parse_castling_spec(castling, castling_text(r)) == Some(r),
        castling_text(r).len() > 0,
        forall|i: int| 0 <= i < castling_text(r).len() ==> !is_space(#[trigger] castling_text(r)[i]),
{
    let wk = if r.allows(Color::White, CastleSide::KingSide) { seq!['K'] } else { Seq::<char>::empty() };
    let wq = if r.allows(Color::White, CastleSide::QueenSide) { seq!['Q'] } else { Seq::<char>::empty() };
    let bk = if r.allows(Color::Black, CastleSide::KingSide) { seq!['k'] } else { Seq::<char>::empty() };
    let bq = if r.allows(Color::Black, CastleSide::QueenSide) { seq!['q'] } else { Seq::<char>::empty() };
    let t = wk + wq + bk + bq;
    assert forall|i: int| 0 <= i < t.len() implies (castling_token(#[trigger] t[i]) matches Some((c, s)) && r.allows(
        c,
        s,
    ) && (t[i] == 'K' || t[i] == 'Q' || t[i] == 'k' || t[i] == 'q')) by {
        if i < wk.len() {
            assert(t[i] == wk[i]);
        } else if i < wk.len() + wq.len() {
            assert(t[i] == wq[i - wk.len()]);
        } else if i < wk.len() + wq.len() + bk.len() {
            assert(t[i] == bk[i - wk.len() - wq.len()]);
        } else {
            assert(t[i] == bq[i - wk.len() - wq.len() - bk.len()]);
        }
    }
    if t.len() == 0 {
        assert(castling_text(r) == seq!['-']);
        assert forall|c: Color, s: CastleSide| r.allows(c, s) == CastlingRights::empty_rights().allows(c, s) by {
            match (c, s) {
                (Color::White, CastleSide::KingSide) => assert(wk.len() == 0),
                (Color::White, CastleSide::QueenSide) => assert(wq.len() == 0),
                (Color::Black, CastleSide::KingSide) => assert(bk.len() == 0),
                (Color::Black, CastleSide::QueenSide) => assert(bq.len() == 0),
            }
        }
        CastlingRights::lemma_ext(r, CastlingRights::empty_rights());
    } else {
        assert(castling_text(r) == t);
        assert(t != seq!['-']) by {
            assert(t[0] != '-');
        }
        lemma_rights_from_tokens(castling, t);
        let x = rights_from(castling, t)->Some_0;
        assert forall|c: Color, s: CastleSide| x.allows(c, s) == r.allows(c, s) by {
            let (cc, ss) = (c, s);
            if r.allows(c, s) {
                let i: int = match (cc, ss) {
                    (Color::White, CastleSide::KingSide) => 0,
                    (Color::White, CastleSide::QueenSide) => wk.len() as int,
                    (Color::Black, CastleSide::KingSide) => (wk.len() + wq.len()) as int,
                    (Color::Black, CastleSide::QueenSide) => (wk.len() + wq.len() + bk.len()) as int,
                };
                match (cc, ss) {
                    (Color::White, CastleSide::KingSide) => assert(t[i] == 'K'),
                    (Color::White, CastleSide::QueenSide) => assert(t[i] == 'Q'),
                    (Color::Black, CastleSide::KingSide) => assert(t[i] == 'k'),
                    (Color::Black, CastleSide::QueenSide) => assert(t[i] == 'q'),
                }
                assert(castling_token(t[i]) == Some((c, s)));
            }
        }
        CastlingRights::lemma_ext(x, r);
    }
}

/// The en passant field as FEN writes it.
pub open spec fn ep_text(ep: Option<Square>) -> Seq<char> {
    match ep {
        None => seq!['-'],
        Some(sq) => square_text(sq),
    }
}

/// The en passant field reads back as the square it was written from.
proof fn lemma_en_passant_round_trip(b: Board, ep: Option<Square>)
    requires
        b.wf(),
        ep matches Some(sq) ==> b.dims().holds(sq) && b.at(sq) is None,
    ensures
        en_passant_field(ep_text(ep), b) == Some(ep),
        forall|i: int| 0 <= i < ep_text(ep).len() ==> !is_space(#[trigger] ep_text(ep)[i]),
        ep_text(ep).len() > 0,
{
    match ep {
        None => {},
        Some(sq) => {
            crate::types::lemma_square_notation_round_trip(sq);
            let t = square_text(sq);
            crate::text::lemma_decimal_digits((sq.rank + 1) as nat);
            assert(t != seq!['-']) by {
                assert(t[0] != '-');
            }
            assert forall|i: int| 0 <= i < t.len() implies !is_space(#[trigger] t[i]) by {
                if i > 0 {
                    assert(t[i] == decimal((sq.rank + 1) as nat)[i - 1]);
                    assert(is_digit(t[i]));
                }
            }
        },
    }
}

proof fn lemma_decimal_no_space(n: nat)
    ensures
        decimal(n).len() > 0,
        forall|i: int| 0 <= i < decimal(n).len() ==> !is_space(#[trigger] decimal(n)[i]),
{
    crate::text::lemma_decimal_digits(n);
    assert forall|i: int| 0 <= i < decimal(n).len() implies !is_space(#[trigger] decimal(n)[i]) by {
        assert(is_digit(decimal(n)[i]));
    }
}

proof fn lemma_words_step(s: Seq<char>, w: Seq<char>)
    requires
        w.len() > 0,
        forall|i: int| 0 <= i < w.len() ==> !is_space(#[trigger] w[i]),
    ensures
        words(s + seq![' '] + w) == words(s).push(w),
{
    crate::text::lemma_words_append_space(s, ' ');
    assert(s + seq![' '] =~= s.push(' '));
    crate::text::lemma_words_append_word(s.push(' '), w);
}

/// What FEN can describe of a position: one king a side, rights whose king
/// and rook stand on their route squares, an empty en passant square, and a
/// positive move number.
pub open spec fn fen_describable(p: Position) -> bool {
    let b = p.board_spec();
    &&& b.count_spec(Color::White, PieceKind::King) == 1
    &&& b.count_spec(Color::Black, PieceKind::King) == 1
    &&& routes_present(p.rules_spec().castling_spec(), b, p.rights_spec())
    &&& (p.ep_spec() matches Some(sq) ==> b.at(sq) is None)
    &&& p.fullmove_spec() > 0
}

/// The parts of a position that FEN gives.
pub open spec fn parts_of(p: Position) -> FenParts {
    FenParts {
        board: p.board_spec(),
        side: p.side_spec(),
        rights: p.rights_spec(),
        ep: p.ep_spec(),
        halfmove: p.halfmove_spec(),
        fullmove: p.fullmove_spec(),
    }
}

/// Writing a position in FEN and reading the text back under the position's
/// rules gives the position's parts, for every position FEN can describe.
pub proof fn lemma_fen_round_trip(p: Position)
    requires
        p.wf(),
        fen_describable(p),
    ensures
        fen_spec(p.rules_spec(), fen_text(p)) == Ok::<FenParts, crate::fen::FenProblem>(parts_of(p)),
{
    let b = p.board_spec();
    let rules = p.rules_spec();
    let h = b.dims().height() as nat;
    let f0 = placement_text(b, h);
    let f1 = seq![if p.side_spec() == Color::White { 'w' } else { 'b' }];
    let f2 = castling_text(p.rights_spec());
    let f3 = ep_text(p.ep_spec());
    let f4 = decimal(p.halfmove_spec() as nat);
    let f5 = decimal(p.fullmove_spec() as nat);
    lemma_placement_round_trip(b);
    lemma_placement_split(b, h);
    assert forall|i: int| 0 <= i < f0.len() implies !is_space(#[trigger] f0[i]) by {
        assert(placement_char(f0[i]) || f0[i] == '/');
    }
    assert forall|c: Color, s: CastleSide| #[trigger] p.rights_spec().allows(c, s) implies rules.castling_spec().route_of(
        c,
        s,
    ) is Some by {
        assert(routes_present(rules.castling_spec(), b, p.rights_spec()));
    }
    lemma_castling_round_trip(rules.castling_spec(), p.rights_spec());
    lemma_en_passant_round_trip(b, p.ep_spec());
    lemma_decimal_no_space(p.halfmove_spec() as nat);
    lemma_decimal_no_space(p.fullmove_spec() as nat);
    crate::text::lemma_decimal_parse(p.halfmove_spec() as nat, u32::MAX as nat);
    crate::text::lemma_decimal_parse(p.fullmove_spec() as nat, u32::MAX as nat);
    assert(forall|i: int| 0 <= i < f1.len() ==> !is_space(#[trigger] f1[i]));
    crate::text::lemma_words_append_word(Seq::empty(), f0);
    assert(Seq::<char>::empty() + f0 =~= f0);
    lemma_words_step(f0, f1);
    lemma_words_step(f0 + seq![' '] + f1, f2);
    lemma_words_step(f0 + seq![' '] + f1 + seq![' '] + f2, f3);
    lemma_words_step(f0 + seq![' '] + f1 + seq![' '] + f2 + seq![' '] + f3, f4);
    lemma_words_step(f0 + seq![' '] + f1 + seq![' '] + f2 + seq![' '] + f3 + seq![' '] + f4, f5);
    let text = fen_text(p);
    assert(text == f0 + seq![' '] + f1 + seq![' '] + f2 + seq![' '] + f3 + seq![' '] + f4 + seq![' '] + f5);
    assert(words(text) =~= seq![f0, f1, f2, f3, f4, f5]);
    assert(side_field(f1) == Some(p.side_spec()));
    assert(b.dims() == rules.size_spec());
}

/// Every position that FEN text describes is one FEN can describe, so its
/// own FEN text reads back to it.
pub proof fn lemma_parsed_positions_describable(p: Position, text: Seq<char>)
    requires
        p.wf(),
        fen_spec(p.rules_spec(), text) == Ok::<FenParts, crate::fen::FenProblem>(parts_of(p)),
    ensures
        fen_describable(p),
{
}



/// Which rights survive removing those of routes whose rook starts on `sq`.
proof fn lemma_rook_routes_allows(pos: Position, rights: CastlingRights, color: Color, sq: Square, c: Color, s: CastleSide)
    ensures
        without_rook_routes(pos, rights, color, sq).allows(c, s) == (rights.allows(c, s) && !(c == color && (
        pos.rules_spec().castling_spec().route_of(c, s) matches Some(rt) && rt.rook_from == sq))),
{
    let castling = pos.rules_spec().castling_spec();
    let r1 = if castling.route_of(color, CastleSide::QueenSide) matches Some(rt) && rt.rook_from == sq {
        rights.without(color, CastleSide::QueenSide)
    } else {
        rights
    };
    rights.lemma_without(color, CastleSide::QueenSide, c, s);
    r1.lemma_without(color, CastleSide::KingSide, c, s);
}

/// A right that survives a move was held before, and is not one of the
/// mover's side when its king moves, nor one whose route rook moves or is
/// captured on its start square.
proof fn lemma_rights_after_allows(pos: Position, m: Move, c: Color, s: CastleSide)
    ensures
        rights_after(pos, m).allows(c, s) ==> {
            let moving = mover(pos, m);
            let route = pos.rules_spec().castling_spec().route_of(c, s);
            &&& pos.rights_spec().allows(c, s)
            &&& !(moving.kind == PieceKind::King && moving.color == c)
            &&& !(moving.kind == PieceKind::Rook && moving.color == c && (route matches Some(rt) && rt.rook_from
                == m.from))
            &&& !(captured_square(pos, m) matches Some(sq) && captured_piece(pos, m) == Some(
                Piece { color: c, kind: PieceKind::Rook },
            ) && (route matches Some(rt) && rt.rook_from == sq))
        },
{
    let moving = mover(pos, m);
    let rights = pos.rights_spec();
    rights.lemma_without(moving.color, CastleSide::QueenSide, c, s);
    rights.without(moving.color, CastleSide::QueenSide).lemma_without(moving.color, CastleSide::KingSide, c, s);
    lemma_rook_routes_allows(pos, rights, moving.color, m.from, c, s);
    let r1 = if moving.kind == PieceKind::King {
        rights.without(moving.color, CastleSide::QueenSide).without(moving.color, CastleSide::KingSide)
    } else if moving.kind == PieceKind::Rook {
        without_rook_routes(pos, rights, moving.color, m.from)
    } else {
        rights
    };
    match (captured_piece(pos, m), captured_square(pos, m)) {
        (Some(p), Some(sq)) => {
            lemma_rook_routes_allows(pos, r1, p.color, sq, c, s);
        },
        _ => {},
    }
}

/// After a legal move from a position FEN can describe, each color has as
/// many kings as before.
proof fn lemma_after_king_count(pos: Position, m: Move, c: Color)
    requires
        pos.wf(),
        fen_describable(pos),
        legal_spec(pos).contains(m),
        routes_apart(pos.rules_spec().castling_spec()),
    ensures
        pos.after(m).board_spec().count_spec(c, PieceKind::King) == pos.board_spec().count_spec(c, PieceKind::King),
{
    broadcast use crate::board::Board::lemma_with_shape;

    lemma_legal_moves_are_safe(pos, m);
    pos.lemma_after(m);
    let b = pos.board_spec();
    let king = Piece { color: c, kind: PieceKind::King };
    let moving = b.at(m.from)->Some_0;
    match m.kind {
        MoveKind::Castle(side) => {
            let rt = pos.rules_spec().castling_spec().route_of(moving.color, side)->Some_0;
            pos.rules_spec().lemma_valid_parts(moving.color, side);
            assert(rt.king_to != rt.rook_to);
            let b1 = b.with(rt.king_from, None);
            let b2 = b1.with(rt.rook_from, None);
            let b3 = b2.with(rt.king_to, Some(Piece { color: moving.color, kind: PieceKind::King }));
            b.lemma_count_with(rt.king_from, None, king);
            b1.lemma_count_with(rt.rook_from, None, king);
            b2.lemma_count_with(rt.king_to, Some(Piece { color: moving.color, kind: PieceKind::King }), king);
            b3.lemma_count_with(rt.rook_to, Some(Piece { color: moving.color, kind: PieceKind::Rook }), king);
        },
        _ => {
            let placed = Piece {
                color: moving.color,
                kind: match m.promotion {
                    Some(k) => k,
                    None => moving.kind,
                },
            };
            let b1 = b.with(m.from, None);
            b.lemma_count_with(m.from, None, king);
            let b2 = match captured_square(pos, m) {
                Some(s) => {
                    assert(b.dims().holds(s));
                    b1.lemma_count_with(s, None, king);
                    b1.with(s, None)
                },
                None => b1,
            };
            b2.lemma_count_with(m.to, Some(placed), king);
        },
    }
}

/// Legal play keeps a position one that FEN can describe, under castling
/// routes that keep king and rook apart: each side keeps its one king, each
/// castling right kept still has its king and rook on their route squares,
/// the en passant square is empty and the move number stays positive. So
/// the FEN text of every position reached by legal play reads back to it.
pub proof fn lemma_play_keeps_describable(pos: Position, m: Move)
    requires
        pos.wf(),
        fen_describable(pos),
        legal_spec(pos).contains(m),
        routes_apart(pos.rules_spec().castling_spec()),
    ensures
        pos.after(m).wf(),
        fen_describable(pos.after(m)),
        fen_spec(pos.after(m).rules_spec(), fen_text(pos.after(m))) == Ok::<FenParts, crate::fen::FenProblem>(
            parts_of(pos.after(m)),
        ),
{
    lemma_legal_moves_are_safe(pos, m);
    pos.lemma_after_wf(m);
    pos.lemma_after(m);
    let after = pos.after(m);
    let b = pos.board_spec();
    let b2 = after.board_spec();
    let castling = pos.rules_spec().castling_spec();
    lemma_after_king_count(pos, m, Color::White);
    lemma_after_king_count(pos, m, Color::Black);
    let moving = b.at(m.from)->Some_0;
    let taken = Square { file: m.to.file, rank: m.from.rank };
    match m.kind {
        MoveKind::Castle(side) => {
            lemma_after_castle_board(pos, m, side);
        },
        _ => {
            lemma_after_move_board(pos, m);
        },
    }
    assert forall|c: Color, s: CastleSide| #[trigger] after.rights_spec().allows(c, s) implies (castling.route_of(
        c,
        s,
    ) matches Some(rt) && b2.at(rt.king_from) == Some(Piece { color: c, kind: PieceKind::King }) && b2.at(rt.rook_from)
        == Some(Piece { color: c, kind: PieceKind::Rook })) by {
        lemma_rights_after_allows(pos, m, c, s);
        assert(pos.rights_spec().allows(c, s));
        let rt = castling.route_of(c, s)->Some_0;
        match m.kind {
            MoveKind::Castle(side) => {
                let rt0 = castling.route_of(moving.color, side)->Some_0;
                assert(c != moving.color);
                assert(rt.king_from != rt0.king_from && rt.king_from != rt0.rook_from);
                assert(rt.rook_from != rt0.king_from && rt.rook_from != rt0.rook_from);
            },
            _ => {
                assert(rt.king_from != m.to);
                assert(rt.king_from != m.from);
                if m.kind == MoveKind::EnPassant {
                    assert(rt.king_from != taken && rt.rook_from != taken);
                    assert(rt.rook_from != m.to);
                }
                if rt.rook_from == m.to {
                    assert(captured_square(pos, m) == Some(m.to));
                }
            },
        }
    }
    match after.ep_spec() {
        Some(mid) => {
            assert(pawn_at(b, m.from));
            assert(m.from.rank - m.to.rank == 2 || m.to.rank - m.from.rank == 2);
            assert(mid.rank != m.to.rank && mid.rank != m.from.rank);
            assert(b2.at(mid) == b.at(mid));
        },
        None => {},
    }
    lemma_fen_round_trip(after);
}


/// The position that a line of moves leads to.
pub open spec fn after_line(pos: Position, line: Seq<Move>) -> Position
    decreases line.len(),
{
    if line.len() == 0 {
        pos
    } else {
        after_line(pos.after(line[0]), line.drop_first())
    }
}

/// Every position reached by a line of legal moves from one FEN can
/// describe, under castling routes that keep king and rook apart, is one FEN
/// can describe, so its FEN text reads back to it.
pub proof fn lemma_line_keeps_describable(pos: Position, line: Seq<Move>)
    requires
        pos.wf(),
        fen_describable(pos),
        routes_apart(pos.rules_spec().castling_spec()),
        line_ok(pos, line),
    ensures
        after_line(pos, line).wf(),
        after_line(pos, line).rules_spec() == pos.rules_spec(),
        fen_describable(after_line(pos, line)),
        fen_spec(pos.rules_spec(), fen_text(after_line(pos, line))) == Ok::<FenParts, crate::fen::FenProblem>(
            parts_of(after_line(pos, line)),
        ),
    decreases line.len(),
{
    if line.len() == 0 {
        lemma_fen_round_trip(pos);
    } else {
        lemma_play_keeps_describable(pos, line[0]);
        pos.lemma_after(line[0]);
        lemma_line_keeps_describable(pos.after(line[0]), line.drop_first());
    }
}

/// A starting position (the rules' starting board, White to move, every
/// castling right whose route exists, no en passant square) is one FEN can
/// describe, so its FEN text reads back to it.
pub proof fn lemma_starting_positions_describable(p: Position)
    requires
        p.wf(),
        p.board_spec() == p.rules_spec().start_board(),
        forall|c: Color, s: CastleSide| #[trigger] p.rights_spec().allows(c, s)
            == p.rules_spec().castling_spec().route_of(c, s) is Some,
        p.ep_spec() is None,
        p.fullmove_spec() > 0,
    ensures
        fen_describable(p),
        fen_spec(p.rules_spec(), fen_text(p)) == Ok::<FenParts, crate::fen::FenProblem>(parts_of(p)),
{
    let rules = p.rules_spec();
    assert forall|c: Color, s: CastleSide| #[trigger] p.rights_spec().allows(c, s) implies (
    rules.castling_spec().route_of(c, s) matches Some(rt) && p.board_spec().at(rt.king_from) == Some(
        Piece { color: c, kind: PieceKind::King },
    ) && p.board_spec().at(rt.rook_from) == Some(Piece { color: c, kind: PieceKind::Rook })) by {
        rules.lemma_valid_parts(c, s);
    }
    rules.lemma_valid_parts(Color::White, CastleSide::QueenSide);
    rules.lemma_valid_parts(Color::Black, CastleSide::QueenSide);
    lemma_fen_round_trip(p);
}

/// Every position reached by legal play from the starting position of a
/// built-in variant reads back from its own FEN text.
pub proof fn lemma_builtin_play_reads_back(v: Variant, start: Position, line: Seq<Move>)
    requires
        start.wf(),
        variant_rules_spec(v, start.rules_spec()),
        start.board_spec() == start.rules_spec().start_board(),
        forall|c: Color, s: CastleSide| #[trigger] start.rights_spec().allows(c, s)
            == start.rules_spec().castling_spec().route_of(c, s) is Some,
        start.ep_spec() is None,
        start.fullmove_spec() > 0,
        line_ok(start, line),
    ensures
        fen_spec(start.rules_spec(), fen_text(after_line(start, line))) == Ok::<FenParts, crate::fen::FenProblem>(
            parts_of(after_line(start, line)),
        ),
{
    lemma_starting_positions_describable(start);
    lemma_builtin_routes_apart(v, start.rules_spec());
    lemma_line_keeps_describable(start, line);
}

} // verus!
