//! What the game client decides apart from drawing: menus and controllers,
//! the texts it shows, promotion choices, result sounds and engine levels.
use vstd::prelude::*;
use crate::game::{DrawReason, GameOutcome};
use crate::mv::{move_text, CastleSide, Move, MoveKind};
use crate::protocol::{Side, SidePreference, Variant as WireVariant};
use crate::server::{is_ascii_alnum, normalized_game_id, upper_all, valid_game_id};
use crate::text::{chars_of, decimal, push_decimal, push_str, string_of};
use crate::types::{square_text, to_ascii_uppercase, Color, Piece, PieceKind, Square};
use crate::variant::Variant;

verus! {

/// Who moves the pieces of one side.
#[derive(Clone, Copy, Debug, PartialEq, Eq, Structural)]
pub enum Controller {
    Human,
    Computer,
    Remote,
}

impl Controller {
    /// The controller's name.
    pub fn label(self) -> (r: &'static str)
        ensures
            r@ == match self {
                Controller::Human => "Human"@,
                Controller::Computer => "Computer"@,
                Controller::Remote => "Remote"@,
            },
    {
        match self {
            Controller::Human => "Human",
            Controller::Computer => "Computer",
            Controller::Remote => "Remote",
        }
    }

    /// Hands a side from the player to the computer or back; the server's
    /// side in an online game stays the server's.
    pub fn toggle(&mut self)
        ensures
            *final(self) == match *old(self) {
                Controller::Human => Controller::Computer,
                Controller::Computer => Controller::Human,
                Controller::Remote => Controller::Remote,
            },
    {
        *self = match *self {
            Controller::Human => Controller::Computer,
            Controller::Computer => Controller::Human,
            Controller::Remote => Controller::Remote,
        };
    }
}

#[derive(Clone, Copy, Debug, PartialEq, Eq, Structural)]
pub enum GameMode {
    Local,
    Ai,
    Multiplayer,
}

#[derive(Clone, Copy, Debug, PartialEq, Eq, Structural)]
pub enum SideChoice {
    Random,
    White,
    Black,
}

/// The state of the game menu.
#[derive(Clone, Debug, PartialEq, Eq)]
pub struct GameMenuState {
    pub open: bool,
    pub selected_mode: GameMode,
    pub selected_variant: Variant,
    pub selected_side: SideChoice,
    pub active_mode: GameMode,
    pub active_side: Color,
    pub multiplayer_game_id: String,
}

impl Default for GameMenuState {
    fn default() -> (r: Self)
        ensures
            r.open,
            r.selected_mode == GameMode::Local,
            r.selected_variant == Variant::Gothic,
            r.selected_side == SideChoice::Random,
            r.active_mode == GameMode::Local,
            r.active_side == Color::White,
            r.multiplayer_game_id@ == Seq::<char>::empty(),
    {
        GameMenuState {
            open: true,
            selected_mode: GameMode::Local,
            selected_variant: Variant::Gothic,
            selected_side: SideChoice::Random,
            active_mode: GameMode::Local,
            active_side: Color::White,
            multiplayer_game_id: String::new(),
        }
    }
}

/// The ASCII letters and digits of a text, in order.
pub open spec fn alnum_only(s: Seq<char>) -> Seq<char>
    decreases s.len(),
{
    if s.len() == 0 {
        Seq::empty()
    } else if is_ascii_alnum(s.last()) {
        alnum_only(s.drop_last()).push(s.last())
    } else {
        alnum_only(s.drop_last())
    }
}

/// At most the first twelve characters.
pub open spec fn first_twelve(s: Seq<char>) -> Seq<char> {
    if s.len() <= 12 {
        s
    } else {
        s.take(12)
    }
}

/// A game id as typed into the browser: its first twelve ASCII letters and
/// digits, upper-cased.
pub open spec fn sanitized_game_id(s: Seq<char>) -> Seq<char> {
    upper_all(first_twelve(alnum_only(s)))
}

pub fn normalize_game_id_input(value: &str) -> (r: String)
    ensures
        r@ == sanitized_game_id(value@),
{
    let chars = chars_of(value);
    let mut out: Vec<char> = Vec::new();
    let mut i: usize = 0;
    while i < chars.len()
        invariant
            i <= chars@.len(),
            chars@ == value@,
            out@ == upper_all(first_twelve(alnum_only(chars@.take(i as int)))),
        decreases chars.len() - i,
    {
        let c = chars[i];
        let ghost prev = alnum_only(chars@.take(i as int));
        assert(chars@.take(i + 1).drop_last() =~= chars@.take(i as int));
        if ('0' <= c && c <= '9') || ('A' <= c && c <= 'Z') || ('a' <= c && c <= 'z') {
            assert(alnum_only(chars@.take(i + 1)) == prev.push(c));
            if out.len() < 12 {
                out.push(to_ascii_uppercase(c));
                assert(out@ =~= upper_all(first_twelve(prev.push(c))));
            } else {
                assert(first_twelve(prev.push(c)) =~= first_twelve(prev));
            }
        }
        i += 1;
    }
    assert(chars@.take(i as int) =~= chars@);
    string_of(&out)
}

/// A non-empty game id typed into the browser is one the server accepts
/// unchanged.
pub proof fn lemma_sanitized_id_accepted(s: Seq<char>)
    requires
        sanitized_game_id(s).len() > 0,
    ensures
        valid_game_id(normalized_game_id(sanitized_game_id(s))),
        normalized_game_id(sanitized_game_id(s)) == sanitized_game_id(s),
{
    let a = alnum_only(s);
    lemma_alnum_only(s);
    let t = sanitized_game_id(s);
    assert forall|i: int| 0 <= i < t.len() implies ('0' <= #[trigger] t[i] && t[i] <= '9') || ('A' <= t[i] && t[i]
        <= 'Z') by {
        assert(first_twelve(a)[i] == a[i]);
        assert(is_ascii_alnum(a[i]));
    }
    crate::server::lemma_normal_form(t);
}

proof fn lemma_alnum_only(s: Seq<char>)
    ensures
        forall|i: int| 0 <= i < alnum_only(s).len() ==> is_ascii_alnum(#[trigger] alnum_only(s)[i]),
    decreases s.len(),
{
    if s.len() > 0 {
        lemma_alnum_only(s.drop_last());
        let prev = alnum_only(s.drop_last());
        assert forall|i: int| 0 <= i < alnum_only(s).len() implies is_ascii_alnum(#[trigger] alnum_only(s)[i]) by {
            if i < prev.len() {
                assert(alnum_only(s)[i] == prev[i]);
            }
        }
    }
}

pub open spec fn resolve_side_spec(choice: SideChoice, entropy: u128) -> Color {
    match choice {
        SideChoice::Random => if entropy % 2 == 0 {
            Color::White
        } else {
            Color::Black
        },
        SideChoice::White => Color::White,
        SideChoice::Black => Color::Black,
    }
}

/// The side a choice gives, a random choice deciding by `entropy`.
pub fn resolve_side(choice: SideChoice, entropy: u128) -> (r: Color)
    ensures
        r == resolve_side_spec(choice, entropy),
{
    match choice {
        SideChoice::Random => if entropy % 2 == 0 {
            Color::White
        } else {
            Color::Black
        },
        SideChoice::White => Color::White,
        SideChoice::Black => Color::Black,
    }
}

/// The side the camera starts behind: White in pass-and-play, which moves
/// first, and the player's side otherwise.
pub fn starting_camera_side(mode: GameMode, choice: SideChoice, entropy: u128) -> (r: Color)
    ensures
        mode == GameMode::Local ==> r == Color::White,
        mode != GameMode::Local ==> r == resolve_side_spec(choice, entropy),
{
    match mode {
        GameMode::Local => Color::White,
        GameMode::Ai | GameMode::Multiplayer => resolve_side(choice, entropy),
    }
}

/// Who controls each side, White first.
pub fn controllers_for(mode: GameMode, human_side: Color) -> (r: [Controller; 2])
    ensures
        mode == GameMode::Local ==> r@ == seq![Controller::Human, Controller::Human],
        mode != GameMode::Local ==> forall|i: int|
            0 <= i < 2 ==> #[trigger] r@[i] == if i == human_side.idx() {
                Controller::Human
            } else if mode == GameMode::Ai {
                Controller::Computer
            } else {
                Controller::Remote
            },
{
    match mode {
        GameMode::Local => {
            let r = [Controller::Human, Controller::Human];
            assert(r@ =~= seq![Controller::Human, Controller::Human]);
            r
        },
        GameMode::Ai => if human_side.index() == 0 {
            [Controller::Human, Controller::Computer]
        } else {
            [Controller::Computer, Controller::Human]
        },
        GameMode::Multiplayer => if human_side.index() == 0 {
            [Controller::Human, Controller::Remote]
        } else {
            [Controller::Remote, Controller::Human]
        },
    }
}

pub fn variant_label(variant: Variant) -> (r: &'static str)
    ensures
        r@ == match variant {
            Variant::Capablanca => "Capablanca"@,
            Variant::Gothic => "Gothic"@,
            Variant::Embassy => "Embassy"@,
            Variant::Schoolbook => "Schoolbook"@,
            Variant::Bird => "Bird"@,
            Variant::Carrera => "Carrera"@,
            Variant::Grand => "Grand Chess"@,
        },
{
    match variant {
        Variant::Capablanca => "Capablanca",
        Variant::Gothic => "Gothic",
        Variant::Embassy => "Embassy",
        Variant::Schoolbook => "Schoolbook",
        Variant::Bird => "Bird",
        Variant::Carrera => "Carrera",
        Variant::Grand => "Grand Chess",
    }
}

pub open spec fn side_name_spec(c: Color) -> Seq<char> {
    match c {
        Color::White => "White"@,
        Color::Black => "Black"@,
    }
}

pub fn side_name(side: Color) -> (r: &'static str)
    ensures
        r@ == side_name_spec(side),
{
    match side {
        Color::White => "White",
        Color::Black => "Black",
    }
}

pub open spec fn piece_name_spec(k: PieceKind) -> Seq<char> {
    match k {
        PieceKind::Pawn => "pawn"@,
        PieceKind::Knight => "knight"@,
        PieceKind::Bishop => "bishop"@,
        PieceKind::Rook => "rook"@,
        PieceKind::Queen => "queen"@,
        PieceKind::King => "king"@,
        PieceKind::Archbishop => "archbishop"@,
        PieceKind::Chancellor => "chancellor"@,
    }
}

pub fn piece_name(kind: PieceKind) -> (r: &'static str)
    ensures
        r@ == piece_name_spec(kind),
{
    match kind {
        PieceKind::Pawn => "pawn",
        PieceKind::Knight => "knight",
        PieceKind::Bishop => "bishop",
        PieceKind::Rook => "rook",
        PieceKind::Queen => "queen",
        PieceKind::King => "king",
        PieceKind::Archbishop => "archbishop",
        PieceKind::Chancellor => "chancellor",
    }
}

/// Whether moves can still be made.
pub fn is_playable(outcome: GameOutcome) -> (r: bool)
    ensures
        r == (outcome is Ongoing || outcome is Check),
{
    match outcome {
        GameOutcome::Ongoing | GameOutcome::Check => true,
        _ => false,
    }
}

pub open spec fn outcome_text(o: GameOutcome) -> Seq<char> {
    match o {
        GameOutcome::Ongoing => "Game in progress."@,
        GameOutcome::Check => "Check."@,
        GameOutcome::Win { winner } => "Checkmate — "@ + side_name_spec(winner) + " wins."@,
        GameOutcome::Draw(reason) => match reason {
            DrawReason::Stalemate => "Draw by stalemate."@,
            DrawReason::FiftyMoveRule => "Draw by the fifty-move rule."@,
            DrawReason::ThreefoldRepetition => "Draw by threefold repetition."@,
        },
    }
}

/// The sentence that reports how a game stands.
pub fn outcome_message(outcome: GameOutcome) -> (r: String)
    ensures
        r@ == outcome_text(outcome),
{
    match outcome {
        GameOutcome::Ongoing => "Game in progress.".to_owned(),
        GameOutcome::Check => "Check.".to_owned(),
        GameOutcome::Win { winner } => {
            let mut out: Vec<char> = Vec::new();
            push_str(&mut out, "Checkmate — ");
            push_str(&mut out, side_name(winner));
            push_str(&mut out, " wins.");
            string_of(&out)
        },
        GameOutcome::Draw(reason) => match reason {
            DrawReason::Stalemate => "Draw by stalemate.".to_owned(),
            DrawReason::FiftyMoveRule => "Draw by the fifty-move rule.".to_owned(),
            DrawReason::ThreefoldRepetition => "Draw by threefold repetition.".to_owned(),
        },
    }
}

/// The key and name offered for a promotion choice; pawns and kings are
/// never offered.
pub open spec fn promotion_label(p: Option<PieceKind>) -> Option<Seq<char>> {
    match p {
        Some(PieceKind::Queen) => Some("Q queen"@),
        Some(PieceKind::Chancellor) => Some("C chancellor"@),
        Some(PieceKind::Archbishop) => Some("A archbishop"@),
        Some(PieceKind::Rook) => Some("R rook"@),
        Some(PieceKind::Bishop) => Some("B bishop"@),
        Some(PieceKind::Knight) => Some("N knight"@),
        Some(PieceKind::Pawn) => None,
        Some(PieceKind::King) => None,
        None => Some("Space no promotion"@),
    }
}

/// The promotion choices of a list of moves, each once, in first-seen order.
pub open spec fn distinct_promotions(ms: Seq<Move>) -> Seq<Option<PieceKind>>
    decreases ms.len(),
{
    if ms.len() == 0 {
        Seq::empty()
    } else {
        let rest = distinct_promotions(ms.drop_last());
        if rest.contains(ms.last().promotion) {
            rest
        } else {
            rest.push(ms.last().promotion)
        }
    }
}

/// The promotion choices offered by a list of moves.
pub fn promotion_options(moves: &[Move]) -> (r: Vec<Option<PieceKind>>)
    ensures
        r@ == distinct_promotions(moves@),
{
    let mut options: Vec<Option<PieceKind>> = Vec::new();
    let mut i: usize = 0;
    while i < moves.len()
        invariant
            i <= moves@.len(),
            options@ == distinct_promotions(moves@.take(i as int)),
        decreases moves.len() - i,
    {
        let promotion = moves[i].promotion;
        assert(moves@.take(i + 1).drop_last() =~= moves@.take(i as int));
        let mut seen = false;
        let mut k: usize = 0;
        while k < options.len()
            invariant
                k <= options@.len(),
                seen == exists|j: int| 0 <= j < k && options@[j] == promotion,
            decreases options.len() - k,
        {
            if options[k] == promotion {
                seen = true;
            }
            k += 1;
        }
        if !seen {
            options.push(promotion);
        }
        i += 1;
    }
    assert(moves@.take(i as int) =~= moves@);
    options
}

/// The labels of the promotion choices of a list of moves, each once, in
/// first-seen order.
pub open spec fn prompt_labels(ms: Seq<Move>) -> Seq<Seq<char>>
    decreases ms.len(),
{
    if ms.len() == 0 {
        Seq::empty()
    } else {
        let rest = prompt_labels(ms.drop_last());
        match promotion_label(ms.last().promotion) {
            Some(l) => if rest.contains(l) {
                rest
            } else {
                rest.push(l)
            },
            None => rest,
        }
    }
}

/// Texts joined with a separator.
pub open spec fn joined(parts: Seq<Seq<char>>, sep: Seq<char>) -> Seq<char>
    decreases parts.len(),
{
    if parts.len() == 0 {
        Seq::empty()
    } else if parts.len() == 1 {
        parts[0]
    } else {
        joined(parts.drop_last(), sep) + sep + parts.last()
    }
}

fn promotion_label_text(p: Option<PieceKind>) -> (r: Option<&'static str>)
    ensures
        r matches Some(s) ==> promotion_label(p) == Some(s@),
        r is None <==> promotion_label(p) is None,
{
    match p {
        Some(PieceKind::Queen) => Some("Q queen"),
        Some(PieceKind::Chancellor) => Some("C chancellor"),
        Some(PieceKind::Archbishop) => Some("A archbishop"),
        Some(PieceKind::Rook) => Some("R rook"),
        Some(PieceKind::Bishop) => Some("B bishop"),
        Some(PieceKind::Knight) => Some("N knight"),
        Some(PieceKind::Pawn) => None,
        Some(PieceKind::King) => None,
        None => Some("Space no promotion"),
    }
}

/// The prompt asking which piece a pawn becomes.
pub fn promotion_prompt(moves: &[Move]) -> (r: String)
    ensures
        r@ == "Choose promotion: "@ + joined(prompt_labels(moves@), ", "@) + "."@,
{
    let mut labels: Vec<&'static str> = Vec::new();
    let mut i: usize = 0;
    while i < moves.len()
        invariant
            i <= moves@.len(),
            labels@.len() == prompt_labels(moves@.take(i as int)).len(),
            forall|j: int| 0 <= j < labels@.len() ==> (#[trigger] labels@[j])@ == prompt_labels(moves@.take(i as int))[j],
        decreases moves.len() - i,
    {
        assert(moves@.take(i + 1).drop_last() =~= moves@.take(i as int));
        let ghost prev = prompt_labels(moves@.take(i as int));
        match promotion_label_text(moves[i].promotion) {
            Some(label) => {
                let mut seen = false;
                let mut k: usize = 0;
                while k < labels.len()
                    invariant
                        k <= labels@.len(),
                        labels@.len() == prev.len(),
                        forall|j: int| 0 <= j < labels@.len() ==> (#[trigger] labels@[j])@ == prev[j],
                        seen == exists|j: int| 0 <= j < k && prev[j] == label@,
                    decreases labels.len() - k,
                {
                    if crate::server::text_equals(labels[k], label) {
                        seen = true;
                    }
                    k += 1;
                }
                if !seen {
                    labels.push(label);
                    assert(!prev.contains(label@));
                } else {
                    assert(prev.contains(label@));
                }
            },
            None => {},
        }
        i += 1;
    }
    assert(moves@.take(i as int) =~= moves@);
    let ghost all = prompt_labels(moves@);
    let mut out: Vec<char> = Vec::new();
    push_str(&mut out, "Choose promotion: ");
    let ghost head = out@;
    let mut k: usize = 0;
    while k < labels.len()
        invariant
            k <= labels@.len(),
            labels@.len() == all.len(),
            forall|j: int| 0 <= j < labels@.len() ==> (#[trigger] labels@[j])@ == all[j],
            out@ == head + joined(all.take(k as int), ", "@),
        decreases labels.len() - k,
    {
        if k > 0 {
            push_str(&mut out, ", ");
        }
        push_str(&mut out, labels[k]);
        proof {
            let t = all.take(k + 1);
            assert(t.drop_last() =~= all.take(k as int));
            assert(t.last() == labels@[k as int]@);
            if k == 0 {
                assert(joined(all.take(0), ", "@) =~= Seq::<char>::empty());
                assert(t.len() == 1);
            }
        }
        assert(out@ =~= head + joined(all.take(k + 1), ", "@));
        k += 1;
    }
    assert(all.take(k as int) =~= all);
    push_str(&mut out, ".");
    string_of(&out)
}

pub open spec fn describe_move_spec(piece: Piece, m: Move, capture: bool) -> Seq<char> {
    match m.kind {
        MoveKind::Castle(side) => side_name_spec(piece.color) + " castles "@ + match side {
            CastleSide::QueenSide => "queen-side"@,
            CastleSide::KingSide => "king-side"@,
        },
        _ => side_name_spec(piece.color) + " "@ + piece_name_spec(piece.kind) + " "@ + square_text(m.from) + (if capture {
            "x"@
        } else {
            "-"@
        }) + square_text(m.to) + match m.promotion {
            Some(k) => " promotes to "@ + piece_name_spec(k),
            None => Seq::empty(),
        },
    }
}

/// The sentence describing a move, such as `White knight b1-c3`.
pub fn describe_move(piece: Piece, chess_move: Move, capture: bool) -> (r: String)
    requires
        crate::mv::writable(chess_move.from),
        crate::mv::writable(chess_move.to),
    ensures
        r@ == describe_move_spec(piece, chess_move, capture),
{
    let mut out: Vec<char> = Vec::new();
    push_str(&mut out, side_name(piece.color));
    match chess_move.kind {
        MoveKind::Castle(side) => {
            push_str(&mut out, " castles ");
            match side {
                CastleSide::QueenSide => push_str(&mut out, "queen-side"),
                CastleSide::KingSide => push_str(&mut out, "king-side"),
            }
            return string_of(&out);
        },
        _ => {},
    }
    push_str(&mut out, " ");
    push_str(&mut out, piece_name(piece.kind));
    push_str(&mut out, " ");
    chess_move.from.push_notation(&mut out);
    push_str(&mut out, if capture { "x" } else { "-" });
    chess_move.to.push_notation(&mut out);
    match chess_move.promotion {
        Some(kind) => {
            push_str(&mut out, " promotes to ");
            push_str(&mut out, piece_name(kind));
        },
        None => {},
    }
    assert(out@ =~= describe_move_spec(piece, chess_move, capture));
    string_of(&out)
}

pub open spec fn mode_text(mode: GameMode) -> Seq<char> {
    match mode {
        GameMode::Local => "Local · two players"@,
        GameMode::Ai => "AI · versus computer"@,
        GameMode::Multiplayer => "Multiplayer · online"@,
    }
}

/// The heads-up text: the game, the mode and, once the game is over, the
/// result.
pub fn hud_text(game_type: &str, mode: GameMode, outcome: GameOutcome) -> (r: String)
    ensures
        r@ == game_type@ + "\n"@ + mode_text(mode) + if outcome is Ongoing || outcome is Check {
            Seq::empty()
        } else {
            "\n\n"@ + outcome_text(outcome)
        },
{
    let mut out: Vec<char> = Vec::new();
    push_str(&mut out, game_type);
    push_str(&mut out, "\n");
    match mode {
        GameMode::Local => push_str(&mut out, "Local · two players"),
        GameMode::Ai => push_str(&mut out, "AI · versus computer"),
        GameMode::Multiplayer => push_str(&mut out, "Multiplayer · online"),
    }
    if !is_playable(outcome) {
        push_str(&mut out, "\n\n");
        let message = outcome_message(outcome);
        push_str(&mut out, message.as_str());
    }
    string_of(&out)
}

#[derive(Clone, Copy, Debug, PartialEq, Eq, Structural)]
pub enum ResultSound {
    Victory,
    Defeat,
}

/// `fastrand::usize(low..high)`: a number drawn from the thread's random
/// generator, at least `low` and below `high`. Which one is left to chance.
#[verifier::external_body]
fn random_index(low: usize, high: usize) -> (r: usize)
    requires
        low < high,
    ensures
        low <= r < high,
{
    fastrand::usize(low..high)
}

/// How many equally likely choices the next move sound is drawn from: every
/// clip but the one just played, when there is another, else every clip.
pub open spec fn clip_choices(clip_count: usize, previous: Option<usize>) -> int {
    if clip_count > 1 && previous is Some {
        clip_count - 1
    } else {
        clip_count as int
    }
}

/// The move sound that the draw `draw` picks: after a previous clip `p`,
/// the clip `1 + draw % (clip_count - 1)` places further on, wrapping around,
/// so that each other clip is reached by one remainder; otherwise the clip
/// `draw % clip_count`.
pub open spec fn clip_after_draw_spec(clip_count: usize, previous: Option<usize>, draw: usize) -> int {
    match previous {
        Some(p) if clip_count > 1 => (p + 1 + (draw as int) % (clip_count - 1)) % (clip_count as int),
        _ => (draw as int) % (clip_count as int),
    }
}

/// The move sound a random draw picks; see `clip_after_draw_spec`.
pub fn clip_after_draw(clip_count: usize, previous: Option<usize>, draw: usize) -> (r: usize)
    requires
        clip_count > 0,
        clip_count > 1 ==> (previous matches Some(p) ==> p + clip_count - 1 <= usize::MAX),
    ensures
        r == clip_after_draw_spec(clip_count, previous, draw),
        r < clip_count,
        clip_count > 1 ==> (previous matches Some(p) ==> r != p),
{
    match previous {
        Some(p) if clip_count > 1 => {
            let offset = 1 + draw % (clip_count - 1);
            let r = (p + offset) % clip_count;
            proof {
                if p < clip_count && r == p {
                    assert(false) by (nonlinear_arith)
                        requires
                            p < clip_count,
                            1 <= offset < clip_count,
                            r == (p + offset) % (clip_count as int),
                            r == p,
                    ;
                }
            }
            r
        },
        _ => draw % clip_count,
    }
}

/// Picks which of `clip_count` move sounds plays next, with equal chance
/// among every clip but the one just played (when there is another).
pub fn random_clip_index(clip_count: usize, previous: Option<usize>) -> (r: usize)
    requires
        clip_count > 0,
        clip_count > 1 ==> (previous matches Some(p) ==> p + clip_count - 1 <= usize::MAX),
    ensures
        exists|draw: usize|
            #![trigger clip_after_draw_spec(clip_count, previous, draw)]
            draw < clip_choices(clip_count, previous) && r == clip_after_draw_spec(clip_count, previous, draw),
        r < clip_count,
        clip_count > 1 ==> (previous matches Some(p) ==> r != p),
{
    let choices = match previous {
        Some(_) if clip_count > 1 => clip_count - 1,
        _ => clip_count,
    };
    let draw = random_index(0, choices);
    clip_after_draw(clip_count, previous, draw)
}

/// The sound a finished game plays, judged from the controllers.
pub open spec fn result_sound_spec(outcome: GameOutcome, controllers: [Controller; 2]) -> Option<ResultSound> {
    match outcome {
        GameOutcome::Win { winner } => Some(
            if controllers@[winner.idx()] == Controller::Human {
                ResultSound::Victory
            } else {
                ResultSound::Defeat
            },
        ),
        GameOutcome::Draw(_) => Some(ResultSound::Defeat),
        _ => None,
    }
}

/// The sound a finished game plays: victory when a human wins, defeat when
/// the computer or the opponent wins and after every draw.
pub fn result_sound(outcome: GameOutcome, controllers: [Controller; 2]) -> (r: Option<ResultSound>)
    ensures
        r == result_sound_spec(outcome, controllers),
{
    match outcome {
        GameOutcome::Win { winner } => Some(
            if controllers[winner.index()] == Controller::Human {
                ResultSound::Victory
            } else {
                ResultSound::Defeat
            },
        ),
        GameOutcome::Draw(_) => Some(ResultSound::Defeat),
        GameOutcome::Ongoing | GameOutcome::Check => None,
    }
}

pub const MIN_DIFFICULTY: u8 = 1;

pub const MAX_DIFFICULTY: u8 = 10;

pub const DEFAULT_DIFFICULTY: u8 = 5;

/// Approximate Elo targets of the levels below the maximum.
pub open spec fn difficulty_elo() -> Seq<u16> {
    seq![500, 750, 1000, 1250, 1500, 1750, 2000, 2250, 2550]
}

/// The thinking time of each level, in milliseconds.
pub open spec fn move_times() -> Seq<u32> {
    seq![150, 200, 300, 450, 650, 900, 1250, 1700, 2300, 3200]
}

pub open spec fn clamp_level(level: u8) -> u8 {
    if level < MIN_DIFFICULTY {
        MIN_DIFFICULTY
    } else if level > MAX_DIFFICULTY {
        MAX_DIFFICULTY
    } else {
        level
    }
}

/// How the engine plays at one level.
#[derive(Clone, Copy, Debug, PartialEq, Eq, Structural)]
pub struct DifficultyProfile {
    pub level: u8,
    pub elo: Option<u16>,
    pub move_time_ms: u32,
}

impl DifficultyProfile {
    /// The profile of a level, the level first brought within range; the
    /// maximum level has no Elo limit.
    pub fn new(level: u8) -> (r: Self)
        ensures
            r.level == clamp_level(level),
            r.elo == (if r.level < MAX_DIFFICULTY {
                Some(difficulty_elo()[r.level - MIN_DIFFICULTY])
            } else {
                None
            }),
            r.move_time_ms == move_times()[r.level - MIN_DIFFICULTY],
    {
        let level = if level < MIN_DIFFICULTY {
            MIN_DIFFICULTY
        } else if level > MAX_DIFFICULTY {
            MAX_DIFFICULTY
        } else {
            level
        };
        let elos: [u16; 9] = [500, 750, 1000, 1250, 1500, 1750, 2000, 2250, 2550];
        let times: [u32; 10] = [150, 200, 300, 450, 650, 900, 1250, 1700, 2300, 3200];
        assert(elos@ =~= difficulty_elo());
        assert(times@ =~= move_times());
        let index = (level - MIN_DIFFICULTY) as usize;
        let elo = if index < 9 {
            Some(elos[index])
        } else {
            None
        };
        DifficultyProfile { level, elo, move_time_ms: times[index] }
    }
}

/// The label of a level: its number and estimated strength.
pub fn difficulty_description(difficulty: u8) -> (r: String)
    ensures
        ({
            let p = clamp_level(difficulty);
            r@ == "Level "@ + decimal(p as nat) + if p < MAX_DIFFICULTY {
                " · ~"@ + decimal(difficulty_elo()[p - MIN_DIFFICULTY] as nat) + " Elo"@
            } else {
                " · Maximum"@
            }
        }),
{
    let profile = DifficultyProfile::new(difficulty);
    let mut out: Vec<char> = Vec::new();
    push_str(&mut out, "Level ");
    push_decimal(&mut out, profile.level as u64);
    match profile.elo {
        Some(elo) => {
            push_str(&mut out, " · ~");
            push_decimal(&mut out, elo as u64);
            push_str(&mut out, " Elo");
        },
        None => push_str(&mut out, " · Maximum"),
    }
    string_of(&out)
}

/// The engine level chosen in the menu, always within range.
#[derive(Clone, Copy, Debug, PartialEq, Eq)]
pub struct AiSettings {
    difficulty: u8,
}

impl AiSettings {
    pub closed spec fn level(self) -> u8 {
        self.difficulty
    }

    pub open spec fn wf(self) -> bool {
        MIN_DIFFICULTY <= self.level() <= MAX_DIFFICULTY
    }

    pub fn difficulty(&self) -> (r: u8)
        ensures
            r == self.level(),
    {
        self.difficulty
    }

    pub fn set_difficulty(&mut self, difficulty: u8)
        ensures
            final(self).level() == clamp_level(difficulty),
            final(self).wf(),
    {
        self.difficulty = if difficulty < MIN_DIFFICULTY {
            MIN_DIFFICULTY
        } else if difficulty > MAX_DIFFICULTY {
            MAX_DIFFICULTY
        } else {
            difficulty
        };
    }
}

impl Default for AiSettings {
    fn default() -> (r: Self)
        ensures
            r.level() == DEFAULT_DIFFICULTY,
            r.wf(),
    {
        AiSettings { difficulty: DEFAULT_DIFFICULTY }
    }
}

/// The name under which Fairy-Stockfish knows a variant.
pub fn fairy_variant(variant: Variant) -> (r: &'static str)
    ensures
        r@ == match variant {
            Variant::Capablanca => "capablanca"@,
            Variant::Gothic => "gothic"@,
            Variant::Embassy => "embassy"@,
            Variant::Schoolbook => "ccp_schoolbook"@,
            Variant::Bird => "ccp_bird"@,
            Variant::Carrera => "ccp_carrera"@,
            Variant::Grand => "grand"@,
        },
{
    match variant {
        Variant::Capablanca => "capablanca",
        Variant::Gothic => "gothic",
        Variant::Embassy => "embassy",
        Variant::Schoolbook => "ccp_schoolbook",
        Variant::Bird => "ccp_bird",
        Variant::Carrera => "ccp_carrera",
        Variant::Grand => "grand",
    }
}

/// The status line of an online game.
pub fn room_status(game_id: &str, opponent_connected: bool) -> (r: String)
    ensures
        r@ == "Game "@ + game_id@ + if opponent_connected {
            " · opponent connected"@
        } else {
            " · waiting for opponent"@
        },
{
    let mut out: Vec<char> = Vec::new();
    push_str(&mut out, "Game ");
    push_str(&mut out, game_id);
    if opponent_connected {
        push_str(&mut out, " · opponent connected");
    } else {
        push_str(&mut out, " · waiting for opponent");
    }
    string_of(&out)
}

pub fn side_to_preference(side: SideChoice) -> (r: SidePreference)
    ensures
        r == match side {
            SideChoice::Random => SidePreference::Random,
            SideChoice::White => SidePreference::White,
            SideChoice::Black => SidePreference::Black,
        },
{
    match side {
        SideChoice::Random => SidePreference::Random,
        SideChoice::White => SidePreference::White,
        SideChoice::Black => SidePreference::Black,
    }
}

pub fn side_from_wire(side: Side) -> (r: Color)
    ensures
        crate::server::side_of(r) == side,
{
    match side {
        Side::White => Color::White,
        Side::Black => Color::Black,
    }
}

pub fn variant_to_wire(variant: Variant) -> (r: WireVariant)
    ensures
        crate::server::engine_variant_spec(r) == variant,
{
    match variant {
        Variant::Capablanca => WireVariant::Capablanca,
        Variant::Gothic => WireVariant::Gothic,
        Variant::Embassy => WireVariant::Embassy,
        Variant::Schoolbook => WireVariant::Schoolbook,
        Variant::Bird => WireVariant::Bird,
        Variant::Carrera => WireVariant::Carrera,
        Variant::Grand => WireVariant::Grand,
    }
}

pub fn variant_from_wire(variant: WireVariant) -> (r: Variant)
    ensures
        r == crate::server::engine_variant_spec(variant),
{
    crate::server::engine_variant(variant)
}

/// A variant sent over the wire comes back as itself.
pub proof fn lemma_wire_variant_round_trip(v: Variant, w: WireVariant)
    ensures
        crate::server::engine_variant_spec(w) == v <==> w == match v {
            Variant::Capablanca => WireVariant::Capablanca,
            Variant::Gothic => WireVariant::Gothic,
            Variant::Embassy => WireVariant::Embassy,
            Variant::Schoolbook => WireVariant::Schoolbook,
            Variant::Bird => WireVariant::Bird,
            Variant::Carrera => WireVariant::Carrera,
            Variant::Grand => WireVariant::Grand,
        },
{
}

} // verus!
