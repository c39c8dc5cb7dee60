//! The rules the multiplayer server applies to stored games: validating game
//! ids, player tokens and revisions, replaying stored histories through the
//! engine, and deciding how each request is answered.
use vstd::prelude::*;
use sha2::{Digest, Sha256};
use uuid::Uuid;
use crate::game::{key_of, Game};
use crate::legal::{move_error_text, notation_move, MoveError};
use crate::mv::{move_text, Move};
use crate::position::Position;
use crate::protocol::{
    ServerMessage, Side, SidePreference, SyncReason, Variant, MAX_GAME_ID_LEN, MAX_MOVE_LEN, PROTOCOL_VERSION,
};
use crate::mv::CastleSide;
use crate::text::{
    chars_of, decimal, lower_all, lowercased, push_decimal, push_signed_decimal, push_str, signed_decimal, string_of,
    trim, trimmed,
};
use crate::types::{to_ascii_uppercase, upper_spec, Color};
use crate::variant::{variant_rules_spec, Variant as EngineVariant};

verus! {

broadcast use crate::board::Board::lemma_wf_size;

/// Why a request on a stored game failed.
#[derive(Clone, Debug, PartialEq, Eq)]
pub enum RepositoryError {
    /// A request the client can correct, with a stable code.
    Client { code: String, message: String },
    /// The database could not be reached or refused the statement.
    Database { detail: String },
    /// What is stored contradicts the rules or itself.
    Corrupt { game_id: String, detail: String },
}

pub open spec fn is_client_error(e: RepositoryError, code: Seq<char>, message: Seq<char>) -> bool {
    e matches RepositoryError::Client { code: c, message: m } && c@ == code && m@ == message
}

pub open spec fn is_corrupt(e: RepositoryError, game_id: Seq<char>, detail: Seq<char>) -> bool {
    e matches RepositoryError::Corrupt { game_id: g, detail: d } && g@ == game_id && d@ == detail
}

/// A stored game row.
#[derive(Clone, Debug, PartialEq, Eq)]
pub struct StoredRoom {
    pub game_id: String,
    pub variant: String,
    pub white_token_hash: Option<Vec<u8>>,
    pub black_token_hash: Option<Vec<u8>>,
    pub revision: i64,
}

/// A connection that proved which side of which game it plays.
#[derive(Clone, Debug, PartialEq, Eq)]
pub struct AuthenticatedPlayer {
    pub game_id: String,
    pub side: Side,
    pub player_token: String,
}

pub fn client_error(code: &str, message: &str) -> (r: RepositoryError)
    ensures
        is_client_error(r, code@, message@),
{
    RepositoryError::Client { code: code.to_owned(), message: message.to_owned() }
}

fn corrupt(game_id: &str, detail: &Vec<char>) -> (r: RepositoryError)
    ensures
        is_corrupt(r, game_id@, detail@),
{
    RepositoryError::Corrupt { game_id: game_id.to_owned(), detail: string_of(detail) }
}

/// Whether two strings hold the same characters.
pub fn text_equals(a: &str, b: &str) -> (r: bool)
    ensures
        r == (a@ == b@),
{
    let x = chars_of(a);
    let y = chars_of(b);
    crate::text::same_chars(&x, &y)
}

/// A stored revision, which counts the moves played, as an unsigned number.
pub fn revision_to_u64(revision: i64, game_id: &str) -> (r: Result<u64, RepositoryError>)
    ensures
        r is Ok <==> revision >= 0,
        r matches Ok(v) ==> v == revision,
        r matches Err(e) ==> is_corrupt(e, game_id@, "negative revision "@ + signed_decimal(revision as int)),
{
    if revision < 0 {
        let mut detail: Vec<char> = Vec::new();
        push_str(&mut detail, "negative revision ");
        push_signed_decimal(&mut detail, revision);
        return Err(corrupt(game_id, &detail));
    }
    Ok(revision as u64)
}

/// The revision of a stored game must count its stored moves.
pub fn verify_revision(room: &StoredRoom, history: &Vec<String>) -> (r: Result<(), RepositoryError>)
    ensures
        r is Ok <==> room.revision >= 0 && room.revision == history@.len(),
        r matches Err(e) ==> room.revision < 0 ==> is_corrupt(
            e,
            room.game_id@,
            "negative revision "@ + signed_decimal(room.revision as int),
        ),
        r matches Err(e) ==> room.revision >= 0 ==> is_corrupt(
            e,
            room.game_id@,
            "revision "@ + decimal(room.revision as nat) + " does not match "@ + decimal(history@.len())
                + " stored moves"@,
        ),
{
    let revision = match revision_to_u64(room.revision, room.game_id.as_str()) {
        Ok(v) => v,
        Err(e) => return Err(e),
    };
    if revision != history.len() as u64 {
        let mut detail: Vec<char> = Vec::new();
        push_str(&mut detail, "revision ");
        push_decimal(&mut detail, revision);
        push_str(&mut detail, " does not match ");
        push_decimal(&mut detail, history.len() as u64);
        push_str(&mut detail, " stored moves");
        return Err(corrupt(room.game_id.as_str(), &detail));
    }
    Ok(())
}

/// The name under which a variant is stored.
pub open spec fn variant_key(v: Variant) -> Seq<char> {
    match v {
        Variant::Capablanca => "capablanca"@,
        Variant::Gothic => "gothic"@,
        Variant::Embassy => "embassy"@,
        Variant::Schoolbook => "schoolbook"@,
        Variant::Bird => "bird"@,
        Variant::Carrera => "carrera"@,
        Variant::Grand => "grand"@,
    }
}

/// The variant stored under a name.
pub open spec fn variant_of_key(s: Seq<char>) -> Option<Variant> {
    if s == "capablanca"@ {
        Some(Variant::Capablanca)
    } else if s == "gothic"@ {
        Some(Variant::Gothic)
    } else if s == "embassy"@ {
        Some(Variant::Embassy)
    } else if s == "schoolbook"@ {
        Some(Variant::Schoolbook)
    } else if s == "bird"@ {
        Some(Variant::Bird)
    } else if s == "carrera"@ {
        Some(Variant::Carrera)
    } else if s == "grand"@ {
        Some(Variant::Grand)
    } else {
        None
    }
}

pub fn variant_name(variant: Variant) -> (r: &'static str)
    ensures
        r@ == variant_key(variant),
{
    match variant {
        Variant::Capablanca => "capablanca",
        Variant::Gothic => "gothic",
        Variant::Embassy => "embassy",
        Variant::Schoolbook => "schoolbook",
        Variant::Bird => "bird",
        Variant::Carrera => "carrera",
        Variant::Grand => "grand",
    }
}

/// What `format!("{:?}")` writes for a string: the text quoted and escaped
/// as in Rust source. A function of the text alone.
pub uninterp spec fn debug_quoted(text: Seq<char>) -> Seq<char>;

/// `<str as Debug>::fmt`, through `format!`. Claims only that the result is
/// `debug_quoted` of the text; the escaping rules are not stated.
#[verifier::external_body]
fn debug_text(value: &str) -> (r: String)
    ensures
        r@ == debug_quoted(value@),
{
    format!("{value:?}")
}

pub fn parse_variant(value: &str, game_id: &str) -> (r: Result<Variant, RepositoryError>)
    ensures
        r is Ok <==> variant_of_key(value@) is Some,
        r matches Ok(v) ==> variant_of_key(value@) == Some(v),
        r matches Err(e) ==> is_corrupt(e, game_id@, "unknown variant "@ + debug_quoted(value@)),
{
    proof {
        reveal_strlit("capablanca");
        reveal_strlit("gothic");
        reveal_strlit("embassy");
        reveal_strlit("schoolbook");
        reveal_strlit("bird");
        reveal_strlit("carrera");
        reveal_strlit("grand");
    }
    if text_equals(value, "capablanca") {
        Ok(Variant::Capablanca)
    } else if text_equals(value, "gothic") {
        Ok(Variant::Gothic)
    } else if text_equals(value, "embassy") {
        Ok(Variant::Embassy)
    } else if text_equals(value, "schoolbook") {
        Ok(Variant::Schoolbook)
    } else if text_equals(value, "bird") {
        Ok(Variant::Bird)
    } else if text_equals(value, "carrera") {
        Ok(Variant::Carrera)
    } else if text_equals(value, "grand") {
        Ok(Variant::Grand)
    } else {
        let mut detail: Vec<char> = Vec::new();
        push_str(&mut detail, "unknown variant ");
        let quoted = debug_text(value);
        push_str(&mut detail, quoted.as_str());
        Err(corrupt(game_id, &detail))
    }
}

/// Reading back the stored name of a variant gives the variant.
pub proof fn lemma_variant_name_round_trip(v: Variant)
    ensures
        variant_of_key(variant_key(v)) == Some(v),
{
    reveal_strlit("capablanca");
    reveal_strlit("gothic");
    reveal_strlit("embassy");
    reveal_strlit("schoolbook");
    reveal_strlit("bird");
    reveal_strlit("carrera");
    reveal_strlit("grand");
    assert("capablanca"@.len() == 10 && "capablanca"@[0] == 'c');
    assert("gothic"@.len() == 6 && "gothic"@[0] == 'g');
    assert("embassy"@.len() == 7 && "embassy"@[0] == 'e');
    assert("schoolbook"@.len() == 10 && "schoolbook"@[0] == 's');
    assert("bird"@.len() == 4 && "bird"@[0] == 'b');
    assert("carrera"@.len() == 7 && "carrera"@[0] == 'c');
    assert("grand"@.len() == 5 && "grand"@[0] == 'g');
}

pub open spec fn engine_variant_spec(v: Variant) -> EngineVariant {
    match v {
        Variant::Capablanca => EngineVariant::Capablanca,
        Variant::Gothic => EngineVariant::Gothic,
        Variant::Embassy => EngineVariant::Embassy,
        Variant::Schoolbook => EngineVariant::Schoolbook,
        Variant::Bird => EngineVariant::Bird,
        Variant::Carrera => EngineVariant::Carrera,
        Variant::Grand => EngineVariant::Grand,
    }
}

pub fn engine_variant(variant: Variant) -> (r: EngineVariant)
    ensures
        r == engine_variant_spec(variant),
{
    match variant {
        Variant::Capablanca => EngineVariant::Capablanca,
        Variant::Gothic => EngineVariant::Gothic,
        Variant::Embassy => EngineVariant::Embassy,
        Variant::Schoolbook => EngineVariant::Schoolbook,
        Variant::Bird => EngineVariant::Bird,
        Variant::Carrera => EngineVariant::Carrera,
        Variant::Grand => EngineVariant::Grand,
    }
}

pub open spec fn side_of(c: Color) -> Side {
    match c {
        Color::White => Side::White,
        Color::Black => Side::Black,
    }
}

pub fn side_from_engine(side: Color) -> (r: Side)
    ensures
        r == side_of(side),
{
    match side {
        Color::White => Side::White,
        Color::Black => Side::Black,
    }
}

pub open spec fn is_ascii_alnum(c: char) -> bool {
    ('0' <= c && c <= '9') || ('A' <= c && c <= 'Z') || ('a' <= c && c <= 'z')
}

pub open spec fn upper_all(s: Seq<char>) -> Seq<char> {
    s.map_values(|c: char| upper_spec(c))
}

/// A game id as typed: trimmed and upper-cased.
pub open spec fn normalized_game_id(s: Seq<char>) -> Seq<char> {
    upper_all(trim(s))
}

/// One to twelve ASCII letters and digits.
pub open spec fn valid_game_id(s: Seq<char>) -> bool {
    &&& 0 < s.len() <= MAX_GAME_ID_LEN
    &&& forall|i: int| 0 <= i < s.len() ==> is_ascii_alnum(#[trigger] s[i])
}

pub fn normalize_game_id(value: &str) -> (r: Result<String, RepositoryError>)
    ensures
        r is Ok <==> valid_game_id(normalized_game_id(value@)),
        r matches Ok(s) ==> s@ == normalized_game_id(value@),
        r matches Err(e) ==> is_client_error(e, "invalid_game_id"@, "Malformed game id."@),
{
    let chars = chars_of(value);
    let trimmed_chars = trimmed(&chars);
    let mut upper: Vec<char> = Vec::new();
    let mut all_alnum = true;
    let mut i: usize = 0;
    while i < trimmed_chars.len()
        invariant
            i <= trimmed_chars@.len(),
            trimmed_chars@ == trim(value@),
            upper@ == upper_all(trimmed_chars@.take(i as int)),
            all_alnum == forall|k: int| 0 <= k < i ==> is_ascii_alnum(#[trigger] upper@[k]),
        decreases trimmed_chars.len() - i,
    {
        let c = to_ascii_uppercase(trimmed_chars[i]);
        let alnum = ('0' <= c && c <= '9') || ('A' <= c && c <= 'Z') || ('a' <= c && c <= 'z');
        let ghost before = upper@;
        upper.push(c);
        assert(upper@ =~= upper_all(trimmed_chars@.take(i + 1)));
        assert(forall|k: int| 0 <= k < i ==> upper@[k] == before[k]);
        assert(upper@[i as int] == c);
        all_alnum = all_alnum && alnum;
        assert(all_alnum == forall|k: int| 0 <= k < i + 1 ==> is_ascii_alnum(#[trigger] upper@[k])) by {
            if all_alnum {
                assert forall|k: int| 0 <= k < i + 1 implies is_ascii_alnum(#[trigger] upper@[k]) by {
                    if k < i {
                        assert(is_ascii_alnum(before[k]));
                    }
                }
            } else if !alnum {
                assert(!is_ascii_alnum(upper@[i as int]));
            } else {
                let k = choose|k: int| 0 <= k < i && !is_ascii_alnum(#[trigger] before[k]);
                assert(!is_ascii_alnum(upper@[k]));
            }
        }
        i += 1;
    }
    assert(trimmed_chars@.take(i as int) =~= trimmed_chars@);
    if upper.len() == 0 || upper.len() > MAX_GAME_ID_LEN || !all_alnum {
        return Err(client_error("invalid_game_id", "Malformed game id."));
    }
    Ok(string_of(&upper))
}

/// The SHA-256 digest of the UTF-8 bytes of a text. A function of the text
/// alone.
pub uninterp spec fn sha256_text(text: Seq<char>) -> Seq<u8>;

/// `Sha256::digest` of the token's bytes. Claims that the result is
/// `sha256_text` of the token and, as SHA-256 always does, 32 bytes long.
#[verifier::external_body]
fn sha256_digest(token: &str) -> (r: Vec<u8>)
    ensures
        r@ == sha256_text(token@),
        r@.len() == 32,
{
    Sha256::digest(token.as_bytes()).to_vec()
}

/// The hash under which a player token is stored.
pub fn hash_token(token: &str) -> (r: Vec<u8>)
    ensures
        r@ == sha256_text(token@),
        r@.len() == 32,
{
    sha256_digest(token)
}

pub fn same_bytes(a: &Vec<u8>, b: &Vec<u8>) -> (r: bool)
    ensures
        r == (a@ == b@),
{
    if a.len() != b.len() {
        return false;
    }
    let mut i: usize = 0;
    while i < a.len()
        invariant
            a@.len() == b@.len(),
            i <= a@.len(),
            forall|k: int| 0 <= k < i ==> a@[k] == b@[k],
        decreases a.len() - i,
    {
        if a[i] != b[i] {
            return false;
        }
        i += 1;
    }
    assert(a@ =~= b@);
    true
}

pub open spec fn holds_hash(slot: Option<Vec<u8>>, h: Seq<u8>) -> bool {
    slot matches Some(v) && v@ == h
}

fn slot_holds(slot: &Option<Vec<u8>>, hash: &Vec<u8>) -> (r: bool)
    ensures
        r == holds_hash(*slot, hash@),
{
    match slot {
        Some(v) => same_bytes(v, hash),
        None => false,
    }
}

/// The side whose stored hash, and only whose, is the token's hash.
pub open spec fn token_side(room: StoredRoom, token: Seq<char>) -> Option<Side> {
    let h = sha256_text(token);
    let white = holds_hash(room.white_token_hash, h);
    let black = holds_hash(room.black_token_hash, h);
    if white && !black {
        Some(Side::White)
    } else if black && !white {
        Some(Side::Black)
    } else {
        None
    }
}

pub fn authenticate(room: &StoredRoom, token: &str) -> (r: Result<Side, RepositoryError>)
    ensures
        r is Ok <==> token_side(*room, token@) is Some,
        r matches Ok(s) ==> token_side(*room, token@) == Some(s),
        r matches Err(e) ==> is_client_error(
            e,
            "invalid_player_token"@,
            "The saved player token is invalid for this game."@,
        ),
{
    let hash = hash_token(token);
    let white = slot_holds(&room.white_token_hash, &hash);
    let black = slot_holds(&room.black_token_hash, &hash);
    if white && !black {
        Ok(Side::White)
    } else if black && !white {
        Ok(Side::Black)
    } else {
        Err(client_error("invalid_player_token", "The saved player token is invalid for this game."))
    }
}

pub fn authenticate_as(room: &StoredRoom, side: Side, token: &str) -> (r: Result<(), RepositoryError>)
    ensures
        r is Ok <==> token_side(*room, token@) == Some(side),
        r matches Err(e) ==> token_side(*room, token@) is None ==> is_client_error(
            e,
            "invalid_player_token"@,
            "The saved player token is invalid for this game."@,
        ),
        r matches Err(e) ==> token_side(*room, token@) is Some ==> is_client_error(
            e,
            "invalid_player_token"@,
            "The token does not own this color."@,
        ),
{
    let owner = match authenticate(room, token) {
        Ok(s) => s,
        Err(e) => return Err(e),
    };
    if owner == side {
        Ok(())
    } else {
        Err(client_error("invalid_player_token", "The token does not own this color."))
    }
}

/// The texts of a list of strings.
pub open spec fn texts(h: Seq<String>) -> Seq<Seq<char>> {
    h.map_values(|s: String| s@)
}

/// What `Variant::starting_position` promises of the position it builds.
pub open spec fn is_starting_position(v: EngineVariant, p: Position) -> bool {
    &&& p.wf()
    &&& variant_rules_spec(v, p.rules_spec())
    &&& p.board_spec() == p.rules_spec().start_board()
    &&& p.side_spec() == Color::White
    &&& forall|c: Color, s: CastleSide| #[trigger] p.rights_spec().allows(c, s)
        == p.rules_spec().castling_spec().route_of(c, s) is Some
    &&& p.ep_spec() is None
    &&& p.halfmove_spec() == 0
    &&& p.fullmove_spec() == 1
}

/// The positions reached by playing, from `start`, the moves that `hist`
/// names, `start` first; `None` when one of them names no legal move.
pub open spec fn replay_positions(start: Position, hist: Seq<Seq<char>>) -> Option<Seq<Position>>
    decreases hist.len(),
{
    if hist.len() == 0 {
        Some(seq![start])
    } else {
        match replay_positions(start, hist.drop_last()) {
            Some(ps) => match notation_move(ps.last(), hist.last()) {
                Some(m) => Some(ps.push(ps.last().after(m))),
                None => None,
            },
            None => None,
        }
    }
}

/// The index of the first entry of `hist` that names no legal move.
pub open spec fn first_failure(start: Position, hist: Seq<Seq<char>>) -> nat
    decreases hist.len(),
{
    if hist.len() == 0 {
        0
    } else if replay_positions(start, hist.drop_last()) is None {
        first_failure(start, hist.drop_last())
    } else {
        (hist.len() - 1) as nat
    }
}

/// Why the stored move of index `k`, written `uci`, is rejected.
pub open spec fn replay_detail(k: nat, uci: Seq<char>) -> Seq<char> {
    "move "@ + decimal(k + 1) + " ("@ + uci + ") cannot be parsed: "@ + "illegal move notation: "@ + uci
}

/// The repetition keys of a list of positions.
pub open spec fn keys_of(ps: Seq<Position>) -> Seq<crate::game::RepetitionKey> {
    ps.map_values(|p: Position| key_of(p))
}

/// What replaying `hist` from `start` gives: the game after the last move,
/// or the error naming the first move that cannot be played.
pub open spec fn replay_matches(start: Position, hist: Seq<Seq<char>>, game_id: Seq<char>, r: Result<Game, RepositoryError>) -> bool {
    match replay_positions(start, hist) {
        Some(ps) => r matches Ok(g) && g.wf() && g.position_spec() == ps.last() && g.history() == keys_of(ps),
        None => {
            let k = first_failure(start, hist);
            &&& k < hist.len()
            &&& r matches Err(e) && is_corrupt(e, game_id, replay_detail(k, hist[k as int]))
        },
    }
}

pub(crate) proof fn lemma_replay_prefix_fails(start: Position, hist: Seq<Seq<char>>, k: int)
    requires
        0 <= k <= hist.len(),
        replay_positions(start, hist.take(k)) is None,
    ensures
        replay_positions(start, hist) is None,
        first_failure(start, hist) == first_failure(start, hist.take(k)),
    decreases hist.len() - k,
{
    if k < hist.len() {
        assert(hist.take(k + 1).drop_last() =~= hist.take(k));
        lemma_replay_prefix_fails(start, hist, k + 1);
    } else {
        assert(hist.take(k) =~= hist);
    }
}

proof fn lemma_first_failure_bound(start: Position, hist: Seq<Seq<char>>)
    requires
        replay_positions(start, hist) is None,
    ensures
        first_failure(start, hist) < hist.len(),
    decreases hist.len(),
{
    if hist.len() > 0 && replay_positions(start, hist.drop_last()) is None {
        lemma_first_failure_bound(start, hist.drop_last());
    }
}

/// Plays the stored move of index `index`, written `uci`.
fn replay_step(game: &mut Game, uci: &str, index: usize, game_id: &str) -> (r: Result<(), RepositoryError>)
    requires
        old(game).wf(),
        index < usize::MAX,
    ensures
        r is Ok <==> notation_move(old(game).position_spec(), uci@) is Some,
        r is Ok ==> {
            let m = notation_move(old(game).position_spec(), uci@)->Some_0;
            &&& final(game).wf()
            &&& final(game).position_spec() == old(game).position_spec().after(m)
            &&& final(game).history() == old(game).history().push(key_of(final(game).position_spec()))
        },
        r matches Err(e) ==> is_corrupt(e, game_id@, replay_detail(index as nat, uci@)),
{
    let chess_move = match game.position().parse_uci_move(uci) {
        Ok(m) => m,
        Err(error) => {
            let mut detail: Vec<char> = Vec::new();
            push_str(&mut detail, "move ");
            push_decimal(&mut detail, index as u64 + 1);
            push_str(&mut detail, " (");
            push_str(&mut detail, uci);
            push_str(&mut detail, ") cannot be parsed: ");
            let text = error.message();
            push_str(&mut detail, text.as_str());
            assert(detail@ =~= replay_detail(index as nat, uci@));
            return Err(corrupt(game_id, &detail));
        },
    };
    proof {
        game.position_spec().lemma_notation_move_sound(uci@);
    }
    match game.play(chess_move) {
        Ok(()) => Ok(()),
        Err(error) => {
            let mut detail: Vec<char> = Vec::new();
            push_str(&mut detail, "move ");
            push_decimal(&mut detail, index as u64 + 1);
            push_str(&mut detail, " (");
            push_str(&mut detail, uci);
            push_str(&mut detail, ") cannot be replayed: ");
            let text = error.message();
            push_str(&mut detail, text.as_str());
            Err(corrupt(game_id, &detail))
        },
    }
}

/// Replays `history` onto `game`, checking every move against the rules.
pub fn replay_onto(game: Game, history: &Vec<String>, game_id: &str) -> (r: Result<Game, RepositoryError>)
    requires
        game.wf(),
        game.history() == seq![key_of(game.position_spec())],
    ensures
        replay_matches(game.position_spec(), texts(history@), game_id@, r),
{
    let ghost start = game.position_spec();
    let ghost hist = texts(history@);
    let mut current = game;
    let mut i: usize = 0;
    assert(hist.take(0) =~= Seq::<Seq<char>>::empty());
    assert(keys_of(seq![start]) =~= seq![key_of(start)]);
    while i < history.len()
        invariant
            i <= history@.len(),
            hist == texts(history@),
            start == game.position_spec(),
            current.wf(),
            replay_positions(start, hist.take(i as int)) is Some,
            current.position_spec() == replay_positions(start, hist.take(i as int))->Some_0.last(),
            current.history() == keys_of(replay_positions(start, hist.take(i as int))->Some_0),
        decreases history.len() - i,
    {
        let ghost ps = replay_positions(start, hist.take(i as int))->Some_0;
        assert(hist.take(i + 1).drop_last() =~= hist.take(i as int));
        assert(hist.take(i + 1).last() == history@[i as int]@);
        match replay_step(&mut current, history[i].as_str(), i, game_id) {
            Ok(()) => {},
            Err(e) => {
                proof {
                    assert(hist[i as int] == history@[i as int]@);
                    assert(replay_positions(start, hist.take(i + 1)) is None);
                    assert(first_failure(start, hist.take(i + 1)) == i);
                    lemma_replay_prefix_fails(start, hist, i + 1);
                    assert(first_failure(start, hist) == i);
                }
                return Err(e);
            },
        }
        proof {
            let m = notation_move(ps.last(), history@[i as int]@)->Some_0;
            let next = ps.push(ps.last().after(m));
            assert(replay_positions(start, hist.take(i + 1)) == Some(next));
            assert(keys_of(next) =~= keys_of(ps).push(key_of(ps.last().after(m))));
        }
        i += 1;
    }
    assert(hist.take(i as int) =~= hist);
    Ok(current)
}

/// Replays a stored history from the variant's starting position.
pub fn replay_game(variant: Variant, history: &Vec<String>, game_id: &str) -> (r: Result<Game, RepositoryError>)
    ensures
        exists|start: Position|
            is_starting_position(engine_variant_spec(variant), start) && replay_matches(
                start,
                texts(history@),
                game_id@,
                r,
            ),
{
    let start = engine_variant(variant).starting_position();
    let ghost start_spec = start;
    let game = Game::new(start);
    let r = replay_onto(game, history, game_id);
    assert(is_starting_position(engine_variant_spec(variant), start_spec));
    r
}

/// The characters game ids are made of: digits and capitals, without the
/// easily confused `0`, `1`, `I` and `O`.
pub open spec fn game_id_alphabet() -> Seq<char> {
    "23456789ABCDEFGHJKLMNPQRSTUVWXYZ"@
}

/// The game id made from random bytes: one alphabet character per byte, for
/// the first ten bytes.
pub open spec fn game_id_of_bytes(bytes: Seq<u8>) -> Seq<char> {
    Seq::new(10, |i: int| game_id_alphabet()[(bytes[i] % 32) as int])
}

/// The bytes of `Uuid::new_v4()`: random, but for the version nibble (4) and
/// the variant bits (binary 10) that the uuid crate sets.
#[verifier::external_body]
fn random_uuid_bytes() -> (r: [u8; 16])
    ensures
        r@[6] & 0xf0 == 0x40,
        r@[8] & 0xc0 == 0x80,
{
    *Uuid::new_v4().as_bytes()
}

pub fn game_id_from_bytes(bytes: [u8; 16]) -> (r: String)
    ensures
        r@ == game_id_of_bytes(bytes@),
{
    let alphabet = chars_of("23456789ABCDEFGHJKLMNPQRSTUVWXYZ");
    proof {
        reveal_strlit("23456789ABCDEFGHJKLMNPQRSTUVWXYZ");
    }
    let mut id: Vec<char> = Vec::new();
    let mut i: usize = 0;
    while i < 10
        invariant
            i <= 10,
            alphabet@ == game_id_alphabet(),
            alphabet@.len() == 32,
            id@ == game_id_of_bytes(bytes@).take(i as int),
        decreases 10 - i,
    {
        let index = (bytes[i] % 32) as usize;
        id.push(alphabet[index]);
        assert(id@ =~= game_id_of_bytes(bytes@).take(i + 1));
        i += 1;
    }
    assert(id@ =~= game_id_of_bytes(bytes@));
    string_of(&id)
}

/// A fresh random game id: ten characters of the alphabet.
pub fn generate_game_id() -> (r: String)
    ensures
        r@.len() == 10,
        forall|i: int| 0 <= i < 10 ==> game_id_alphabet().contains(#[trigger] r@[i]),
{
    let bytes = random_uuid_bytes();
    let id = game_id_from_bytes(bytes);
    proof {
        assert forall|i: int| 0 <= i < 10 implies game_id_alphabet().contains(#[trigger] id@[i]) by {
            reveal_strlit("23456789ABCDEFGHJKLMNPQRSTUVWXYZ");
            assert(id@[i] == game_id_alphabet()[(bytes@[i] % 32) as int]);
        }
    }
    id
}

/// A lowercase hexadecimal digit.
pub open spec fn hex_digit(n: int) -> char {
    if n < 10 {
        (48 + n) as char
    } else {
        (87 + n) as char
    }
}

/// The simple form of a UUID: two lowercase hexadecimal digits per byte,
/// high nibble first.
pub open spec fn simple_hex(bytes: Seq<u8>) -> Seq<char> {
    Seq::new(
        32,
        |i: int|
            if i % 2 == 0 {
                hex_digit((bytes[i / 2] / 16) as int)
            } else {
                hex_digit((bytes[i / 2] % 16) as int)
            },
    )
}

pub open spec fn is_lower_hex(c: char) -> bool {
    ('0' <= c && c <= '9') || ('a' <= c && c <= 'f')
}

/// `Uuid::simple`, displayed: the uuid crate writes each byte as two
/// lowercase hexadecimal digits, high nibble first.
#[verifier::external_body]
fn uuid_simple(bytes: [u8; 16]) -> (r: String)
    ensures
        r@ == simple_hex(bytes@),
{
    Uuid::from_bytes(bytes).simple().to_string()
}

/// A player token made of two UUIDs in simple form.
pub fn token_from_uuids(first: [u8; 16], second: [u8; 16]) -> (r: String)
    ensures
        r@ == simple_hex(first@) + simple_hex(second@),
{
    let a = uuid_simple(first);
    let b = uuid_simple(second);
    let mut out: Vec<char> = Vec::new();
    push_str(&mut out, a.as_str());
    push_str(&mut out, b.as_str());
    string_of(&out)
}

/// A fresh random player token: 64 lowercase hexadecimal digits.
pub fn generate_token() -> (r: String)
    ensures
        r@.len() == 64,
        forall|i: int| 0 <= i < 64 ==> is_lower_hex(#[trigger] r@[i]),
{
    let first = random_uuid_bytes();
    let second = random_uuid_bytes();
    let token = token_from_uuids(first, second);
    proof {
        assert forall|i: int| 0 <= i < 64 implies is_lower_hex(#[trigger] token@[i]) by {
            let bytes = if i < 32 { first@ } else { second@ };
            let j = if i < 32 { i } else { i - 32 };
            assert(token@[i] == simple_hex(bytes)[j]);
            let b = bytes[j / 2];
            assert(b / 16 < 16 && b % 16 < 16);
        }
    }
    token
}

/// The side a preference gives, a random preference deciding by the lowest
/// bit of `entropy`.
pub open spec fn side_for_spec(preference: SidePreference, entropy: u8) -> Side {
    match preference {
        SidePreference::White => Side::White,
        SidePreference::Black => Side::Black,
        SidePreference::Random => if entropy % 2 == 0 {
            Side::White
        } else {
            Side::Black
        },
    }
}

pub fn side_for_preference(preference: SidePreference, entropy: u8) -> (r: Side)
    ensures
        r == side_for_spec(preference, entropy),
{
    match preference {
        SidePreference::White => Side::White,
        SidePreference::Black => Side::Black,
        SidePreference::Random => {
            let low = entropy & 1;
            assert(entropy & 1 == entropy % 2) by (bit_vector);
            if low == 0 {
                Side::White
            } else {
                Side::Black
            }
        },
    }
}

/// The side a preference gives with the random bytes `draw`: a random
/// preference is decided by the first byte.
pub fn side_from_draw(preference: SidePreference, draw: [u8; 16]) -> (r: Side)
    ensures
        r == side_for_spec(preference, draw@[0]),
{
    side_for_preference(preference, draw[0])
}

/// The side a new game's creator plays: the one asked for, or one decided
/// by the first of sixteen freshly drawn random bytes.
pub fn resolve_side(preference: SidePreference) -> (r: Side)
    ensures
        exists|draw: [u8; 16]|
            #![trigger side_for_spec(preference, draw@[0])]
            draw@[6] & 0xf0 == 0x40 && draw@[8] & 0xc0 == 0x80 && r == side_for_spec(preference, draw@[0]),
        preference == SidePreference::White ==> r == Side::White,
        preference == SidePreference::Black ==> r == Side::Black,
{
    let draw = random_uuid_bytes();
    side_from_draw(preference, draw)
}

/// A text of ASCII capitals and digits is its own normal form.
pub(crate) proof fn lemma_normal_form(t: Seq<char>)
    requires
        forall|i: int| 0 <= i < t.len() ==> ('0' <= #[trigger] t[i] && t[i] <= '9') || ('A' <= t[i] && t[i] <= 'Z'),
    ensures
        normalized_game_id(t) == t,
{
    if t.len() > 0 {
        assert(!crate::text::is_space(t[0]));
        assert(!crate::text::is_space(t.last()));
    }
    assert(crate::text::trim_start(t) == t);
    assert(crate::text::trim_end(t) == t);
    assert(upper_all(t) =~= t);
}

/// Normalizing an accepted game id again changes nothing.
pub proof fn lemma_normalize_idempotent(s: Seq<char>)
    requires
        valid_game_id(normalized_game_id(s)),
    ensures
        normalized_game_id(normalized_game_id(s)) == normalized_game_id(s),
{
    let t = normalized_game_id(s);
    assert forall|i: int| 0 <= i < t.len() implies ('0' <= #[trigger] t[i] && t[i] <= '9') || ('A' <= t[i] && t[i]
        <= 'Z') by {
        assert(is_ascii_alnum(t[i]));
        assert(t[i] == upper_spec(trim(s)[i]));
    }
    lemma_normal_form(t);
}

/// A generated game id is accepted by `normalize_game_id` as it is.
pub proof fn lemma_generated_id_accepted(id: Seq<char>)
    requires
        id.len() == 10,
        forall|i: int| 0 <= i < 10 ==> game_id_alphabet().contains(#[trigger] id[i]),
    ensures
        valid_game_id(normalized_game_id(id)),
        normalized_game_id(id) == id,
{
    reveal_strlit("23456789ABCDEFGHJKLMNPQRSTUVWXYZ");
    assert forall|i: int| 0 <= i < id.len() implies ('0' <= #[trigger] id[i] && id[i] <= '9') || ('A' <= id[i] && id[i]
        <= 'Z') by {
        assert(game_id_alphabet().contains(id[i]));
        let k = choose|k: int| 0 <= k < game_id_alphabet().len() && game_id_alphabet()[k] == id[i];
    }
    lemma_normal_form(id);
}

/// A token authenticates as the side whose slot, and only whose, holds its
/// hash.
pub proof fn lemma_token_authenticates(room: StoredRoom, token: Seq<char>, side: Side)
    requires
        holds_hash(if side == Side::White { room.white_token_hash } else { room.black_token_hash }, sha256_text(token)),
        !holds_hash(if side == Side::White { room.black_token_hash } else { room.white_token_hash }, sha256_text(token)),
    ensures
        token_side(room, token) == Some(side),
{
}

/// A game ready to be played over a connection.
#[derive(Clone, Debug, PartialEq, Eq)]
pub struct ReadyGame {
    pub auth: AuthenticatedPlayer,
    pub variant: Variant,
    pub revision: u64,
    pub history: Vec<String>,
}

/// How a move request is answered.
#[derive(Clone, Debug, PartialEq, Eq)]
pub enum MoveResult {
    Accepted { revision: u64, uci: String },
    Sync { revision: u64, history: Vec<String>, reason: SyncReason },
}

/// A copy of a list of strings.
pub fn copy_texts(v: &Vec<String>) -> (r: Vec<String>)
    ensures
        texts(r@) == texts(v@),
{
    let mut r: Vec<String> = Vec::new();
    let mut i: usize = 0;
    while i < v.len()
        invariant
            i <= v@.len(),
            r@.len() == i,
            forall|k: int| 0 <= k < i ==> (#[trigger] r@[k])@ == v@[k]@,
        decreases v.len() - i,
    {
        let copy = v[i].as_str().to_owned();
        r.push(copy);
        i += 1;
    }
    assert(texts(r@) =~= texts(v@));
    r
}

/// The side a newcomer without a token takes: the only one still free.
pub fn claim_side(room: &StoredRoom) -> (r: Result<Side, RepositoryError>)
    ensures
        room.white_token_hash is None && room.black_token_hash is Some ==> r == Ok::<Side, RepositoryError>(Side::White),
        room.white_token_hash is Some && room.black_token_hash is None ==> r == Ok::<Side, RepositoryError>(Side::Black),
        room.white_token_hash is None && room.black_token_hash is None ==> (r matches Err(e) && is_corrupt(
            e,
            room.game_id@,
            "neither player slot is claimed"@,
        )),
        room.white_token_hash is Some && room.black_token_hash is Some ==> (r matches Err(e) && is_client_error(
            e,
            "game_full"@,
            "Both colors are already claimed. A saved player token is required."@,
        )),
{
    match (room.white_token_hash.is_none(), room.black_token_hash.is_none()) {
        (true, false) => Ok(Side::White),
        (false, true) => Ok(Side::Black),
        (true, true) => {
            let detail = chars_of("neither player slot is claimed");
            Err(corrupt(room.game_id.as_str(), &detail))
        },
        (false, false) => Err(
            client_error("game_full", "Both colors are already claimed. A saved player token is required."),
        ),
    }
}

/// The game a player joined, once the stored revision and variant check out.
pub fn ready_game(room: &StoredRoom, side: Side, player_token: String, history: Vec<String>) -> (r: Result<
    ReadyGame,
    RepositoryError,
>)
    ensures
        r is Ok <==> room.revision >= 0 && room.revision == history@.len() && variant_of_key(room.variant@) is Some,
        r matches Ok(g) ==> {
            &&& g.auth.game_id@ == room.game_id@
            &&& g.auth.side == side
            &&& g.auth.player_token@ == player_token@
            &&& Some(g.variant) == variant_of_key(room.variant@)
            &&& g.revision == room.revision
            &&& texts(g.history@) == texts(history@)
        },
        r matches Err(e) ==> !(room.revision >= 0 && room.revision == history@.len()) ==> room.revision < 0 ==> is_corrupt(
            e,
            room.game_id@,
            "negative revision "@ + signed_decimal(room.revision as int),
        ),
        r matches Err(e) ==> room.revision >= 0 && room.revision != history@.len() ==> is_corrupt(
            e,
            room.game_id@,
            "revision "@ + decimal(room.revision as nat) + " does not match "@ + decimal(history@.len())
                + " stored moves"@,
        ),
        r matches Err(e) ==> room.revision >= 0 && room.revision == history@.len() ==> is_corrupt(
            e,
            room.game_id@,
            "unknown variant "@ + debug_quoted(room.variant@),
        ),
{
    match verify_revision(room, &history) {
        Ok(()) => {},
        Err(e) => return Err(e),
    }
    let variant = match parse_variant(room.variant.as_str(), room.game_id.as_str()) {
        Ok(v) => v,
        Err(e) => return Err(e),
    };
    let revision = match revision_to_u64(room.revision, room.game_id.as_str()) {
        Ok(v) => v,
        Err(e) => return Err(e),
    };
    let game_id = room.game_id.clone();
    Ok(ReadyGame { auth: AuthenticatedPlayer { game_id, side, player_token }, variant, revision, history })
}

/// A move text must be one to eight ASCII characters.
pub open spec fn valid_move_text(s: Seq<char>) -> bool {
    &&& 0 < s.len() <= MAX_MOVE_LEN
    &&& forall|i: int| 0 <= i < s.len() ==> (#[trigger] s[i] as u32) < 128
}

pub fn check_move_text(uci: &str) -> (r: Result<(), RepositoryError>)
    ensures
        r is Ok <==> valid_move_text(uci@),
        r matches Err(e) ==> is_client_error(e, "invalid_move"@, "Malformed UCI move."@),
{
    let chars = chars_of(uci);
    let mut ascii = true;
    let mut i: usize = 0;
    while i < chars.len()
        invariant
            i <= chars@.len(),
            chars@ == uci@,
            ascii == forall|k: int| 0 <= k < i ==> (#[trigger] chars@[k] as u32) < 128,
        decreases chars.len() - i,
    {
        ascii = ascii && (chars[i] as u32) < 128;
        i += 1;
    }
    if chars.len() == 0 || chars.len() > MAX_MOVE_LEN || !ascii {
        return Err(client_error("invalid_move", "Malformed UCI move."));
    }
    Ok(())
}

/// How a stored game whose revision matches answers a move: the first
/// stored move that cannot be replayed, a move out of turn, a move that is
/// not legal, or the legal move played.
pub enum MoveVerdict {
    BadHistory(nat),
    NotYourTurn,
    Illegal,
    Accepted(Move),
}

pub open spec fn move_verdict(start: Position, hist: Seq<Seq<char>>, side: Side, uci: Seq<char>) -> MoveVerdict {
    match replay_positions(start, hist) {
        None => MoveVerdict::BadHistory(first_failure(start, hist)),
        Some(ps) => if side_of(ps.last().side_spec()) != side {
            MoveVerdict::NotYourTurn
        } else {
            match notation_move(ps.last(), lower_all(uci)) {
                Some(m) => MoveVerdict::Accepted(m),
                None => MoveVerdict::Illegal,
            }
        },
    }
}

/// The answer that a verdict gives, for a game at revision `revision`.
pub open spec fn verdict_answer(
    verdict: MoveVerdict,
    hist: Seq<Seq<char>>,
    game_id: Seq<char>,
    revision: int,
    r: Result<MoveResult, RepositoryError>,
) -> bool {
    match verdict {
        MoveVerdict::BadHistory(k) => k < hist.len() && (r matches Err(e) && is_corrupt(
            e,
            game_id,
            replay_detail(k, hist[k as int]),
        )),
        MoveVerdict::NotYourTurn => r matches Err(e) && is_client_error(
            e,
            "not_your_turn"@,
            "It is the other player's turn."@,
        ),
        MoveVerdict::Illegal => r matches Err(e) && is_client_error(
            e,
            "illegal_move"@,
            "The move is not legal in this position."@,
        ),
        MoveVerdict::Accepted(m) => if revision + 1 > i64::MAX {
            r matches Err(e) && is_client_error(e, "revision_overflow"@, "Game revision overflow."@)
        } else {
            r matches Ok(MoveResult::Accepted { revision: next, uci }) && next == revision + 1 && uci@ == move_text(m)
        },
    }
}

/// Lower-cases the ASCII letters of a text.
fn lowercase_text(s: &str) -> (r: String)
    ensures
        r@ == lower_all(s@),
{
    let chars = chars_of(s);
    string_of(&lowercased(&chars))
}

/// Plays a move on the replayed game, for `side`, at revision `revision`.
fn play_on(game: Game, side: Side, revision: u64, uci: &str) -> (r: Result<MoveResult, RepositoryError>)
    requires
        game.wf(),
        revision <= i64::MAX,
    ensures
        verdict_answer(
            if side_of(game.position_spec().side_spec()) != side {
                MoveVerdict::NotYourTurn
            } else {
                match notation_move(game.position_spec(), lower_all(uci@)) {
                    Some(m) => MoveVerdict::Accepted(m),
                    None => MoveVerdict::Illegal,
                }
            },
            Seq::empty(),
            Seq::empty(),
            revision as int,
            r,
        ),
{
    let mut game = game;
    if side_from_engine(game.position().side_to_move()) != side {
        return Err(client_error("not_your_turn", "It is the other player's turn."));
    }
    let lowered = lowercase_text(uci);
    let chess_move = match game.position().parse_uci_move(lowered.as_str()) {
        Ok(m) => m,
        Err(_) => return Err(client_error("illegal_move", "The move is not legal in this position.")),
    };
    proof {
        game.position_spec().lemma_notation_move_sound(lowered@);
    }
    match game.play(chess_move) {
        Ok(()) => {},
        Err(_) => return Err(client_error("illegal_move", "The move is not legal in this position.")),
    }
    let accepted_uci = chess_move.to_uci();
    let next_revision = match revision.checked_add(1) {
        Some(v) => v,
        None => return Err(client_error("revision_overflow", "Game revision overflow.")),
    };
    if next_revision > i64::MAX as u64 {
        return Err(client_error("revision_overflow", "Game revision overflow."));
    }
    Ok(MoveResult::Accepted { revision: next_revision, uci: accepted_uci })
}

/// Decides a move request on a stored game, after its player has been
/// authenticated: the stored revision is checked, a stale client is sent the
/// history, and otherwise the history is replayed and the move played.
pub fn decide_move(room: &StoredRoom, history: &Vec<String>, side: Side, client_revision: u64, uci: &str) -> (r: Result<
    MoveResult,
    RepositoryError,
>)
    ensures
        !(room.revision >= 0 && room.revision == history@.len()) ==> r is Err,
        r matches Err(e) ==> room.revision < 0 ==> is_corrupt(
            e,
            room.game_id@,
            "negative revision "@ + signed_decimal(room.revision as int),
        ),
        r matches Err(e) ==> room.revision >= 0 && room.revision != history@.len() ==> is_corrupt(
            e,
            room.game_id@,
            "revision "@ + decimal(room.revision as nat) + " does not match "@ + decimal(history@.len())
                + " stored moves"@,
        ),
        room.revision >= 0 && room.revision == history@.len() && room.revision != client_revision ==> (r matches Ok(
            MoveResult::Sync { revision, history: h, reason },
        ) && revision == room.revision && texts(h@) == texts(history@) && reason == SyncReason::RevisionMismatch),
        room.revision >= 0 && room.revision == history@.len() && room.revision == client_revision
            && variant_of_key(room.variant@) is None ==> (r matches Err(e) && is_corrupt(
            e,
            room.game_id@,
            "unknown variant "@ + debug_quoted(room.variant@),
        )),
        room.revision >= 0 && room.revision == history@.len() && room.revision == client_revision
            && variant_of_key(room.variant@) is Some ==> exists|start: Position|
            is_starting_position(engine_variant_spec(variant_of_key(room.variant@)->Some_0), start)
                && verdict_answer(
                move_verdict(start, texts(history@), side, uci@),
                texts(history@),
                room.game_id@,
                room.revision as int,
                r,
            ),
{
    match verify_revision(room, history) {
        Ok(()) => {},
        Err(e) => return Err(e),
    }
    let revision = match revision_to_u64(room.revision, room.game_id.as_str()) {
        Ok(v) => v,
        Err(e) => return Err(e),
    };
    if revision != client_revision {
        return Ok(MoveResult::Sync { revision, history: copy_texts(history), reason: SyncReason::RevisionMismatch });
    }
    let variant = match parse_variant(room.variant.as_str(), room.game_id.as_str()) {
        Ok(v) => v,
        Err(e) => return Err(e),
    };
    let replayed = replay_game(variant, history, room.game_id.as_str());
    let ghost start = choose|start: Position|
        is_starting_position(engine_variant_spec(variant), start) && replay_matches(
            start,
            texts(history@),
            room.game_id@,
            replayed,
        );
    let game = match replayed {
        Ok(g) => g,
        Err(e) => return Err(e),
    };
    let r = play_on(game, side, revision, uci);
    proof {
        let ps = replay_positions(start, texts(history@))->Some_0;
        assert(move_verdict(start, texts(history@), side, uci@) == if side_of(ps.last().side_spec()) != side {
            MoveVerdict::NotYourTurn
        } else {
            match notation_move(ps.last(), lower_all(uci@)) {
                Some(m) => MoveVerdict::Accepted(m),
                None => MoveVerdict::Illegal,
            }
        });
    }
    r
}

pub open spec fn is_error_message(m: ServerMessage, code: Seq<char>, message: Seq<char>) -> bool {
    m matches ServerMessage::Error { code: c, message: t } && c@ == code && t@ == message
}

/// An error reply.
pub fn error_message(code: &str, message: &str) -> (r: ServerMessage)
    ensures
        is_error_message(r, code@, message@),
{
    ServerMessage::Error { code: code.to_owned(), message: message.to_owned() }
}

/// Why a create or join request cannot start: a client of another protocol
/// version, or a connection that already belongs to a game.
pub fn handshake_error(protocol: u16, already_authenticated: bool) -> (r: Option<ServerMessage>)
    ensures
        protocol != PROTOCOL_VERSION ==> (r matches Some(m) && is_error_message(
            m,
            "protocol_mismatch"@,
            "Client and server protocol versions do not match."@,
        )),
        protocol == PROTOCOL_VERSION && already_authenticated ==> (r matches Some(m) && is_error_message(
            m,
            "already_authenticated"@,
            "This WebSocket already belongs to a game."@,
        )),
        protocol == PROTOCOL_VERSION && !already_authenticated ==> r is None,
{
    if protocol != PROTOCOL_VERSION {
        return Some(error_message("protocol_mismatch", "Client and server protocol versions do not match."));
    }
    if already_authenticated {
        return Some(error_message("already_authenticated", "This WebSocket already belongs to a game."));
    }
    None
}

/// The reply to a failed request: a client error is passed on with its code
/// and message; anything else is reported as a server error, without detail.
pub fn repository_error_reply(error: &RepositoryError) -> (r: ServerMessage)
    ensures
        error matches RepositoryError::Client { code, message } ==> is_error_message(r, code@, message@),
        !(error is Client) ==> is_error_message(
            r,
            "server_error"@,
            "The server could not process the request."@,
        ),
{
    match error {
        RepositoryError::Client { code, message } => error_message(code.as_str(), message.as_str()),
        _ => error_message("server_error", "The server could not process the request."),
    }
}

/// The reply to a request that needs a game when the connection has none.
pub fn not_authenticated_reply() -> (r: ServerMessage)
    ensures
        is_error_message(r, "not_authenticated"@, "Create or join a game first."@),
{
    error_message("not_authenticated", "Create or join a game first.")
}

/// The reply to a text frame that is not a protocol message.
pub fn invalid_json_reply() -> (r: ServerMessage)
    ensures
        is_error_message(r, "invalid_json"@, "The WebSocket message is not valid protocol JSON."@),
{
    error_message("invalid_json", "The WebSocket message is not valid protocol JSON.")
}

/// The reply to a binary frame.
pub fn binary_unsupported_reply() -> (r: ServerMessage)
    ensures
        is_error_message(r, "binary_unsupported"@, "Only JSON text messages are supported."@),
{
    error_message("binary_unsupported", "Only JSON text messages are supported.")
}

/// The message that tells a player its game is ready.
pub fn game_ready_message(created: bool, ready: &ReadyGame, opponent_connected: bool) -> (r: ServerMessage)
    ensures
        r matches ServerMessage::GameReady {
            created: c,
            game_id,
            player_token,
            side,
            variant,
            revision,
            history,
            opponent_connected: o,
        } && c == created && game_id@ == ready.auth.game_id@ && player_token@ == ready.auth.player_token@
            && side == ready.auth.side && variant == ready.variant && revision == ready.revision && texts(history@)
            == texts(ready.history@) && o == opponent_connected,
{
    ServerMessage::GameReady {
        created,
        game_id: ready.auth.game_id.as_str().to_owned(),
        player_token: ready.auth.player_token.as_str().to_owned(),
        side: ready.auth.side,
        variant: ready.variant,
        revision: ready.revision,
        history: copy_texts(&ready.history),
        opponent_connected,
    }
}

/// The message a move result sends: an accepted move goes to both players,
/// a history to the requester alone.
pub fn move_result_message(result: &MoveResult) -> (r: ServerMessage)
    ensures
        result matches MoveResult::Accepted { revision, uci } ==> (r matches ServerMessage::MoveAccepted {
            revision: rv,
            uci: u,
        } && rv == revision && u@ == uci@),
        result matches MoveResult::Sync { revision, history, reason } ==> (r matches ServerMessage::Sync {
            revision: rv,
            history: h,
            reason: why,
        } && rv == revision && texts(h@) == texts(history@) && why == reason),
{
    match result {
        MoveResult::Accepted { revision, uci } => ServerMessage::MoveAccepted {
            revision: *revision,
            uci: uci.as_str().to_owned(),
        },
        MoveResult::Sync { revision, history, reason } => ServerMessage::Sync {
            revision: *revision,
            history: copy_texts(history),
            reason: *reason,
        },
    }
}

} // verus!
