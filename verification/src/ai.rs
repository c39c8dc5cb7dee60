//! The conversation with an external UCI engine (Fairy-Stockfish) that plays
//! the computer's side: reading its `info` and `bestmove` lines, and what to
//! tell it before it thinks. The engine process itself is driven by the
//! caller, which sends the commands these functions hand back.
use vstd::prelude::*;
use crate::chess_match::{only_status_changed, played, ChessMatch, MoveAnalysis};
use crate::client::{
    clamp_level, difficulty_elo, fairy_variant, is_playable, move_times, outcome_message, outcome_text, side_name,
    side_name_spec, AiSettings, Controller, DifficultyProfile, GameMenuState, MAX_DIFFICULTY, MIN_DIFFICULTY,
};
use crate::fen::fen_text;
use crate::game::outcome_spec;
use crate::legal::notation_move;
use crate::server::texts;
use crate::text::{
    chars_of, decimal, parse_i32, parse_i32_spec, parse_u64, parse_unsigned, parse_unsigned_spec, push_decimal,
    push_str, same_chars, split_whitespace, string_of, words,
};
use crate::variant::Variant;
use crate::view_state::PieceAnimationState;

verus! {

/// The score reported for a mate in `v` moves: near one million, signed by
/// who mates.
pub open spec fn mate_score(v: int) -> int {
    if v > 0 {
        1_000_000 - v
    } else if v < 0 {
        -(1_000_000 + v)
    } else {
        0
    }
}

/// The analysis after reading the fields of an `info` line from index `i`:
/// `depth` and `nodes` take the next field, `score` the two next ones (`cp`
/// centipawns or `mate` in moves); a field that does not parse leaves the
/// value as it was, and anything else is skipped.
pub open spec fn analysis_after(fields: Seq<Seq<char>>, i: int, a: MoveAnalysis) -> MoveAnalysis
    decreases fields.len() - i,
{
    if i < 0 || i >= fields.len() {
        a
    } else if fields[i] == "depth"@ && i + 1 < fields.len() {
        let next = match parse_unsigned_spec(fields[i + 1], 255) {
            Some(d) => MoveAnalysis { depth: d as u8, ..a },
            None => a,
        };
        analysis_after(fields, i + 2, next)
    } else if fields[i] == "nodes"@ && i + 1 < fields.len() {
        let next = match parse_unsigned_spec(fields[i + 1], u64::MAX as nat) {
            Some(n) => MoveAnalysis { nodes: n as u64, ..a },
            None => a,
        };
        analysis_after(fields, i + 2, next)
    } else if fields[i] == "score"@ && i + 2 < fields.len() {
        let next = match parse_i32_spec(fields[i + 2]) {
            Some(v) => if fields[i + 1] == "cp"@ {
                MoveAnalysis { score: v as i32, ..a }
            } else if fields[i + 1] == "mate"@ {
                MoveAnalysis { score: mate_score(v) as i32, ..a }
            } else {
                a
            },
            None => a,
        };
        analysis_after(fields, i + 3, next)
    } else {
        analysis_after(fields, i + 1, a)
    }
}

/// Whether reading the fields from index `i` never meets a mate score of
/// `-2147483648`, whose distance from a million does not fit the score.
pub open spec fn mates_in_range(fields: Seq<Seq<char>>, i: int) -> bool
    decreases fields.len() - i,
{
    if i < 0 || i >= fields.len() {
        true
    } else if fields[i] == "depth"@ && i + 1 < fields.len() {
        mates_in_range(fields, i + 2)
    } else if fields[i] == "nodes"@ && i + 1 < fields.len() {
        mates_in_range(fields, i + 2)
    } else if fields[i] == "score"@ && i + 2 < fields.len() {
        &&& (fields[i + 1] == "mate"@ ==> parse_i32_spec(fields[i + 2]) != Some(-2147483648int))
        &&& mates_in_range(fields, i + 3)
    } else {
        mates_in_range(fields, i + 1)
    }
}

/// Whether `update_analysis` can read `line`: no mate score in it is
/// `-2147483648`, whose distance from a million does not fit a score.
#[verifier::rlimit(40)]
pub fn mates_fit(line: &str) -> (r: bool)
    ensures
        r == mates_in_range(words(line@), 0),
{
    let chars = chars_of(line);
    let fields = split_whitespace(&chars);
    let ghost all = words(line@);
    let depth_word = chars_of("depth");
    let nodes_word = chars_of("nodes");
    let score_word = chars_of("score");
    let mate_word = chars_of("mate");
    let mut index: usize = 0;
    while index < fields.len()
        invariant
            fields@.len() == all.len(),
            forall|k: int| 0 <= k < fields@.len() ==> #[trigger] fields@[k]@ == all[k],
            depth_word@ == "depth"@,
            nodes_word@ == "nodes"@,
            score_word@ == "score"@,
            mate_word@ == "mate"@,
            index <= fields@.len() + 2,
            all == words(line@),
            mates_in_range(all, 0) == mates_in_range(all, index as int),
        decreases fields.len() - index,
    {
        let field = &fields[index];
        assert(field@ == all[index as int]);
        if same_chars(field, &depth_word) && index + 1 < fields.len() {
            index += 2;
        } else if same_chars(field, &nodes_word) && index + 1 < fields.len() {
            index += 2;
        } else if same_chars(field, &score_word) && fields.len() - index > 2 {
            assert(fields@[index + 1]@ == all[index + 1]);
            assert(fields@[index + 2]@ == all[index + 2]);
            if same_chars(&fields[index + 1], &mate_word) {
                match parse_i32(&fields[index + 2]) {
                    Some(value) => {
                        proof {
                            let v = parse_i32_spec(all[index + 2])->Some_0;
                            assert(-2147483648 <= v <= 2147483647);
                            assert(v == value as int);
                        }
                        if value == -2147483648i32 {
                            assert(parse_i32_spec(all[index + 2]) == Some(-2147483648int));
                            assert(!mates_in_range(all, index as int));
                            return false;
                        }
                    },
                    None => {},
                }
            }
            index += 3;
        } else {
            index += 1;
        }
    }
    true
}

/// Reads the figures of an engine's `info` line into `analysis`.
#[verifier::rlimit(40)]
pub fn update_analysis(line: &str, analysis: &mut MoveAnalysis)
    requires
        mates_in_range(words(line@), 0),
    ensures
        *final(analysis) == analysis_after(words(line@), 0, *old(analysis)),
{
    let chars = chars_of(line);
    let fields = split_whitespace(&chars);
    let ghost all = words(line@);
    assert(fields@.len() == all.len());
    let depth_word = chars_of("depth");
    let nodes_word = chars_of("nodes");
    let score_word = chars_of("score");
    let cp_word = chars_of("cp");
    let mate_word = chars_of("mate");
    let mut index: usize = 0;
    while index < fields.len()
        invariant
            fields@.len() == all.len(),
            forall|k: int| 0 <= k < fields@.len() ==> #[trigger] fields@[k]@ == all[k],
            depth_word@ == "depth"@,
            nodes_word@ == "nodes"@,
            score_word@ == "score"@,
            cp_word@ == "cp"@,
            mate_word@ == "mate"@,
            index <= fields@.len() + 2,
            mates_in_range(all, index as int),
            analysis_after(all, index as int, *analysis) == analysis_after(all, 0, *old(analysis)),
        decreases fields.len() - index,
    {
        let field = &fields[index];
        assert(field@ == all[index as int]);
        if same_chars(field, &depth_word) && index + 1 < fields.len() {
            assert(fields@[index + 1]@ == all[index + 1]);
            match parse_unsigned(&fields[index + 1], 255) {
                Some(depth) => {
                    analysis.depth = depth as u8;
                },
                None => {},
            }
            index += 2;
        } else if same_chars(field, &nodes_word) && index + 1 < fields.len() {
            assert(fields@[index + 1]@ == all[index + 1]);
            match parse_u64(&fields[index + 1]) {
                Some(nodes) => {
                    analysis.nodes = nodes;
                },
                None => {},
            }
            index += 2;
        } else if same_chars(field, &score_word) && fields.len() - index > 2 {
            assert(fields@[index + 1]@ == all[index + 1]);
            assert(fields@[index + 2]@ == all[index + 2]);
            match parse_i32(&fields[index + 2]) {
                Some(value) => {
                    if same_chars(&fields[index + 1], &cp_word) {
                        analysis.score = value;
                    } else if same_chars(&fields[index + 1], &mate_word) {
                        let magnitude: i32 = if value < 0 {
                            0 - value
                        } else {
                            value
                        };
                        let rest: i32 = 1_000_000 - magnitude;
                        analysis.score = if value > 0 {
                            rest
                        } else if value < 0 {
                            0 - rest
                        } else {
                            0
                        };
                    }
                },
                None => {},
            }
            index += 3;
        } else {
            index += 1;
        }
    }
}

/// Whether `s` begins with `prefix`.
pub open spec fn has_prefix_spec(s: Seq<char>, prefix: Seq<char>) -> bool {
    s.len() >= prefix.len() && s.take(prefix.len() as int) == prefix
}

fn has_prefix(s: &Vec<char>, prefix: &Vec<char>) -> (r: bool)
    ensures
        r == has_prefix_spec(s@, prefix@),
{
    if s.len() < prefix.len() {
        return false;
    }
    let mut head: Vec<char> = Vec::new();
    let mut i: usize = 0;
    while i < prefix.len()
        invariant
            prefix@.len() <= s@.len(),
            i <= prefix@.len(),
            head@ == s@.take(i as int),
        decreases prefix.len() - i,
    {
        head.push(s[i]);
        assert(head@ =~= s@.take(i + 1));
        i += 1;
    }
    same_chars(&head, prefix)
}

/// The move a `bestmove` line names: the first word after the prefix.
pub open spec fn bestmove_of(line: Seq<char>) -> Option<Seq<char>> {
    if has_prefix_spec(line, "bestmove "@) {
        let rest = words(line.skip("bestmove "@.len() as int));
        if rest.len() > 0 {
            Some(rest[0])
        } else {
            None
        }
    } else {
        None
    }
}

fn bestmove_word(line: &Vec<char>) -> (r: Option<Vec<char>>)
    ensures
        match bestmove_of(line@) {
            Some(w) => r matches Some(v) && v@ == w,
            None => r is None,
        },
{
    let prefix = chars_of("bestmove ");
    if !has_prefix(line, &prefix) {
        return None;
    }
    let mut rest: Vec<char> = Vec::new();
    let mut i: usize = prefix.len();
    while i < line.len()
        invariant
            prefix@ == "bestmove "@,
            prefix@.len() <= i <= line@.len(),
            rest@ == line@.subrange(prefix@.len() as int, i as int),
        decreases line.len() - i,
    {
        rest.push(line[i]);
        assert(rest@ =~= line@.subrange(prefix@.len() as int, i + 1));
        i += 1;
    }
    assert(rest@ =~= line@.skip(prefix@.len() as int));
    let mut pieces = split_whitespace(&rest);
    if pieces.len() == 0 {
        return None;
    }
    Some(pieces.remove(0))
}

/// Where the engine process stands.
pub enum EngineState {
    Dormant,
    Booting,
    WaitingUntilReady,
    Idle,
    /// Thinking about the board of `generation`.
    Searching { generation: u64, analysis: MoveAnalysis },
    Stopping,
    Failed(String),
}

/// The engine's state, and whether it is to be told that a new game began.
pub struct AiTask {
    pub state: EngineState,
    pub new_game_pending: bool,
}

/// The commands that set the engine up and start it thinking.
pub open spec fn search_command_texts(variant: Variant, level: u8, new_game: bool, fen: Seq<char>) -> Seq<Seq<char>> {
    let limited = level < MAX_DIFFICULTY;
    let head = seq![
        "setoption name UCI_Variant value "@ + fairy_text(variant),
        "setoption name UCI_LimitStrength value "@ + if limited {
            "true"@
        } else {
            "false"@
        },
        "setoption name Skill Level value 20"@,
    ];
    let elo = if limited {
        seq!["setoption name UCI_Elo value "@ + decimal(difficulty_elo()[level - MIN_DIFFICULTY] as nat)]
    } else {
        Seq::empty()
    };
    let fresh = if new_game {
        seq!["ucinewgame"@]
    } else {
        Seq::empty()
    };
    head + elo + fresh + seq![
        "position fen "@ + fen,
        "go movetime "@ + decimal(move_times()[level - MIN_DIFFICULTY] as nat),
    ]
}

/// The name under which Fairy-Stockfish knows a variant.
pub open spec fn fairy_text(variant: Variant) -> Seq<char> {
    match variant {
        Variant::Capablanca => "capablanca"@,
        Variant::Gothic => "gothic"@,
        Variant::Embassy => "embassy"@,
        Variant::Schoolbook => "ccp_schoolbook"@,
        Variant::Bird => "ccp_bird"@,
        Variant::Carrera => "ccp_carrera"@,
        Variant::Grand => "grand"@,
    }
}

/// Whether the computer is to think now: the menu is closed, the board has
/// settled, no promotion is being chosen, the game goes on, and the side to
/// move is the computer's.
pub open spec fn computer_to_move(
    chess_match: ChessMatch,
    menu: GameMenuState,
    animation: PieceAnimationState,
) -> bool {
    let pos = chess_match.game.position_spec();
    let outcome = outcome_spec(pos, chess_match.game.history());
    &&& !menu.open
    &&& animation.rendered_generation == chess_match.generation
    &&& animation.active_motions == 0
    &&& chess_match.pending_promotion is None
    &&& (outcome is Ongoing || outcome is Check)
    &&& chess_match.controllers[pos.side_spec().idx()] == Controller::Computer
}

impl Default for AiTask {
    fn default() -> (r: Self)
        ensures
            r.state is Dormant,
            r.new_game_pending,
    {
        AiTask { state: EngineState::Dormant, new_game_pending: true }
    }
}

impl AiTask {
    /// Starts booting the engine when it is dormant or failed; returns
    /// whether the caller is to start the process and send `uci`.
    pub fn begin_warm_up(&mut self) -> (boot: bool)
        ensures
            boot == (old(self).state is Dormant || old(self).state is Failed),
            boot ==> final(self).state is Booting,
            !boot ==> final(self).state == old(self).state,
            final(self).new_game_pending == old(self).new_game_pending,
    {
        let boot = match self.state {
            EngineState::Dormant | EngineState::Failed(_) => true,
            _ => false,
        };
        if boot {
            self.state = EngineState::Booting;
        }
        boot
    }

    /// Stops a search under way; returns whether the caller is to send
    /// `stop`.
    pub fn cancel(&mut self) -> (stop: bool)
        ensures
            stop == old(self).state is Searching,
            stop ==> final(self).state is Stopping,
            !stop ==> final(self).state == old(self).state,
            final(self).new_game_pending == old(self).new_game_pending,
    {
        let stop = match self.state {
            EngineState::Searching { .. } => true,
            _ => false,
        };
        if stop {
            self.state = EngineState::Stopping;
        }
        stop
    }

    /// The next search starts a new game for the engine.
    pub fn request_new_game(&mut self)
        ensures
            final(self).state == old(self).state,
            final(self).new_game_pending,
    {
        self.new_game_pending = true;
    }

    /// The engine is gone; it boots afresh when next needed.
    pub fn shut_down(&mut self)
        ensures
            final(self).state is Dormant,
            final(self).new_game_pending,
    {
        self.state = EngineState::Dormant;
        self.new_game_pending = true;
    }

    /// Records that talking to the engine failed.
    pub fn fail(&mut self, message: String)
        ensures
            final(self).state == EngineState::Failed(message),
            final(self).new_game_pending == old(self).new_game_pending,
    {
        self.state = EngineState::Failed(message);
    }

    /// Why the engine failed, if it did.
    pub fn failure(&self) -> (r: Option<String>)
        ensures
            match self.state {
                EngineState::Failed(message) => r matches Some(m) && m@ == message@,
                _ => r is None,
            },
    {
        match &self.state {
            EngineState::Failed(message) => Some(message.as_str().to_owned()),
            _ => None,
        }
    }

    /// The commands to send before the engine thinks about the board, when
    /// it is the computer's turn and the engine is idle. When the engine
    /// has failed, the status line says so instead.
    pub fn search_commands(
        &self,
        chess_match: &mut ChessMatch,
        menu: &GameMenuState,
        animation: &PieceAnimationState,
        settings: &AiSettings,
    ) -> (r: Option<Vec<String>>)
        requires
            old(chess_match).wf(),
        ensures
            final(chess_match).wf(),
            !computer_to_move(*old(chess_match), *menu, *animation) ==> r is None && *final(chess_match)
                == *old(chess_match),
            computer_to_move(*old(chess_match), *menu, *animation) ==> match self.state {
                EngineState::Failed(message) => {
                    &&& r is None
                    &&& only_status_changed(*old(chess_match), *final(chess_match))
                    &&& final(chess_match).status@ == "Fairy-Stockfish is unavailable: "@ + message@
                },
                EngineState::Idle => {
                    &&& *final(chess_match) == *old(chess_match)
                    &&& r matches Some(commands) && texts(commands@) == search_command_texts(
                        old(chess_match).variant,
                        clamp_level(settings.level()),
                        self.new_game_pending,
                        fen_text(old(chess_match).game.position_spec()),
                    )
                },
                _ => r is None && *final(chess_match) == *old(chess_match),
            },
    {
        if menu.open || !animation.is_settled(chess_match.generation) || chess_match.pending_promotion.is_some()
            || !is_playable(chess_match.game.outcome()) {
            return None;
        }
        let side = chess_match.game.position().side_to_move();
        if chess_match.controllers[side.index()] != Controller::Computer {
            return None;
        }
        match &self.state {
            EngineState::Failed(error) => {
                let mut status: Vec<char> = Vec::new();
                push_str(&mut status, "Fairy-Stockfish is unavailable: ");
                push_str(&mut status, error.as_str());
                chess_match.status = string_of(&status);
                return None;
            },
            EngineState::Idle => {},
            _ => {
                return None;
            },
        }
        let profile = DifficultyProfile::new(settings.difficulty());
        let limit_strength = profile.elo.is_some();
        let mut commands: Vec<String> = Vec::new();
        let mut line: Vec<char> = Vec::new();
        push_str(&mut line, "setoption name UCI_Variant value ");
        push_str(&mut line, fairy_variant(chess_match.variant));
        commands.push(string_of(&line));
        let mut line: Vec<char> = Vec::new();
        push_str(&mut line, "setoption name UCI_LimitStrength value ");
        push_str(&mut line, if limit_strength { "true" } else { "false" });
        commands.push(string_of(&line));
        commands.push("setoption name Skill Level value 20".to_owned());
        let ghost head = texts(commands@);
        match profile.elo {
            Some(elo) => {
                let mut line: Vec<char> = Vec::new();
                push_str(&mut line, "setoption name UCI_Elo value ");
                push_decimal(&mut line, elo as u64);
                commands.push(string_of(&line));
            },
            None => {},
        }
        if self.new_game_pending {
            commands.push("ucinewgame".to_owned());
        }
        let fen = chess_match.game.position().to_fen();
        let mut line: Vec<char> = Vec::new();
        push_str(&mut line, "position fen ");
        push_str(&mut line, fen.as_str());
        commands.push(string_of(&line));
        let mut line: Vec<char> = Vec::new();
        push_str(&mut line, "go movetime ");
        push_decimal(&mut line, profile.move_time_ms as u64);
        commands.push(string_of(&line));
        proof {
            let expected = search_command_texts(
                chess_match.variant,
                clamp_level(settings.level()),
                self.new_game_pending,
                fen_text(chess_match.game.position_spec()),
            );
            assert(texts(commands@) =~= expected);
        }
        Some(commands)
    }

    /// The commands were sent: the engine is thinking about the board.
    pub fn search_started(&mut self, chess_match: &mut ChessMatch, settings: &AiSettings)
        requires
            old(chess_match).wf(),
        ensures
            final(self).state == (EngineState::Searching {
                generation: old(chess_match).generation,
                analysis: MoveAnalysis { score: 0, depth: 0, nodes: 0 },
            }),
            !final(self).new_game_pending,
            only_status_changed(*old(chess_match), *final(chess_match)),
            final(chess_match).status@ == side_name_spec(old(chess_match).game.position_spec().side_spec())
                + " Fairy-Stockfish is thinking at level "@ + decimal(clamp_level(settings.level()) as nat) + "…"@,
    {
        let profile = DifficultyProfile::new(settings.difficulty());
        let side = chess_match.game.position().side_to_move();
        let mut status: Vec<char> = Vec::new();
        push_str(&mut status, side_name(side));
        push_str(&mut status, " Fairy-Stockfish is thinking at level ");
        push_decimal(&mut status, profile.level as u64);
        push_str(&mut status, "…");
        chess_match.status = string_of(&status);
        self.new_game_pending = false;
        self.state = EngineState::Searching { generation: chess_match.generation, analysis: MoveAnalysis::default() };
    }

    /// The analysis of the search under way, if one is.
    fn search_in_flight(&self) -> (r: Option<(u64, MoveAnalysis)>)
        ensures
            match self.state {
                EngineState::Searching { generation, analysis } => r == Some((generation, analysis)),
                _ => r is None,
            },
    {
        match &self.state {
            EngineState::Searching { generation, analysis } => Some((*generation, *analysis)),
            _ => None,
        }
    }

    /// Handles one line the engine printed and returns the commands to send
    /// back: `uciok` sets the engine up, `readyok` makes it idle, `info`
    /// lines update the analysis of the search under way, and `bestmove`
    /// plays the move on the board when the search belongs to the board
    /// shown and the menu is closed.
    #[verifier::rlimit(40)]
    pub fn handle_line(&mut self, line: &str, menu_open: bool, chess_match: &mut ChessMatch) -> (sent: Vec<String>)
        requires
            old(chess_match).wf(),
            has_prefix_spec(line@, "info "@) && old(self).state is Searching ==> mates_in_range(words(line@), 0),
        ensures
            final(chess_match).wf(),
            final(self).new_game_pending == old(self).new_game_pending,
            if line@ == "uciok"@ && old(self).state is Booting {
                &&& texts(sent@) == seq![
                    "setoption name Threads value 1"@,
                    "setoption name Hash value 32"@,
                    "isready"@,
                ]
                &&& final(self).state is WaitingUntilReady
                &&& *final(chess_match) == *old(chess_match)
            } else if line@ == "readyok"@ && old(self).state is WaitingUntilReady {
                &&& sent@.len() == 0
                &&& final(self).state is Idle
                &&& *final(chess_match) == *old(chess_match)
            } else if has_prefix_spec(line@, "info "@) {
                &&& sent@.len() == 0
                &&& *final(chess_match) == *old(chess_match)
                &&& final(self).state == match old(self).state {
                    EngineState::Searching { generation, analysis } => EngineState::Searching {
                        generation,
                        analysis: analysis_after(words(line@), 0, analysis),
                    },
                    other => other,
                }
            } else {
                match bestmove_of(line@) {
                    None => sent@.len() == 0 && final(self).state == old(self).state && *final(chess_match)
                        == *old(chess_match),
                    Some(best) => if old(self).state is Stopping {
                        &&& texts(sent@) == seq!["isready"@]
                        &&& final(self).state is WaitingUntilReady
                        &&& *final(chess_match) == *old(chess_match)
                    } else {
                        match old(self).state {
                            EngineState::Searching { generation, analysis } => {
                                let pos = old(chess_match).game.position_spec();
                                &&& sent@.len() == 0
                                &&& if menu_open || generation != old(chess_match).generation {
                                    final(self).state is Idle && *final(chess_match) == *old(chess_match)
                                } else if best == "(none)"@ || best == "0000"@ {
                                    &&& final(self).state is Idle
                                    &&& only_status_changed(*old(chess_match), *final(chess_match))
                                    &&& final(chess_match).status@ == outcome_text(
                                        outcome_spec(pos, old(chess_match).game.history()),
                                    )
                                } else {
                                    match notation_move(pos, best) {
                                        Some(m) => final(self).state is Idle && played(
                                            *old(chess_match),
                                            *final(chess_match),
                                            m,
                                            Some(analysis),
                                        ),
                                        None => {
                                            &&& final(self).state matches EngineState::Failed(message) && message@
                                                == "Fairy-Stockfish returned illegal move "@ + best + ": "@
                                                + "illegal move notation: "@ + best
                                            &&& only_status_changed(*old(chess_match), *final(chess_match))
                                            &&& final(chess_match).status@ == "Fairy-Stockfish error: illegal move "@
                                                + best + "."@
                                        },
                                    }
                                }
                            },
                            _ => sent@.len() == 0 && final(self).state == old(self).state && *final(chess_match)
                                == *old(chess_match),
                        }
                    },
                }
            },
    {
        let mut sent: Vec<String> = Vec::new();
        let chars = chars_of(line);
        let booting = match self.state {
            EngineState::Booting => true,
            _ => false,
        };
        if crate::server::text_equals(line, "uciok") && booting {
            sent.push("setoption name Threads value 1".to_owned());
            sent.push("setoption name Hash value 32".to_owned());
            sent.push("isready".to_owned());
            self.state = EngineState::WaitingUntilReady;
            assert(texts(sent@) =~= seq![
                "setoption name Threads value 1"@,
                "setoption name Hash value 32"@,
                "isready"@,
            ]);
            return sent;
        }
        let waiting = match self.state {
            EngineState::WaitingUntilReady => true,
            _ => false,
        };
        if crate::server::text_equals(line, "readyok") && waiting {
            self.state = EngineState::Idle;
            return sent;
        }
        if has_prefix(&chars, &chars_of("info ")) {
            match self.search_in_flight() {
                Some((generation, analysis)) => {
                    let mut updated = analysis;
                    update_analysis(line, &mut updated);
                    self.state = EngineState::Searching { generation, analysis: updated };
                },
                None => {},
            }
            return sent;
        }
        let best = match bestmove_word(&chars) {
            Some(word) => word,
            None => {
                return sent;
            },
        };
        let stopping = match self.state {
            EngineState::Stopping => true,
            _ => false,
        };
        if stopping {
            sent.push("isready".to_owned());
            self.state = EngineState::WaitingUntilReady;
            assert(texts(sent@) =~= seq!["isready"@]);
            return sent;
        }
        let (generation, analysis) = match self.search_in_flight() {
            Some(search) => search,
            None => {
                return sent;
            },
        };
        self.state = EngineState::Idle;
        if menu_open || generation != chess_match.generation {
            return sent;
        }
        let best_text = string_of(&best);
        if crate::server::text_equals(best_text.as_str(), "(none)") || crate::server::text_equals(
            best_text.as_str(),
            "0000",
        ) {
            chess_match.status = outcome_message(chess_match.game.outcome());
            return sent;
        }
        match chess_match.game.position().parse_uci_move(best_text.as_str()) {
            Ok(chess_move) => {
                proof {
                    chess_match.game.position_spec().lemma_notation_move_sound(best@);
                }
                chess_match.apply_move(chess_move, Some(&analysis));
            },
            Err(error) => {
                let mut message: Vec<char> = Vec::new();
                push_str(&mut message, "Fairy-Stockfish returned illegal move ");
                push_str(&mut message, best_text.as_str());
                push_str(&mut message, ": ");
                let text = error.message();
                push_str(&mut message, text.as_str());
                self.fail(string_of(&message));
                let mut status: Vec<char> = Vec::new();
                push_str(&mut status, "Fairy-Stockfish error: illegal move ");
                push_str(&mut status, best_text.as_str());
                push_str(&mut status, ".");
                chess_match.status = string_of(&status);
            },
        }
        sent
    }
}

} // verus!
