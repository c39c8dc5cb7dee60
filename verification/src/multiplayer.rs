//! The client's side of an online game: the connection phase, the room, the
//! revision the board shows, and the moves the server has confirmed but the
//! board has not shown yet. Each server message or socket event is one
//! transition; the caller performs the sends and the reconnect timer.
use vstd::prelude::*;
use std::collections::VecDeque;
use crate::chess_match::{history_load_result, played, ChessMatch};
use crate::client::{room_status, GameMode};
use crate::legal::{legal_spec, notation_move};
use crate::mv::{move_text, writable, Move};
use crate::protocol::ClientMessage;
use crate::server::{texts, upper_all};
use crate::text::{chars_of, push_str, string_of, trim, trimmed};
use crate::types::{to_ascii_uppercase, Color};
use crate::variant::Variant;

verus! {

/// Where the connection to the multiplayer server stands.
#[derive(Clone, Copy, Debug, PartialEq, Eq, Structural)]
pub enum MultiplayerPhase {
    Offline,
    Connecting,
    Active,
    Reconnecting,
    Error,
}

/// The status line of an online game.
pub open spec fn room_text(game_id: Seq<char>, opponent_connected: bool) -> Seq<char> {
    "Game "@ + game_id + if opponent_connected {
        " · opponent connected"@
    } else {
        " · waiting for opponent"@
    }
}

/// The revision after `r`, stopping at the largest one.
pub open spec fn saturating_next(r: u64) -> u64 {
    if r == u64::MAX {
        r
    } else {
        (r + 1) as u64
    }
}

/// The view of an optional text.
pub open spec fn opt_text(o: Option<String>) -> Option<Seq<char>> {
    match o {
        Some(s) => Some(s@),
        None => None,
    }
}

/// The error codes after which the client stops trying.
pub open spec fn is_fatal_code(code: Seq<char>) -> bool {
    ||| code == "game_not_found"@
    ||| code == "game_full"@
    ||| code == "invalid_player_token"@
    ||| code == "protocol_mismatch"@
    ||| code == "connection_replaced"@
}

/// The game id a player typed, as it is sent: trimmed and upper-cased.
pub open spec fn join_id(value: Seq<char>) -> Seq<char> {
    upper_all(trim(value))
}

/// The state of the online game.
pub struct MultiplayerState {
    pub phase: MultiplayerPhase,
    pub game_id: Option<String>,
    pub side: Option<Color>,
    /// The revision the board shows.
    pub revision: u64,
    /// The last revision the server confirmed.
    pub accepted_revision: u64,
    pub opponent_connected: bool,
    /// The move sent and not yet confirmed.
    pub pending_move: Option<String>,
    pub status: String,
    pub player_token: Option<String>,
    /// Confirmed moves, with their revisions, waiting to be shown.
    pub accepted_moves: VecDeque<(u64, String)>,
}

/// `b` is `a` with at most its phase and status changed.
pub open spec fn same_room(a: MultiplayerState, b: MultiplayerState) -> bool {
    &&& b.game_id == a.game_id
    &&& b.side == a.side
    &&& b.revision == a.revision
    &&& b.accepted_revision == a.accepted_revision
    &&& b.opponent_connected == a.opponent_connected
    &&& b.pending_move == a.pending_move
    &&& b.player_token == a.player_token
    &&& b.accepted_moves@ == a.accepted_moves@
}

/// A state that has not joined any game, with the given phase and status.
pub open spec fn fresh(s: MultiplayerState, phase: MultiplayerPhase, status: Seq<char>) -> bool {
    &&& s.phase == phase
    &&& s.game_id is None
    &&& s.side is None
    &&& s.revision == 0
    &&& s.accepted_revision == 0
    &&& !s.opponent_connected
    &&& s.pending_move is None
    &&& s.status@ == status
    &&& s.player_token is None
    &&& s.accepted_moves@.len() == 0
}

/// What a move request does while playing online.
pub enum MoveDispatch {
    /// Not an online game: the move was played on the board.
    PlayedLocally,
    /// The move cannot be sent now; the status line says why.
    Refused,
    /// The message to send to the server.
    Send(ClientMessage),
}

impl Default for MultiplayerState {
    fn default() -> (r: Self)
        ensures
            fresh(r, MultiplayerPhase::Offline, "Enter a game id to join, or leave it empty to create one."@),
    {
        MultiplayerState {
            phase: MultiplayerPhase::Offline,
            game_id: None,
            side: None,
            revision: 0,
            accepted_revision: 0,
            opponent_connected: false,
            pending_move: None,
            status: "Enter a game id to join, or leave it empty to create one.".to_owned(),
            player_token: None,
            accepted_moves: VecDeque::new(),
        }
    }
}

/// Trims a typed game id and upper-cases it.
pub fn normalize_join_id(value: &str) -> (r: String)
    ensures
        r@ == join_id(value@),
{
    let chars = chars_of(value);
    let cut = trimmed(&chars);
    let mut out: Vec<char> = Vec::new();
    let mut i: usize = 0;
    while i < cut.len()
        invariant
            i <= cut@.len(),
            out@ == upper_all(cut@.take(i as int)),
        decreases cut.len() - i,
    {
        out.push(to_ascii_uppercase(cut[i]));
        assert(out@ =~= upper_all(cut@.take(i + 1)));
        i += 1;
    }
    assert(cut@.take(cut@.len() as int) =~= cut@);
    string_of(&out)
}

impl MultiplayerState {
    /// The state while a new game is being created.
    pub fn creating() -> (r: Self)
        ensures
            fresh(r, MultiplayerPhase::Connecting, "Creating game…"@),
    {
        let mut state = MultiplayerState::default();
        state.phase = MultiplayerPhase::Connecting;
        state.status = "Creating game…".to_owned();
        state
    }

    /// The state while joining the game `game_id` as typed; the id it joins
    /// is trimmed and upper-cased.
    pub fn joining(game_id: &str) -> (r: Self)
        ensures
            r.phase == MultiplayerPhase::Connecting,
            opt_text(r.game_id) == Some(join_id(game_id@)),
            r.side is None,
            r.revision == 0,
            r.accepted_revision == 0,
            !r.opponent_connected,
            r.pending_move is None,
            r.status@ == "Joining "@ + join_id(game_id@) + "…"@,
            r.player_token is None,
            r.accepted_moves@.len() == 0,
    {
        let id = normalize_join_id(game_id);
        let mut status: Vec<char> = Vec::new();
        push_str(&mut status, "Joining ");
        push_str(&mut status, id.as_str());
        push_str(&mut status, "…");
        let mut state = MultiplayerState::default();
        state.phase = MultiplayerPhase::Connecting;
        state.game_id = Some(id);
        state.status = string_of(&status);
        state
    }

    /// Gives up with `message` as the status line.
    pub fn fail(&mut self, message: String)
        ensures
            final(self).phase == MultiplayerPhase::Error,
            final(self).status@ == message@,
            same_room(*old(self), *final(self)),
    {
        self.phase = MultiplayerPhase::Error;
        self.status = message;
    }

    /// Shows `message` as the status line and changes nothing else.
    pub fn report(&mut self, message: String)
        ensures
            final(self).phase == old(self).phase,
            final(self).status@ == message@,
            same_room(*old(self), *final(self)),
    {
        self.status = message;
    }

    /// The message asking the server for the whole history again.
    pub fn resync_request(&self) -> (r: ClientMessage)
        ensures
            r == (ClientMessage::Resync { revision: self.revision }),
    {
        ClientMessage::Resync { revision: self.revision }
    }

    /// The socket failed: an active game starts reconnecting, anything else
    /// fails. Returns whether to reconnect.
    pub fn on_socket_error(&mut self, error: &str) -> (reconnect: bool)
        ensures
            same_room(*old(self), *final(self)),
            reconnect == (old(self).phase == MultiplayerPhase::Active || old(self).phase
                == MultiplayerPhase::Reconnecting),
            reconnect ==> final(self).phase == MultiplayerPhase::Reconnecting && final(self).status@
                == "Connection lost ("@ + error@ + "). Reconnecting…"@,
            !reconnect ==> final(self).phase == MultiplayerPhase::Error && final(self).status@ == "WebSocket error: "@
                + error@,
    {
        let mut status: Vec<char> = Vec::new();
        if self.phase == MultiplayerPhase::Active || self.phase == MultiplayerPhase::Reconnecting {
            push_str(&mut status, "Connection lost (");
            push_str(&mut status, error);
            push_str(&mut status, "). Reconnecting…");
            self.phase = MultiplayerPhase::Reconnecting;
            self.status = string_of(&status);
            true
        } else {
            push_str(&mut status, "WebSocket error: ");
            push_str(&mut status, error);
            self.phase = MultiplayerPhase::Error;
            self.status = string_of(&status);
            false
        }
    }

    /// The server closed the socket: an active game starts reconnecting, a
    /// connection attempt fails, and otherwise nothing changes. Returns
    /// whether to reconnect.
    pub fn on_socket_closed(&mut self) -> (reconnect: bool)
        ensures
            same_room(*old(self), *final(self)),
            reconnect == (old(self).phase == MultiplayerPhase::Active || old(self).phase
                == MultiplayerPhase::Reconnecting),
            reconnect ==> final(self).phase == MultiplayerPhase::Reconnecting && final(self).status@
                == "Connection lost. Reconnecting…"@,
            old(self).phase == MultiplayerPhase::Connecting ==> final(self).phase == MultiplayerPhase::Error
                && final(self).status@ == "The multiplayer server closed the connection."@,
            !reconnect && old(self).phase != MultiplayerPhase::Connecting ==> final(self).phase == old(self).phase
                && final(self).status == old(self).status,
    {
        if self.phase == MultiplayerPhase::Active || self.phase == MultiplayerPhase::Reconnecting {
            self.phase = MultiplayerPhase::Reconnecting;
            self.status = "Connection lost. Reconnecting…".to_owned();
            true
        } else {
            if self.phase == MultiplayerPhase::Connecting {
                self.phase = MultiplayerPhase::Error;
                self.status = "The multiplayer server closed the connection.".to_owned();
            }
            false
        }
    }

    /// The server confirmed the move of `revision`. Old revisions are
    /// ignored; a gap asks for the history again (the result is true);
    /// otherwise the move is queued to be shown.
    pub fn on_move_accepted(&mut self, revision: u64, uci: String) -> (resync: bool)
        ensures
            final(self).phase == old(self).phase,
            final(self).game_id == old(self).game_id,
            final(self).side == old(self).side,
            final(self).revision == old(self).revision,
            final(self).opponent_connected == old(self).opponent_connected,
            final(self).player_token == old(self).player_token,
            revision <= old(self).revision ==> !resync && *final(self) == *old(self),
            revision > old(self).revision && revision != saturating_next(old(self).accepted_revision) ==> {
                &&& resync
                &&& final(self).status@ == "Move stream is out of sync. Requesting history…"@
                &&& same_room(*old(self), *final(self))
            },
            revision > old(self).revision && revision == saturating_next(old(self).accepted_revision) ==> {
                &&& !resync
                &&& final(self).accepted_revision == revision
                &&& final(self).pending_move == if opt_text(old(self).pending_move) == Some(uci@) {
                    None
                } else {
                    old(self).pending_move
                }
                &&& final(self).accepted_moves@ == old(self).accepted_moves@.push((revision, uci))
                &&& final(self).status == old(self).status
            },
    {
        if revision <= self.revision {
            return false;
        }
        let next = if self.accepted_revision == u64::MAX {
            u64::MAX
        } else {
            self.accepted_revision + 1
        };
        if revision != next {
            self.status = "Move stream is out of sync. Requesting history…".to_owned();
            return true;
        }
        self.accepted_revision = revision;
        let confirmed = match &self.pending_move {
            Some(pending) => crate::server::text_equals(pending.as_str(), uci.as_str()),
            None => false,
        };
        if confirmed {
            self.pending_move = None;
        }
        self.accepted_moves.push_back((revision, uci));
        false
    }

    /// The server sent the room: the match is rebuilt from the history and
    /// the game becomes active. Returns whether the history could be loaded;
    /// when not, the state fails with the loading error.
    pub fn on_game_ready(
        &mut self,
        chess_match: &mut ChessMatch,
        game_id: String,
        player_token: String,
        side: Color,
        variant: Variant,
        revision: u64,
        history: &[String],
        opponent_connected: bool,
    ) -> (loaded: bool)
        requires
            old(chess_match).wf(),
        ensures
            final(chess_match).wf(),
            history_load_result(
                *old(chess_match),
                *final(chess_match),
                variant,
                side,
                revision as nat,
                texts(history@),
                if loaded {
                    Ok(())
                } else {
                    Err(final(self).status)
                },
            ),
            !loaded ==> final(self).phase == MultiplayerPhase::Error && same_room(*old(self), *final(self)),
            loaded ==> {
                &&& final(self).phase == MultiplayerPhase::Active
                &&& final(self).game_id == Some(game_id)
                &&& final(self).player_token == Some(player_token)
                &&& final(self).side == Some(side)
                &&& final(self).revision == revision
                &&& final(self).accepted_revision == revision
                &&& final(self).opponent_connected == opponent_connected
                &&& final(self).pending_move is None
                &&& final(self).accepted_moves@.len() == 0
                &&& final(self).status@ == room_text(game_id@, opponent_connected)
            },
    {
        match chess_match.load_server_history(variant, side, revision, history) {
            Ok(()) => {},
            Err(error) => {
                self.fail(error);
                return false;
            },
        }
        self.status = room_status(game_id.as_str(), opponent_connected);
        self.phase = MultiplayerPhase::Active;
        self.game_id = Some(game_id);
        self.player_token = Some(player_token);
        self.side = Some(side);
        self.revision = revision;
        self.accepted_revision = revision;
        self.opponent_connected = opponent_connected;
        self.pending_move = None;
        self.accepted_moves.clear();
        true
    }

    /// The server sent the whole history again. Without a side nothing
    /// happens; otherwise the match is rebuilt and the queue emptied, or the
    /// state fails with the loading error.
    pub fn on_sync(&mut self, chess_match: &mut ChessMatch, revision: u64, history: &[String]) -> (synchronized: bool)
        requires
            old(chess_match).wf(),
        ensures
            final(chess_match).wf(),
            old(self).side is None ==> !synchronized && *final(self) == *old(self) && *final(chess_match)
                == *old(chess_match),
            old(self).side matches Some(side) ==> {
                &&& history_load_result(
                    *old(chess_match),
                    *final(chess_match),
                    old(chess_match).variant,
                    side,
                    revision as nat,
                    texts(history@),
                    if synchronized {
                        Ok(())
                    } else {
                        Err(final(self).status)
                    },
                )
                &&& final(self).game_id == old(self).game_id
                &&& final(self).side == old(self).side
                &&& final(self).player_token == old(self).player_token
                &&& final(self).opponent_connected == old(self).opponent_connected
                &&& synchronized ==> {
                    &&& final(self).phase == old(self).phase
                    &&& final(self).revision == revision
                    &&& final(self).accepted_revision == revision
                    &&& final(self).pending_move is None
                    &&& final(self).accepted_moves@.len() == 0
                    &&& final(self).status@ == match opt_text(old(self).game_id) {
                        Some(id) => room_text(id, old(self).opponent_connected),
                        None => "Synchronized."@,
                    }
                }
                &&& !synchronized ==> final(self).phase == MultiplayerPhase::Error && same_room(*old(self), *final(self))
            },
    {
        let side = match self.side {
            Some(side) => side,
            None => {
                return false;
            },
        };
        let variant = chess_match.variant;
        match chess_match.load_server_history(variant, side, revision, history) {
            Ok(()) => {
                self.revision = revision;
                self.accepted_revision = revision;
                self.pending_move = None;
                self.accepted_moves.clear();
                self.status =
                    match &self.game_id {
                        Some(id) => room_status(id.as_str(), self.opponent_connected),
                        None => "Synchronized.".to_owned(),
                    };
                true
            },
            Err(error) => {
                self.fail(error);
                false
            },
        }
    }

    /// Shows the next confirmed move once the board is idle. Returns whether
    /// to ask the server for the whole history: when the move's revision is
    /// not the next one, or its notation names no legal move here.
    pub fn apply_next_accepted_move(&mut self, chess_match: &mut ChessMatch) -> (resync: bool)
        requires
            old(chess_match).wf(),
        ensures
            final(chess_match).wf(),
            final(self).phase == old(self).phase,
            final(self).game_id == old(self).game_id,
            final(self).side == old(self).side,
            final(self).accepted_revision == old(self).accepted_revision,
            final(self).opponent_connected == old(self).opponent_connected,
            final(self).pending_move == old(self).pending_move,
            final(self).player_token == old(self).player_token,
            old(self).accepted_moves@.len() == 0 ==> {
                &&& !resync
                &&& final(self).accepted_moves@ == old(self).accepted_moves@
                &&& final(self).revision == old(self).revision
                &&& final(self).status == old(self).status
                &&& *final(chess_match) == *old(chess_match)
            },
            old(self).accepted_moves@.len() > 0 ==> {
                let next = old(self).accepted_moves@[0];
                let pos = old(chess_match).game.position_spec();
                &&& final(self).accepted_moves@ == old(self).accepted_moves@.drop_first()
                &&& if next.0 != saturating_next(old(self).revision) {
                    &&& resync
                    &&& final(self).revision == old(self).revision
                    &&& final(self).status == old(self).status
                    &&& *final(chess_match) == *old(chess_match)
                } else {
                    match notation_move(pos, next.1@) {
                        None => {
                            &&& resync
                            &&& final(self).revision == old(self).revision
                            &&& final(self).status@ == "Confirmed move does not fit the local board. Resynchronizing…"@
                            &&& *final(chess_match) == *old(chess_match)
                        },
                        Some(m) => {
                            &&& !resync
                            &&& played(*old(chess_match), *final(chess_match), m, None)
                            &&& final(self).revision == next.0
                            &&& final(self).status@ == match opt_text(old(self).game_id) {
                                Some(id) => room_text(id, old(self).opponent_connected),
                                None => old(self).status@,
                            }
                        },
                    }
                }
            },
    {
        let (revision, uci) = match self.accepted_moves.pop_front() {
            Some(next) => next,
            None => {
                return false;
            },
        };
        proof {
            assert(self.accepted_moves@ =~= old(self).accepted_moves@.drop_first());
        }
        let expected = if self.revision == u64::MAX {
            u64::MAX
        } else {
            self.revision + 1
        };
        if revision != expected {
            return true;
        }
        let chess_move = match chess_match.game.position().parse_uci_move(uci.as_str()) {
            Ok(m) => m,
            Err(_) => {
                self.status = "Confirmed move does not fit the local board. Resynchronizing…".to_owned();
                return true;
            },
        };
        proof {
            chess_match.game.position_spec().lemma_notation_move_sound(uci@);
        }
        chess_match.apply_move(chess_move, None);
        self.revision = revision;
        match &self.game_id {
            Some(id) => {
                self.status = room_status(id.as_str(), self.opponent_connected);
            },
            None => {},
        }
        false
    }

    /// Decides what to do with a move the player made: play it on the board
    /// outside online games; refuse it, saying why, while the connection is
    /// not ready, a move awaits confirmation, or it is not the player's
    /// turn; otherwise hand back the message to send.
    pub fn dispatch_move(&mut self, chess_match: &mut ChessMatch, mode: GameMode, chess_move: Move) -> (r:
        MoveDispatch)
        requires
            old(chess_match).wf(),
            mode != GameMode::Multiplayer ==> legal_spec(old(chess_match).game.position_spec()).contains(chess_move),
            writable(chess_move.from),
            writable(chess_move.to),
        ensures
            final(chess_match).wf(),
            same_room(*old(self), *final(self)),
            final(self).phase == old(self).phase,
            mode != GameMode::Multiplayer ==> {
                &&& r is PlayedLocally
                &&& played(*old(chess_match), *final(chess_match), chess_move, None)
                &&& final(self).status == old(self).status
            },
            mode == GameMode::Multiplayer ==> {
                let side = old(chess_match).game.position_spec().side_spec();
                &&& *final(chess_match) == *old(chess_match)
                &&& if old(self).phase != MultiplayerPhase::Active {
                    r is Refused && final(self).status@ == "The multiplayer connection is not ready."@
                } else if old(self).pending_move is Some || old(self).accepted_moves@.len() > 0 {
                    r is Refused && final(self).status@ == "Waiting for the server to confirm the previous move."@
                } else if old(self).side != Some(side) {
                    r is Refused && final(self).status@ == "Waiting for the other player."@
                } else {
                    &&& final(self).status == old(self).status
                    &&& r matches MoveDispatch::Send(ClientMessage::PlayMove { revision, uci })
                    &&& revision == old(self).revision
                    &&& uci@ == move_text(chess_move)
                }
            },
    {
        if mode != GameMode::Multiplayer {
            chess_match.apply_move(chess_move, None);
            return MoveDispatch::PlayedLocally;
        }
        if self.phase != MultiplayerPhase::Active {
            self.status = "The multiplayer connection is not ready.".to_owned();
            return MoveDispatch::Refused;
        }
        if self.pending_move.is_some() || self.accepted_moves.len() > 0 {
            self.status = "Waiting for the server to confirm the previous move.".to_owned();
            return MoveDispatch::Refused;
        }
        let side_to_move = chess_match.game.position().side_to_move();
        let mine = match self.side {
            Some(side) => side == side_to_move,
            None => false,
        };
        if !mine {
            self.status = "Waiting for the other player.".to_owned();
            return MoveDispatch::Refused;
        }
        MoveDispatch::Send(ClientMessage::PlayMove { revision: self.revision, uci: chess_move.to_uci() })
    }

    /// The move `uci` was sent: it awaits confirmation, and the board drops
    /// its selection.
    pub fn move_sent(&mut self, chess_match: &mut ChessMatch, uci: String)
        ensures
            final(self).phase == old(self).phase,
            final(self).game_id == old(self).game_id,
            final(self).side == old(self).side,
            final(self).revision == old(self).revision,
            final(self).accepted_revision == old(self).accepted_revision,
            final(self).opponent_connected == old(self).opponent_connected,
            final(self).player_token == old(self).player_token,
            final(self).accepted_moves@ == old(self).accepted_moves@,
            final(self).pending_move == Some(uci),
            final(self).status@ == "Move sent. Waiting for server confirmation…"@,
            final(chess_match).game == old(chess_match).game,
            final(chess_match).variant == old(chess_match).variant,
            final(chess_match).controllers == old(chess_match).controllers,
            final(chess_match).last_move == old(chess_match).last_move,
            final(chess_match).generation == old(chess_match).generation,
            final(chess_match).animate_last_move == old(chess_match).animate_last_move,
            final(chess_match).status == old(chess_match).status,
            final(chess_match).selected is None,
            final(chess_match).pending_promotion is None,
    {
        self.pending_move = Some(uci);
        self.status = "Move sent. Waiting for server confirmation…".to_owned();
        chess_match.selected = None;
        chess_match.pending_promotion = None;
    }

    /// The opponent connected or left.
    pub fn on_opponent_connection(&mut self, connected: bool)
        ensures
            final(self).phase == old(self).phase,
            final(self).game_id == old(self).game_id,
            final(self).side == old(self).side,
            final(self).revision == old(self).revision,
            final(self).accepted_revision == old(self).accepted_revision,
            final(self).pending_move == old(self).pending_move,
            final(self).player_token == old(self).player_token,
            final(self).accepted_moves@ == old(self).accepted_moves@,
            final(self).opponent_connected == connected,
            final(self).status@ == match opt_text(old(self).game_id) {
                Some(id) => room_text(id, connected),
                None => old(self).status@,
            },
    {
        self.opponent_connected = connected;
        match &self.game_id {
            Some(id) => {
                self.status = room_status(id.as_str(), connected);
            },
            None => {},
        }
    }

    /// The server reported an error: the status shows it, the move in flight
    /// is dropped, and a connection attempt or a fatal code ends the game.
    pub fn on_server_error(&mut self, code: &str, message: String)
        ensures
            final(self).status@ == message@,
            final(self).pending_move is None,
            final(self).phase == if old(self).phase == MultiplayerPhase::Connecting || is_fatal_code(code@) {
                MultiplayerPhase::Error
            } else {
                old(self).phase
            },
            final(self).game_id == old(self).game_id,
            final(self).side == old(self).side,
            final(self).revision == old(self).revision,
            final(self).accepted_revision == old(self).accepted_revision,
            final(self).opponent_connected == old(self).opponent_connected,
            final(self).player_token == old(self).player_token,
            final(self).accepted_moves@ == old(self).accepted_moves@,
    {
        self.pending_move = None;
        self.status = message;
        let fatal = crate::server::text_equals(code, "game_not_found") || crate::server::text_equals(code, "game_full")
            || crate::server::text_equals(code, "invalid_player_token") || crate::server::text_equals(
            code,
            "protocol_mismatch",
        ) || crate::server::text_equals(code, "connection_replaced");
        if self.phase == MultiplayerPhase::Connecting || fatal {
            self.phase = MultiplayerPhase::Error;
        }
    }
}

} // verus!
