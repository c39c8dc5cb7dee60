use capablanca_chess_plus::ai::{mates_fit, update_analysis, AiTask, EngineState};
use capablanca_chess_plus::chess_match::{adjust_search_depth, ChessMatch, MoveAnalysis, SearchDepth};
use capablanca_chess_plus::client::{clip_after_draw, random_clip_index};
use capablanca_chess_plus::search::{Engine, SearchLimits};
use capablanca_chess_plus::client::{AiSettings, Controller, GameMenuState, GameMode, SideChoice};
use capablanca_chess_plus::game::Game;
use capablanca_chess_plus::menu::{
    action_selected, apply_menu_action, start_button_label, MenuAction, MenuEffect,
    MultiplayerCommand,
};
use capablanca_chess_plus::position::Position;
use capablanca_chess_plus::multiplayer::{MoveDispatch, MultiplayerPhase, MultiplayerState};
use capablanca_chess_plus::mv::Move;
use capablanca_chess_plus::protocol::ClientMessage;
use capablanca_chess_plus::types::{Color as Side, PieceKind, Square};
use capablanca_chess_plus::variant::Variant;
use capablanca_chess_plus::view_state::{
    generation_camera_action, manual_recenter_side, BoardPointerState, GenerationCameraAction,
    fullscreen_corner_border, toggled_window_mode, HudState, MoveSoundState,
    PieceAnimationState, ReflectionDirty, ScreenMode,
};
use capablanca_chess_plus::client::ResultSound;

fn square(text: &str) -> Square {
    Square::parse(text).unwrap()
}

fn two_humans() -> ChessMatch {
    ChessMatch::new(Variant::Capablanca, [Controller::Human, Controller::Human])
}

#[test]
fn server_history_restores_the_position_without_animation() {
    let mut chess_match = ChessMatch::default();
    chess_match
        .load_server_history(
            Variant::Gothic,
            Side::Black,
            2,
            &["a2a3".to_owned(), "a7a6".to_owned()],
        )
        .unwrap();
    assert_eq!(chess_match.controllers[0], Controller::Remote);
    assert_eq!(chess_match.controllers[1], Controller::Human);
    assert!(!chess_match.animate_last_move);
    assert_eq!(chess_match.last_move.unwrap().to_uci(), "a7a6");
}

#[test]
fn animation_settles_only_after_every_current_motion_finishes() {
    let mut state = PieceAnimationState::default();
    state.begin_generation(7, 2);
    assert!(!state.is_settled(7));

    state.finish_motion(6);
    state.finish_motion(7);
    assert!(!state.is_settled(7));

    state.finish_motion(7);
    assert!(state.is_settled(7));
}

#[test]
fn dirty_countdown_extends_but_never_shortens_pending_refresh() {
    let mut dirty = ReflectionDirty {
        frames_remaining: 2,
    };

    dirty.request_frames(1);
    assert!(dirty.consume_frame());
    dirty.request_frames(3);
    assert!(dirty.consume_frame());
    assert!(dirty.consume_frame());
    assert!(dirty.consume_frame());
    assert!(!dirty.consume_frame());
}

#[test]
fn leaving_an_old_square_does_not_clear_the_new_hover() {
    let first = Square::new(2, 2);
    let second = Square::new(3, 2);
    let mut pointer = BoardPointerState::default();

    pointer.enter(first);
    pointer.enter(second);
    pointer.leave(first);
    assert_eq!(pointer.hovered_square, Some(second));

    pointer.leave(second);
    assert_eq!(pointer.hovered_square, None);
}

#[test]
fn uci_info_updates_available_analysis_fields() {
    let mut analysis = MoveAnalysis::default();
    update_analysis(
        "info depth 12 seldepth 18 score cp -43 nodes 123456 nps 500000",
        &mut analysis,
    );
    assert_eq!(analysis.score, -43);
    assert_eq!(analysis.depth, 12);
    assert_eq!(analysis.nodes, 123_456);
}

#[test]
fn mate_scores_count_down_from_a_million() {
    let mut analysis = MoveAnalysis::default();
    update_analysis("info score mate 3", &mut analysis);
    assert_eq!(analysis.score, 999_997);
    update_analysis("info score mate -2 depth +7", &mut analysis);
    assert_eq!(analysis.score, -999_998);
    assert_eq!(analysis.depth, 7);
}

#[test]
fn unreadable_info_fields_keep_earlier_values() {
    let mut analysis = MoveAnalysis {
        score: 5,
        depth: 3,
        nodes: 9,
    };
    update_analysis("info depth 300 nodes x score wdl 10 score cp", &mut analysis);
    assert_eq!(analysis.depth, 3);
    assert_eq!(analysis.nodes, 9);
    assert_eq!(analysis.score, 5);
}

#[test]
fn a_move_report_carries_the_evaluation() {
    let mut chess_match = two_humans();
    let chess_move = Move::normal(square("e2"), square("e4"));
    let analysis = MoveAnalysis {
        score: 43,
        depth: 12,
        nodes: 123_456,
    };
    chess_match.apply_move(chess_move, Some(&analysis));
    assert_eq!(
        chess_match.status,
        "White pawn e2-e4.  Evaluation +0.43, depth 12, 123456 nodes. Game in progress."
    );
    assert_eq!(chess_match.generation, 1);
    assert!(chess_match.animate_last_move);

    let reply = Move::normal(square("e7"), square("e5"));
    let analysis = MoveAnalysis {
        score: -150,
        depth: 3,
        nodes: 7,
    };
    chess_match.apply_move(reply, Some(&analysis));
    assert_eq!(
        chess_match.status,
        "Black pawn e7-e5.  Evaluation -1.50, depth 3, 7 nodes. Game in progress."
    );
}

#[test]
fn clicking_selects_and_moves_a_piece() {
    let mut chess_match = two_humans();
    chess_match.handle_square_selection(square("e2"));
    assert_eq!(chess_match.selected, Some(square("e2")));
    assert_eq!(chess_match.status, "e2 selected: 2 destination(s).");

    chess_match.handle_square_selection(square("e4"));
    assert_eq!(chess_match.selected, None);
    assert_eq!(chess_match.status, "White pawn e2-e4. Game in progress.");
    assert_eq!(chess_match.last_move.unwrap().to_uci(), "e2e4");

    chess_match.handle_square_selection(square("a5"));
    assert_eq!(chess_match.status, "Select a black piece.");

    chess_match.handle_square_selection(square("e7"));
    chess_match.handle_square_selection(square("e2"));
    assert_eq!(chess_match.selected, None);
    assert_eq!(chess_match.status, "e2 is not a legal destination.");
}

#[test]
fn the_computers_side_cannot_be_clicked() {
    let mut chess_match =
        ChessMatch::new(Variant::Capablanca, [Controller::Computer, Controller::Human]);
    chess_match.handle_square_selection(square("e2"));
    assert_eq!(chess_match.status, "White is controlled by the computer.");
    assert_eq!(chess_match.selected, None);
}

#[test]
fn restart_names_the_variant() {
    let mut chess_match = two_humans();
    chess_match.restart(Variant::Gothic);
    assert_eq!(chess_match.status, "New Gothic Chess game. White to move.");
    assert_eq!(chess_match.generation, 1);
    assert_eq!(chess_match.side_to_move_message(), "White to move.");
}

#[test]
fn server_history_errors_name_the_problem() {
    let mut chess_match = ChessMatch::default();
    let error = chess_match
        .load_server_history(Variant::Gothic, Side::White, 3, &["a2a3".to_owned()])
        .unwrap_err();
    assert_eq!(error, "Server history has 1 moves but revision is 3.");
    assert_eq!(chess_match.variant, Variant::Capablanca);

    let error = chess_match
        .load_server_history(
            Variant::Gothic,
            Side::White,
            2,
            &["a2a3".to_owned(), "zz".to_owned()],
        )
        .unwrap_err();
    assert_eq!(
        error,
        "Invalid server move 2 (zz): illegal move notation: zz"
    );
    assert_eq!(chess_match.variant, Variant::Gothic);
    assert_eq!(chess_match.last_move.unwrap().to_uci(), "a2a3");
}

#[test]
fn online_moves_are_confirmed_in_order() {
    let mut chess_match = ChessMatch::default();
    let mut state = MultiplayerState::default();
    assert!(state.on_game_ready(
        &mut chess_match,
        "ROOM".to_owned(),
        "token".to_owned(),
        Side::White,
        Variant::Capablanca,
        0,
        &[],
        false,
    ));
    assert_eq!(state.phase, MultiplayerPhase::Active);
    assert_eq!(state.status, "Game ROOM · waiting for opponent");

    state.on_opponent_connection(true);
    assert_eq!(state.status, "Game ROOM · opponent connected");

    let request = state.dispatch_move(
        &mut chess_match,
        GameMode::Multiplayer,
        Move::normal(square("e2"), square("e4")),
    );
    match request {
        MoveDispatch::Send(ClientMessage::PlayMove { revision, uci }) => {
            assert_eq!(revision, 0);
            assert_eq!(uci, "e2e4");
            state.move_sent(&mut chess_match, uci);
        }
        _ => panic!("the move is to be sent"),
    }
    assert_eq!(state.pending_move.as_deref(), Some("e2e4"));

    let refused = state.dispatch_move(
        &mut chess_match,
        GameMode::Multiplayer,
        Move::normal(square("d2"), square("d4")),
    );
    assert!(matches!(refused, MoveDispatch::Refused));
    assert_eq!(
        state.status,
        "Waiting for the server to confirm the previous move."
    );

    assert!(!state.on_move_accepted(1, "e2e4".to_owned()));
    assert_eq!(state.pending_move, None);
    assert!(!state.apply_next_accepted_move(&mut chess_match));
    assert_eq!(state.revision, 1);
    assert_eq!(chess_match.last_move.unwrap().to_uci(), "e2e4");
    assert_eq!(state.status, "Game ROOM · opponent connected");

    assert!(state.on_move_accepted(5, "e7e5".to_owned()));
    assert_eq!(
        state.status,
        "Move stream is out of sync. Requesting history…"
    );
    assert_eq!(
        state.resync_request(),
        ClientMessage::Resync { revision: 1 }
    );
}

#[test]
fn old_confirmations_are_ignored() {
    let mut state = MultiplayerState::default();
    state.revision = 4;
    state.accepted_revision = 4;
    assert!(!state.on_move_accepted(3, "a2a3".to_owned()));
    assert_eq!(state.accepted_moves.len(), 0);
}

#[test]
fn a_confirmed_move_that_does_not_fit_asks_for_history() {
    let mut chess_match = ChessMatch::default();
    let mut state = MultiplayerState::default();
    state.accepted_moves.push_back((1, "zz".to_owned()));
    assert!(state.apply_next_accepted_move(&mut chess_match));
    assert_eq!(
        state.status,
        "Confirmed move does not fit the local board. Resynchronizing…"
    );
    assert_eq!(state.revision, 0);
}

#[test]
fn moves_are_refused_until_the_room_is_ready() {
    let mut chess_match = ChessMatch::default();
    let mut state = MultiplayerState::default();
    let result = state.dispatch_move(
        &mut chess_match,
        GameMode::Multiplayer,
        Move::normal(square("e2"), square("e4")),
    );
    assert!(matches!(result, MoveDispatch::Refused));
    assert_eq!(state.status, "The multiplayer connection is not ready.");

    state.phase = MultiplayerPhase::Active;
    state.side = Some(Side::Black);
    let result = state.dispatch_move(
        &mut chess_match,
        GameMode::Multiplayer,
        Move::normal(square("e2"), square("e4")),
    );
    assert!(matches!(result, MoveDispatch::Refused));
    assert_eq!(state.status, "Waiting for the other player.");

    let result = state.dispatch_move(
        &mut chess_match,
        GameMode::Local,
        Move::normal(square("e2"), square("e4")),
    );
    assert!(matches!(result, MoveDispatch::PlayedLocally));
    assert_eq!(chess_match.last_move.unwrap().to_uci(), "e2e4");
}

#[test]
fn socket_events_decide_whether_to_reconnect() {
    let mut state = MultiplayerState::joining("  room7 ");
    assert_eq!(state.game_id.as_deref(), Some("ROOM7"));
    assert_eq!(state.status, "Joining ROOM7…");
    assert!(!state.on_socket_closed());
    assert_eq!(state.phase, MultiplayerPhase::Error);
    assert_eq!(
        state.status,
        "The multiplayer server closed the connection."
    );

    state.phase = MultiplayerPhase::Active;
    assert!(state.on_socket_error("reset"));
    assert_eq!(state.phase, MultiplayerPhase::Reconnecting);
    assert_eq!(state.status, "Connection lost (reset). Reconnecting…");

    let mut offline = MultiplayerState::creating();
    assert_eq!(offline.status, "Creating game…");
    assert!(!offline.on_socket_error("refused"));
    assert_eq!(offline.status, "WebSocket error: refused");
}

#[test]
fn fatal_server_errors_end_the_game() {
    let mut state = MultiplayerState::default();
    state.phase = MultiplayerPhase::Active;
    state.pending_move = Some("e2e4".to_owned());
    state.on_server_error("illegal_move", "No.".to_owned());
    assert_eq!(state.phase, MultiplayerPhase::Active);
    assert_eq!(state.pending_move, None);
    assert_eq!(state.status, "No.");
    state.on_server_error("game_full", "Full.".to_owned());
    assert_eq!(state.phase, MultiplayerPhase::Error);
}

#[test]
fn a_sync_rebuilds_the_board() {
    let mut chess_match = ChessMatch::default();
    let mut state = MultiplayerState::default();
    assert!(!state.on_sync(&mut chess_match, 1, &["e2e4".to_owned()]));
    state.side = Some(Side::White);
    assert!(state.on_sync(&mut chess_match, 1, &["e2e4".to_owned()]));
    assert_eq!(state.revision, 1);
    assert_eq!(state.status, "Synchronized.");
    assert_eq!(chess_match.last_move.unwrap().to_uci(), "e2e4");
    assert!(!state.on_sync(&mut chess_match, 2, &["e2e4".to_owned()]));
    assert_eq!(state.phase, MultiplayerPhase::Error);
    assert_eq!(state.status, "Server history has 1 moves but revision is 2.");
}

#[test]
fn the_engine_boots_thinks_and_plays() {
    let mut task = AiTask::default();
    assert!(task.begin_warm_up());
    assert!(matches!(task.state, EngineState::Booting));

    let mut chess_match =
        ChessMatch::new(Variant::Capablanca, [Controller::Computer, Controller::Human]);
    let sent = task.handle_line("uciok", false, &mut chess_match);
    assert_eq!(
        sent,
        vec![
            "setoption name Threads value 1".to_owned(),
            "setoption name Hash value 32".to_owned(),
            "isready".to_owned(),
        ]
    );
    assert!(task.handle_line("readyok", false, &mut chess_match).is_empty());
    assert!(matches!(task.state, EngineState::Idle));

    let mut menu = GameMenuState::default();
    menu.open = false;
    let mut animation = PieceAnimationState::default();
    animation.begin_generation(chess_match.generation, 0);
    let settings = AiSettings::default();
    let commands = task
        .search_commands(&mut chess_match, &menu, &animation, &settings)
        .unwrap();
    let fen = chess_match.game.position().to_fen();
    assert_eq!(
        commands,
        vec![
            "setoption name UCI_Variant value capablanca".to_owned(),
            "setoption name UCI_LimitStrength value true".to_owned(),
            "setoption name Skill Level value 20".to_owned(),
            "setoption name UCI_Elo value 1500".to_owned(),
            "ucinewgame".to_owned(),
            format!("position fen {fen}"),
            "go movetime 650".to_owned(),
        ]
    );
    task.search_started(&mut chess_match, &settings);
    assert_eq!(
        chess_match.status,
        "White Fairy-Stockfish is thinking at level 5…"
    );
    assert!(!task.new_game_pending);

    task.handle_line("info depth 5 score cp 20 nodes 1000", false, &mut chess_match);
    task.handle_line("bestmove e2e4 ponder e7e5", false, &mut chess_match);
    assert!(matches!(task.state, EngineState::Idle));
    assert_eq!(
        chess_match.status,
        "White pawn e2-e4.  Evaluation +0.20, depth 5, 1000 nodes. Game in progress."
    );
}

#[test]
fn an_illegal_engine_move_fails_the_engine() {
    let mut task = AiTask {
        state: EngineState::Searching {
            generation: 0,
            analysis: MoveAnalysis::default(),
        },
        new_game_pending: false,
    };
    let mut chess_match = ChessMatch::default();
    task.handle_line("bestmove a1a8", false, &mut chess_match);
    assert_eq!(
        task.failure().as_deref(),
        Some("Fairy-Stockfish returned illegal move a1a8: illegal move notation: a1a8")
    );
    assert_eq!(
        chess_match.status,
        "Fairy-Stockfish error: illegal move a1a8."
    );
}

#[test]
fn a_stopped_search_waits_for_the_engine() {
    let mut task = AiTask {
        state: EngineState::Searching {
            generation: 0,
            analysis: MoveAnalysis::default(),
        },
        new_game_pending: false,
    };
    assert!(task.cancel());
    let mut chess_match = ChessMatch::default();
    let sent = task.handle_line("bestmove e2e4", false, &mut chess_match);
    assert_eq!(sent, vec!["isready".to_owned()]);
    assert!(matches!(task.state, EngineState::WaitingUntilReady));
    assert_eq!(chess_match.last_move, None);
}

#[test]
fn finishing_a_game_opens_the_hud_once() {
    let mut chess_match = ChessMatch::default();
    let mut hud = HudState::default();
    hud.observe_outcome(chess_match.game.outcome());
    assert!(!hud.expanded);

    let checkmate = Position::from_fen(
        Variant::Capablanca.rules(),
        "k9/1Q8/2K7/10/10/10/10/10 b - - 0 1",
    )
    .expect("test checkmate position is valid");
    chess_match.game = Game::new(checkmate);
    hud.observe_outcome(chess_match.game.outcome());
    assert!(hud.expanded);

    hud.expanded = false;
    hud.observe_outcome(chess_match.game.outcome());
    assert!(!hud.expanded);
}

#[test]
fn a_new_game_keeps_its_explicitly_selected_orientation() {
    assert_eq!(
        generation_camera_action(false, GameMode::Local, false, true, Side::White),
        GenerationCameraAction::Observe
    );
}

#[test]
fn a_local_turn_waits_for_piece_animation_before_rotating() {
    assert_eq!(
        generation_camera_action(false, GameMode::Local, true, false, Side::Black),
        GenerationCameraAction::Wait
    );
    assert_eq!(
        generation_camera_action(false, GameMode::Local, true, true, Side::Black),
        GenerationCameraAction::Orient(Side::Black)
    );
}

#[test]
fn an_ai_game_keeps_the_human_camera_orientation() {
    assert_eq!(
        generation_camera_action(false, GameMode::Ai, true, true, Side::Black),
        GenerationCameraAction::Observe
    );
}

#[test]
fn manual_recenter_targets_the_turn_in_local_and_the_human_in_ai() {
    assert_eq!(
        manual_recenter_side(GameMode::Local, Side::White, Side::Black),
        Side::Black
    );
    assert_eq!(
        manual_recenter_side(GameMode::Ai, Side::White, Side::Black),
        Side::White
    );
}

fn promotion_match() -> ChessMatch {
    let mut chess_match = two_humans();
    let position = Position::from_fen(
        Variant::Capablanca.rules(),
        "9k/P9/10/10/10/10/10/9K w - - 0 1",
    )
    .unwrap();
    chess_match.game = Game::new(position);
    chess_match.handle_square_selection(square("a7"));
    chess_match.handle_square_selection(square("a8"));
    chess_match
}

#[test]
fn a_promotion_is_chosen_by_key() {
    let mut chess_match = promotion_match();
    assert_eq!(chess_match.pending_promotion.as_ref().map(|moves| moves.len()), Some(6));
    assert!(chess_match.status.starts_with("Choose promotion: "));
    assert!(chess_match.status.contains("C chancellor"));

    chess_match.handle_keyboard(false, false, None, true);
    assert!(chess_match.pending_promotion.is_some());
    assert!(chess_match.status.starts_with("Choose promotion: "));

    chess_match.handle_keyboard(false, false, Some(Some(PieceKind::Chancellor)), false);
    assert_eq!(chess_match.pending_promotion.is_none(), true);
    assert_eq!(
        chess_match.status,
        "White pawn a7-a8 promotes to chancellor. Check."
    );
    assert_eq!(chess_match.last_move.unwrap().to_uci(), "a7a8c");
}

#[test]
fn escape_cancels_a_promotion_and_then_the_selection() {
    let mut chess_match = promotion_match();
    chess_match.handle_keyboard(true, true, None, false);
    assert!(chess_match.pending_promotion.is_some());
    chess_match.handle_keyboard(false, true, None, false);
    assert!(chess_match.pending_promotion.is_none());
    assert_eq!(chess_match.status, "Promotion cancelled.");

    chess_match.handle_square_selection(square("a7"));
    assert_eq!(chess_match.selected, Some(square("a7")));
    chess_match.handle_keyboard(false, true, None, false);
    assert_eq!(chess_match.selected, None);
    assert_eq!(chess_match.status, "White to move.");
}

#[test]
fn menu_buttons_record_choices_and_start_games() {
    let mut menu = GameMenuState::default();
    let mut chess_match = ChessMatch::default();
    assert_eq!(start_button_label(&menu), "START GAME");

    let effects = apply_menu_action(
        &mut menu,
        &mut chess_match,
        MultiplayerPhase::Offline,
        MenuAction::Mode(GameMode::Ai),
        0,
    );
    assert_eq!(effects, vec![MenuEffect::WarmUpEngine]);
    assert!(action_selected(MenuAction::Mode(GameMode::Ai), &menu));
    assert!(!action_selected(MenuAction::Start, &menu));

    let effects = apply_menu_action(
        &mut menu,
        &mut chess_match,
        MultiplayerPhase::Offline,
        MenuAction::Variant(Variant::Gothic),
        0,
    );
    assert_eq!(effects, vec![MenuEffect::CancelEngineSearch]);
    assert_eq!(chess_match.variant, Variant::Gothic);
    assert_eq!(chess_match.controllers, [Controller::Human, Controller::Human]);

    apply_menu_action(
        &mut menu,
        &mut chess_match,
        MultiplayerPhase::Offline,
        MenuAction::Side(SideChoice::Random),
        0,
    );
    let effects = apply_menu_action(
        &mut menu,
        &mut chess_match,
        MultiplayerPhase::Offline,
        MenuAction::Start,
        3,
    );
    assert_eq!(
        effects,
        vec![
            MenuEffect::StartNewEngineGame,
            MenuEffect::Multiplayer(MultiplayerCommand::Disconnect),
            MenuEffect::TurnCamera(Side::Black),
        ]
    );
    assert_eq!(chess_match.controllers, [Controller::Computer, Controller::Human]);
    assert!(!menu.open);
    assert_eq!(menu.active_mode, GameMode::Ai);
    assert_eq!(menu.active_side, Side::Black);
    assert_eq!(chess_match.status, "New Gothic Chess game. White to move.");
}

#[test]
fn the_start_button_creates_or_joins_online_games() {
    let mut menu = GameMenuState::default();
    let mut chess_match = ChessMatch::default();
    menu.selected_mode = GameMode::Multiplayer;
    assert_eq!(start_button_label(&menu), "CREATE GAME");
    let effects = apply_menu_action(
        &mut menu,
        &mut chess_match,
        MultiplayerPhase::Offline,
        MenuAction::Start,
        0,
    );
    assert_eq!(
        effects,
        vec![MenuEffect::Multiplayer(MultiplayerCommand::Create {
            variant: Variant::Gothic,
            side: SideChoice::Random,
        })]
    );

    menu.multiplayer_game_id = " abc12 ".to_owned();
    assert_eq!(start_button_label(&menu), "JOIN GAME");
    let effects = apply_menu_action(
        &mut menu,
        &mut chess_match,
        MultiplayerPhase::Error,
        MenuAction::Start,
        0,
    );
    assert_eq!(
        effects,
        vec![MenuEffect::Multiplayer(MultiplayerCommand::Join {
            game_id: "ABC12".to_owned(),
        })]
    );
    let effects = apply_menu_action(
        &mut menu,
        &mut chess_match,
        MultiplayerPhase::Connecting,
        MenuAction::Start,
        0,
    );
    assert!(effects.is_empty());
}

#[test]
fn a_move_sound_never_repeats_when_another_exists() {
    for _ in 0..200 {
        let next = random_clip_index(3, Some(2));
        assert!(next < 3);
        assert_ne!(next, 2);
    }
    assert_eq!(random_clip_index(1, Some(0)), 0);
    assert!(random_clip_index(4, None) < 4);
}

#[test]
fn sides_change_hands_by_key() {
    let mut chess_match = ChessMatch::default();
    chess_match.toggle_controller(true);
    assert_eq!(chess_match.controllers, [Controller::Human, Controller::Human]);
    assert_eq!(chess_match.status, "Black is now controlled by the human.");
    chess_match.toggle_controller(false);
    assert_eq!(chess_match.controllers, [Controller::Computer, Controller::Human]);
    assert_eq!(chess_match.status, "White is now controlled by the computer.");
}

#[test]
fn the_search_depth_stays_within_range() {
    let mut settings = SearchDepth::default();
    let mut chess_match = ChessMatch::default();
    assert!(adjust_search_depth(&mut settings, &mut chess_match, true, false));
    assert_eq!(settings.depth, 4);
    assert_eq!(chess_match.status, "Engine search depth set to 4.");
    assert!(!adjust_search_depth(&mut settings, &mut chess_match, true, true));
    settings.depth = 6;
    assert!(!adjust_search_depth(&mut settings, &mut chess_match, true, false));
    settings.depth = 1;
    assert!(!adjust_search_depth(&mut settings, &mut chess_match, false, true));
    assert_eq!(settings.depth, 1);
}

#[test]
fn the_built_in_engine_takes_its_turn() {
    let mut chess_match =
        ChessMatch::new(Variant::Capablanca, [Controller::Computer, Controller::Human]);
    assert!(chess_match.begin_engine_turn(true, 2).is_none());
    let (position, generation) = chess_match.begin_engine_turn(false, 2).unwrap();
    assert_eq!(chess_match.status, "White computer is thinking at depth 2…");
    let result = Engine::new().search(&position, SearchLimits::depth(2));
    let best = result.as_ref().unwrap().best_move;
    chess_match.finish_engine_turn(generation + 1, result.clone());
    assert_eq!(chess_match.last_move, None);
    chess_match.finish_engine_turn(generation, result);
    assert_eq!(chess_match.last_move, Some(best));
    assert!(chess_match.status.contains("Evaluation"));
    assert!(chess_match.begin_engine_turn(false, 2).is_none());
}

#[test]
fn castling_animates_the_king_and_its_rook() {
    let mut chess_match = two_humans();
    chess_match.game = Game::new(
        Position::from_fen(
            Variant::Embassy.rules(),
            "4k5/10/10/10/10/10/10/R3K4R w KQ - 0 1",
        )
        .unwrap(),
    );
    chess_match.variant = Variant::Embassy;
    chess_match.handle_square_selection(square("e1"));
    chess_match.handle_square_selection(square("b1"));
    assert_eq!(chess_match.status, "White castles queen-side. Game in progress.");
    let king = capablanca_chess_plus::types::Piece::new(Side::White, PieceKind::King);
    let rook = capablanca_chess_plus::types::Piece::new(Side::White, PieceKind::Rook);
    assert_eq!(chess_match.animation_start(square("b1"), king), Some(square("e1")));
    assert_eq!(chess_match.animation_start(square("c1"), rook), Some(square("a1")));
    assert_eq!(chess_match.animation_start(square("j1"), rook), None);
    chess_match.animate_last_move = false;
    assert_eq!(chess_match.animation_start(square("b1"), king), None);
}

#[test]
fn each_move_sounds_once_after_it_lands() {
    let mut chess_match = two_humans();
    let mut animation = PieceAnimationState::default();
    let mut sounds = MoveSoundState::default();
    assert_eq!(sounds.move_sound(&chess_match, &animation, 3), None);

    chess_match.handle_square_selection(square("e2"));
    chess_match.handle_square_selection(square("e4"));
    animation.begin_generation(chess_match.generation, 1);
    assert_eq!(sounds.move_sound(&chess_match, &animation, 3), None);
    animation.mark_move_landed(chess_match.generation);
    let clip = sounds.move_sound(&chess_match, &animation, 3).unwrap();
    assert!(clip < 3);
    assert_eq!(sounds.move_sound(&chess_match, &animation, 3), None);
    assert!(!sounds.keep_current_result(chess_match.generation));
}

#[test]
fn a_checkmate_queues_the_winners_sound() {
    let mut chess_match = two_humans();
    chess_match.game = Game::new(
        Position::from_fen(
            Variant::Capablanca.rules(),
            "k9/10/2K7/10/10/10/10/1Q8 w - - 0 1",
        )
        .unwrap(),
    );
    chess_match.handle_square_selection(square("b1"));
    chess_match.handle_square_selection(square("b7"));
    assert_eq!(
        chess_match.status,
        "White queen b1-b7. Checkmate — White wins."
    );
    let mut animation = PieceAnimationState::default();
    animation.begin_generation(chess_match.generation, 1);
    animation.mark_move_landed(chess_match.generation);
    let mut sounds = MoveSoundState::default();
    assert!(sounds.move_sound(&chess_match, &animation, 1).is_some());
    assert!(sounds.keep_current_result(chess_match.generation));
    assert_eq!(sounds.take_result(), Some(ResultSound::Victory));
    assert_eq!(sounds.take_result(), None);

    sounds.pending_result = Some((chess_match.generation + 1, ResultSound::Defeat));
    assert!(!sounds.keep_current_result(chess_match.generation));
    assert_eq!(sounds.take_result(), None);
}

#[test]
fn fullscreen_button_toggles_borderless_mode() {
    let fullscreen = toggled_window_mode(ScreenMode::Windowed);
    assert!(matches!(fullscreen, ScreenMode::BorderlessFullscreen));
    assert!(matches!(toggled_window_mode(fullscreen), ScreenMode::Windowed));
    assert!(matches!(
        toggled_window_mode(ScreenMode::Fullscreen),
        ScreenMode::Windowed
    ));
}

#[test]
fn fullscreen_icon_corners_turn_inward_when_active() {
    let expanded = fullscreen_corner_border(true, true, false);
    assert_eq!(expanded.left, 2);
    assert_eq!(expanded.top, 2);
    assert_eq!(expanded.right, 0);
    assert_eq!(expanded.bottom, 0);

    let collapsed = fullscreen_corner_border(true, true, true);
    assert_eq!(collapsed.left, 0);
    assert_eq!(collapsed.top, 0);
    assert_eq!(collapsed.right, 2);
    assert_eq!(collapsed.bottom, 2);
}

#[test]
fn a_draw_picks_each_other_clip_once() {
    let picks: Vec<usize> = (0..3).map(|draw| clip_after_draw(4, Some(1), draw)).collect();
    assert_eq!(picks, vec![2, 3, 0]);
    assert_eq!(clip_after_draw(4, Some(1), 3), 2);
    assert_eq!(clip_after_draw(4, None, 6), 2);
    assert_eq!(clip_after_draw(1, Some(0), 5), 0);
}

#[test]
fn only_the_lowest_mate_score_is_refused() {
    assert!(mates_fit("info depth 3 score mate -3"));
    assert!(!mates_fit("info score mate -2147483648 nodes 5"));
    assert!(mates_fit("info score cp -2147483648"));
    assert!(mates_fit("info depth score mate -2147483648"));
}
