use capablanca_chess_plus::client::{
    controllers_for, describe_move, difficulty_description, fairy_variant, hud_text,
    normalize_game_id_input, outcome_message, promotion_options, promotion_prompt, result_sound,
    room_status, starting_camera_side, variant_from_wire, variant_to_wire, AiSettings, Controller,
    DifficultyProfile, GameMenuState, GameMode, ResultSound, SideChoice, MAX_DIFFICULTY,
    MIN_DIFFICULTY,
};
use capablanca_chess_plus::game::{DrawReason, GameOutcome};
use capablanca_chess_plus::mv::{CastleSide, Move, MoveKind};
use capablanca_chess_plus::server::normalize_game_id;
use capablanca_chess_plus::types::{Color as Side, Piece, PieceKind, Square};
use capablanca_chess_plus::variant::Variant;

const ALL_VARIANTS: [Variant; 7] = [
    Variant::Capablanca,
    Variant::Gothic,
    Variant::Embassy,
    Variant::Schoolbook,
    Variant::Bird,
    Variant::Carrera,
    Variant::Grand,
];

#[test]
fn menu_defaults_match_product_defaults() {
    let menu = GameMenuState::default();
    assert_eq!(menu.selected_mode, GameMode::Local);
    assert_eq!(menu.selected_variant, Variant::Gothic);
    assert_eq!(menu.selected_side, SideChoice::Random);
}

#[test]
fn ai_assigns_exactly_one_human_controller() {
    assert_eq!(
        controllers_for(GameMode::Ai, Side::White),
        [Controller::Human, Controller::Computer]
    );
    assert_eq!(
        controllers_for(GameMode::Ai, Side::Black),
        [Controller::Computer, Controller::Human]
    );
}

#[test]
fn local_always_starts_from_the_white_side() {
    for choice in [SideChoice::Random, SideChoice::White, SideChoice::Black] {
        assert_eq!(
            starting_camera_side(GameMode::Local, choice, 1),
            Side::White
        );
    }
}

#[test]
fn ai_starting_side_respects_the_players_choice() {
    assert_eq!(
        starting_camera_side(GameMode::Ai, SideChoice::White, 1),
        Side::White
    );
    assert_eq!(
        starting_camera_side(GameMode::Ai, SideChoice::Black, 0),
        Side::Black
    );
}

#[test]
fn browser_game_id_input_is_sanitized_and_uppercase() {
    assert_eq!(
        normalize_game_id_input(" ab-c23_deF456789 "),
        "ABC23DEF4567"
    );
}

#[test]
fn sanitized_input_is_accepted_by_the_server() {
    for value in [" ab-c23_deF456789 ", "room 7", "x"] {
        let id = normalize_game_id_input(value);
        assert_eq!(normalize_game_id(&id).unwrap(), id);
    }
    assert_eq!(normalize_game_id_input("--- ..."), "");
}

#[test]
fn multiplayer_controls_the_other_side_remotely() {
    assert_eq!(
        controllers_for(GameMode::Multiplayer, Side::Black),
        [Controller::Remote, Controller::Human]
    );
    assert_eq!(
        controllers_for(GameMode::Local, Side::Black),
        [Controller::Human, Controller::Human]
    );
    assert_eq!(starting_camera_side(GameMode::Multiplayer, SideChoice::Random, 3), Side::Black);
    assert_eq!(starting_camera_side(GameMode::Multiplayer, SideChoice::Random, 4), Side::White);
}

fn prompt_moves() -> [Move; 3] {
    let from = Square::new(0, 6);
    let to = Square::new(0, 7);
    [
        Move::promotion(from, to, PieceKind::Queen),
        Move::promotion(from, to, PieceKind::Chancellor),
        Move::promotion(from, to, PieceKind::Archbishop),
    ]
}

#[test]
fn game_promotion_prompt_exposes_compound_piece_keys() {
    let moves = prompt_moves();
    let prompt = promotion_prompt(&moves);
    assert!(prompt.contains("Q queen"));
    assert!(prompt.contains("C chancellor"));
    assert!(prompt.contains("A archbishop"));
}

#[test]
fn main_promotion_prompt_exposes_compound_piece_keys() {
    let moves = prompt_moves();
    let prompt = promotion_prompt(&moves);
    assert!(prompt.contains("Q queen"));
    assert!(prompt.contains("C chancellor"));
    assert!(prompt.contains("A archbishop"));
}

#[test]
fn promotion_prompt_lists_each_choice_once() {
    let from = Square::new(0, 7);
    let to = Square::new(0, 8);
    let moves = [
        Move::normal(from, to),
        Move::promotion(from, to, PieceKind::Queen),
        Move::promotion(from, to, PieceKind::Queen),
        Move::promotion(from, to, PieceKind::Knight),
    ];
    assert_eq!(
        promotion_prompt(&moves),
        "Choose promotion: Space no promotion, Q queen, N knight."
    );
    assert_eq!(promotion_prompt(&[]), "Choose promotion: .");
}

#[test]
fn active_game_hud_contains_only_its_mode() {
    assert_eq!(
        hud_text("Gothic Chess", GameMode::Local, GameOutcome::Ongoing),
        "Gothic Chess\nLocal · two players"
    );
    assert_eq!(
        hud_text("Capablanca Chess", GameMode::Ai, GameOutcome::Check),
        "Capablanca Chess\nAI · versus computer"
    );
}

#[test]
fn finished_game_hud_adds_the_result() {
    assert_eq!(
        hud_text(
            "Gothic Chess",
            GameMode::Ai,
            GameOutcome::Win {
                winner: Side::White
            },
        ),
        "Gothic Chess\nAI · versus computer\n\nCheckmate — White wins."
    );
    assert_eq!(
        hud_text(
            "Capablanca Chess",
            GameMode::Local,
            GameOutcome::Draw(DrawReason::Stalemate),
        ),
        "Capablanca Chess\nLocal · two players\n\nDraw by stalemate."
    );
}

#[test]
fn multiplayer_hud_keeps_the_public_game_id_in_its_separate_copy_row() {
    assert_eq!(
        hud_text("Gothic Chess", GameMode::Multiplayer, GameOutcome::Ongoing,),
        "Gothic Chess\nMultiplayer · online"
    );
}

#[test]
fn outcome_messages_name_the_result() {
    assert_eq!(outcome_message(GameOutcome::Ongoing), "Game in progress.");
    assert_eq!(outcome_message(GameOutcome::Check), "Check.");
    assert_eq!(
        outcome_message(GameOutcome::Win { winner: Side::Black }),
        "Checkmate — Black wins."
    );
    assert_eq!(
        outcome_message(GameOutcome::Draw(DrawReason::FiftyMoveRule)),
        "Draw by the fifty-move rule."
    );
    assert_eq!(
        outcome_message(GameOutcome::Draw(DrawReason::ThreefoldRepetition)),
        "Draw by threefold repetition."
    );
}

#[test]
fn ai_result_is_judged_from_the_human_side() {
    let controllers = [Controller::Computer, Controller::Human];
    assert_eq!(
        result_sound(
            GameOutcome::Win {
                winner: Side::Black,
            },
            controllers,
        ),
        Some(ResultSound::Victory)
    );
    assert_eq!(
        result_sound(
            GameOutcome::Win {
                winner: Side::White,
            },
            controllers,
        ),
        Some(ResultSound::Defeat)
    );
}

#[test]
fn local_win_is_a_victory_and_every_draw_is_a_defeat() {
    let controllers = [Controller::Human, Controller::Human];
    assert_eq!(
        result_sound(
            GameOutcome::Win {
                winner: Side::White,
            },
            controllers,
        ),
        Some(ResultSound::Victory)
    );
    assert_eq!(
        result_sound(GameOutcome::Draw(DrawReason::Stalemate), controllers,),
        Some(ResultSound::Defeat)
    );
    assert_eq!(result_sound(GameOutcome::Check, controllers), None);
}

#[test]
fn promotion_options_are_unique_and_keep_grand_no_promotion() {
    let from = Square::new(0, 7);
    let to = Square::new(0, 8);
    let moves = [
        Move::normal(from, to),
        Move::promotion(from, to, PieceKind::Queen),
        Move::promotion(from, to, PieceKind::Queen),
        Move::promotion(from, to, PieceKind::Chancellor),
    ];

    assert_eq!(
        promotion_options(&moves),
        vec![None, Some(PieceKind::Queen), Some(PieceKind::Chancellor)]
    );
}

#[test]
fn difficulty_is_clamped_and_maximum_is_unlimited() {
    assert_eq!(DifficultyProfile::new(0).level, MIN_DIFFICULTY);
    assert_eq!(DifficultyProfile::new(5).elo, Some(1500));
    assert_eq!(DifficultyProfile::new(99).level, MAX_DIFFICULTY);
    assert_eq!(DifficultyProfile::new(MAX_DIFFICULTY).elo, None);
}

#[test]
fn difficulty_levels_describe_their_strength() {
    assert_eq!(difficulty_description(5), "Level 5 · ~1500 Elo");
    assert_eq!(difficulty_description(0), "Level 1 · ~500 Elo");
    assert_eq!(difficulty_description(200), "Level 10 · Maximum");
    assert_eq!(DifficultyProfile::new(3).move_time_ms, 300);
    let mut settings = AiSettings::default();
    assert_eq!(settings.difficulty(), 5);
    settings.set_difficulty(42);
    assert_eq!(settings.difficulty(), MAX_DIFFICULTY);
    settings.set_difficulty(0);
    assert_eq!(settings.difficulty(), MIN_DIFFICULTY);
}

#[test]
fn all_frontend_variants_have_a_fairy_stockfish_name() {
    assert_eq!(
        ALL_VARIANTS.map(fairy_variant),
        [
            "capablanca",
            "gothic",
            "embassy",
            "ccp_schoolbook",
            "ccp_bird",
            "ccp_carrera",
            "grand",
        ]
    );
}

#[test]
fn moves_are_described_for_the_status_line() {
    let knight = Piece::new(Side::White, PieceKind::Knight);
    let quiet = Move::normal(Square::new(1, 0), Square::new(2, 2));
    assert_eq!(describe_move(knight, quiet, false), "White knight b1-c3");
    let pawn = Piece::new(Side::Black, PieceKind::Pawn);
    let promote = Move::promotion(Square::new(0, 1), Square::new(1, 0), PieceKind::Chancellor);
    assert_eq!(describe_move(pawn, promote, true), "Black pawn a2xb1 promotes to chancellor");
    let king = Piece::new(Side::White, PieceKind::King);
    let castle = Move {
        from: Square::new(5, 0),
        to: Square::new(2, 0),
        promotion: None,
        kind: MoveKind::Castle(CastleSide::QueenSide),
    };
    assert_eq!(describe_move(king, castle, false), "White castles queen-side");
}

#[test]
fn room_status_reports_the_opponent() {
    assert_eq!(room_status("ABC123", true), "Game ABC123 · opponent connected");
    assert_eq!(room_status("ABC123", false), "Game ABC123 · waiting for opponent");
}

#[test]
fn variants_cross_the_wire_unchanged() {
    for variant in ALL_VARIANTS {
        assert_eq!(variant_from_wire(variant_to_wire(variant)), variant);
    }
}
