use capablanca_chess_plus::hub::{connection_replaced_message, opponent_left_message, ConnectionHub};
use capablanca_chess_plus::protocol::{ServerMessage, Side, SidePreference, SyncReason, Variant};
use capablanca_chess_plus::server::{
    side_from_draw,
    authenticate, authenticate_as, check_move_text, claim_side, decide_move, game_id_from_bytes,
    generate_game_id, generate_token, handshake_error, hash_token, normalize_game_id, parse_variant,
    ready_game, replay_game, repository_error_reply, revision_to_u64, side_for_preference,
    token_from_uuids, variant_name, verify_revision, MoveResult, RepositoryError, StoredRoom,
};
use capablanca_chess_plus::types::Color;

const ALPHABET: &str = "23456789ABCDEFGHJKLMNPQRSTUVWXYZ";

fn history(moves: &[&str]) -> Vec<String> {
    moves.iter().map(|value| value.to_string()).collect()
}

fn room(revision: i64, white: Option<&str>, black: Option<&str>) -> StoredRoom {
    StoredRoom {
        game_id: "ROOM42".to_owned(),
        variant: "gothic".to_owned(),
        white_token_hash: white.map(hash_token),
        black_token_hash: black.map(hash_token),
        revision,
    }
}

fn client_code(error: &RepositoryError) -> String {
    match error {
        RepositoryError::Client { code, .. } => code.clone(),
        other => panic!("expected a client error, got {other:?}"),
    }
}

fn corrupt_detail(error: &RepositoryError) -> String {
    match error {
        RepositoryError::Corrupt { detail, .. } => detail.clone(),
        other => panic!("expected a corrupt error, got {other:?}"),
    }
}

#[test]
fn generated_ids_are_short_unambiguous_codes() {
    for _ in 0..32 {
        let id = generate_game_id();
        assert_eq!(id.len(), 10);
        assert!(id.bytes().all(|byte| ALPHABET.as_bytes().contains(&byte)));
    }
}

#[test]
fn token_hash_does_not_reveal_the_token() {
    let token = generate_token();
    let hash = hash_token(&token);
    assert_eq!(hash.len(), 32);
    assert_ne!(hash, token.as_bytes());
}

#[test]
fn stored_history_is_revalidated_by_the_shared_engine() {
    let game = replay_game(Variant::Gothic, &history(&["a2a3", "a7a6"]), "TESTROOM").unwrap();
    assert_eq!(game.position().side_to_move(), Color::White);

    let error = replay_game(Variant::Gothic, &history(&["a2a5"]), "TESTROOM").unwrap_err();
    assert!(matches!(error, RepositoryError::Corrupt { .. }));
}

#[test]
fn replay_names_the_first_bad_move() {
    let error = replay_game(Variant::Capablanca, &history(&["a2a3", "a2a4", "b2b3"]), "ROOM").unwrap_err();
    assert_eq!(
        error,
        RepositoryError::Corrupt {
            game_id: "ROOM".to_owned(),
            detail: "move 2 (a2a4) cannot be parsed: illegal move notation: a2a4".to_owned(),
        }
    );
}

#[test]
fn sha256_of_a_known_text() {
    let expected = [
        0xba, 0x78, 0x16, 0xbf, 0x8f, 0x01, 0xcf, 0xea, 0x41, 0x41, 0x40, 0xde, 0x5d, 0xae, 0x22, 0x23,
        0xb0, 0x03, 0x61, 0xa3, 0x96, 0x17, 0x7a, 0x9c, 0xb4, 0x10, 0xff, 0x61, 0xf2, 0x00, 0x15, 0xad,
    ];
    assert_eq!(hash_token("abc"), expected.to_vec());
}

#[test]
fn game_ids_map_bytes_through_the_alphabet() {
    let mut bytes = [0u8; 16];
    for (index, byte) in bytes.iter_mut().enumerate() {
        *byte = (index as u8) * 7 + 30;
    }
    let id = game_id_from_bytes(bytes);
    let expected: String = bytes[..10]
        .iter()
        .map(|byte| ALPHABET.as_bytes()[usize::from(*byte) % 32] as char)
        .collect();
    assert_eq!(id, expected);
    assert_eq!(normalize_game_id(&id).unwrap(), id);
}

#[test]
fn tokens_are_two_uuids_in_lowercase_hex() {
    let mut first = [0u8; 16];
    first[0] = 0xab;
    first[15] = 0x01;
    let second = [0xffu8; 16];
    let token = token_from_uuids(first, second);
    assert_eq!(token.len(), 64);
    assert!(token.starts_with("ab000000"));
    assert_eq!(&token[24..32], "00000001");
    assert_eq!(&token[32..], "f".repeat(32));
    let fresh = generate_token();
    assert_eq!(fresh.len(), 64);
    assert!(fresh.chars().all(|c| c.is_ascii_digit() || ('a'..='f').contains(&c)));
}

#[test]
fn preferences_choose_the_creator_side() {
    assert_eq!(side_for_preference(SidePreference::White, 1), Side::White);
    assert_eq!(side_for_preference(SidePreference::Black, 0), Side::Black);
    assert_eq!(side_for_preference(SidePreference::Random, 2), Side::White);
    assert_eq!(side_for_preference(SidePreference::Random, 3), Side::Black);
}

#[test]
fn game_ids_are_trimmed_upper_cased_and_checked() {
    assert_eq!(normalize_game_id("  ab12cd ").unwrap(), "AB12CD");
    assert_eq!(normalize_game_id("XYZ789XYZ789").unwrap(), "XYZ789XYZ789");
    for bad in ["", "   ", "ab-12", "ABCDEFGHIJKLM", "é1"] {
        let error = normalize_game_id(bad).unwrap_err();
        assert_eq!(
            error,
            RepositoryError::Client {
                code: "invalid_game_id".to_owned(),
                message: "Malformed game id.".to_owned(),
            }
        );
    }
}

#[test]
fn revisions_must_count_the_stored_moves() {
    assert_eq!(revision_to_u64(3, "ROOM").unwrap(), 3);
    let negative = revision_to_u64(-5, "ROOM").unwrap_err();
    assert_eq!(corrupt_detail(&negative), "negative revision -5");
    let lowest = revision_to_u64(i64::MIN, "ROOM").unwrap_err();
    assert_eq!(corrupt_detail(&lowest), "negative revision -9223372036854775808");

    assert!(verify_revision(&room(2, None, None), &history(&["a2a3", "a7a6"])).is_ok());
    let mismatch = verify_revision(&room(3, None, None), &history(&["a2a3"])).unwrap_err();
    assert_eq!(corrupt_detail(&mismatch), "revision 3 does not match 1 stored moves");
}

#[test]
fn variant_names_round_trip() {
    for variant in [
        Variant::Capablanca,
        Variant::Gothic,
        Variant::Embassy,
        Variant::Schoolbook,
        Variant::Bird,
        Variant::Carrera,
        Variant::Grand,
    ] {
        assert_eq!(parse_variant(variant_name(variant), "ROOM").unwrap(), variant);
    }
    let unknown = parse_variant("chess960", "ROOM").unwrap_err();
    assert_eq!(corrupt_detail(&unknown), "unknown variant \"chess960\"");
}

#[test]
fn tokens_authenticate_only_their_own_side() {
    let stored = room(0, Some("white-token"), Some("black-token"));
    assert_eq!(authenticate(&stored, "white-token").unwrap(), Side::White);
    assert_eq!(authenticate(&stored, "black-token").unwrap(), Side::Black);
    assert_eq!(client_code(&authenticate(&stored, "other").unwrap_err()), "invalid_player_token");
    assert!(authenticate_as(&stored, Side::White, "white-token").is_ok());
    let wrong = authenticate_as(&stored, Side::Black, "white-token").unwrap_err();
    assert_eq!(
        wrong,
        RepositoryError::Client {
            code: "invalid_player_token".to_owned(),
            message: "The token does not own this color.".to_owned(),
        }
    );
    let same = room(0, Some("shared"), Some("shared"));
    assert!(authenticate(&same, "shared").is_err());
}

#[test]
fn newcomers_take_the_free_side() {
    assert_eq!(claim_side(&room(0, None, Some("b"))).unwrap(), Side::White);
    assert_eq!(claim_side(&room(0, Some("w"), None)).unwrap(), Side::Black);
    assert_eq!(client_code(&claim_side(&room(0, Some("w"), Some("b"))).unwrap_err()), "game_full");
    assert_eq!(
        corrupt_detail(&claim_side(&room(0, None, None)).unwrap_err()),
        "neither player slot is claimed"
    );
}

#[test]
fn joined_games_carry_the_stored_state() {
    let ready = ready_game(&room(1, Some("w"), None), Side::Black, "t".to_owned(), history(&["a2a3"])).unwrap();
    assert_eq!(ready.auth.game_id, "ROOM42");
    assert_eq!(ready.auth.side, Side::Black);
    assert_eq!(ready.variant, Variant::Gothic);
    assert_eq!(ready.revision, 1);
    assert_eq!(ready.history, history(&["a2a3"]));
    let mut bad_variant = room(0, None, None);
    bad_variant.variant = "atomic".to_owned();
    assert!(ready_game(&bad_variant, Side::White, "t".to_owned(), Vec::new()).is_err());
}

#[test]
fn move_texts_are_short_ascii() {
    assert!(check_move_text("a2a4").is_ok());
    assert!(check_move_text("a10a11qx").is_ok());
    for bad in ["", "a2a4a2a4a", "a2é4"] {
        assert_eq!(client_code(&check_move_text(bad).unwrap_err()), "invalid_move");
    }
}

#[test]
fn move_requests_are_decided_against_the_stored_game() {
    let two = history(&["a2a3", "a7a6"]);
    let stored = room(2, Some("w"), Some("b"));

    match decide_move(&stored, &two, Side::White, 1, "b2b3").unwrap() {
        MoveResult::Sync { revision, history: h, reason } => {
            assert_eq!(revision, 2);
            assert_eq!(h, two);
            assert_eq!(reason, SyncReason::RevisionMismatch);
        }
        other => panic!("expected a sync, got {other:?}"),
    }

    assert_eq!(
        decide_move(&stored, &two, Side::White, 2, " B2B3 ").unwrap(),
        MoveResult::Accepted { revision: 3, uci: "b2b3".to_owned() }
    );
    assert_eq!(client_code(&decide_move(&stored, &two, Side::Black, 2, "b7b6").unwrap_err()), "not_your_turn");
    assert_eq!(client_code(&decide_move(&stored, &two, Side::White, 2, "b2b5").unwrap_err()), "illegal_move");

    let broken = history(&["a2a3", "a2a3"]);
    let error = decide_move(&stored, &broken, Side::White, 2, "b2b3").unwrap_err();
    assert_eq!(corrupt_detail(&error), "move 2 (a2a3) cannot be parsed: illegal move notation: a2a3");

    let fresh = room(0, Some("w"), None);
    assert_eq!(
        decide_move(&fresh, &Vec::new(), Side::White, 0, "a2a3").unwrap(),
        MoveResult::Accepted { revision: 1, uci: "a2a3".to_owned() }
    );
}

#[test]
fn handshakes_check_protocol_and_state() {
    assert!(handshake_error(1, false).is_none());
    assert_eq!(
        handshake_error(2, false),
        Some(ServerMessage::Error {
            code: "protocol_mismatch".to_owned(),
            message: "Client and server protocol versions do not match.".to_owned(),
        })
    );
    assert_eq!(
        handshake_error(1, true),
        Some(ServerMessage::Error {
            code: "already_authenticated".to_owned(),
            message: "This WebSocket already belongs to a game.".to_owned(),
        })
    );
}

#[test]
fn only_client_errors_are_shown_to_players() {
    let client = RepositoryError::Client { code: "game_full".to_owned(), message: "Full.".to_owned() };
    assert_eq!(
        repository_error_reply(&client),
        ServerMessage::Error { code: "game_full".to_owned(), message: "Full.".to_owned() }
    );
    for internal in [
        RepositoryError::Database { detail: "connection refused".to_owned() },
        RepositoryError::Corrupt { game_id: "ROOM".to_owned(), detail: "bad".to_owned() },
    ] {
        assert_eq!(
            repository_error_reply(&internal),
            ServerMessage::Error {
                code: "server_error".to_owned(),
                message: "The server could not process the request.".to_owned(),
            }
        );
    }
}

#[test]
fn reconnect_replaces_only_the_same_color_connection() {
    let mut hub = ConnectionHub::new();
    let first_id = 11u128;
    let second_id = 12u128;
    let first = hub.register("ROOM", Side::White, first_id);
    assert!(!first.opponent_connected);
    assert_eq!(first.replaced, None);
    let second = hub.register("ROOM", Side::White, second_id);
    assert!(!second.opponent_connected);
    assert_eq!(second.replaced, Some(first_id));
    assert!(matches!(
        connection_replaced_message(),
        ServerMessage::Error { code, .. } if code == "connection_replaced"
    ));

    // The stale socket must not remove its replacement while shutting down.
    assert_eq!(hub.unregister("ROOM", Side::White, first_id), None);
    assert_eq!(hub.connection("ROOM", Side::White), Some(second_id));
    let black = hub.register("ROOM", Side::Black, 13);
    assert!(black.opponent_connected);
}

#[test]
fn disconnect_notifies_the_opponent() {
    let mut hub = ConnectionHub::new();
    hub.register("ROOM", Side::White, 1);
    hub.register("ROOM", Side::Black, 2);
    assert_eq!(hub.unregister("ROOM", Side::Black, 2), Some(1));
    assert_eq!(opponent_left_message(), ServerMessage::OpponentConnection { connected: false });
    assert_eq!(hub.connection("ROOM", Side::Black), None);
    let mut members = hub.members("ROOM");
    members.sort();
    assert_eq!(members, vec![1]);
    assert_eq!(hub.unregister("ROOM", Side::White, 1), None);
    assert!(hub.members("ROOM").is_empty());
}

#[test]
fn rooms_are_kept_apart() {
    let mut hub = ConnectionHub::new();
    hub.register("ONE", Side::White, 1);
    let other = hub.register("TWO", Side::Black, 2);
    assert!(!other.opponent_connected);
    assert_eq!(hub.members("ONE"), vec![1]);
    assert_eq!(hub.members("TWO"), vec![2]);
}

#[test]
fn a_random_side_follows_the_first_drawn_byte() {
    let mut draw = [0u8; 16];
    assert_eq!(side_from_draw(SidePreference::Random, draw), Side::White);
    draw[0] = 7;
    assert_eq!(side_from_draw(SidePreference::Random, draw), Side::Black);
    assert_eq!(side_from_draw(SidePreference::White, draw), Side::White);
    draw[0] = 8;
    assert_eq!(side_from_draw(SidePreference::Black, draw), Side::Black);
}
