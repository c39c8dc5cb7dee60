use capablanca_chess_plus::board::{Board, BoardError, BoardSize};
use capablanca_chess_plus::fen::FenError;
use capablanca_chess_plus::game::{DrawReason, Game, GameOutcome};
use capablanca_chess_plus::legal::MoveError;
use capablanca_chess_plus::mv::{Move, MoveKind};
use capablanca_chess_plus::position::Position;
use capablanca_chess_plus::rules::{RuleError, VariantRules};
use capablanca_chess_plus::search::{evaluate, move_priority, Engine, SearchLimits, CHECKMATE_SCORE};
use capablanca_chess_plus::types::PieceKind::{Archbishop, Bishop, Chancellor, King, Knight, Pawn, Queen, Rook};
use capablanca_chess_plus::types::{Color, Piece, PieceKind, Square};
use capablanca_chess_plus::variant::Variant;

const ALL_VARIANTS: [Variant; 7] = [
    Variant::Capablanca,
    Variant::Gothic,
    Variant::Embassy,
    Variant::Schoolbook,
    Variant::Bird,
    Variant::Carrera,
    Variant::Grand,
];

fn sample_positions() -> Vec<Position> {
    let mut positions: Vec<Position> = ALL_VARIANTS.iter().map(|v| v.starting_position()).collect();
    let mut game = Game::new(Variant::Capablanca.starting_position());
    for uci in ["e2e4", "d7d5", "e4d5", "c8g4", "i1h3"] {
        game.play_uci(uci).unwrap();
    }
    positions.push(game.position().clone());
    positions.push(
        Position::from_fen(Variant::Capablanca.rules(), "r4k3r/10/10/3pP5/10/10/10/R4K3R w KQkq d6 0 1").unwrap(),
    );
    positions.push(Position::from_fen(Variant::Capablanca.rules(), "9k/P9/10/10/10/10/10/9K w - - 0 1").unwrap());
    positions
}

#[test]
fn legal_moves_never_leave_the_mover_in_check() {
    for position in sample_positions() {
        let mover = position.side_to_move();
        for chess_move in position.legal_moves() {
            let next = position.after_move(chess_move).unwrap();
            assert!(!next.is_in_check(mover), "{}", chess_move.to_uci());
        }
    }
}

#[test]
fn coordinate_notation_reads_back_every_legal_move() {
    for position in sample_positions() {
        for chess_move in position.legal_moves() {
            let text = chess_move.to_uci();
            assert_eq!(position.parse_uci_move(&text).unwrap(), chess_move);
            assert_eq!(position.parse_uci_move(&text.to_uppercase()).unwrap(), chess_move);
        }
    }
}

#[test]
fn shallow_counts_are_one_and_the_legal_moves() {
    for position in sample_positions() {
        assert_eq!(position.perft(0), 1);
        assert_eq!(position.perft(1), position.legal_moves().len() as u64);
    }
}

#[test]
fn fen_reads_back_what_it_writes() {
    for position in sample_positions() {
        let fen = position.to_fen();
        let again = Position::from_fen(position.rules().clone(), &fen).unwrap();
        assert_eq!(again, position, "{fen}");
        assert_eq!(again.to_fen(), fen);
    }
}

#[test]
fn checkmate_and_stalemate_exclude_each_other() {
    let mate = Position::from_fen(Variant::Capablanca.rules(), "k9/1Q8/2K7/10/10/10/10/10 b - - 0 1").unwrap();
    assert!(mate.is_checkmate() && !mate.is_stalemate());
    let stale = Position::from_fen(Variant::Capablanca.rules(), "k9/2Q7/2K7/10/10/10/10/10 b - - 0 1").unwrap();
    assert!(stale.is_stalemate() && !stale.is_checkmate());
    assert_eq!(Game::new(stale).outcome(), GameOutcome::Draw(DrawReason::Stalemate));
}

#[test]
fn search_finds_a_mate_in_one() {
    let position = Position::from_fen(Variant::Capablanca.rules(), "k9/2Q7/2K7/10/10/10/10/10 w - - 0 1").unwrap();
    let result = Engine::new().search(&position, SearchLimits::depth(1)).unwrap();
    assert_eq!(result.best_move.to_uci(), "c7b7");
    assert_eq!(result.score, CHECKMATE_SCORE - 1);
    assert_eq!(result.principal_variation, vec![result.best_move]);
    assert_eq!(result.depth, 1);
}

#[test]
fn search_depth_is_at_least_one_and_budgets_are_kept() {
    let position = Variant::Grand.starting_position();
    let result = Engine::new().search(&position, SearchLimits::depth(0)).unwrap();
    assert_eq!(result.depth, 1);
    assert_eq!(result.nodes, position.legal_moves().len() as u64);
    let limited = Engine::new()
        .search(&position, SearchLimits::depth(3).with_node_limit(10))
        .unwrap();
    assert!(limited.nodes >= 1);
    assert!(position.legal_moves().contains(&limited.best_move));
    assert_eq!(SearchLimits::default(), SearchLimits::depth(4));
    let mate = Position::from_fen(Variant::Capablanca.rules(), "k9/1Q8/2K7/10/10/10/10/10 b - - 0 1").unwrap();
    assert!(Engine::new().search(&mate, SearchLimits::default()).is_none());
}

#[test]
fn one_ply_search_scores_the_best_reply() {
    let position = Variant::Gothic.starting_position();
    let result = Engine::new().search(&position, SearchLimits::depth(1)).unwrap();
    let best = position
        .legal_moves()
        .into_iter()
        .map(|m| -evaluate(&position.after_move(m).unwrap()))
        .max()
        .unwrap();
    assert_eq!(result.score, best);
    assert_eq!(-evaluate(&position.after_move(result.best_move).unwrap()), best);
}

#[test]
fn evaluation_counts_material_and_centralisation() {
    let start = Variant::Capablanca.starting_position();
    assert_eq!(evaluate(&start), 0);
    let knight = Position::from_fen(Variant::Capablanca.rules(), "k9/10/10/10/4N5/10/10/9K w - - 0 1").unwrap();
    assert_eq!(evaluate(&knight), 332);
    let black_to_move = Position::from_fen(Variant::Capablanca.rules(), "k9/10/10/10/4N5/10/10/9K b - - 0 1").unwrap();
    assert_eq!(evaluate(&black_to_move), -332);
}

#[test]
fn captures_of_valuable_pieces_are_tried_first() {
    let position = Position::from_fen(Variant::Capablanca.rules(), "k9/10/10/10/4q5/3P6/10/9K w - - 0 1").unwrap();
    let capture = position.parse_uci_move("d3e4").unwrap();
    assert_eq!(move_priority(&position, capture), 1000 * 10 - 100);
    let push = position.parse_uci_move("d3d4").unwrap();
    assert_eq!(move_priority(&position, push), -100);
}

#[test]
fn illegal_moves_and_notation_are_refused() {
    let mut position = Variant::Capablanca.starting_position();
    let bad = Move::normal(Square::new(0, 1), Square::new(0, 4));
    assert_eq!(position.after_move(bad), Err(MoveError::IllegalMove(bad)));
    assert_eq!(position.play(bad), Err(MoveError::IllegalMove(bad)));
    assert_eq!(MoveError::IllegalMove(bad).message(), "illegal move: a2a5");
    let error = position.play_uci("z9z9").unwrap_err();
    assert_eq!(error, MoveError::IllegalNotation("z9z9".to_owned()));
    assert_eq!(error.message(), "illegal move notation: z9z9");
    assert_eq!(position, Variant::Capablanca.starting_position());
}

#[test]
fn every_fen_error_is_reported() {
    let rules = || Variant::Capablanca.rules();
    let cases: Vec<(&str, FenError)> = vec![
        ("5k4/10/10/10/10/10/10/5K4 w - - 0", FenError::FieldCount(5)),
        ("5k4/10/10/10/10/10/5K4 w - - 0 1", FenError::RankCount(7)),
        ("5k5/10/10/10/10/10/10/5K4 w - - 0 1", FenError::InvalidPlacement("5k5".to_owned())),
        ("5k3x/10/10/10/10/10/10/5K4 w - - 0 1", FenError::UnknownPiece('x')),
        (
            "10/10/10/10/10/10/10/5K4 w - - 0 1",
            FenError::KingCount { color: Color::Black, count: 0 },
        ),
        ("5k4/10/10/10/10/10/10/5K4 x - - 0 1", FenError::InvalidSide("x".to_owned())),
        ("5k4/10/10/10/10/10/10/5K4 w KQ - 0 1", FenError::InvalidCastling("KQ".to_owned())),
        ("5k4/10/10/10/10/10/10/5K4 w - z9 0 1", FenError::InvalidEnPassant("z9".to_owned())),
        ("5k4/10/10/10/10/10/10/5K4 w - - x 1", FenError::InvalidClock("x".to_owned())),
    ];
    for (fen, expected) in cases {
        assert_eq!(Position::from_fen(rules(), fen), Err(expected), "{fen}");
    }
}

#[test]
fn boards_keep_what_is_set_on_them() {
    assert_eq!(BoardSize::new(0, 8), Err(BoardError::InvalidSize { files: 0, ranks: 8 }));
    let size = BoardSize::new(10, 8).unwrap();
    let mut board = Board::empty(size);
    let queen = Some(Piece::new(Color::White, PieceKind::Queen));
    assert_eq!(board.set_piece(Square::new(3, 3), queen), Ok(None));
    assert_eq!(board.piece_at(Square::new(3, 3)), queen);
    assert_eq!(board.piece_at(Square::new(3, 4)), None);
    assert_eq!(
        board.set_piece(Square::new(3, 8), queen),
        Err(BoardError::SquareOutsideBoard(Square::new(3, 8)))
    );
}

#[test]
fn back_ranks_without_a_king_between_rooks_are_refused() {
    assert_eq!(
        VariantRules::capablanca_family("Test", [Rook, Knight, Bishop, Queen, Chancellor, Archbishop, Bishop, Knight, Rook, Pawn], true),
        Err(RuleError::ExactlyOneBackRankPiece(King))
    );
    assert_eq!(
        VariantRules::capablanca_family("Test", [King, Rook, Bishop, Queen, Chancellor, Archbishop, Bishop, Knight, Rook, Knight], true),
        Err(RuleError::KingMustBeBetweenTwoRooks)
    );
    assert_eq!(
        VariantRules::capablanca_family("  ", [Rook, Knight, Bishop, Queen, King, Archbishop, Bishop, Knight, Rook, Chancellor], true),
        Err(RuleError::EmptyName)
    );
}

#[test]
fn library_example_plays_and_searches_a_gothic_game() {
    let mut game = Game::new(Variant::Gothic.starting_position());
    game.play_uci("e2e4").unwrap();
    let result = Engine::new()
        .search(game.position(), SearchLimits::depth(4))
        .expect("the game is not over");
    assert!(game
        .position()
        .legal_moves()
        .contains(&result.best_move));
    assert_eq!(result.depth, 4);
}

#[test]
fn library_example_starts_a_custom_array() {
    let rules = VariantRules::capablanca_family(
        "My Array",
        [Rook, Knight, Archbishop, Queen, King, Chancellor, Bishop, Knight, Bishop, Rook],
        true,
    )
    .unwrap();
    let position = rules.into_starting_position();
    assert_eq!(position.side_to_move(), Color::White);
    assert_eq!(
        position.board().piece_at(Square::new(4, 0)),
        Some(Piece::new(Color::White, King))
    );
    assert!(position.legal_moves().len() > 20);
}

#[test]
fn a_node_limit_caps_the_search() {
    let position = Variant::Capablanca.starting_position();
    let capped = Engine::new()
        .search(&position, SearchLimits::depth(4).with_node_limit(50))
        .unwrap();
    assert!(capped.nodes >= 1 && capped.nodes <= 50);
    assert!(position.legal_moves().contains(&capped.best_move));
    let single = Engine::new()
        .search(&position, SearchLimits::depth(4).with_node_limit(0))
        .unwrap();
    assert_eq!(single.nodes, 1);
    assert_eq!(single.principal_variation, vec![single.best_move]);
}

#[test]
fn an_unused_node_budget_changes_nothing() {
    let position = Position::from_fen(Variant::Capablanca.rules(), "9k/P9/10/10/10/10/10/9K w - - 0 1").unwrap();
    let free = Engine::new().search(&position, SearchLimits::depth(2)).unwrap();
    let budget = Engine::new()
        .search(&position, SearchLimits::depth(2).with_node_limit(free.nodes + 1))
        .unwrap();
    assert_eq!(budget.score, free.score);
    assert_eq!(budget.best_move, free.best_move);
    assert_eq!(budget.nodes, free.nodes);
}

#[test]
fn the_principal_variation_is_no_longer_than_the_depth() {
    let position = Variant::Gothic.starting_position();
    for depth in 1..=3u8 {
        let result = Engine::new().search(&position, SearchLimits::depth(depth)).unwrap();
        assert!(!result.principal_variation.is_empty());
        assert!(result.principal_variation.len() <= depth as usize);
        assert_eq!(result.principal_variation[0], result.best_move);
    }
}

#[test]
fn king_square_finds_the_first_king_in_scan_order() {
    let mut board = Board::empty(BoardSize::capablanca());
    assert_eq!(board.king_square(Color::White), None);
    board.set_piece(Square::new(7, 3), Some(Piece::new(Color::White, King))).unwrap();
    board.set_piece(Square::new(2, 5), Some(Piece::new(Color::White, King))).unwrap();
    board.set_piece(Square::new(0, 3), Some(Piece::new(Color::Black, King))).unwrap();
    assert_eq!(board.king_square(Color::White), Some(Square::new(7, 3)));
    assert_eq!(board.king_square(Color::Black), Some(Square::new(0, 3)));
    assert_eq!(board.count(Color::White, King), 2);
}

#[test]
fn playing_sets_clocks_and_the_skipped_square() {
    let mut position = Variant::Capablanca.starting_position();
    position.play_uci("e2e4").unwrap();
    assert_eq!(position.side_to_move(), Color::Black);
    assert_eq!(position.en_passant(), Some(Square::new(4, 2)));
    assert_eq!(position.halfmove_clock(), 0);
    assert_eq!(position.fullmove_number(), 1);
    assert_eq!(position.board().piece_at(Square::new(4, 1)), None);
    assert_eq!(position.board().piece_at(Square::new(4, 3)), Some(Piece::new(Color::White, Pawn)));
    position.play_uci("b8c6").unwrap();
    assert_eq!(position.en_passant(), None);
    assert_eq!(position.halfmove_clock(), 1);
    assert_eq!(position.fullmove_number(), 2);
}

#[test]
fn starting_positions_read_back_from_their_fen() {
    for variant in ALL_VARIANTS {
        let position = variant.starting_position();
        let again = Position::from_fen(position.rules().clone(), &position.to_fen()).unwrap();
        assert_eq!(again.to_fen(), position.to_fen());
    }
}

#[test]
fn legal_play_never_adds_a_king() {
    for position in sample_positions() {
        for chess_move in position.legal_moves() {
            let after = position.after_move(chess_move).unwrap();
            for color in [Color::White, Color::Black] {
                assert!(after.board().count(color, King) <= position.board().count(color, King));
                assert_eq!(after.board().count(color, King), 1);
            }
        }
    }
}

#[test]
fn an_exhausted_budget_still_gives_a_line_within_the_mate_score() {
    for position in sample_positions() {
        for limit in [0u64, 1, 5, 50] {
            let result = Engine::new()
                .search(&position, SearchLimits::depth(3).with_node_limit(limit))
                .unwrap();
            assert!(!result.principal_variation.is_empty());
            assert_eq!(result.principal_variation[0], result.best_move);
            assert!(-CHECKMATE_SCORE <= result.score && result.score <= CHECKMATE_SCORE);
        }
    }
}

#[test]
fn en_passant_empties_the_captured_square() {
    let position =
        Position::from_fen(Variant::Capablanca.rules(), "r4k3r/10/10/3pP5/10/10/10/R4K3R w KQkq d6 0 1").unwrap();
    let capture = position
        .legal_moves()
        .into_iter()
        .find(|m| m.kind == MoveKind::EnPassant)
        .unwrap();
    assert_eq!(capture.from, Square::new(4, 4));
    assert_eq!(capture.to, Square::new(3, 5));
    assert_ne!(capture.to.rank, capture.from.rank);
    let after = position.after_move(capture).unwrap();
    assert_eq!(after.board().piece_at(Square::new(3, 4)), None);
    assert_eq!(after.board().piece_at(Square::new(4, 4)), None);
    assert_eq!(after.board().piece_at(Square::new(3, 5)), Some(Piece::new(Color::White, Pawn)));
}

#[test]
fn no_legal_move_lands_on_a_king() {
    for position in sample_positions() {
        for chess_move in position.legal_moves() {
            let target = position.board().piece_at(chess_move.to);
            assert!(!matches!(target, Some(piece) if piece.kind == King));
            assert_ne!(chess_move.promotion, Some(King));
        }
    }
    let castling =
        Position::from_fen(Variant::Capablanca.rules(), "r4k3r/10/10/3pP5/10/10/10/R4K3R w KQkq d6 0 1").unwrap();
    assert!(castling.legal_moves().iter().any(|m| matches!(m.kind, MoveKind::Castle(_))));
}

#[test]
fn built_in_rules_are_the_same_each_time() {
    for variant in ALL_VARIANTS {
        assert_eq!(variant.rules(), variant.rules());
    }
}

#[test]
fn castling_needs_every_square_of_the_walk_safe() {
    let free = Position::from_fen(Variant::Capablanca.rules(), "5k4/10/10/10/10/10/10/5K3R w K - 0 1").unwrap();
    assert!(free.legal_moves().iter().any(|m| matches!(m.kind, MoveKind::Castle(_))));
    let watched = Position::from_fen(Variant::Capablanca.rules(), "5kr3/10/10/10/10/10/10/5K3R w K - 0 1").unwrap();
    assert!(!watched.legal_moves().iter().any(|m| matches!(m.kind, MoveKind::Castle(_))));
}
