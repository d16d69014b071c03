use std::collections::BTreeSet;

use chess_core::board::empty_board;
use chess_core::move_gen::{is_legal_move, is_square_attacked_by, side_to_move_has_any_move};
use chess_core::rules::is_in_check;
use chess_core::{
    apply_move, from_fen, legal_moves, new_game, status, to_fen, CastlingRights, ChessEngine,
    EngineError, GameState, GameStatus, Move, MoveInput, Piece, PieceColor, PieceKind, Square,
};

const START_TEXT: &str = "rnbqkbnr/pppppppp/8/8/8/8/PPPPPPPP/RNBQKBNR w KQkq - 0 1";

fn custom_state(active_color: PieceColor) -> GameState {
    GameState {
        board: empty_board(),
        active_color,
        status: GameStatus::InProgress,
        halfmove_clock: 0,
        fullmove_number: 1,
        castling_rights: CastlingRights {
            white_king_side: false,
            white_queen_side: false,
            black_king_side: false,
            black_queen_side: false,
        },
        en_passant_target: None,
    }
}

fn set_piece(state: &mut GameState, square: &str, color: PieceColor, kind: PieceKind) {
    let square = Square::from_algebraic(square).expect("valid square");
    state.board.put(square, Some(Piece { color, kind }));
}

fn sq(text: &str) -> Square {
    Square::from_algebraic(text).expect("valid square")
}

fn input(from: &str, to: &str) -> MoveInput {
    MoveInput {
        from: sq(from),
        to: sq(to),
        promotion: None,
    }
}

fn to_set(moves: &[Move]) -> BTreeSet<String> {
    moves.iter().map(|m| m.to.to_algebraic()).collect()
}

#[test]
fn square_construction_is_bounds_checked() {
    assert_eq!(Square::new(0, 0), Some(Square { file: 0, rank: 0 }));
    assert_eq!(Square::new(7, 7), Some(Square { file: 7, rank: 7 }));
    assert_eq!(Square::new(8, 0), None);
    assert_eq!(Square::new(0, 8), None);
}

#[test]
fn algebraic_notation_parses_and_prints() {
    assert_eq!(sq("a1"), Square { file: 0, rank: 0 });
    assert_eq!(sq("h8"), Square { file: 7, rank: 7 });
    assert_eq!(sq("E2"), Square { file: 4, rank: 1 });
    assert_eq!(Square::from_algebraic(""), None);
    assert_eq!(Square::from_algebraic("e"), None);
    assert_eq!(Square::from_algebraic("e22"), None);
    assert_eq!(Square::from_algebraic("i1"), None);
    assert_eq!(Square::from_algebraic("a9"), None);
    assert_eq!(Square::from_algebraic("a0"), None);
    assert_eq!(sq("e2").to_algebraic(), "e2");
    assert_eq!(sq("h8").to_algebraic(), "h8");
    assert_eq!(sq("a1").to_algebraic(), "a1");
}

#[test]
fn pawn_e2_has_exactly_e3_and_e4() {
    let state = new_game();
    let moves = legal_moves(&state, sq("e2"));
    let targets = to_set(&moves);
    assert_eq!(moves.len(), 2);
    assert!(targets.contains("e3"));
    assert!(targets.contains("e4"));
}

#[test]
fn double_push_sets_en_passant_target() {
    let state = new_game();
    let result = apply_move(&state, input("e2", "e4")).expect("legal opening move");
    assert_eq!(result.state.en_passant_target, Some(sq("e3")));
    assert_eq!(result.state.halfmove_clock, 0);
    assert_eq!(result.state.fullmove_number, 1);
    assert!(matches!(result.state.active_color, PieceColor::Black));
    assert!(matches!(result.state.status, GameStatus::InProgress));
}

#[test]
fn quiet_knight_move_advances_halfmove_clock() {
    let state = new_game();
    let result = apply_move(&state, input("g1", "f3")).expect("legal knight move");
    assert_eq!(result.state.halfmove_clock, 1);
    assert!(result.state.en_passant_target.is_none());
    let reply = apply_move(&result.state, input("g8", "f6")).expect("legal reply");
    assert_eq!(reply.state.halfmove_clock, 2);
    assert_eq!(reply.state.fullmove_number, 2);
}

#[test]
fn initial_position_attack_facts() {
    let state = new_game();
    assert!(is_square_attacked_by(&state, sq("f3"), PieceColor::White));
    assert!(is_square_attacked_by(&state, sq("f6"), PieceColor::Black));
    assert!(!is_square_attacked_by(&state, sq("e4"), PieceColor::White));
    assert!(!is_in_check(&state, PieceColor::White));
    assert!(!is_in_check(&state, PieceColor::Black));
    assert!(side_to_move_has_any_move(&state));
    assert!(is_legal_move(&state, sq("e2"), sq("e4")));
    assert!(!is_legal_move(&state, sq("e2"), sq("e5")));
}

#[test]
fn moving_from_empty_square_is_rejected() {
    let state = new_game();
    let result = apply_move(&state, input("e4", "e5"));
    assert_eq!(result.unwrap_err(), EngineError::NoPieceAtSource);
}

#[test]
fn moving_opponents_piece_is_rejected() {
    let state = new_game();
    let result = apply_move(&state, input("e7", "e5"));
    assert_eq!(result.unwrap_err(), EngineError::NotActivePlayersPiece);
}

#[test]
fn promotion_defaults_to_queen() {
    let mut state = custom_state(PieceColor::White);
    set_piece(&mut state, "e1", PieceColor::White, PieceKind::King);
    set_piece(&mut state, "e8", PieceColor::Black, PieceKind::King);
    set_piece(&mut state, "a7", PieceColor::White, PieceKind::Pawn);

    let result = apply_move(&state, input("a7", "a8")).expect("promotion should be legal");
    assert_eq!(result.move_applied.promotion, Some(PieceKind::Queen));
    assert!(result
        .state
        .board
        .get(sq("a8"))
        .is_some_and(|p| p.color == PieceColor::White && p.kind == PieceKind::Queen));
    assert!(result.state.board.get(sq("a7")).is_none());
}

#[test]
fn promotion_honors_a_requested_kind() {
    let mut state = custom_state(PieceColor::White);
    set_piece(&mut state, "e1", PieceColor::White, PieceKind::King);
    set_piece(&mut state, "e8", PieceColor::Black, PieceKind::King);
    set_piece(&mut state, "a7", PieceColor::White, PieceKind::Pawn);

    let result = apply_move(
        &state,
        MoveInput {
            from: sq("a7"),
            to: sq("a8"),
            promotion: Some(PieceKind::Knight),
        },
    )
    .expect("under-promotion should be legal");
    assert_eq!(result.move_applied.promotion, Some(PieceKind::Knight));
    assert!(result
        .state
        .board
        .get(sq("a8"))
        .is_some_and(|p| p.kind == PieceKind::Knight));
}

#[test]
fn promotion_to_king_or_pawn_is_rejected() {
    let mut state = custom_state(PieceColor::White);
    set_piece(&mut state, "e1", PieceColor::White, PieceKind::King);
    set_piece(&mut state, "e8", PieceColor::Black, PieceKind::King);
    set_piece(&mut state, "a7", PieceColor::White, PieceKind::Pawn);

    let king = apply_move(
        &state,
        MoveInput {
            from: sq("a7"),
            to: sq("a8"),
            promotion: Some(PieceKind::King),
        },
    );
    assert_eq!(king.unwrap_err(), EngineError::IllegalMove);
    let pawn = apply_move(
        &state,
        MoveInput {
            from: sq("a7"),
            to: sq("a8"),
            promotion: Some(PieceKind::Pawn),
        },
    );
    assert_eq!(pawn.unwrap_err(), EngineError::IllegalMove);
}

#[test]
fn promotion_requested_when_not_applicable_is_rejected() {
    let state = new_game();
    let result = apply_move(
        &state,
        MoveInput {
            from: sq("e2"),
            to: sq("e4"),
            promotion: Some(PieceKind::Queen),
        },
    );
    assert_eq!(result.unwrap_err(), EngineError::IllegalMove);
}

#[test]
fn pawn_promotes_when_generated_moves_reach_the_final_rank() {
    let mut state = custom_state(PieceColor::White);
    set_piece(&mut state, "e1", PieceColor::White, PieceKind::King);
    set_piece(&mut state, "e8", PieceColor::Black, PieceKind::King);
    set_piece(&mut state, "a7", PieceColor::White, PieceKind::Pawn);

    let moves = legal_moves(&state, sq("a7"));
    assert_eq!(moves.len(), 4);
    let kinds: BTreeSet<_> = moves.iter().map(|m| format!("{:?}", m.promotion)).collect();
    assert_eq!(kinds.len(), 4);
    assert!(moves.iter().all(|m| m.to == sq("a8") && m.promotion.is_some()));
}

#[test]
fn king_move_clears_both_castling_rights() {
    let mut state = custom_state(PieceColor::White);
    set_piece(&mut state, "e1", PieceColor::White, PieceKind::King);
    set_piece(&mut state, "a1", PieceColor::White, PieceKind::Rook);
    set_piece(&mut state, "h1", PieceColor::White, PieceKind::Rook);
    set_piece(&mut state, "e8", PieceColor::Black, PieceKind::King);
    state.castling_rights.white_king_side = true;
    state.castling_rights.white_queen_side = true;

    let result = apply_move(&state, input("e1", "e2")).expect("legal king step");
    assert!(!result.state.castling_rights.white_king_side);
    assert!(!result.state.castling_rights.white_queen_side);
}

#[test]
fn rook_move_clears_only_its_wing() {
    let mut state = custom_state(PieceColor::White);
    set_piece(&mut state, "e1", PieceColor::White, PieceKind::King);
    set_piece(&mut state, "a1", PieceColor::White, PieceKind::Rook);
    set_piece(&mut state, "h1", PieceColor::White, PieceKind::Rook);
    set_piece(&mut state, "e8", PieceColor::Black, PieceKind::King);
    state.castling_rights.white_king_side = true;
    state.castling_rights.white_queen_side = true;

    let result = apply_move(&state, input("h1", "h2")).expect("legal rook move");
    assert!(!result.state.castling_rights.white_king_side);
    assert!(result.state.castling_rights.white_queen_side);
}

#[test]
fn castling_applies_the_rook_relocation() {
    let mut state = custom_state(PieceColor::White);
    set_piece(&mut state, "e1", PieceColor::White, PieceKind::King);
    set_piece(&mut state, "h1", PieceColor::White, PieceKind::Rook);
    set_piece(&mut state, "e8", PieceColor::Black, PieceKind::King);
    state.castling_rights.white_king_side = true;

    let result = apply_move(&state, input("e1", "g1")).expect("castling should be legal");
    assert!(result
        .state
        .board
        .get(sq("g1"))
        .is_some_and(|p| p.kind == PieceKind::King));
    assert!(result
        .state
        .board
        .get(sq("f1"))
        .is_some_and(|p| p.kind == PieceKind::Rook));
    assert!(result.state.board.get(sq("h1")).is_none());
    assert!(result.state.board.get(sq("e1")).is_none());
    assert!(!result.state.castling_rights.white_king_side);
}

#[test]
fn detects_basic_checkmate_position() {
    let mut state = custom_state(PieceColor::Black);
    set_piece(&mut state, "h8", PieceColor::Black, PieceKind::King);
    set_piece(&mut state, "f6", PieceColor::White, PieceKind::King);
    set_piece(&mut state, "g7", PieceColor::White, PieceKind::Queen);

    assert!(matches!(
        status(&state),
        GameStatus::Checkmate(PieceColor::White)
    ));
    assert!(!side_to_move_has_any_move(&state));
}

#[test]
fn applying_the_mating_move_tags_the_result_checkmate() {
    let mut state = custom_state(PieceColor::White);
    set_piece(&mut state, "h8", PieceColor::Black, PieceKind::King);
    set_piece(&mut state, "f6", PieceColor::White, PieceKind::King);
    set_piece(&mut state, "g6", PieceColor::White, PieceKind::Queen);

    let result = apply_move(&state, input("g6", "g7")).expect("mating move is legal");
    assert!(matches!(
        result.state.status,
        GameStatus::Checkmate(PieceColor::White)
    ));
}

#[test]
fn no_move_is_accepted_once_the_game_is_over() {
    let mut state = custom_state(PieceColor::Black);
    set_piece(&mut state, "h8", PieceColor::Black, PieceKind::King);
    set_piece(&mut state, "f6", PieceColor::White, PieceKind::King);
    set_piece(&mut state, "g7", PieceColor::White, PieceKind::Queen);
    state.status = GameStatus::Checkmate(PieceColor::White);

    let result = apply_move(&state, input("h8", "h7"));
    assert_eq!(result.unwrap_err(), EngineError::IllegalMove);

    let mut stale = custom_state(PieceColor::Black);
    set_piece(&mut stale, "h8", PieceColor::Black, PieceKind::King);
    set_piece(&mut stale, "f7", PieceColor::White, PieceKind::King);
    set_piece(&mut stale, "g6", PieceColor::White, PieceKind::Queen);
    stale.status = GameStatus::Stalemate(PieceColor::Black);

    let result = apply_move(&stale, input("h8", "g8"));
    assert_eq!(result.unwrap_err(), EngineError::IllegalMove);
}

#[test]
fn notation_round_trips_the_initial_position() {
    let state = new_game();
    let text = to_fen(&state);
    assert_eq!(text, START_TEXT);

    let imported = from_fen(&text).expect("standard text imports");
    assert!(matches!(imported.active_color, PieceColor::White));
    assert!(matches!(imported.status, GameStatus::InProgress));
    assert_eq!(imported.halfmove_clock, 0);
    assert_eq!(imported.fullmove_number, 1);
    assert_eq!(imported.castling_rights, CastlingRights::standard());
    assert!(imported.en_passant_target.is_none());
    for file in 0..8u8 {
        for rank in 0..8u8 {
            let square = Square::new(file, rank).expect("valid square");
            assert_eq!(imported.board.get(square), state.board.get(square));
        }
    }
    assert_eq!(to_fen(&imported), START_TEXT);

    let from_token = from_fen("startpos").expect("bare token imports");
    assert_eq!(to_fen(&from_token), START_TEXT);
}

#[test]
fn any_other_notation_is_rejected_or_sentineled() {
    assert_eq!(
        from_fen("not a position").unwrap_err(),
        EngineError::UnsupportedFen
    );
    assert_eq!(from_fen("").unwrap_err(), EngineError::UnsupportedFen);

    let state = new_game();
    let moved = apply_move(&state, input("e2", "e4")).expect("legal opening move");
    assert_eq!(to_fen(&moved.state), "unsupported-fen-serialization");
}

#[test]
fn engine_facade_plays_a_game() {
    let mut engine = ChessEngine::new_game();
    assert!(matches!(engine.status(), GameStatus::InProgress));
    assert_eq!(engine.to_fen(), START_TEXT);

    let targets = to_set(&engine.legal_moves(sq("e2")));
    assert!(targets.contains("e3") && targets.contains("e4"));

    let result = engine.apply_move(input("e2", "e4")).expect("legal move");
    assert!(matches!(result.state.active_color, PieceColor::Black));
    assert!(matches!(engine.state().active_color, PieceColor::Black));

    let rejected = engine.apply_move(input("e4", "e5"));
    assert_eq!(rejected.unwrap_err(), EngineError::NotActivePlayersPiece);
    assert!(matches!(engine.state().active_color, PieceColor::Black));

    let from_text = ChessEngine::from_fen("startpos").expect("token imports");
    assert_eq!(from_text.to_fen(), START_TEXT);
    assert!(ChessEngine::from_fen("nonsense").is_err());
}

#[test]
fn sliding_pieces_stop_at_blockers() {
    let mut state = custom_state(PieceColor::White);
    set_piece(&mut state, "e1", PieceColor::White, PieceKind::King);
    set_piece(&mut state, "e8", PieceColor::Black, PieceKind::King);
    set_piece(&mut state, "a4", PieceColor::White, PieceKind::Rook);
    set_piece(&mut state, "d4", PieceColor::White, PieceKind::Pawn);
    set_piece(&mut state, "a6", PieceColor::Black, PieceKind::Pawn);

    let targets = to_set(&legal_moves(&state, sq("a4")));
    // Along the rank: b4, c4, then blocked by the friendly pawn on d4.
    assert!(targets.contains("b4") && targets.contains("c4"));
    assert!(!targets.contains("d4") && !targets.contains("e4"));
    // Along the file: a5, capture on a6, never beyond.
    assert!(targets.contains("a5") && targets.contains("a6"));
    assert!(!targets.contains("a7"));
    assert!(targets.contains("a1") && targets.contains("a2") && targets.contains("a3"));
}

#[test]
fn pinned_piece_may_not_expose_the_king() {
    let mut state = custom_state(PieceColor::White);
    set_piece(&mut state, "e1", PieceColor::White, PieceKind::King);
    set_piece(&mut state, "e4", PieceColor::White, PieceKind::Bishop);
    set_piece(&mut state, "e8", PieceColor::Black, PieceKind::Rook);
    set_piece(&mut state, "h8", PieceColor::Black, PieceKind::King);

    // The bishop is pinned to the file: every diagonal step exposes the king.
    let moves = legal_moves(&state, sq("e4"));
    assert!(moves.is_empty());
}
