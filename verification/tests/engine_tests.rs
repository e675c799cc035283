use xion_chess::{validate_move, verify_position, verify_position_internal};
use xion_chess::{ContractError, GameStatus};

#[test]
fn tests_verify_starting_position() {
    let starting_fen = "rnbqkbnr/pppppppp/8/8/8/8/PPPPPPPP/RNBQKBNR w KQkq - 0 1";

    let response = verify_position_internal(starting_fen.to_string()).unwrap();
    matches!(response.status, GameStatus::Active);
    assert!(!response.is_check);
    assert!(response.legal_moves.len() == 20); // 16 pawn moves + 4 knight moves
}

#[test]
fn tests_verify_checkmate_position() {
    // Scholar's mate position - checkmate in 4 moves
    let checkmate_fen = "r1bqkb1r/pppp1Qpp/2n2n2/4p3/2B1P3/8/PPPP1PPP/RNB1K1NR b KQkq - 0 4";

    let response = verify_position_internal(checkmate_fen.to_string()).unwrap();
    matches!(response.status, GameStatus::Checkmate);
    assert!(response.is_check);
    assert!(response.legal_moves.is_empty());
}

#[test]
fn verify_stalemate_position() {
    // Stalemate position - king has no moves but is not in check
    let stalemate_fen = "k7/8/1Q6/8/8/8/8/K7 b - - 0 1";

    let response = verify_position_internal(stalemate_fen.to_string()).unwrap();
    matches!(response.status, GameStatus::Stalemate);
    assert!(!response.is_check);
    assert!(response.legal_moves.is_empty());
}

#[test]
fn validate_legal_pawn_move() {
    let starting_fen = "rnbqkbnr/pppppppp/8/8/8/8/PPPPPPPP/RNBQKBNR w KQkq - 0 1";

    let response = validate_move(
        starting_fen.to_string(),
        "e2".to_string(),
        "e4".to_string(),
        None,
    )
    .unwrap();
    assert!(response.is_valid);
    assert!(response.resulting_fen.is_some());
    assert!(response.error.is_none());

    // Verify the resulting FEN is correct
    let expected_fen = "rnbqkbnr/pppppppp/8/8/4P3/8/PPPP1PPP/RNBQKBNR b KQkq e3 0 1";
    assert_eq!(response.resulting_fen.unwrap(), expected_fen);
}

#[test]
fn validate_legal_knight_move() {
    let starting_fen = "rnbqkbnr/pppppppp/8/8/8/8/PPPPPPPP/RNBQKBNR w KQkq - 0 1";

    let response = validate_move(
        starting_fen.to_string(),
        "g1".to_string(),
        "f3".to_string(),
        None,
    )
    .unwrap();
    assert!(response.is_valid);
    assert!(response.resulting_fen.is_some());
    assert!(response.error.is_none());
}

#[test]
fn tests_validate_illegal_move() {
    let starting_fen = "rnbqkbnr/pppppppp/8/8/8/8/PPPPPPPP/RNBQKBNR w KQkq - 0 1";

    let response = validate_move(
        starting_fen.to_string(),
        "e2".to_string(),
        "e5".to_string(), // Illegal pawn move (too far)
        None,
    )
    .unwrap();
    assert!(!response.is_valid);
    assert!(response.resulting_fen.is_none());
    assert!(response.error.is_some());
}

#[test]
fn validate_move_from_empty_square() {
    let starting_fen = "rnbqkbnr/pppppppp/8/8/8/8/PPPPPPPP/RNBQKBNR w KQkq - 0 1";

    let response = validate_move(
        starting_fen.to_string(),
        "e4".to_string(), // Empty square
        "e5".to_string(),
        None,
    )
    .unwrap();
    assert!(!response.is_valid);
    assert!(response.resulting_fen.is_none());
    assert!(response.error.is_some());
    assert!(response.error.unwrap().contains("No piece"));
}

#[test]
fn validate_pawn_promotion() {
    // Position where white pawn can promote
    let promotion_fen = "k7/5P2/8/8/8/8/8/K7 w - - 0 1";

    let response = validate_move(
        promotion_fen.to_string(),
        "f7".to_string(),
        "f8".to_string(),
        Some("q".to_string()), // Promote to queen
    )
    .unwrap();
    assert!(response.is_valid);
    assert!(response.resulting_fen.is_some());
    assert!(response.error.is_none());
}

#[test]
fn validate_invalid_promotion_piece() {
    let promotion_fen = "k7/5P2/8/8/8/8/8/K7 w - - 0 1";

    let response = validate_move(
        promotion_fen.to_string(),
        "f7".to_string(),
        "f8".to_string(),
        Some("x".to_string()), // Invalid promotion piece
    )
    .unwrap();
    assert!(!response.is_valid);
    assert!(response.resulting_fen.is_none());
    assert!(response.error.is_some());
    assert!(response.error.unwrap().contains("Invalid promotion"));
}

#[test]
fn integration_tests_verify_starting_position() {
    let starting_fen = "rnbqkbnr/pppppppp/8/8/8/8/PPPPPPPP/RNBQKBNR w KQkq - 0 1";

    let res = verify_position_internal(starting_fen.to_string()).unwrap();
    matches!(res.status, GameStatus::Active);
    assert!(!res.is_check);
    assert!(res.legal_moves.len() == 20); // 16 pawn moves + 4 knight moves
}

#[test]
fn integration_tests_verify_checkmate_position() {
    // Scholar's mate position - checkmate in 4 moves
    let checkmate_fen = "r1bqkb1r/pppp1Qpp/2n2n2/4p3/2B1P3/8/PPPP1PPP/RNB1K1NR b KQkq - 0 4";

    let res = verify_position_internal(checkmate_fen.to_string()).unwrap();
    matches!(res.status, GameStatus::Checkmate);
    assert!(res.is_check);
    assert!(res.legal_moves.is_empty());
}

#[test]
fn validate_legal_move() {
    let starting_fen = "rnbqkbnr/pppppppp/8/8/8/8/PPPPPPPP/RNBQKBNR w KQkq - 0 1";

    let res = validate_move(
        starting_fen.to_string(),
        "e2".to_string(),
        "e4".to_string(),
        None,
    )
    .unwrap();
    assert!(res.is_valid);
    assert!(res.resulting_fen.is_some());
    assert!(res.error.is_none());
}

#[test]
fn integration_tests_validate_illegal_move() {
    let starting_fen = "rnbqkbnr/pppppppp/8/8/8/8/PPPPPPPP/RNBQKBNR w KQkq - 0 1";

    let res = validate_move(
        starting_fen.to_string(),
        "e2".to_string(),
        "e5".to_string(), // Illegal pawn move
        None,
    )
    .unwrap();
    assert!(!res.is_valid);
    assert!(res.resulting_fen.is_none());
    assert!(res.error.is_some());
}

#[test]
fn starting_position_status_is_active() {
    let starting_fen = "rnbqkbnr/pppppppp/8/8/8/8/PPPPPPPP/RNBQKBNR w KQkq - 0 1";
    let response = verify_position_internal(starting_fen.to_string()).unwrap();
    assert_eq!(response.status, GameStatus::Active);
    assert_eq!(response.legal_moves.len(), 20);
    assert!(!response.is_check);
}

#[test]
fn checkmate_position_status_is_checkmate() {
    let checkmate_fen = "r1bqkb1r/pppp1Qpp/2n2n2/4p3/2B1P3/8/PPPP1PPP/RNB1K1NR b KQkq - 0 4";
    let response = verify_position_internal(checkmate_fen.to_string()).unwrap();
    assert_eq!(response.status, GameStatus::Checkmate);
    assert!(response.is_check);
    assert_eq!(response.legal_moves.len(), 0);
}

#[test]
fn stalemate_position_status_is_stalemate() {
    let stalemate_fen = "k7/8/1Q6/8/8/8/8/K7 b - - 0 1";
    let response = verify_position_internal(stalemate_fen.to_string()).unwrap();
    assert_eq!(response.status, GameStatus::Stalemate);
}

#[test]
fn bare_kings_status_is_draw() {
    // King versus king: insufficient material, but moves remain
    let fen = "k7/8/8/8/8/8/8/7K w - - 0 1";
    let response = verify_position_internal(fen.to_string()).unwrap();
    assert_eq!(response.status, GameStatus::Draw);
    assert!(response.legal_moves.len() > 0);
    assert!(!response.is_check);
}

#[test]
fn malformed_fen_is_rejected() {
    let result = verify_position_internal("not a position at all".to_string());
    assert!(matches!(result, Err(ContractError::InvalidFen { .. })));
}

#[test]
fn bad_square_is_rejected() {
    let starting_fen = "rnbqkbnr/pppppppp/8/8/8/8/PPPPPPPP/RNBQKBNR w KQkq - 0 1";
    let result = validate_move(
        starting_fen.to_string(),
        "e9".to_string(),
        "e4".to_string(),
        None,
    );
    assert!(matches!(result, Err(ContractError::BadSquare {})));
}

#[test]
fn legal_move_changes_the_encoding() {
    let starting_fen = "rnbqkbnr/pppppppp/8/8/8/8/PPPPPPPP/RNBQKBNR w KQkq - 0 1";
    let response = validate_move(
        starting_fen.to_string(),
        "b1".to_string(),
        "c3".to_string(),
        None,
    )
    .unwrap();
    assert!(response.is_valid);
    assert_ne!(response.resulting_fen.unwrap(), starting_fen);
}

#[test]
fn resulting_encoding_round_trips() {
    // The encoding a legal move produces parses again and answers the
    // next move, with the expected classical encoding.
    let starting_fen = "rnbqkbnr/pppppppp/8/8/8/8/PPPPPPPP/RNBQKBNR w KQkq - 0 1";
    let first = validate_move(
        starting_fen.to_string(),
        "e2".to_string(),
        "e4".to_string(),
        None,
    )
    .unwrap();
    let after_e4 = first.resulting_fen.unwrap();
    let reparsed = verify_position_internal(after_e4.clone()).unwrap();
    assert_eq!(reparsed.status, GameStatus::Active);
    let second = validate_move(after_e4, "e7".to_string(), "e5".to_string(), None).unwrap();
    assert!(second.is_valid);
    assert_eq!(
        second.resulting_fen.unwrap(),
        "rnbqkbnr/pppp1ppp/8/4p3/4P3/8/PPPP1PPP/RNBQKBNR w KQkq e6 0 2"
    );
}

#[test]
fn verify_position_accepts_matching_claim() {
    let starting_fen = "rnbqkbnr/pppppppp/8/8/8/8/PPPPPPPP/RNBQKBNR w KQkq - 0 1";
    let response = verify_position(starting_fen.to_string(), GameStatus::Active).unwrap();
    assert_eq!(response.status, GameStatus::Active);
}

#[test]
fn verify_position_rejects_wrong_claim() {
    let starting_fen = "rnbqkbnr/pppppppp/8/8/8/8/PPPPPPPP/RNBQKBNR w KQkq - 0 1";
    let result = verify_position(starting_fen.to_string(), GameStatus::Checkmate);
    match result {
        Err(ContractError::InvalidClaim { claimed, actual }) => {
            assert_eq!(claimed, GameStatus::Checkmate);
            assert_eq!(actual, GameStatus::Active);
        }
        other => panic!("expected InvalidClaim, got {:?}", other),
    }
}

#[test]
fn uppercase_promotion_piece_is_accepted() {
    let promotion_fen = "k7/5P2/8/8/8/8/8/K7 w - - 0 1";
    let response = validate_move(
        promotion_fen.to_string(),
        "f7".to_string(),
        "f8".to_string(),
        Some("Q".to_string()),
    )
    .unwrap();
    assert!(response.is_valid);
}

#[test]
fn legal_moves_use_standard_notation() {
    let starting_fen = "rnbqkbnr/pppppppp/8/8/8/8/PPPPPPPP/RNBQKBNR w KQkq - 0 1";
    let response = verify_position_internal(starting_fen.to_string()).unwrap();
    assert!(response.legal_moves.iter().any(|m| m == "e4"));
    assert!(response.legal_moves.iter().any(|m| m == "Nf3"));
}
