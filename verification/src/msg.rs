//! Plain value types exchanged with the host dispatch layer.
use vstd::prelude::*;

verus! {

#[derive(Debug, PartialEq, Eq, Structural, Clone, Copy)]
pub struct InstantiateMsg {}

/// Classification of a single position: exactly one of these holds.
#[derive(Debug, PartialEq, Eq, Structural, Clone, Copy)]
pub enum GameStatus {
    Active,
    Checkmate,
    Stalemate,
    Draw,
}

/// The answer to a position verification: its classification, whether the
/// side to move is in check, and every legal move in standard notation.
#[derive(Debug)]
pub struct VerificationResponse {
    pub status: GameStatus,
    pub is_check: bool,
    pub legal_moves: Vec<String>,
}

/// The answer to a move validation: either the encoding of the resulting
/// position, or a message saying why the move is rejected.
#[derive(Debug)]
pub struct MoveValidationResponse {
    pub is_valid: bool,
    pub resulting_fen: Option<String>,
    pub error: Option<String>,
}

#[derive(Debug)]
pub struct GameIdsResponse {
    pub game_ids: Vec<String>,
}

/// Clock standings for one match, with the in-flight deduction for the
/// side to move already applied.
#[derive(Debug)]
pub struct TimeStatusResponse {
    pub white_time_remaining: u64,
    pub black_time_remaining: u64,
    pub current_player: crate::state::Color,
    pub time_expired: bool,
    pub move_count: u32,
    pub time_since_last_move: u64,
}

#[derive(Debug)]
pub struct UserProfileResponse {
    pub profile: Option<crate::state::UserProfile>,
}

#[derive(Debug)]
pub struct GameResponse {
    pub game: Option<crate::state::ChessGame>,
}

#[derive(Debug)]
pub struct GamesResponse {
    pub games: Vec<crate::state::ChessGame>,
}

#[derive(Debug)]
pub struct UsersResponse {
    pub users: Vec<String>,
}

} // verus!
