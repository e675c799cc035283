pub mod engine;
pub mod error;
pub mod machine;
pub mod msg;
pub mod rating;
pub mod state;

pub use engine::{validate_move, verify_position, verify_position_internal};
pub use error::ContractError;
pub use machine::ChessState;
pub use msg::{
    GameIdsResponse, GameResponse, GameStatus, GamesResponse, InstantiateMsg,
    MoveValidationResponse, TimeStatusResponse, UserProfileResponse, UsersResponse,
    VerificationResponse,
};
pub use rating::calculate_elo;
pub use state::{ChessGame, Color, MatchStatus, ProfileEntry, UserProfile};
