//! Typed rejection reasons. Every failing operation reports one of these,
//! with enough structure to tell the cases apart programmatically.
use vstd::prelude::*;

use crate::msg::GameStatus;

verus! {

#[derive(Debug, PartialEq)]
pub enum ContractError {
    /// A position-verification claim does not match the computed status.
    InvalidClaim { claimed: GameStatus, actual: GameStatus },
    /// The position encoding is malformed or structurally illegal.
    InvalidFen { fen: String },
    /// A square identifier is not a file `a`..`h` followed by a rank `1`..`8`.
    BadSquare {},
    /// A match with this id already exists.
    GameAlreadyExists { id: String },
    /// No match with this id exists.
    GameNotFound {},
    /// The caller is not one of the two participants.
    NotPlayerInGame {},
    /// It is the other side's turn to move.
    NotYourTurn {},
    /// The proposed move is rejected; the message says why.
    IllegalMove { error: String },
    /// The mover's clock ran out; the timeout loss has been committed.
    TimeExpired {},
    /// The match has already reached a terminal status.
    GameNotActive {},
    /// The caller already has an outstanding draw proposal.
    DrawAlreadyProposed {},
    /// There is no outstanding draw proposal.
    NoDrawProposal {},
    /// The proposer of a draw cannot answer it.
    CannotRespondToOwnProposal {},
}

} // verus!
