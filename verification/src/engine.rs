//! The position engine: parsing, classification and move application for
//! standard chess. The full rules of chess live in the `shakmaty` crate;
//! every call into it goes through a trusted wrapper whose contract is
//! stated over named results, and everything around the calls is verified.
use vstd::prelude::*;

use shakmaty::fen::Fen;
use shakmaty::san::SanPlus;
use shakmaty::{CastlingMode, Chess, EnPassantMode, Move, Position, Role, Square};

use crate::error::ContractError;
use crate::msg::{GameStatus, MoveValidationResponse, VerificationResponse};

verus! {

/// Whether a position encoding is well formed and structurally legal
/// under standard castling rules.
pub uninterp spec fn fen_parses(fen: Seq<char>) -> bool;

/// Whether the side to move is in check.
pub uninterp spec fn in_check_of(fen: Seq<char>) -> bool;

/// Every legal move of the position, in standard algebraic notation.
pub uninterp spec fn legal_moves_of(fen: Seq<char>) -> Seq<Seq<char>>;

/// Whether neither side retains enough material to force checkmate.
pub uninterp spec fn insufficient_material_of(fen: Seq<char>) -> bool;

/// Whether a piece stands on the given square.
pub uninterp spec fn occupied_of(fen: Seq<char>, sq: Seq<char>) -> bool;

/// The encoding of the position after playing `from`-`to` (with the given
/// promotion piece, if any), or `None` if that move is illegal.
pub uninterp spec fn move_result_of(
    fen: Seq<char>,
    from: Seq<char>,
    to: Seq<char>,
    promo: Option<char>,
) -> Option<Seq<char>>;

/// Relies on `Fen::from_ascii` and `Fen::into_position` with standard
/// castling: together they accept exactly the well-formed encodings of
/// structurally legal positions.
#[verifier::external_body]
fn fen_ok(fen: &str) -> (r: bool)
    ensures
        r == fen_parses(fen@),
{
    fen.parse::<Fen>().ok().and_then(|f| f.into_position::<Chess>(CastlingMode::Standard).ok()).is_some()
}

/// Relies on `Position::checkers` over the parsed position: the bitboard
/// of checkers is non-empty exactly when the side to move is in check.
#[verifier::external_body]
fn position_in_check(fen: &str) -> (r: bool)
    requires
        fen_parses(fen@),
    ensures
        r == in_check_of(fen@),
{
    let pos: Chess = fen.parse::<Fen>().unwrap().into_position(CastlingMode::Standard).unwrap();
    pos.checkers().any()
}

/// Relies on `Position::legal_moves` over the parsed position, each move
/// rendered through `SanPlus::from_move`: the result depends on the
/// encoding alone.
#[verifier::external_body]
fn position_legal_moves(fen: &str) -> (r: Vec<String>)
    requires
        fen_parses(fen@),
    ensures
        r@.len() == legal_moves_of(fen@).len(),
        forall|i: int| 0 <= i < r@.len() ==> r@[i]@ == legal_moves_of(fen@)[i],
{
    let pos: Chess = fen.parse::<Fen>().unwrap().into_position(CastlingMode::Standard).unwrap();
    let mut out: Vec<String> = Vec::new();
    for m in pos.legal_moves().iter() {
        out.push(SanPlus::from_move(pos.clone(), m).to_string());
    }
    out
}

/// Relies on `Position::is_insufficient_material` over the parsed
/// position.
#[verifier::external_body]
fn position_insufficient(fen: &str) -> (r: bool)
    requires
        fen_parses(fen@),
    ensures
        r == insufficient_material_of(fen@),
{
    let pos: Chess = fen.parse::<Fen>().unwrap().into_position(CastlingMode::Standard).unwrap();
    pos.is_insufficient_material()
}

/// Relies on `Board::piece_at` over the parsed position.
#[verifier::external_body]
fn position_square_occupied(fen: &str, sq: &str) -> (r: bool)
    requires
        fen_parses(fen@),
        is_square_name(sq@),
    ensures
        r == occupied_of(fen@, sq@),
{
    let pos: Chess = fen.parse::<Fen>().unwrap().into_position(CastlingMode::Standard).unwrap();
    let s: Square = sq.parse().unwrap();
    pos.board().piece_at(s).is_some()
}

/// Relies on `Position::is_legal`, `Position::play_unchecked` and
/// `Fen::from_position`: the move built from the occupant of `from`, the
/// occupant of `to` as capture, and the promotion piece, is tested and, if
/// legal, played. The encoding records the en-passant target after every
/// double pawn push, as the classical encoding convention asks. Playing a
/// legal move flips the side to move, so the resulting encoding parses
/// and cannot equal the input.
#[verifier::external_body]
fn position_play(fen: &str, from: &str, to: &str, promo: Option<char>) -> (r: Option<String>)
    requires
        fen_parses(fen@),
        is_square_name(from@),
        is_square_name(to@),
        occupied_of(fen@, from@),
        promo matches Some(c) ==> c == 'q' || c == 'r' || c == 'b' || c == 'n',
    ensures
        r.is_some() == move_result_of(fen@, from@, to@, promo).is_some(),
        r matches Some(f2) ==> move_result_of(fen@, from@, to@, promo) == Some(f2@)
            && fen_parses(f2@) && f2@ != fen@,
{
    let mut pos: Chess = fen.parse::<Fen>().unwrap().into_position(CastlingMode::Standard).unwrap();
    let from_sq: Square = from.parse().unwrap();
    let to_sq: Square = to.parse().unwrap();
    let role = pos.board().piece_at(from_sq).unwrap().role;
    let capture = pos.board().piece_at(to_sq).map(|p| p.role);
    let promotion = promo.map(|c| Role::from_char(c).unwrap());
    let m = Move::Normal { role, from: from_sq, capture, to: to_sq, promotion };
    if pos.is_legal(&m) {
        pos.play_unchecked(&m);
        Some(Fen::from_position(pos, EnPassantMode::Always).to_string())
    } else {
        None
    }
}

/// A valid square identifier: a file `a`..`h` followed by a rank `1`..`8`.
pub open spec fn is_square_name(s: Seq<char>) -> bool {
    s.len() == 2 && 'a' <= s[0] && s[0] <= 'h' && '1' <= s[1] && s[1] <= '8'
}

/// Decides `is_square_name`.
pub fn check_square_name(s: &str) -> (r: bool)
    ensures
        r == is_square_name(s@),
{
    let n = s.unicode_len();
    if n != 2 {
        return false;
    }
    let c0 = s.get_char(0);
    let c1 = s.get_char(1);
    'a' <= c0 && c0 <= 'h' && '1' <= c1 && c1 <= '8'
}

/// The promotion piece a given string names: one of `q`, `r`, `b`, `n`,
/// in either case; anything else is not a promotion piece.
pub open spec fn promo_code_of(s: Seq<char>) -> Option<char> {
    if s.len() == 1 {
        let c = s[0];
        if c == 'q' || c == 'Q' {
            Some('q')
        } else if c == 'r' || c == 'R' {
            Some('r')
        } else if c == 'b' || c == 'B' {
            Some('b')
        } else if c == 'n' || c == 'N' {
            Some('n')
        } else {
            None
        }
    } else {
        None
    }
}

/// Decides `promo_code_of`.
pub fn parse_promotion(s: &str) -> (r: Option<char>)
    ensures
        r == promo_code_of(s@),
{
    let n = s.unicode_len();
    if n != 1 {
        return None;
    }
    let c = s.get_char(0);
    if c == 'q' || c == 'Q' {
        Some('q')
    } else if c == 'r' || c == 'R' {
        Some('r')
    } else if c == 'b' || c == 'B' {
        Some('b')
    } else if c == 'n' || c == 'N' {
        Some('n')
    } else {
        None
    }
}

/// Classification of a position: checkmate or stalemate when no legal
/// move exists (told apart by check), else drawn on insufficient
/// material, else active. Emptiness of the legal-move set takes
/// precedence over insufficient material.
pub open spec fn classify_of(fen: Seq<char>) -> GameStatus {
    if legal_moves_of(fen).len() == 0 {
        if in_check_of(fen) {
            GameStatus::Checkmate
        } else {
            GameStatus::Stalemate
        }
    } else if insufficient_material_of(fen) {
        GameStatus::Draw
    } else {
        GameStatus::Active
    }
}

/// Law: the four classifications are exhaustive and mutually exclusive;
/// checkmate and stalemate both require an empty legal-move set and
/// differ only in check status.
pub proof fn lemma_classify_exclusive(fen: Seq<char>)
    ensures
        (classify_of(fen) is Checkmate) <==> (legal_moves_of(fen).len() == 0 && in_check_of(fen)),
        (classify_of(fen) is Stalemate) <==> (legal_moves_of(fen).len() == 0 && !in_check_of(fen)),
        (classify_of(fen) is Draw) <==> (legal_moves_of(fen).len() > 0 && insufficient_material_of(fen)),
        (classify_of(fen) is Active) <==> (legal_moves_of(fen).len() > 0 && !insufficient_material_of(fen)),
{
}

/// Parses and classifies a position: its status, whether the side to
/// move is in check, and all legal moves in standard notation.
pub fn verify_position_internal(fen: String) -> (r: Result<VerificationResponse, ContractError>)
    ensures
        r.is_ok() == fen_parses(fen@),
        r matches Ok(v) ==> v.status == classify_of(fen@)
            && v.is_check == in_check_of(fen@)
            && v.legal_moves@.len() == legal_moves_of(fen@).len()
            && (forall|i: int| 0 <= i < v.legal_moves@.len()
                    ==> v.legal_moves@[i]@ == legal_moves_of(fen@)[i]),
        r matches Err(e) ==> (e matches ContractError::InvalidFen { fen: f } && f@ == fen@),
{
    if !fen_ok(fen.as_str()) {
        return Err(ContractError::InvalidFen { fen });
    }
    let is_check = position_in_check(fen.as_str());
    let legal_moves = position_legal_moves(fen.as_str());
    let status = if legal_moves.len() == 0 {
        if is_check {
            GameStatus::Checkmate
        } else {
            GameStatus::Stalemate
        }
    } else if position_insufficient(fen.as_str()) {
        GameStatus::Draw
    } else {
        GameStatus::Active
    };
    Ok(VerificationResponse { status, is_check, legal_moves })
}

/// Verifies a position against a claimed status, rejecting a claim that
/// does not match the computed classification.
pub fn verify_position(fen: String, claimed_status: GameStatus) -> (r: Result<
    VerificationResponse,
    ContractError,
>)
    ensures
        r.is_ok() == (fen_parses(fen@) && claimed_status == classify_of(fen@)),
        r matches Ok(v) ==> v.status == classify_of(fen@) && v.is_check == in_check_of(fen@)
            && v.legal_moves@.len() == legal_moves_of(fen@).len() && (forall|i: int|
            0 <= i < v.legal_moves@.len() ==> v.legal_moves@[i]@ == legal_moves_of(fen@)[i]),
        !fen_parses(fen@) ==> (r matches Err(e) && e matches ContractError::InvalidFen { fen: f }
            && f@ == fen@),
        fen_parses(fen@) && claimed_status != classify_of(fen@) ==> (r matches Err(e) && e
            == (ContractError::InvalidClaim {
            claimed: claimed_status,
            actual: classify_of(fen@),
        })),
{
    let verification = match verify_position_internal(fen) {
        Ok(v) => v,
        Err(e) => {
            return Err(e);
        },
    };
    if claimed_status != verification.status {
        return Err(ContractError::InvalidClaim {
            claimed: claimed_status,
            actual: verification.status,
        });
    }
    Ok(verification)
}

/// What a successful validation answered, by case: an unacceptable
/// promotion piece, an empty source square and an illegal move are
/// reported in the response; a legal move yields the resulting encoding,
/// which always differs from the input encoding.
pub open spec fn validate_ok_post(
    cf: Seq<char>,
    from: Seq<char>,
    to: Seq<char>,
    promo: Option<Option<char>>,
    v: MoveValidationResponse,
) -> bool {
    match promo {
        None => rejected_with(v, "Invalid promotion piece"@),
        Some(code) => if !occupied_of(cf, from) {
            rejected_with(v, "No piece at from square"@)
        } else {
            match move_result_of(cf, from, to, code) {
                None => rejected_with(v, "Illegal move"@),
                Some(f2) => v.is_valid && v.error is None && (v.resulting_fen matches Some(rf)
                    && rf@ == f2 && rf@ != cf && fen_parses(rf@)),
            }
        },
    }
}

/// A response that rejects the move with the given message.
pub open spec fn rejected_with(v: MoveValidationResponse, m: Seq<char>) -> bool {
    !v.is_valid && v.resulting_fen is None && (v.error matches Some(e) && e@ == m)
}

/// The view of an optional string.
pub open spec fn opt_view(p: Option<String>) -> Option<Seq<char>> {
    match p {
        Some(s) => Some(s@),
        None => None,
    }
}

/// The promotion argument, screened: `Some(code)` when acceptable
/// (`None` code for no promotion), `None` when an unacceptable piece was
/// named.
pub open spec fn promo_choice(p: Option<Seq<char>>) -> Option<Option<char>> {
    match p {
        None => Some(None),
        Some(s) => match promo_code_of(s) {
            Some(c) => Some(Some(c)),
            None => None,
        },
    }
}

/// Decides legality of a proposed move against the full rules of chess
/// and, when legal, returns the resulting position encoding. Pure: no
/// state is read or written.
pub fn validate_move(
    current_fen: String,
    move_from: String,
    move_to: String,
    promotion: Option<String>,
) -> (r: Result<MoveValidationResponse, ContractError>)
    ensures
        r.is_ok() == (fen_parses(current_fen@) && is_square_name(move_from@) && is_square_name(
            move_to@,
        )),
        !fen_parses(current_fen@) ==> (r matches Err(e)
            && e matches ContractError::InvalidFen { fen: f } && f@ == current_fen@),
        fen_parses(current_fen@) && !(is_square_name(move_from@) && is_square_name(move_to@))
            ==> (r matches Err(e) && e is BadSquare),
        r matches Ok(v) ==> validate_ok_post(
            current_fen@,
            move_from@,
            move_to@,
            promo_choice(opt_view(promotion)),
            v,
        ),
{
    if !fen_ok(current_fen.as_str()) {
        return Err(ContractError::InvalidFen { fen: current_fen });
    }
    if !check_square_name(move_from.as_str()) || !check_square_name(move_to.as_str()) {
        return Err(ContractError::BadSquare {});
    }
    let code: Option<char> = match &promotion {
        Some(p) => {
            match parse_promotion(p.as_str()) {
                Some(c) => Some(c),
                None => {
                    return Ok(MoveValidationResponse {
                        is_valid: false,
                        resulting_fen: None,
                        error: Some(String::from_str("Invalid promotion piece")),
                    });
                },
            }
        },
        None => None,
    };
    if !position_square_occupied(current_fen.as_str(), move_from.as_str()) {
        return Ok(MoveValidationResponse {
            is_valid: false,
            resulting_fen: None,
            error: Some(String::from_str("No piece at from square")),
        });
    }
    match position_play(current_fen.as_str(), move_from.as_str(), move_to.as_str(), code) {
        Some(f2) => Ok(MoveValidationResponse {
            is_valid: true,
            resulting_fen: Some(f2),
            error: None,
        }),
        None => Ok(MoveValidationResponse {
            is_valid: false,
            resulting_fen: None,
            error: Some(String::from_str("Illegal move")),
        }),
    }
}

} // verus!
