//! The data model: player profiles and match records, with their
//! mathematical views and well-formedness conditions.
use vstd::prelude::*;

verus! {

/// A side of the board; also identifies which participant moves next.
#[derive(Debug, PartialEq, Eq, Structural, Clone, Copy)]
pub enum Color {
    White,
    Black,
}

impl Color {
    pub fn opposite(self) -> (r: Color)
        ensures
            r == self.spec_opposite(),
    {
        match self {
            Color::White => Color::Black,
            Color::Black => Color::White,
        }
    }

    pub open spec fn spec_opposite(self) -> Color {
        match self {
            Color::White => Color::Black,
            Color::Black => Color::White,
        }
    }
}

/// Lifecycle of a match. `Active` may move to any of the three terminal
/// statuses; a terminal status never changes again.
#[derive(Debug, PartialEq, Eq, Structural, Clone, Copy)]
pub enum MatchStatus {
    Active,
    WhiteWon,
    BlackWon,
    Draw,
}

/// A player's aggregate record.
#[derive(Debug)]
pub struct UserProfile {
    pub username: String,
    pub elo: u32,
    pub games_played: u32,
    pub wins: u32,
    pub draws: u32,
    pub losses: u32,
    /// Ids of the matches this player is currently part of.
    pub current_games: Vec<String>,
    /// Tick at which the profile was created.
    pub created_at: u64,
}

/// Mathematical image of a `UserProfile`.
pub ghost struct UserProfileV {
    pub username: Seq<char>,
    pub elo: u32,
    pub games_played: u32,
    pub wins: u32,
    pub draws: u32,
    pub losses: u32,
    pub current_games: Seq<Seq<char>>,
    pub created_at: u64,
}

impl View for UserProfile {
    type V = UserProfileV;

    open spec fn view(&self) -> UserProfileV {
        UserProfileV {
            username: self.username@,
            elo: self.elo,
            games_played: self.games_played,
            wins: self.wins,
            draws: self.draws,
            losses: self.losses,
            current_games: self.current_games@.map_values(|s: String| s@),
            created_at: self.created_at,
        }
    }
}

/// The profile a player starts with: rating 1200 and no history.
pub open spec fn fresh_profile(username: Seq<char>, created_at: u64) -> UserProfileV {
    UserProfileV {
        username,
        elo: 1200,
        games_played: 0,
        wins: 0,
        draws: 0,
        losses: 0,
        current_games: Seq::<Seq<char>>::empty(),
        created_at,
    }
}

impl Default for UserProfile {
    /// A blank record at the starting rating of 1200.
    fn default() -> (d: UserProfile)
        ensures
            d@ == fresh_profile(Seq::<char>::empty(), 0),
    {
        UserProfile::fresh(String::new(), 0)
    }
}

impl UserProfile {
    /// The profile a player starts with: rating 1200 and no history.
    pub fn fresh(username: String, created_at: u64) -> (r: UserProfile)
        ensures
            r@ == fresh_profile(username@, created_at),
    {
        let r = UserProfile {
            username,
            elo: 1200,
            games_played: 0,
            wins: 0,
            draws: 0,
            losses: 0,
            current_games: Vec::new(),
            created_at,
        };
        proof {
            assert(r.current_games@.map_values(|s: String| s@) =~= Seq::<Seq<char>>::empty());
        }
        r
    }

    pub fn duplicate(&self) -> (r: UserProfile)
        ensures
            r@ == self@,
    {
        let r = UserProfile {
            username: self.username.clone(),
            elo: self.elo,
            games_played: self.games_played,
            wins: self.wins,
            draws: self.draws,
            losses: self.losses,
            current_games: clone_string_vec(&self.current_games),
            created_at: self.created_at,
        };
        r
    }
}

/// A match record.
#[derive(Debug)]
pub struct ChessGame {
    pub id: String,
    /// Player id of the white side.
    pub white: String,
    /// Player id of the black side.
    pub black: String,
    /// Ordered move log; each entry is the source square, the target
    /// square and any promotion piece, concatenated.
    pub moves: Vec<String>,
    /// Encoding of the current position.
    pub current_fen: String,
    pub status: MatchStatus,
    pub current_turn: Color,
    /// Tick of the most recent successful move (or of creation).
    pub last_move_block: u64,
    /// Ticks remaining on white's clock.
    pub white_time_remaining: u64,
    /// Ticks remaining on black's clock.
    pub black_time_remaining: u64,
    pub created_block: u64,
    pub claim_block: Option<u64>,
    /// Free-form label of the time control, kept as given at creation.
    pub time_control: String,
    /// Number of successful moves made so far.
    pub move_count: u32,
    /// Player id of whoever has an outstanding draw proposal.
    pub draw_proposed_by: Option<String>,
}

/// Mathematical image of a `ChessGame`.
pub ghost struct ChessGameV {
    pub id: Seq<char>,
    pub white: Seq<char>,
    pub black: Seq<char>,
    pub moves: Seq<Seq<char>>,
    pub current_fen: Seq<char>,
    pub status: MatchStatus,
    pub current_turn: Color,
    pub last_move_block: u64,
    pub white_time_remaining: u64,
    pub black_time_remaining: u64,
    pub created_block: u64,
    pub claim_block: Option<u64>,
    pub time_control: Seq<char>,
    pub move_count: u32,
    pub draw_proposed_by: Option<Seq<char>>,
}

impl View for ChessGame {
    type V = ChessGameV;

    open spec fn view(&self) -> ChessGameV {
        ChessGameV {
            id: self.id@,
            white: self.white@,
            black: self.black@,
            moves: self.moves@.map_values(|s: String| s@),
            current_fen: self.current_fen@,
            status: self.status,
            current_turn: self.current_turn,
            last_move_block: self.last_move_block,
            white_time_remaining: self.white_time_remaining,
            black_time_remaining: self.black_time_remaining,
            created_block: self.created_block,
            claim_block: self.claim_block,
            time_control: self.time_control@,
            move_count: self.move_count,
            draw_proposed_by: match self.draw_proposed_by {
                Some(ref a) => Some(a@),
                None => None,
            },
        }
    }
}

impl ChessGame {
    pub fn duplicate(&self) -> (r: ChessGame)
        ensures
            r@ == self@,
    {
        let r = ChessGame {
            id: self.id.clone(),
            white: self.white.clone(),
            black: self.black.clone(),
            moves: clone_string_vec(&self.moves),
            current_fen: self.current_fen.clone(),
            status: self.status,
            current_turn: self.current_turn,
            last_move_block: self.last_move_block,
            white_time_remaining: self.white_time_remaining,
            black_time_remaining: self.black_time_remaining,
            created_block: self.created_block,
            claim_block: self.claim_block,
            time_control: self.time_control.clone(),
            move_count: self.move_count,
            draw_proposed_by: match self.draw_proposed_by {
                Some(ref a) => Some(a.clone()),
                None => None,
            },
        };
        r
    }
}

impl ChessGameV {
    pub open spec fn is_participant(self, addr: Seq<char>) -> bool {
        addr == self.white || addr == self.black
    }

    /// Remaining clock of one side.
    pub open spec fn clock_of(self, side: Color) -> u64 {
        match side {
            Color::White => self.white_time_remaining,
            Color::Black => self.black_time_remaining,
        }
    }
}

/// Well-formedness of one match record: while the match is active the
/// side to move matches the parity of the move counter (up to the
/// counter's ceiling), and any draw proposer is a participant.
pub open spec fn game_wf(g: ChessGameV) -> bool {
    &&& (g.status is Active && g.move_count < u32::MAX ==> ((g.current_turn is White) <==> (
    g.move_count % 2 == 0)))
    &&& (g.draw_proposed_by matches Some(a) ==> a == g.white || a == g.black)
}

/// A profile store entry: the player id and the profile under it.
#[derive(Debug)]
pub struct ProfileEntry {
    pub addr: String,
    pub profile: UserProfile,
}

pub ghost struct ProfileEntryV {
    pub addr: Seq<char>,
    pub profile: UserProfileV,
}

impl View for ProfileEntry {
    type V = ProfileEntryV;

    open spec fn view(&self) -> ProfileEntryV {
        ProfileEntryV { addr: self.addr@, profile: self.profile@ }
    }
}

/// Compares two ids character for character.
pub fn str_eq(a: &String, b: &String) -> (r: bool)
    ensures
        r == (a@ == b@),
{
    a.eq(b)
}

/// Copies a vector of strings.
pub fn clone_string_vec(v: &Vec<String>) -> (r: Vec<String>)
    ensures
        r@ == v@,
{
    let mut r: Vec<String> = Vec::new();
    let mut i: usize = 0;
    while i < v.len()
        invariant
            i <= v.len(),
            r@ == v@.subrange(0, i as int),
        decreases v.len() - i,
    {
        r.push(v[i].clone());
        proof {
            assert(r@ =~= v@.subrange(0, i + 1 as int));
        }
        i += 1;
    }
    proof {
        assert(r@ =~= v@);
    }
    r
}

} // verus!
