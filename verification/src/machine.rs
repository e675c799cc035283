//! The match state machine and the profile ledger. The whole persistent
//! state — every match record and every player profile — lives in one
//! value, and each operation is an atomic transition on it with a typed
//! result.
use vstd::prelude::*;

use crate::engine;
use crate::error::ContractError;
use crate::rating::calculate_elo;
use crate::msg::{
    GameIdsResponse, GameResponse, GameStatus, GamesResponse, TimeStatusResponse,
    UserProfileResponse, UsersResponse,
};
use crate::state::{
    fresh_profile, game_wf, str_eq, ChessGame, ChessGameV, Color, MatchStatus, ProfileEntry,
    ProfileEntryV, UserProfile, UserProfileV,
};

verus! {

/// The whole persistent state: all match records and all profiles, each
/// in creation order.
pub struct ChessState {
    games: Vec<ChessGame>,
    profiles: Vec<ProfileEntry>,
}

/// Mathematical image of the whole state.
pub ghost struct ChessStateV {
    pub games: Seq<ChessGameV>,
    pub profiles: Seq<ProfileEntryV>,
}

impl View for ChessState {
    type V = ChessStateV;

    closed spec fn view(&self) -> ChessStateV {
        ChessStateV {
            games: self.games@.map_values(|g: ChessGame| g@),
            profiles: self.profiles@.map_values(|e: ProfileEntry| e@),
        }
    }
}

pub open spec fn has_game(gs: Seq<ChessGameV>, id: Seq<char>) -> bool {
    exists|i: int| 0 <= i < gs.len() && gs[i].id == id
}

pub open spec fn game_index(gs: Seq<ChessGameV>, id: Seq<char>) -> int {
    choose|i: int| 0 <= i < gs.len() && gs[i].id == id
}

pub open spec fn game_at(gs: Seq<ChessGameV>, id: Seq<char>) -> ChessGameV {
    gs[game_index(gs, id)]
}

pub open spec fn unique_game_ids(gs: Seq<ChessGameV>) -> bool {
    forall|i: int, j: int| 0 <= i < j < gs.len() ==> gs[i].id != gs[j].id
}

pub open spec fn has_profile(ps: Seq<ProfileEntryV>, addr: Seq<char>) -> bool {
    exists|i: int| 0 <= i < ps.len() && ps[i].addr == addr
}

pub open spec fn profile_index(ps: Seq<ProfileEntryV>, addr: Seq<char>) -> int {
    choose|i: int| 0 <= i < ps.len() && ps[i].addr == addr
}

pub open spec fn profile_at(ps: Seq<ProfileEntryV>, addr: Seq<char>) -> UserProfileV {
    ps[profile_index(ps, addr)].profile
}

pub open spec fn unique_profile_addrs(ps: Seq<ProfileEntryV>) -> bool {
    forall|i: int, j: int| 0 <= i < j < ps.len() ==> ps[i].addr != ps[j].addr
}

/// Saturating increment of a counter.
pub open spec fn sat_inc(x: u32) -> u32 {
    if x == u32::MAX {
        u32::MAX
    } else {
        (x + 1) as u32
    }
}

/// A profile's counters are consistent: games played is the sum of wins,
/// draws and losses (saturating at the counter ceiling).
pub open spec fn counts_ok(p: UserProfileV) -> bool {
    p.games_played as int == if p.wins as int + p.draws as int + p.losses as int > u32::MAX as int {
        u32::MAX as int
    } else {
        p.wins as int + p.draws as int + p.losses as int
    }
}

/// An id listed in a profile's current games refers to an existing,
/// still-active match in which that player takes part.
pub open spec fn listed_ok(gs: Seq<ChessGameV>, addr: Seq<char>, id: Seq<char>) -> bool {
    has_game(gs, id) && game_at(gs, id).status is Active && game_at(gs, id).is_participant(addr)
}

pub open spec fn profile_wf(e: ProfileEntryV, gs: Seq<ChessGameV>) -> bool {
    counts_ok(e.profile) && (forall|j: int|
        0 <= j < e.profile.current_games.len() ==> listed_ok(
            gs,
            e.addr,
            #[trigger] e.profile.current_games[j],
        ))
}

/// The profile under this player id exists and lists the given match id
/// among its current games.
pub open spec fn profile_lists(ps: Seq<ProfileEntryV>, addr: Seq<char>, id: Seq<char>) -> bool {
    has_profile(ps, addr) && profile_at(ps, addr).current_games.contains(id)
}

/// Well-formedness of the whole state: ids and player addresses are
/// unique keys, every match record is well formed, both participants of
/// every match have a profile, every profile's current-game list points
/// only at active matches of that player, and — the other direction —
/// every active match stands in both participants' current-game lists.
pub open spec fn state_wf(s: ChessStateV) -> bool {
    &&& unique_game_ids(s.games)
    &&& unique_profile_addrs(s.profiles)
    &&& (forall|i: int| 0 <= i < s.games.len() ==> game_wf(#[trigger] s.games[i]))
    &&& (forall|i: int|
        0 <= i < s.games.len() ==> has_profile(s.profiles, (#[trigger] s.games[i]).white)
            && has_profile(s.profiles, s.games[i].black))
    &&& (forall|i: int| 0 <= i < s.profiles.len() ==> profile_wf(#[trigger] s.profiles[i], s.games))
    &&& (forall|i: int|
        0 <= i < s.games.len() && (#[trigger] s.games[i]).status is Active ==> profile_lists(
            s.profiles,
            s.games[i].white,
            s.games[i].id,
        ) && profile_lists(s.profiles, s.games[i].black, s.games[i].id))
}

/// The profile store after writing `p` under `addr`: the existing entry
/// is replaced, or a new entry is appended.
pub open spec fn put_profile_spec(
    ps: Seq<ProfileEntryV>,
    addr: Seq<char>,
    p: UserProfileV,
) -> Seq<ProfileEntryV> {
    if has_profile(ps, addr) {
        ps.update(profile_index(ps, addr), ProfileEntryV { addr, profile: p })
    } else {
        ps.push(ProfileEntryV { addr, profile: p })
    }
}

/// The profile an initialize writes: a fresh one on first contact, or
/// the existing one with its display name replaced when a non-empty name
/// is given.
pub open spec fn init_user_profile(
    ps: Seq<ProfileEntryV>,
    addr: Seq<char>,
    username: Seq<char>,
    now: u64,
) -> UserProfileV {
    if has_profile(ps, addr) {
        let p = profile_at(ps, addr);
        UserProfileV { username: if username.len() > 0 {
            username
        } else {
            p.username
        }, ..p }
    } else {
        fresh_profile(username, now)
    }
}

/// A current-game list with every occurrence of `id` removed, order
/// kept.
pub open spec fn drop_game_id(cg: Seq<Seq<char>>, id: Seq<char>) -> Seq<Seq<char>>
    decreases cg.len(),
{
    if cg.len() == 0 {
        Seq::empty()
    } else {
        let rest = drop_game_id(cg.drop_last(), id);
        if cg.last() == id {
            rest
        } else {
            rest.push(cg.last())
        }
    }
}

/// Exactly the ids other than the removed one survive the removal: each
/// survivor stood in the old list, and each old id other than the
/// removed one still stands in the new list.
pub proof fn lemma_drop_game_id(cg: Seq<Seq<char>>, id: Seq<char>)
    ensures
        forall|j: int|
            0 <= j < drop_game_id(cg, id).len() ==> (#[trigger] drop_game_id(cg, id)[j]) != id
                && cg.contains(drop_game_id(cg, id)[j]),
        forall|j: int|
            0 <= j < cg.len() && (#[trigger] cg[j]) != id ==> drop_game_id(cg, id).contains(cg[j]),
    decreases cg.len(),
{
    if cg.len() > 0 {
        lemma_drop_game_id(cg.drop_last(), id);
        let out = drop_game_id(cg, id);
        let rest = drop_game_id(cg.drop_last(), id);
        assert forall|j: int| 0 <= j < out.len() implies out[j] != id && cg.contains(out[j]) by {
            if j < rest.len() {
                assert(out[j] == rest[j]);
                let k = choose|k: int|
                    0 <= k < cg.drop_last().len() && cg.drop_last()[k] == rest[j];
                assert(cg[k] == rest[j]);
            } else {
                assert(out[j] == cg.last());
                assert(cg[cg.len() - 1] == cg.last());
            }
        }
        assert forall|j: int| 0 <= j < cg.len() && cg[j] != id implies out.contains(cg[j]) by {
            if j < cg.len() - 1 {
                assert(cg.drop_last()[j] == cg[j]);
                assert(rest.contains(cg[j]));
                let k = choose|k: int| 0 <= k < rest.len() && rest[k] == cg[j];
                assert(out[k] == cg[j]);
            } else {
                assert(cg.last() == cg[j]);
                assert(out[out.len() - 1] == cg[j]);
            }
        }
    }
}

/// One side's profile after a finished match: the given new rating, the
/// counters stepped for the outcome, and the match id dropped from the
/// current-game list.
pub open spec fn settled_profile(
    p: UserProfileV,
    new_elo: u32,
    won: bool,
    lost: bool,
    id: Seq<char>,
) -> UserProfileV {
    UserProfileV {
        username: p.username,
        elo: new_elo,
        games_played: sat_inc(p.games_played),
        wins: if won {
            sat_inc(p.wins)
        } else {
            p.wins
        },
        draws: if !won && !lost {
            sat_inc(p.draws)
        } else {
            p.draws
        },
        losses: if lost {
            sat_inc(p.losses)
        } else {
            p.losses
        },
        current_games: drop_game_id(p.current_games, id),
        created_at: p.created_at,
    }
}

/// The new (white, black) ratings for an outcome, oriented so that the
/// winner side of `spec_calculate_elo` is the actual winner.
pub open spec fn pair_elos(we: u32, be: u32, white_won: bool, is_draw: bool) -> (u32, u32) {
    if is_draw {
        let r = crate::rating::spec_calculate_elo(we as int, be as int, true);
        (r.0 as u32, r.1 as u32)
    } else if white_won {
        let r = crate::rating::spec_calculate_elo(we as int, be as int, false);
        (r.0 as u32, r.1 as u32)
    } else {
        let r = crate::rating::spec_calculate_elo(be as int, we as int, false);
        (r.1 as u32, r.0 as u32)
    }
}

/// The profile ledger after a match ends: both participants' profiles
/// are read, rated and stepped, then written white first, black second
/// (so with one player on both sides, the black-oriented write is the
/// one that lasts, as a read-both-then-write-both sequence leaves it).
pub open spec fn settle_outcome(
    ps: Seq<ProfileEntryV>,
    g: ChessGameV,
    white_won: bool,
    black_won: bool,
    is_draw: bool,
) -> Seq<ProfileEntryV> {
    let wi = profile_index(ps, g.white);
    let bi = profile_index(ps, g.black);
    let wp = ps[wi].profile;
    let bp = ps[bi].profile;
    let elos = pair_elos(wp.elo, bp.elo, white_won, is_draw);
    let wp2 = settled_profile(wp, elos.0, white_won, black_won, g.id);
    let bp2 = settled_profile(bp, elos.1, black_won, white_won, g.id);
    ps.update(wi, ProfileEntryV { addr: g.white, profile: wp2 }).update(
        bi,
        ProfileEntryV { addr: g.black, profile: bp2 },
    )
}

/// How a write under one address reads back: that address now holds `p`,
/// every other address is untouched, and uniqueness is preserved.
pub proof fn lemma_put_profile(ps: Seq<ProfileEntryV>, addr: Seq<char>, p: UserProfileV)
    requires
        unique_profile_addrs(ps),
    ensures
        unique_profile_addrs(put_profile_spec(ps, addr, p)),
        forall|a2: Seq<char>|
            #[trigger] has_profile(put_profile_spec(ps, addr, p), a2) == (has_profile(ps, a2) || a2
                == addr),
        profile_at(put_profile_spec(ps, addr, p), addr) == p,
        forall|a2: Seq<char>|
            a2 != addr && #[trigger] has_profile(ps, a2) ==> profile_at(
                put_profile_spec(ps, addr, p),
                a2,
            ) == profile_at(ps, a2),
        forall|k: int|
            0 <= k < put_profile_spec(ps, addr, p).len() ==> (
            #[trigger] put_profile_spec(ps, addr, p)[k] == ProfileEntryV { addr, profile: p } || (0
                <= k < ps.len() && put_profile_spec(ps, addr, p)[k] == ps[k] && ps[k].addr
                != addr)),
{
    let out = put_profile_spec(ps, addr, p);
    if has_profile(ps, addr) {
        let i = profile_index(ps, addr);
        assert(0 <= i < ps.len() && ps[i].addr == addr);
        assert forall|a2: Seq<char>| #[trigger]
            has_profile(out, a2) implies (has_profile(ps, a2) || a2 == addr) by {
            let k = choose|k: int| 0 <= k < out.len() && out[k].addr == a2;
            if k != i {
                assert(ps[k].addr == a2);
            }
        }
        assert forall|a2: Seq<char>| (has_profile(ps, a2) || a2 == addr) implies #[trigger]
            has_profile(out, a2) by {
            if a2 == addr {
                assert(out[i].addr == a2);
            } else {
                let k = choose|k: int| 0 <= k < ps.len() && ps[k].addr == a2;
                assert(out[k].addr == a2);
            }
        }
        lemma_profile_at(out, addr, i);
        assert forall|a2: Seq<char>|
            a2 != addr && #[trigger] has_profile(ps, a2) implies profile_at(out, a2)
            == profile_at(ps, a2) by {
            let k = profile_index(ps, a2);
            assert(0 <= k < ps.len() && ps[k].addr == a2);
            assert(k != i);
            lemma_profile_at(out, a2, k);
        }
        assert forall|k: int| 0 <= k < out.len() && k != i implies ps[k].addr != addr by {
            if k < i {
                assert(ps[k].addr != ps[i].addr);
            } else {
                assert(ps[i].addr != ps[k].addr);
            }
        }
    } else {
        let i = ps.len() as int;
        assert(out[i].addr == addr);
        assert forall|k: int| 0 <= k < ps.len() implies ps[k].addr != addr by {
            assert(!(exists|j: int| 0 <= j < ps.len() && ps[j].addr == addr));
        }
        assert forall|a2: Seq<char>| #[trigger]
            has_profile(out, a2) implies (has_profile(ps, a2) || a2 == addr) by {
            let k = choose|k: int| 0 <= k < out.len() && out[k].addr == a2;
            if k != i {
                assert(ps[k].addr == a2);
            }
        }
        assert forall|a2: Seq<char>| (has_profile(ps, a2) || a2 == addr) implies #[trigger]
            has_profile(out, a2) by {
            if a2 == addr {
                assert(out[i].addr == a2);
            } else {
                let k = choose|k: int| 0 <= k < ps.len() && ps[k].addr == a2;
                assert(out[k].addr == a2);
            }
        }
        lemma_profile_at(out, addr, i);
        assert forall|a2: Seq<char>|
            a2 != addr && #[trigger] has_profile(ps, a2) implies profile_at(out, a2)
            == profile_at(ps, a2) by {
            let k = profile_index(ps, a2);
            assert(0 <= k < ps.len() && ps[k].addr == a2);
            lemma_profile_at(out, a2, k);
        }
    }
}

/// Pins the index found for a game id: under unique ids it is the index
/// the lookup functions speak of.
pub proof fn lemma_game_at(gs: Seq<ChessGameV>, id: Seq<char>, i: int)
    requires
        unique_game_ids(gs),
        0 <= i < gs.len(),
        gs[i].id == id,
    ensures
        has_game(gs, id),
        game_index(gs, id) == i,
        game_at(gs, id) == gs[i],
{
    assert(has_game(gs, id));
    let j = game_index(gs, id);
    if j != i {
        assert(gs[i].id != gs[j].id);
    }
}

/// Pins the index found for a player address, as `lemma_game_at` does
/// for a game id.
pub proof fn lemma_profile_at(ps: Seq<ProfileEntryV>, addr: Seq<char>, i: int)
    requires
        unique_profile_addrs(ps),
        0 <= i < ps.len(),
        ps[i].addr == addr,
    ensures
        has_profile(ps, addr),
        profile_index(ps, addr) == i,
        profile_at(ps, addr) == ps[i].profile,
{
    assert(has_profile(ps, addr));
    let j = profile_index(ps, addr);
    if j != i {
        assert(ps[i].addr != ps[j].addr);
    }
}

/// The encoding of the standard starting position.
pub open spec fn start_fen_view() -> Seq<char> {
    "rnbqkbnr/pppppppp/8/8/8/8/PPPPPPPP/RNBQKBNR w KQkq - 0 1"@
}

/// The initial clock budget of each side, in ticks.
pub open spec fn initial_time() -> u64 {
    172800
}

/// A newly created match: the starting position, white to move, both
/// clocks at the initial budget, an empty move log and no pending draw
/// proposal.
pub open spec fn fresh_game(
    id: Seq<char>,
    white: Seq<char>,
    black: Seq<char>,
    time_control: Seq<char>,
    now: u64,
) -> ChessGameV {
    ChessGameV {
        id,
        white,
        black,
        moves: Seq::empty(),
        current_fen: start_fen_view(),
        status: MatchStatus::Active,
        current_turn: Color::White,
        last_move_block: now,
        white_time_remaining: initial_time(),
        black_time_remaining: initial_time(),
        created_block: now,
        claim_block: None,
        time_control,
        move_count: 0,
        draw_proposed_by: None,
    }
}

/// What creating a match does: a duplicate id is refused; otherwise both
/// profiles are read (created fresh if absent, named after the player
/// id), the new match id is added to both current-game lists, white's
/// profile is written first and black's second, and the new record is
/// appended.
pub open spec fn create_post(
    s: ChessStateV,
    s2: ChessStateV,
    r: Result<(), ContractError>,
    now: u64,
    sender: Seq<char>,
    id: Seq<char>,
    opponent: Seq<char>,
    time_control: Seq<char>,
) -> bool {
    if has_game(s.games, id) {
        (r matches Err(e) && e matches ContractError::GameAlreadyExists { id: eid } && eid@ == id)
            && s2 == s
    } else {
        let wp0 = if has_profile(s.profiles, sender) {
            profile_at(s.profiles, sender)
        } else {
            fresh_profile(sender, now)
        };
        let bp0 = if has_profile(s.profiles, opponent) {
            profile_at(s.profiles, opponent)
        } else {
            fresh_profile(opponent, now)
        };
        let wp = UserProfileV { current_games: wp0.current_games.push(id), ..wp0 };
        let bp = UserProfileV { current_games: bp0.current_games.push(id), ..bp0 };
        r == Ok::<(), ContractError>(()) && s2.games == s.games.push(
            fresh_game(id, sender, opponent, time_control, now),
        ) && s2.profiles == put_profile_spec(
            put_profile_spec(s.profiles, sender, wp),
            opponent,
            bp,
        )
    }
}

/// How appending a match record with a new id reads back: the new id
/// yields it, every other id is untouched, and uniqueness is preserved.
pub proof fn lemma_game_push(gs: Seq<ChessGameV>, ng: ChessGameV)
    requires
        unique_game_ids(gs),
        !has_game(gs, ng.id),
    ensures
        unique_game_ids(gs.push(ng)),
        forall|id2: Seq<char>|
            #[trigger] has_game(gs.push(ng), id2) == (has_game(gs, id2) || id2 == ng.id),
        game_index(gs.push(ng), ng.id) == gs.len(),
        game_at(gs.push(ng), ng.id) == ng,
        forall|id2: Seq<char>|
            id2 != ng.id && #[trigger] has_game(gs, id2) ==> game_at(gs.push(ng), id2) == game_at(
                gs,
                id2,
            ),
{
    let out = gs.push(ng);
    let n = gs.len() as int;
    assert forall|k: int| 0 <= k < gs.len() implies gs[k].id != ng.id by {
        assert(!(exists|j: int| 0 <= j < gs.len() && gs[j].id == ng.id));
    }
    assert forall|id2: Seq<char>| #[trigger]
        has_game(out, id2) implies (has_game(gs, id2) || id2 == ng.id) by {
        let k = choose|k: int| 0 <= k < out.len() && out[k].id == id2;
        if k != n {
            assert(gs[k].id == id2);
        }
    }
    assert forall|id2: Seq<char>| (has_game(gs, id2) || id2 == ng.id) implies #[trigger]
        has_game(out, id2) by {
        if id2 == ng.id {
            assert(out[n].id == id2);
        } else {
            let k = choose|k: int| 0 <= k < gs.len() && gs[k].id == id2;
            assert(out[k].id == id2);
        }
    }
    assert(out[n].id == ng.id);
    lemma_game_at(out, ng.id, n);
    assert forall|id2: Seq<char>|
        id2 != ng.id && #[trigger] has_game(gs, id2) implies game_at(out, id2) == game_at(
        gs,
        id2,
    ) by {
        let k = game_index(gs, id2);
        assert(0 <= k < gs.len() && gs[k].id == id2);
        lemma_game_at(out, id2, k);
    }
}

/// What resigning does: the opponent of the resigner is credited the
/// win, the ledger is settled, and every failure leaves the state as it
/// was.
pub open spec fn resign_post(
    s: ChessStateV,
    s2: ChessStateV,
    r: Result<(), ContractError>,
    sender: Seq<char>,
    id: Seq<char>,
) -> bool {
    if !has_game(s.games, id) {
        r == Err::<(), ContractError>(ContractError::GameNotFound {}) && s2 == s
    } else {
        let g = game_at(s.games, id);
        let gi = game_index(s.games, id);
        if !g.is_participant(sender) {
            r == Err::<(), ContractError>(ContractError::NotPlayerInGame {}) && s2 == s
        } else if !(g.status is Active) {
            r == Err::<(), ContractError>(ContractError::GameNotActive {}) && s2 == s
        } else {
            let is_white = sender == g.white;
            let g2 = ChessGameV { status: if is_white {
                MatchStatus::BlackWon
            } else {
                MatchStatus::WhiteWon
            }, ..g };
            r == Ok::<(), ContractError>(()) && s2.games == s.games.update(gi, g2) && s2.profiles
                == settle_outcome(s.profiles, g, !is_white, is_white, false)
        }
    }
}

/// What a status override does: a terminal status forced on an active
/// match settles the ledger exactly once; overriding with `Active`, or
/// overriding an already-terminal match, changes nothing (a terminal
/// status never transitions again).
pub open spec fn override_post(
    s: ChessStateV,
    s2: ChessStateV,
    r: Result<(), ContractError>,
    sender: Seq<char>,
    id: Seq<char>,
    status: MatchStatus,
) -> bool {
    if !has_game(s.games, id) {
        r == Err::<(), ContractError>(ContractError::GameNotFound {}) && s2 == s
    } else {
        let g = game_at(s.games, id);
        let gi = game_index(s.games, id);
        if !g.is_participant(sender) {
            r == Err::<(), ContractError>(ContractError::NotPlayerInGame {}) && s2 == s
        } else if g.status is Active && !(status is Active) {
            let g2 = ChessGameV { status, ..g };
            r == Ok::<(), ContractError>(()) && s2.games == s.games.update(gi, g2) && s2.profiles
                == settle_outcome(
                s.profiles,
                g,
                status is WhiteWon,
                status is BlackWon,
                status is Draw,
            )
        } else {
            r == Ok::<(), ContractError>(()) && s2 == s
        }
    }
}

/// What proposing a draw does: the caller is recorded as the pending
/// proposer; only a repeat proposal by the same caller is refused.
pub open spec fn propose_post(
    s: ChessStateV,
    s2: ChessStateV,
    r: Result<(), ContractError>,
    sender: Seq<char>,
    id: Seq<char>,
) -> bool {
    if !has_game(s.games, id) {
        r == Err::<(), ContractError>(ContractError::GameNotFound {}) && s2 == s
    } else {
        let g = game_at(s.games, id);
        let gi = game_index(s.games, id);
        if !g.is_participant(sender) {
            r == Err::<(), ContractError>(ContractError::NotPlayerInGame {}) && s2 == s
        } else if !(g.status is Active) {
            r == Err::<(), ContractError>(ContractError::GameNotActive {}) && s2 == s
        } else if g.draw_proposed_by matches Some(p) && p == sender {
            r == Err::<(), ContractError>(ContractError::DrawAlreadyProposed {}) && s2 == s
        } else {
            let g2 = ChessGameV { draw_proposed_by: Some(sender), ..g };
            r == Ok::<(), ContractError>(()) && s2.games == s.games.update(gi, g2) && s2.profiles
                == s.profiles
        }
    }
}

/// What answering a draw proposal does: accepting ends the match as a
/// draw and settles the ledger; declining only clears the proposal. The
/// proposer cannot answer their own proposal.
pub open spec fn respond_post(
    s: ChessStateV,
    s2: ChessStateV,
    r: Result<(), ContractError>,
    sender: Seq<char>,
    id: Seq<char>,
    accept: bool,
) -> bool {
    if !has_game(s.games, id) {
        r == Err::<(), ContractError>(ContractError::GameNotFound {}) && s2 == s
    } else {
        let g = game_at(s.games, id);
        let gi = game_index(s.games, id);
        if !g.is_participant(sender) {
            r == Err::<(), ContractError>(ContractError::NotPlayerInGame {}) && s2 == s
        } else if !(g.status is Active) {
            r == Err::<(), ContractError>(ContractError::GameNotActive {}) && s2 == s
        } else if g.draw_proposed_by is None {
            r == Err::<(), ContractError>(ContractError::NoDrawProposal {}) && s2 == s
        } else if g.draw_proposed_by matches Some(p) && p == sender {
            r == Err::<(), ContractError>(ContractError::CannotRespondToOwnProposal {}) && s2 == s
        } else if accept {
            let g2 = ChessGameV { status: MatchStatus::Draw, draw_proposed_by: None, ..g };
            r == Ok::<(), ContractError>(()) && s2.games == s.games.update(gi, g2) && s2.profiles
                == settle_outcome(s.profiles, g, false, false, true)
        } else {
            let g2 = ChessGameV { draw_proposed_by: None, ..g };
            r == Ok::<(), ContractError>(()) && s2.games == s.games.update(gi, g2) && s2.profiles
                == s.profiles
        }
    }
}

/// Ticks elapsed since the last move (zero if the given time stands
/// before it).
pub open spec fn elapsed_ticks(now: u64, last: u64) -> u64 {
    if now >= last {
        (now - last) as u64
    } else {
        0
    }
}

/// Saturating addition on clock ticks.
pub open spec fn sat_add64(a: u64, b: u64) -> u64 {
    if a + b > u64::MAX {
        u64::MAX
    } else {
        (a + b) as u64
    }
}

/// Whether it is this caller's turn: each side the caller occupies must
/// be the side to move (a player occupying both sides can never move).
pub open spec fn turn_ok(g: ChessGameV, sender: Seq<char>) -> bool {
    &&& (sender == g.white ==> g.current_turn is White)
    &&& (sender == g.black ==> g.current_turn is Black)
}

/// The move-log entry for a move: source and target squares and any
/// promotion piece, concatenated.
pub open spec fn move_log_entry(from: Seq<char>, to: Seq<char>, promo: Option<Seq<char>>) -> Seq<
    char,
> {
    from + to + (match promo {
        Some(t) => t,
        None => Seq::<char>::empty(),
    })
}

/// The match record after a legal move is applied: the move is logged,
/// the resulting position adopted and classified — checkmate credits
/// the mover, stalemate and insufficient material draw the match — the
/// mover's clock gains its increment only while the match continues and
/// the clock window is open (600 ticks through move 20, then 60), the
/// move counter steps, and the turn flips only if the match is still
/// active.
pub open spec fn moved_game(
    g: ChessGameV,
    now: u64,
    mover: Color,
    from: Seq<char>,
    to: Seq<char>,
    promo: Option<Seq<char>>,
    f2: Seq<char>,
) -> ChessGameV {
    let st = engine::classify_of(f2);
    let status2 = if st is Checkmate {
        if mover is White {
            MatchStatus::WhiteWon
        } else {
            MatchStatus::BlackWon
        }
    } else if st is Stalemate || st is Draw {
        MatchStatus::Draw
    } else {
        MatchStatus::Active
    };
    let elapsed = elapsed_ticks(now, g.last_move_block);
    let clock_after = if g.move_count >= 2 {
        (g.clock_of(mover) - elapsed) as u64
    } else {
        g.clock_of(mover)
    };
    let clock_final = if g.move_count >= 2 && status2 is Active {
        sat_add64(clock_after, if g.move_count <= 20 {
            600
        } else {
            60
        })
    } else {
        clock_after
    };
    ChessGameV {
        moves: g.moves.push(move_log_entry(from, to, promo)),
        current_fen: f2,
        status: status2,
        current_turn: if status2 is Active {
            g.current_turn.spec_opposite()
        } else {
            g.current_turn
        },
        last_move_block: now,
        white_time_remaining: if mover is White {
            clock_final
        } else {
            g.white_time_remaining
        },
        black_time_remaining: if mover is Black {
            clock_final
        } else {
            g.black_time_remaining
        },
        move_count: sat_inc(g.move_count),
        ..g
    }
}

/// The ledger after a move that ends the match: settled for the new
/// status; a move that keeps the match active leaves it alone.
pub open spec fn moved_profiles(
    ps: Seq<ProfileEntryV>,
    g: ChessGameV,
    status2: MatchStatus,
) -> Seq<ProfileEntryV> {
    if status2 is WhiteWon {
        settle_outcome(ps, g, true, false, false)
    } else if status2 is BlackWon {
        settle_outcome(ps, g, false, true, false)
    } else if status2 is Draw {
        settle_outcome(ps, g, false, false, true)
    } else {
        ps
    }
}

/// What submitting a move does, case by case: the guard errors leave the
/// state alone; an exhausted clock commits a timeout loss for the mover
/// and still reports an error; a rejected move leaves the state alone
/// and says why; a legal move updates the match record (and, if it ends
/// the match, the ledger) as `moved_game` says.
pub open spec fn make_move_post(
    s: ChessStateV,
    s2: ChessStateV,
    r: Result<(), ContractError>,
    now: u64,
    sender: Seq<char>,
    id: Seq<char>,
    from: Seq<char>,
    to: Seq<char>,
    promo: Option<Seq<char>>,
) -> bool {
    if !has_game(s.games, id) {
        r == Err::<(), ContractError>(ContractError::GameNotFound {}) && s2 == s
    } else {
        let g = game_at(s.games, id);
        let gi = game_index(s.games, id);
        if !g.is_participant(sender) {
            r == Err::<(), ContractError>(ContractError::NotPlayerInGame {}) && s2 == s
        } else if !(g.status is Active) {
            r == Err::<(), ContractError>(ContractError::GameNotActive {}) && s2 == s
        } else if !turn_ok(g, sender) {
            r == Err::<(), ContractError>(ContractError::NotYourTurn {}) && s2 == s
        } else {
            let mover = if sender == g.white {
                Color::White
            } else {
                Color::Black
            };
            let elapsed = elapsed_ticks(now, g.last_move_block);
            if g.move_count >= 2 && elapsed >= g.clock_of(mover) {
                let g2 = ChessGameV { status: if mover is White {
                    MatchStatus::BlackWon
                } else {
                    MatchStatus::WhiteWon
                }, ..g };
                r == Err::<(), ContractError>(ContractError::TimeExpired {}) && s2.games
                    == s.games.update(gi, g2) && s2.profiles == settle_outcome(
                    s.profiles,
                    g,
                    !(mover is White),
                    mover is White,
                    false,
                )
            } else if !engine::fen_parses(g.current_fen) {
                (r matches Err(e) && e matches ContractError::InvalidFen { fen: f } && f@
                    == g.current_fen) && s2 == s
            } else if !(engine::is_square_name(from) && engine::is_square_name(to)) {
                r == Err::<(), ContractError>(ContractError::BadSquare {}) && s2 == s
            } else {
                match engine::promo_choice(promo) {
                    None => (r matches Err(e) && e matches ContractError::IllegalMove { error: m }
                        && m@ == "Invalid promotion piece"@) && s2 == s,
                    Some(code) => if !engine::occupied_of(g.current_fen, from) {
                        (r matches Err(e) && e matches ContractError::IllegalMove { error: m } && m@
                            == "No piece at from square"@) && s2 == s
                    } else {
                        match engine::move_result_of(g.current_fen, from, to, code) {
                            None => (r matches Err(e) && e matches ContractError::IllegalMove {
                                error: m,
                            } && m@ == "Illegal move"@) && s2 == s,
                            Some(f2) => {
                                let g2 = moved_game(g, now, mover, from, to, promo, f2);
                                r == Ok::<(), ContractError>(()) && s2.games == s.games.update(
                                    gi,
                                    g2,
                                ) && s2.profiles == moved_profiles(s.profiles, g, g2.status)
                            },
                        }
                    },
                }
            }
        }
    }
}

/// Law: a match is in exactly one status at any time; in particular no
/// two of the three terminal flags can hold at once.
pub proof fn lemma_status_exclusive(st: MatchStatus)
    ensures
        (st is Active ==> !(st is WhiteWon) && !(st is BlackWon) && !(st is Draw)),
        (st is WhiteWon ==> !(st is Active) && !(st is BlackWon) && !(st is Draw)),
        (st is BlackWon ==> !(st is Active) && !(st is WhiteWon) && !(st is Draw)),
        (st is Draw ==> !(st is Active) && !(st is WhiteWon) && !(st is BlackWon)),
        st is Active || st is WhiteWon || st is BlackWon || st is Draw,
{
}

/// Law: in a well-formed state, no profile's current-game list ever
/// references a terminal (or missing) match, and every referenced match
/// is one the player takes part in.
pub proof fn lemma_no_terminal_current_game(s: ChessStateV, i: int, j: int)
    requires
        state_wf(s),
        0 <= i < s.profiles.len(),
        0 <= j < s.profiles[i].profile.current_games.len(),
    ensures
        has_game(s.games, s.profiles[i].profile.current_games[j]),
        game_at(s.games, s.profiles[i].profile.current_games[j]).status is Active,
        game_at(s.games, s.profiles[i].profile.current_games[j]).is_participant(
            s.profiles[i].addr,
        ),
{
    assert(profile_wf(s.profiles[i], s.games));
}

/// Law: in a well-formed state every active match stands in both
/// participants' current-game lists — together with
/// `lemma_no_terminal_current_game`, a profile lists a match id exactly
/// when that match is active and the player takes part in it.
pub proof fn lemma_active_game_is_listed(s: ChessStateV, i: int)
    requires
        state_wf(s),
        0 <= i < s.games.len(),
        s.games[i].status is Active,
    ensures
        profile_lists(s.profiles, s.games[i].white, s.games[i].id),
        profile_lists(s.profiles, s.games[i].black, s.games[i].id),
{
}

/// Saturating subtraction on clock ticks.
pub open spec fn sat_sub64(a: u64, b: u64) -> u64 {
    if a >= b {
        (a - b) as u64
    } else {
        0
    }
}

/// The clock standings reported for a match: once both sides have moved,
/// the elapsed time since the last move is deducted (read-only) from the
/// side to move, and the clock is expired when that side's remainder is
/// zero; before that, both clocks stand at their stored values.
pub open spec fn clock_view(g: ChessGameV, now: u64) -> (u64, u64, bool) {
    let e = elapsed_ticks(now, g.last_move_block);
    if g.move_count >= 2 {
        let w = if g.current_turn is White {
            sat_sub64(g.white_time_remaining, e)
        } else {
            g.white_time_remaining
        };
        let b = if g.current_turn is Black {
            sat_sub64(g.black_time_remaining, e)
        } else {
            g.black_time_remaining
        };
        let cur = if g.current_turn is White {
            w
        } else {
            b
        };
        (w, b, cur == 0)
    } else {
        (g.white_time_remaining, g.black_time_remaining, false)
    }
}

/// The match records a player takes part in, in creation order.
pub open spec fn games_of_player(gs: Seq<ChessGameV>, addr: Seq<char>) -> Seq<ChessGameV>
    decreases gs.len(),
{
    if gs.len() == 0 {
        Seq::empty()
    } else {
        let rest = games_of_player(gs.drop_last(), addr);
        if gs.last().is_participant(addr) {
            rest.push(gs.last())
        } else {
            rest
        }
    }
}

/// How replacing one match record (keeping its id) reads back: that id
/// now yields the new record, every other id is untouched, and
/// uniqueness is preserved.
pub proof fn lemma_game_update(gs: Seq<ChessGameV>, gi: int, g2: ChessGameV)
    requires
        unique_game_ids(gs),
        0 <= gi < gs.len(),
        g2.id == gs[gi].id,
    ensures
        unique_game_ids(gs.update(gi, g2)),
        forall|id2: Seq<char>| #[trigger] has_game(gs.update(gi, g2), id2) == has_game(gs, id2),
        game_index(gs.update(gi, g2), g2.id) == gi,
        game_at(gs.update(gi, g2), g2.id) == g2,
        forall|id2: Seq<char>|
            id2 != g2.id && #[trigger] has_game(gs, id2) ==> game_at(gs.update(gi, g2), id2)
                == game_at(gs, id2),
{
    let out = gs.update(gi, g2);
    assert forall|id2: Seq<char>| #[trigger]
        has_game(out, id2) implies has_game(gs, id2) by {
        let k = choose|k: int| 0 <= k < out.len() && out[k].id == id2;
        if k != gi {
            assert(gs[k].id == id2);
        } else {
            assert(gs[gi].id == id2);
        }
    }
    assert forall|id2: Seq<char>| #[trigger]
        has_game(gs, id2) implies has_game(out, id2) by {
        let k = choose|k: int| 0 <= k < gs.len() && gs[k].id == id2;
        if k != gi {
            assert(out[k].id == id2);
        } else {
            assert(out[gi].id == id2);
        }
    }
    lemma_game_at(out, g2.id, gi);
    assert forall|id2: Seq<char>|
        id2 != g2.id && #[trigger] has_game(gs, id2) implies game_at(out, id2) == game_at(
        gs,
        id2,
    ) by {
        let k = game_index(gs, id2);
        assert(0 <= k < gs.len() && gs[k].id == id2);
        assert(k != gi);
        lemma_game_at(out, id2, k);
    }
}

/// A transition that replaces one match record without ending it (same
/// id, same participants, active exactly as before) and leaves the
/// profiles alone preserves well-formedness.
pub proof fn lemma_nonterminal_update(s: ChessStateV, gi: int, g2: ChessGameV)
    requires
        state_wf(s),
        0 <= gi < s.games.len(),
        g2.id == s.games[gi].id,
        g2.white == s.games[gi].white,
        g2.black == s.games[gi].black,
        (g2.status is Active) == (s.games[gi].status is Active),
        game_wf(g2),
    ensures
        state_wf(ChessStateV { games: s.games.update(gi, g2), profiles: s.profiles }),
{
    let gs2 = s.games.update(gi, g2);
    lemma_game_update(s.games, gi, g2);
    let s2 = ChessStateV { games: gs2, profiles: s.profiles };
    assert forall|i: int|
        0 <= i < s2.profiles.len() implies profile_wf(#[trigger] s2.profiles[i], gs2) by {
        assert(profile_wf(s.profiles[i], s.games));
        let e = s.profiles[i];
        assert forall|j: int|
            0 <= j < e.profile.current_games.len() implies listed_ok(
            gs2,
            e.addr,
            #[trigger] e.profile.current_games[j],
        ) by {
            let x = e.profile.current_games[j];
            assert(listed_ok(s.games, e.addr, x));
            if x == g2.id {
                lemma_game_at(s.games, x, gi);
            }
        }
    }
    assert forall|i: int|
        0 <= i < gs2.len() implies has_profile(s2.profiles, (#[trigger] gs2[i]).white)
        && has_profile(s2.profiles, gs2[i].black) by {
        assert(has_profile(s.profiles, s.games[i].white));
        assert(has_profile(s.profiles, s.games[i].black));
    }
}

/// A terminal transition — one match record replaced by a terminal one
/// and the profile ledger settled for it — preserves well-formedness.
pub proof fn lemma_terminal_transition(
    s: ChessStateV,
    gi: int,
    g2: ChessGameV,
    ww: bool,
    bw: bool,
    dr: bool,
)
    requires
        state_wf(s),
        0 <= gi < s.games.len(),
        g2.id == s.games[gi].id,
        g2.white == s.games[gi].white,
        g2.black == s.games[gi].black,
        !(g2.status is Active),
        g2.draw_proposed_by matches Some(a) ==> a == g2.white || a == g2.black,
        !(ww && bw),
    ensures
        state_wf(
            ChessStateV {
                games: s.games.update(gi, g2),
                profiles: settle_outcome(s.profiles, s.games[gi], ww, bw, dr),
            },
        ),
{
    let g = s.games[gi];
    let gs2 = s.games.update(gi, g2);
    lemma_game_update(s.games, gi, g2);
    assert(has_profile(s.profiles, g.white));
    assert(has_profile(s.profiles, g.black));
    let wi = profile_index(s.profiles, g.white);
    let bi = profile_index(s.profiles, g.black);
    assert(0 <= wi < s.profiles.len() && s.profiles[wi].addr == g.white);
    assert(0 <= bi < s.profiles.len() && s.profiles[bi].addr == g.black);
    let ps2 = settle_outcome(s.profiles, g, ww, bw, dr);
    assert(ps2.len() == s.profiles.len());
    assert forall|k: int| 0 <= k < ps2.len() implies (#[trigger] ps2[k]).addr
        == s.profiles[k].addr by {}
    assert(unique_profile_addrs(ps2));
    assert forall|a2: Seq<char>| #[trigger]
        has_profile(ps2, a2) == has_profile(s.profiles, a2) by {
        if has_profile(ps2, a2) {
            let k = choose|k: int| 0 <= k < ps2.len() && ps2[k].addr == a2;
            assert(s.profiles[k].addr == a2);
        }
        if has_profile(s.profiles, a2) {
            let k = choose|k: int| 0 <= k < s.profiles.len() && s.profiles[k].addr == a2;
            assert(ps2[k].addr == a2);
        }
    }
    assert forall|i: int| 0 <= i < gs2.len() implies game_wf(#[trigger] gs2[i]) by {
        if i != gi {
            assert(game_wf(s.games[i]));
        }
    }
    assert forall|k: int|
        0 <= k < ps2.len() implies profile_wf(#[trigger] ps2[k], gs2) by {
        let wp = s.profiles[wi].profile;
        let bp = s.profiles[bi].profile;
        assert(profile_wf(s.profiles[k], s.games));
        if k == bi {
            lemma_drop_game_id(bp.current_games, g.id);
            assert(profile_wf(s.profiles[bi], s.games));
            let e2 = ps2[k];
            assert(e2.addr == g.black);
            assert(e2.profile.current_games == drop_game_id(bp.current_games, g.id));
            assert forall|j: int|
                0 <= j < e2.profile.current_games.len() implies listed_ok(
                gs2,
                e2.addr,
                #[trigger] e2.profile.current_games[j],
            ) by {
                let x = e2.profile.current_games[j];
                assert(x != g.id && bp.current_games.contains(x));
                let jj = choose|jj: int|
                    0 <= jj < bp.current_games.len() && bp.current_games[jj] == x;
                assert(listed_ok(s.games, g.black, bp.current_games[jj]));
            }
            assert(counts_ok(e2.profile));
        } else if k == wi {
            lemma_drop_game_id(wp.current_games, g.id);
            let e2 = ps2[k];
            assert(e2.addr == g.white);
            assert(e2.profile.current_games == drop_game_id(wp.current_games, g.id));
            assert forall|j: int|
                0 <= j < e2.profile.current_games.len() implies listed_ok(
                gs2,
                e2.addr,
                #[trigger] e2.profile.current_games[j],
            ) by {
                let x = e2.profile.current_games[j];
                assert(x != g.id && wp.current_games.contains(x));
                let jj = choose|jj: int|
                    0 <= jj < wp.current_games.len() && wp.current_games[jj] == x;
                assert(listed_ok(s.games, g.white, wp.current_games[jj]));
            }
            assert(counts_ok(e2.profile));
        } else {
            let e2 = ps2[k];
            assert(e2 == s.profiles[k]);
            assert forall|j: int|
                0 <= j < e2.profile.current_games.len() implies listed_ok(
                gs2,
                e2.addr,
                #[trigger] e2.profile.current_games[j],
            ) by {
                let x = e2.profile.current_games[j];
                assert(listed_ok(s.games, e2.addr, x));
                if x == g.id {
                    lemma_game_at(s.games, x, gi);
                    assert(game_at(s.games, x).is_participant(e2.addr));
                    if e2.addr == g.white {
                        assert(s.profiles[k].addr == s.profiles[wi].addr);
                        assert(false);
                    } else {
                        assert(s.profiles[k].addr == s.profiles[bi].addr);
                        assert(false);
                    }
                }
            }
        }
    }
    assert forall|i: int|
        0 <= i < gs2.len() implies has_profile(ps2, (#[trigger] gs2[i]).white) && has_profile(
        ps2,
        gs2[i].black,
    ) by {
        assert(has_profile(s.profiles, s.games[i].white));
        assert(has_profile(s.profiles, s.games[i].black));
    }
    assert forall|i: int|
        0 <= i < gs2.len() && (#[trigger] gs2[i]).status is Active implies profile_lists(
        ps2,
        gs2[i].white,
        gs2[i].id,
    ) && profile_lists(ps2, gs2[i].black, gs2[i].id) by {
        assert(i != gi);
        let ga = s.games[i];
        assert(gs2[i] == ga);
        if i < gi {
            assert(s.games[i].id != s.games[gi].id);
        } else {
            assert(s.games[gi].id != s.games[i].id);
        }
        assert(profile_lists(s.profiles, ga.white, ga.id));
        assert(profile_lists(s.profiles, ga.black, ga.id));
        let wp = s.profiles[wi].profile;
        let bp = s.profiles[bi].profile;
        lemma_drop_game_id(wp.current_games, g.id);
        lemma_drop_game_id(bp.current_games, g.id);
        let kw = profile_index(s.profiles, ga.white);
        assert(0 <= kw < s.profiles.len() && s.profiles[kw].addr == ga.white);
        lemma_profile_at(ps2, ga.white, kw);
        if kw == bi {
            let j = choose|j: int|
                0 <= j < bp.current_games.len() && bp.current_games[j] == ga.id;
            assert(drop_game_id(bp.current_games, g.id).contains(ga.id));
        } else if kw == wi {
            let j = choose|j: int|
                0 <= j < wp.current_games.len() && wp.current_games[j] == ga.id;
            assert(drop_game_id(wp.current_games, g.id).contains(ga.id));
        } else {
            assert(ps2[kw] == s.profiles[kw]);
        }
        let kb = profile_index(s.profiles, ga.black);
        assert(0 <= kb < s.profiles.len() && s.profiles[kb].addr == ga.black);
        lemma_profile_at(ps2, ga.black, kb);
        if kb == bi {
            let j = choose|j: int|
                0 <= j < bp.current_games.len() && bp.current_games[j] == ga.id;
            assert(drop_game_id(bp.current_games, g.id).contains(ga.id));
        } else if kb == wi {
            let j = choose|j: int|
                0 <= j < wp.current_games.len() && wp.current_games[j] == ga.id;
            assert(drop_game_id(wp.current_games, g.id).contains(ga.id));
        } else {
            assert(ps2[kb] == s.profiles[kb]);
        }
    }
}

/// Builds one side's settled profile after a finished match.
fn settle_profile(p: UserProfile, new_elo: u32, won: bool, lost: bool, id: &String) -> (r:
    UserProfile)
    ensures
        r@ == settled_profile(p@, new_elo, won, lost, id@),
{
    let mut cg: Vec<String> = Vec::new();
    let mut k: usize = 0;
    while k < p.current_games.len()
        invariant
            k <= p.current_games.len(),
            cg@.map_values(|s: String| s@) == drop_game_id(
                p.current_games@.map_values(|s: String| s@).subrange(0, k as int),
                id@,
            ),
        decreases p.current_games.len() - k,
    {
        let ghost all = p.current_games@.map_values(|s: String| s@);
        let ghost prefix = all.subrange(0, k as int);
        let ghost e = all[k as int];
        proof {
            assert(all.subrange(0, (k + 1) as int) =~= prefix.push(e));
            assert(prefix.push(e).drop_last() =~= prefix);
            assert(prefix.push(e).last() == e);
        }
        if !str_eq(&p.current_games[k], id) {
            cg.push(p.current_games[k].clone());
            proof {
                assert(cg@.map_values(|s: String| s@) =~= drop_game_id(prefix, id@).push(e));
            }
        }
        k += 1;
    }
    proof {
        let all = p.current_games@.map_values(|s: String| s@);
        assert(all.subrange(0, all.len() as int) =~= all);
    }
    let r = UserProfile {
        username: p.username,
        elo: new_elo,
        games_played: p.games_played.saturating_add(1),
        wins: if won {
            p.wins.saturating_add(1)
        } else {
            p.wins
        },
        draws: if !won && !lost {
            p.draws.saturating_add(1)
        } else {
            p.draws
        },
        losses: if lost {
            p.losses.saturating_add(1)
        } else {
            p.losses
        },
        current_games: cg,
        created_at: p.created_at,
    };
    r
}

impl ChessState {
    /// An empty state: no matches, no profiles.
    pub fn new() -> (r: ChessState)
        ensures
            r@.games == Seq::<ChessGameV>::empty(),
            r@.profiles == Seq::<ProfileEntryV>::empty(),
            state_wf(r@),
    {
        let r = ChessState { games: Vec::new(), profiles: Vec::new() };
        proof {
            assert(r@.games =~= Seq::<ChessGameV>::empty());
            assert(r@.profiles =~= Seq::<ProfileEntryV>::empty());
        }
        r
    }

    /// Rebuilds a state from stored records. The host that persists a
    /// state through `games`/`profiles` must hand back exactly what it
    /// read: the well-formedness the operations rely on is only known to
    /// hold for states the operations themselves produced.
    pub fn from_parts(games: Vec<ChessGame>, profiles: Vec<ProfileEntry>) -> (r: ChessState)
        ensures
            r@.games == games@.map_values(|g: ChessGame| g@),
            r@.profiles == profiles@.map_values(|e: ProfileEntry| e@),
    {
        ChessState { games, profiles }
    }

    /// The stored match records, for the host to persist.
    pub fn games(&self) -> (r: &Vec<ChessGame>)
        ensures
            r@.map_values(|g: ChessGame| g@) == self@.games,
    {
        &self.games
    }

    /// The stored profile entries, for the host to persist.
    pub fn profiles(&self) -> (r: &Vec<ProfileEntry>)
        ensures
            r@.map_values(|e: ProfileEntry| e@) == self@.profiles,
    {
        &self.profiles
    }

    fn find_game_index(&self, id: &String) -> (r: Option<usize>)
        ensures
            r matches Some(i) ==> (i < self@.games.len() && self@.games[i as int].id == id@),
            r is None ==> !has_game(self@.games, id@),
    {
        let mut k: usize = 0;
        while k < self.games.len()
            invariant
                k <= self.games.len(),
                forall|j: int| 0 <= j < k ==> self@.games[j].id != id@,
            decreases self.games.len() - k,
        {
            if str_eq(&self.games[k].id, id) {
                return Some(k);
            }
            k += 1;
        }
        None
    }

    fn find_profile_index(&self, addr: &String) -> (r: Option<usize>)
        ensures
            r matches Some(i) ==> (i < self@.profiles.len() && self@.profiles[i as int].addr
                == addr@),
            r is None ==> !has_profile(self@.profiles, addr@),
    {
        let mut k: usize = 0;
        while k < self.profiles.len()
            invariant
                k <= self.profiles.len(),
                forall|j: int| 0 <= j < k ==> self@.profiles[j].addr != addr@,
            decreases self.profiles.len() - k,
        {
            if str_eq(&self.profiles[k].addr, addr) {
                return Some(k);
            }
            k += 1;
        }
        None
    }

    /// Writes a profile under a player id, replacing any existing entry.
    fn put_profile(&mut self, addr: String, profile: UserProfile)
        requires
            unique_profile_addrs(old(self)@.profiles),
        ensures
            final(self)@.games == old(self)@.games,
            final(self)@.profiles == put_profile_spec(old(self)@.profiles, addr@, profile@),
    {
        let ghost ps = self@.profiles;
        match self.find_profile_index(&addr) {
            Some(i) => {
                proof {
                    lemma_profile_at(ps, addr@, i as int);
                }
                self.profiles.set(i, ProfileEntry { addr, profile });
                proof {
                    assert(self@.profiles =~= put_profile_spec(ps, addr@, profile@));
                }
            },
            None => {
                self.profiles.push(ProfileEntry { addr, profile });
                proof {
                    assert(self@.profiles =~= put_profile_spec(ps, addr@, profile@));
                }
            },
        }
    }

    /// Settles the profile ledger for one finished match: reads both
    /// profiles, computes the new ratings, steps the counters, drops the
    /// match id from both current-game lists, and writes white's profile
    /// first, black's second.
    fn update_profiles_after_game(
        &mut self,
        game: &ChessGame,
        white_won: bool,
        black_won: bool,
        is_draw: bool,
    )
        requires
            unique_profile_addrs(old(self)@.profiles),
            has_profile(old(self)@.profiles, game@.white),
            has_profile(old(self)@.profiles, game@.black),
        ensures
            final(self)@.games == old(self)@.games,
            final(self)@.profiles == settle_outcome(
                old(self)@.profiles,
                game@,
                white_won,
                black_won,
                is_draw,
            ),
    {
        let ghost ps = self@.profiles;
        let wi = match self.find_profile_index(&game.white) {
            Some(i) => i,
            None => unreached(),
        };
        proof {
            lemma_profile_at(ps, game@.white, wi as int);
        }
        let white_profile = self.profiles[wi].profile.duplicate();
        let bi = match self.find_profile_index(&game.black) {
            Some(i) => i,
            None => unreached(),
        };
        proof {
            lemma_profile_at(ps, game@.black, bi as int);
        }
        let black_profile = self.profiles[bi].profile.duplicate();
        let pair: (u32, u32) = if is_draw {
            calculate_elo(white_profile.elo, black_profile.elo, true)
        } else if white_won {
            calculate_elo(white_profile.elo, black_profile.elo, false)
        } else {
            let r = calculate_elo(black_profile.elo, white_profile.elo, false);
            (r.1, r.0)
        };
        let wp2 = settle_profile(white_profile, pair.0, white_won, black_won, &game.id);
        let bp2 = settle_profile(black_profile, pair.1, black_won, white_won, &game.id);
        self.profiles.set(wi, ProfileEntry { addr: game.white.clone(), profile: wp2 });
        self.profiles.set(bi, ProfileEntry { addr: game.black.clone(), profile: bp2 });
        proof {
            assert(self@.profiles =~= settle_outcome(ps, game@, white_won, black_won, is_draw));
        }
    }

    /// Creates a player's profile on first contact, or updates the
    /// display name of an existing one; an empty name leaves the
    /// existing name in place.
    pub fn initialize_user(&mut self, now: u64, sender: &String, username: String) -> (r: Result<
        (),
        ContractError,
    >)
        requires
            state_wf(old(self)@),
        ensures
            r.is_ok(),
            state_wf(final(self)@),
            final(self)@.games == old(self)@.games,
            final(self)@.profiles == put_profile_spec(
                old(self)@.profiles,
                sender@,
                init_user_profile(old(self)@.profiles, sender@, username@, now),
            ),
    {
        let ghost s0 = self@;
        let p: UserProfile = match self.find_profile_index(sender) {
            Some(i) => {
                proof {
                    lemma_profile_at(s0.profiles, sender@, i as int);
                }
                let mut q = self.profiles[i].profile.duplicate();
                if !username.as_str().is_empty() {
                    q.username = username;
                }
                q
            },
            None => UserProfile::fresh(username, now),
        };
        self.put_profile(sender.clone(), p);
        proof {
            let np = init_user_profile(s0.profiles, sender@, username@, now);
            lemma_put_profile(s0.profiles, sender@, np);
            let s2 = self@;
            if has_profile(s0.profiles, sender@) {
                let pi = profile_index(s0.profiles, sender@);
                assert(0 <= pi < s0.profiles.len() && s0.profiles[pi].addr == sender@);
                assert(profile_wf(s0.profiles[pi], s0.games));
                assert(np.current_games == s0.profiles[pi].profile.current_games);
            }
            assert(profile_wf(ProfileEntryV { addr: sender@, profile: np }, s2.games));
            assert forall|i: int|
                0 <= i < s2.games.len() implies has_profile(
                s2.profiles,
                (#[trigger] s2.games[i]).white,
            ) && has_profile(s2.profiles, s2.games[i].black) by {
                assert(has_profile(s0.profiles, s0.games[i].white));
                assert(has_profile(s0.profiles, s0.games[i].black));
            }
            assert forall|i: int|
                0 <= i < s2.profiles.len() implies profile_wf(
                #[trigger] s2.profiles[i],
                s2.games,
            ) by {
                if s2.profiles[i] == (ProfileEntryV { addr: sender@, profile: np }) {
                    assert(profile_wf(s2.profiles[i], s2.games));
                } else {
                    assert(0 <= i < s0.profiles.len() && s2.profiles[i] == s0.profiles[i]);
                    assert(profile_wf(s0.profiles[i], s0.games));
                }
            }
        }
        Ok(())
    }

    /// Creates a new match between the caller (white) and an opponent
    /// (black), refusing a duplicate id. Both players get profiles if
    /// they lack them, and the match id is registered with both.
    pub fn create_game(
        &mut self,
        now: u64,
        sender: &String,
        game_id: String,
        opponent: String,
        time_control: String,
    ) -> (r: Result<(), ContractError>)
        requires
            state_wf(old(self)@),
        ensures
            state_wf(final(self)@),
            create_post(
                old(self)@,
                final(self)@,
                r,
                now,
                sender@,
                game_id@,
                opponent@,
                time_control@,
            ),
    {
        let ghost s0 = self@;
        match self.find_game_index(&game_id) {
            Some(i) => {
                proof {
                    lemma_game_at(s0.games, game_id@, i as int);
                }
                return Err(ContractError::GameAlreadyExists { id: game_id });
            },
            None => {},
        }
        let mut white_profile = match self.find_profile_index(sender) {
            Some(i) => {
                proof {
                    lemma_profile_at(s0.profiles, sender@, i as int);
                }
                self.profiles[i].profile.duplicate()
            },
            None => UserProfile::fresh(sender.clone(), now),
        };
        let mut black_profile = match self.find_profile_index(&opponent) {
            Some(i) => {
                proof {
                    lemma_profile_at(s0.profiles, opponent@, i as int);
                }
                self.profiles[i].profile.duplicate()
            },
            None => UserProfile::fresh(opponent.clone(), now),
        };
        let ghost wp0 = white_profile@;
        let ghost bp0 = black_profile@;
        white_profile.current_games.push(game_id.clone());
        black_profile.current_games.push(game_id.clone());
        proof {
            assert(white_profile@.current_games =~= wp0.current_games.push(game_id@));
            assert(black_profile@.current_games =~= bp0.current_games.push(game_id@));
        }
        let ghost wp = white_profile@;
        let ghost bp = black_profile@;
        self.put_profile(sender.clone(), white_profile);
        self.put_profile(opponent.clone(), black_profile);
        let game = ChessGame {
            id: game_id,
            white: sender.clone(),
            black: opponent,
            moves: Vec::new(),
            current_fen: String::from_str(
                "rnbqkbnr/pppppppp/8/8/8/8/PPPPPPPP/RNBQKBNR w KQkq - 0 1",
            ),
            status: MatchStatus::Active,
            current_turn: Color::White,
            last_move_block: now,
            white_time_remaining: 172800,
            black_time_remaining: 172800,
            created_block: now,
            claim_block: None,
            time_control,
            move_count: 0,
            draw_proposed_by: None,
        };
        let ghost ng = game@;
        self.games.push(game);
        proof {
            let s2 = self@;
            assert(ng.moves =~= Seq::<Seq<char>>::empty());
            assert(ng == fresh_game(ng.id, sender@, ng.black, ng.time_control, now));
            assert(s2.games =~= s0.games.push(ng));
            let ps1 = put_profile_spec(s0.profiles, sender@, wp);
            lemma_put_profile(s0.profiles, sender@, wp);
            lemma_put_profile(ps1, ng.black, bp);
            let ps2 = put_profile_spec(ps1, ng.black, bp);
            assert(s2.profiles == ps2);
            lemma_game_push(s0.games, ng);
            assert(unique_game_ids(s2.games));
            assert forall|i: int| 0 <= i < s2.games.len() implies game_wf(#[trigger] s2.games[i]) by {
                if i < s0.games.len() {
                    assert(game_wf(s0.games[i]));
                }
            }
            assert forall|i: int|
                0 <= i < s2.games.len() implies has_profile(
                s2.profiles,
                (#[trigger] s2.games[i]).white,
            ) && has_profile(s2.profiles, s2.games[i].black) by {
                if i < s0.games.len() {
                    assert(has_profile(s0.profiles, s0.games[i].white));
                    assert(has_profile(s0.profiles, s0.games[i].black));
                    assert(has_profile(ps1, s0.games[i].white));
                    assert(has_profile(ps1, s0.games[i].black));
                } else {
                    assert(has_profile(ps1, sender@));
                    assert(has_profile(ps2, ng.black));
                }
            }
            assert forall|i: int|
                0 <= i < s2.games.len() && (#[trigger] s2.games[i]).status is Active implies
                profile_lists(s2.profiles, s2.games[i].white, s2.games[i].id) && profile_lists(
                s2.profiles,
                s2.games[i].black,
                s2.games[i].id,
            ) by {
                assert(wp.current_games[wp0.current_games.len() as int] == ng.id);
                assert(wp.current_games.contains(ng.id));
                assert(bp.current_games[bp0.current_games.len() as int] == ng.id);
                assert(bp.current_games.contains(ng.id));
                if i < s0.games.len() {
                    let ga = s0.games[i];
                    assert(s2.games[i] == ga);
                    assert(profile_lists(s0.profiles, ga.white, ga.id));
                    assert(profile_lists(s0.profiles, ga.black, ga.id));
                    assert(ga.white == sender@ ==> wp0 == profile_at(s0.profiles, sender@));
                    assert(ga.black == sender@ ==> wp0 == profile_at(s0.profiles, sender@));
                    assert(ga.white == ng.black ==> bp0 == profile_at(s0.profiles, ng.black));
                    assert(ga.black == ng.black ==> bp0 == profile_at(s0.profiles, ng.black));
                    assert forall|a: Seq<char>| #[trigger]
                        profile_lists(s0.profiles, a, ga.id) implies profile_lists(
                        ps2,
                        a,
                        ga.id,
                    ) by {
                        let old_list = profile_at(s0.profiles, a).current_games;
                        let j = choose|j: int| 0 <= j < old_list.len() && old_list[j] == ga.id;
                        if a == ng.black {
                            assert(profile_at(ps2, a) == bp);
                            assert(bp0 == profile_at(s0.profiles, a));
                            assert(bp.current_games[j] == ga.id);
                        } else if a == sender@ {
                            assert(profile_at(ps1, a) == wp);
                            assert(profile_at(ps2, a) == wp);
                            assert(wp0 == profile_at(s0.profiles, a));
                            assert(wp.current_games[j] == ga.id);
                        } else {
                            assert(profile_at(ps1, a) == profile_at(s0.profiles, a));
                            assert(profile_at(ps2, a) == profile_at(s0.profiles, a));
                        }
                    }
                } else {
                    assert(s2.games[i] == ng);
                    assert(profile_at(ps2, ng.black) == bp);
                    if sender@ == ng.black {
                        assert(profile_at(ps2, sender@) == bp);
                    } else {
                        assert(profile_at(ps1, sender@) == wp);
                        assert(profile_at(ps2, sender@) == wp);
                    }
                }
            }
            assert forall|k: int|
                0 <= k < s2.profiles.len() implies profile_wf(#[trigger] s2.profiles[k], s2.games) by {
                let e = s2.profiles[k];
                assert(listed_ok(s2.games, sender@, ng.id));
                assert(listed_ok(s2.games, ng.black, ng.id));
                if e == (ProfileEntryV { addr: ng.black, profile: bp }) {
                    assert(counts_ok(bp0));
                    assert forall|j: int|
                        0 <= j < bp.current_games.len() implies listed_ok(
                        s2.games,
                        e.addr,
                        #[trigger] bp.current_games[j],
                    ) by {
                        if j < bp0.current_games.len() {
                            assert(bp.current_games[j] == bp0.current_games[j]);
                            if has_profile(s0.profiles, ng.black) {
                                let pi = profile_index(s0.profiles, ng.black);
                                assert(profile_wf(s0.profiles[pi], s0.games));
                                assert(listed_ok(s0.games, ng.black, bp0.current_games[j]));
                                assert(bp0.current_games[j] != ng.id);
                            }
                        }
                    }
                } else if e == (ProfileEntryV { addr: sender@, profile: wp }) {
                    assert(counts_ok(wp0));
                    assert forall|j: int|
                        0 <= j < wp.current_games.len() implies listed_ok(
                        s2.games,
                        e.addr,
                        #[trigger] wp.current_games[j],
                    ) by {
                        if j < wp0.current_games.len() {
                            assert(wp.current_games[j] == wp0.current_games[j]);
                            if has_profile(s0.profiles, sender@) {
                                let pi = profile_index(s0.profiles, sender@);
                                assert(profile_wf(s0.profiles[pi], s0.games));
                                assert(listed_ok(s0.games, sender@, wp0.current_games[j]));
                                assert(wp0.current_games[j] != ng.id);
                            }
                        }
                    }
                } else {
                    assert(0 <= k < s0.profiles.len() && e == s0.profiles[k]);
                    assert(profile_wf(e, s0.games));
                    assert forall|j: int|
                        0 <= j < e.profile.current_games.len() implies listed_ok(
                        s2.games,
                        e.addr,
                        #[trigger] e.profile.current_games[j],
                    ) by {
                        assert(listed_ok(s0.games, e.addr, e.profile.current_games[j]));
                        assert(e.profile.current_games[j] != ng.id);
                    }
                }
            }
        }
        Ok(())
    }

    /// Resigns an active match: the opponent is credited the win, the
    /// ledger is settled, and the match becomes terminal.
    pub fn resign_game(&mut self, sender: &String, game_id: &String) -> (r: Result<
        (),
        ContractError,
    >)
        requires
            state_wf(old(self)@),
        ensures
            state_wf(final(self)@),
            resign_post(old(self)@, final(self)@, r, sender@, game_id@),
    {
        let ghost s0 = self@;
        let gi = match self.find_game_index(game_id) {
            Some(i) => i,
            None => {
                return Err(ContractError::GameNotFound {});
            },
        };
        proof {
            lemma_game_at(s0.games, game_id@, gi as int);
        }
        let is_white = str_eq(sender, &self.games[gi].white);
        let is_black = str_eq(sender, &self.games[gi].black);
        if !is_white && !is_black {
            return Err(ContractError::NotPlayerInGame {});
        }
        if self.games[gi].status != MatchStatus::Active {
            return Err(ContractError::GameNotActive {});
        }
        let mut g = self.games[gi].duplicate();
        self.update_profiles_after_game(&g, !is_white, is_white, false);
        g.status = if is_white {
            MatchStatus::BlackWon
        } else {
            MatchStatus::WhiteWon
        };
        let ghost g2 = g@;
        self.games.set(gi, g);
        proof {
            assert(self@.games =~= s0.games.update(gi as int, g2));
            lemma_terminal_transition(s0, gi as int, g2, !is_white, is_white, false);
        }
        Ok(())
    }

    /// Submits a move for the side the caller occupies. Enforces turn
    /// order and, once both sides have moved, the clocks: an exhausted
    /// clock commits a timeout loss (a terminal transition) and reports
    /// it as an error. A legal move is logged and applied; checkmate,
    /// stalemate and insufficient material end the match on the spot.
    pub fn make_move(
        &mut self,
        now: u64,
        sender: &String,
        game_id: &String,
        from: String,
        to: String,
        promotion: Option<String>,
    ) -> (r: Result<(), ContractError>)
        requires
            state_wf(old(self)@),
        ensures
            state_wf(final(self)@),
            make_move_post(
                old(self)@,
                final(self)@,
                r,
                now,
                sender@,
                game_id@,
                from@,
                to@,
                engine::opt_view(promotion),
            ),
    {
        let ghost s0 = self@;
        let gi = match self.find_game_index(game_id) {
            Some(i) => i,
            None => {
                return Err(ContractError::GameNotFound {});
            },
        };
        proof {
            lemma_game_at(s0.games, game_id@, gi as int);
        }
        let ghost g0 = s0.games[gi as int];
        let is_white = str_eq(sender, &self.games[gi].white);
        let is_black = str_eq(sender, &self.games[gi].black);
        if !is_white && !is_black {
            return Err(ContractError::NotPlayerInGame {});
        }
        if self.games[gi].status != MatchStatus::Active {
            return Err(ContractError::GameNotActive {});
        }
        let turn = self.games[gi].current_turn;
        if (is_white && turn != Color::White) || (is_black && turn != Color::Black) {
            return Err(ContractError::NotYourTurn {});
        }
        let mut g = self.games[gi].duplicate();
        let elapsed = now.saturating_sub(g.last_move_block);
        if g.move_count >= 2 {
            let remaining = if is_white {
                g.white_time_remaining
            } else {
                g.black_time_remaining
            };
            if elapsed >= remaining {
                self.update_profiles_after_game(&g, !is_white, is_white, false);
                g.status = if is_white {
                    MatchStatus::BlackWon
                } else {
                    MatchStatus::WhiteWon
                };
                let ghost g2 = g@;
                self.games.set(gi, g);
                proof {
                    assert(self@.games =~= s0.games.update(gi as int, g2));
                    lemma_terminal_transition(s0, gi as int, g2, !is_white, is_white, false);
                }
                return Err(ContractError::TimeExpired {});
            }
            if is_white {
                g.white_time_remaining = g.white_time_remaining.saturating_sub(elapsed);
            } else {
                g.black_time_remaining = g.black_time_remaining.saturating_sub(elapsed);
            }
        }
        let promo_arg: Option<String> = match &promotion {
            Some(p) => Some(p.clone()),
            None => None,
        };
        let validation = match engine::validate_move(
            g.current_fen.clone(),
            from.clone(),
            to.clone(),
            promo_arg,
        ) {
            Ok(v) => v,
            Err(e) => {
                return Err(e);
            },
        };
        if !validation.is_valid {
            let msg = match validation.error {
                Some(m) => m,
                None => String::from_str("Unknown error"),
            };
            return Err(ContractError::IllegalMove { error: msg });
        }
        let new_fen = match validation.resulting_fen {
            Some(f) => f,
            None => unreached(),
        };
        let ghost old_moves = g@.moves;
        let mut move_str = from;
        move_str.append(to.as_str());
        match &promotion {
            Some(p) => move_str.append(p.as_str()),
            None => {},
        }
        proof {
            assert(move_str@ == move_log_entry(from@, to@, engine::opt_view(promotion)));
        }
        g.moves.push(move_str);
        proof {
            assert(g@.moves =~= old_moves.push(
                move_log_entry(from@, to@, engine::opt_view(promotion)),
            ));
        }
        let check = match engine::verify_position_internal(new_fen.clone()) {
            Ok(c) => c,
            Err(_) => unreached(),
        };
        g.current_fen = new_fen;
        let status2 = match check.status {
            GameStatus::Checkmate => if is_white {
                MatchStatus::WhiteWon
            } else {
                MatchStatus::BlackWon
            },
            GameStatus::Stalemate => MatchStatus::Draw,
            GameStatus::Draw => MatchStatus::Draw,
            GameStatus::Active => MatchStatus::Active,
        };
        let ww = status2 == MatchStatus::WhiteWon;
        let bw = status2 == MatchStatus::BlackWon;
        let dr = status2 == MatchStatus::Draw;
        if ww || bw || dr {
            self.update_profiles_after_game(&g, ww, bw, dr);
        }
        g.status = status2;
        if g.move_count >= 2 && status2 == MatchStatus::Active {
            let inc: u64 = if g.move_count <= 20 {
                600
            } else {
                60
            };
            if is_white {
                g.white_time_remaining = g.white_time_remaining.saturating_add(inc);
            } else {
                g.black_time_remaining = g.black_time_remaining.saturating_add(inc);
            }
        }
        g.move_count = g.move_count.saturating_add(1);
        g.last_move_block = now;
        if status2 == MatchStatus::Active {
            g.current_turn = g.current_turn.opposite();
        }
        let ghost g2 = g@;
        self.games.set(gi, g);
        proof {
            let ghost mover = if is_white {
                Color::White
            } else {
                Color::Black
            };
            let ghost f2 = g2.current_fen;
            assert(self@.games =~= s0.games.update(gi as int, g2));
            assert(g2 == moved_game(
                g0,
                now,
                mover,
                from@,
                to@,
                engine::opt_view(promotion),
                f2,
            ));
            if status2 is Active {
                lemma_nonterminal_update(s0, gi as int, g2);
            } else {
                lemma_terminal_transition(s0, gi as int, g2, ww, bw, dr);
            }
        }
        Ok(())
    }

    /// Forces a status onto a match. Forcing a terminal status on an
    /// active match settles the ledger exactly as any other terminal
    /// transition; any other override changes nothing.
    pub fn update_game_status(
        &mut self,
        sender: &String,
        game_id: &String,
        status: MatchStatus,
    ) -> (r: Result<(), ContractError>)
        requires
            state_wf(old(self)@),
        ensures
            state_wf(final(self)@),
            override_post(old(self)@, final(self)@, r, sender@, game_id@, status),
    {
        let ghost s0 = self@;
        let gi = match self.find_game_index(game_id) {
            Some(i) => i,
            None => {
                return Err(ContractError::GameNotFound {});
            },
        };
        proof {
            lemma_game_at(s0.games, game_id@, gi as int);
        }
        let is_white = str_eq(sender, &self.games[gi].white);
        let is_black = str_eq(sender, &self.games[gi].black);
        if !is_white && !is_black {
            return Err(ContractError::NotPlayerInGame {});
        }
        if self.games[gi].status == MatchStatus::Active && status != MatchStatus::Active {
            let mut g = self.games[gi].duplicate();
            self.update_profiles_after_game(
                &g,
                status == MatchStatus::WhiteWon,
                status == MatchStatus::BlackWon,
                status == MatchStatus::Draw,
            );
            g.status = status;
            let ghost g2 = g@;
            self.games.set(gi, g);
            proof {
                assert(self@.games =~= s0.games.update(gi as int, g2));
                lemma_terminal_transition(
                    s0,
                    gi as int,
                    g2,
                    status is WhiteWon,
                    status is BlackWon,
                    status is Draw,
                );
            }
        }
        Ok(())
    }

    /// Records the caller as the pending draw proposer; only a repeat
    /// proposal by the same caller is refused.
    pub fn propose_draw(&mut self, sender: &String, game_id: &String) -> (r: Result<
        (),
        ContractError,
    >)
        requires
            state_wf(old(self)@),
        ensures
            state_wf(final(self)@),
            propose_post(old(self)@, final(self)@, r, sender@, game_id@),
    {
        let ghost s0 = self@;
        let gi = match self.find_game_index(game_id) {
            Some(i) => i,
            None => {
                return Err(ContractError::GameNotFound {});
            },
        };
        proof {
            lemma_game_at(s0.games, game_id@, gi as int);
        }
        let is_white = str_eq(sender, &self.games[gi].white);
        let is_black = str_eq(sender, &self.games[gi].black);
        if !is_white && !is_black {
            return Err(ContractError::NotPlayerInGame {});
        }
        if self.games[gi].status != MatchStatus::Active {
            return Err(ContractError::GameNotActive {});
        }
        match &self.games[gi].draw_proposed_by {
            Some(p) => {
                if str_eq(p, sender) {
                    return Err(ContractError::DrawAlreadyProposed {});
                }
            },
            None => {},
        }
        let mut g = self.games[gi].duplicate();
        g.draw_proposed_by = Some(sender.clone());
        let ghost g2 = g@;
        self.games.set(gi, g);
        proof {
            assert(self@.games =~= s0.games.update(gi as int, g2));
            lemma_nonterminal_update(s0, gi as int, g2);
        }
        Ok(())
    }

    /// Answers an outstanding draw proposal: accepting ends the match as
    /// a draw and settles the ledger; declining clears the proposal and
    /// play goes on. The proposer cannot answer their own proposal.
    pub fn respond_to_draw(
        &mut self,
        sender: &String,
        game_id: &String,
        accept: bool,
    ) -> (r: Result<(), ContractError>)
        requires
            state_wf(old(self)@),
        ensures
            state_wf(final(self)@),
            respond_post(old(self)@, final(self)@, r, sender@, game_id@, accept),
    {
        let ghost s0 = self@;
        let gi = match self.find_game_index(game_id) {
            Some(i) => i,
            None => {
                return Err(ContractError::GameNotFound {});
            },
        };
        proof {
            lemma_game_at(s0.games, game_id@, gi as int);
        }
        let is_white = str_eq(sender, &self.games[gi].white);
        let is_black = str_eq(sender, &self.games[gi].black);
        if !is_white && !is_black {
            return Err(ContractError::NotPlayerInGame {});
        }
        if self.games[gi].status != MatchStatus::Active {
            return Err(ContractError::GameNotActive {});
        }
        match &self.games[gi].draw_proposed_by {
            None => {
                return Err(ContractError::NoDrawProposal {});
            },
            Some(p) => {
                if str_eq(p, sender) {
                    return Err(ContractError::CannotRespondToOwnProposal {});
                }
            },
        }
        let mut g = self.games[gi].duplicate();
        g.draw_proposed_by = None;
        if accept {
            self.update_profiles_after_game(&g, false, false, true);
            g.status = MatchStatus::Draw;
            let ghost g2 = g@;
            self.games.set(gi, g);
            proof {
                assert(self@.games =~= s0.games.update(gi as int, g2));
                lemma_terminal_transition(s0, gi as int, g2, false, false, true);
            }
        } else {
            let ghost g2 = g@;
            self.games.set(gi, g);
            proof {
                assert(self@.games =~= s0.games.update(gi as int, g2));
                lemma_nonterminal_update(s0, gi as int, g2);
            }
        }
        Ok(())
    }

    /// Fetches one match record by id.
    pub fn get_game(&self, game_id: &String) -> (r: GameResponse)
        requires
            unique_game_ids(self@.games),
        ensures
            r.game is Some <==> has_game(self@.games, game_id@),
            r.game matches Some(g) ==> g@ == game_at(self@.games, game_id@),
    {
        match self.find_game_index(game_id) {
            Some(i) => {
                proof {
                    lemma_game_at(self@.games, game_id@, i as int);
                }
                GameResponse { game: Some(self.games[i].duplicate()) }
            },
            None => GameResponse { game: None },
        }
    }

    /// Fetches one profile by player id.
    pub fn get_user_profile(&self, address: &String) -> (r: UserProfileResponse)
        requires
            unique_profile_addrs(self@.profiles),
        ensures
            r.profile is Some <==> has_profile(self@.profiles, address@),
            r.profile matches Some(p) ==> p@ == profile_at(self@.profiles, address@),
    {
        match self.find_profile_index(address) {
            Some(i) => {
                proof {
                    lemma_profile_at(self@.profiles, address@, i as int);
                }
                UserProfileResponse { profile: Some(self.profiles[i].profile.duplicate()) }
            },
            None => UserProfileResponse { profile: None },
        }
    }

    /// Reports the clock standings of a match, applying the same
    /// in-flight deduction as the move path without changing any state.
    pub fn check_time_status(&self, now: u64, game_id: &String) -> (r: Result<
        TimeStatusResponse,
        ContractError,
    >)
        requires
            unique_game_ids(self@.games),
        ensures
            r.is_ok() == has_game(self@.games, game_id@),
            r matches Err(e) ==> e == (ContractError::GameNotFound {}),
            r matches Ok(t) ==> {
                let g = game_at(self@.games, game_id@);
                &&& t.white_time_remaining == clock_view(g, now).0
                &&& t.black_time_remaining == clock_view(g, now).1
                &&& t.time_expired == clock_view(g, now).2
                &&& t.current_player == g.current_turn
                &&& t.move_count == g.move_count
                &&& t.time_since_last_move == elapsed_ticks(now, g.last_move_block)
            },
    {
        let gi = match self.find_game_index(game_id) {
            Some(i) => i,
            None => {
                return Err(ContractError::GameNotFound {});
            },
        };
        proof {
            lemma_game_at(self@.games, game_id@, gi as int);
        }
        let g = &self.games[gi];
        let time_since_last_move = now.saturating_sub(g.last_move_block);
        let (white_time_remaining, black_time_remaining): (u64, u64) = if g.move_count >= 2 {
            if g.current_turn == Color::White {
                (g.white_time_remaining.saturating_sub(time_since_last_move),
                g.black_time_remaining)
            } else {
                (g.white_time_remaining,
                g.black_time_remaining.saturating_sub(time_since_last_move))
            }
        } else {
            (g.white_time_remaining, g.black_time_remaining)
        };
        let time_expired = if g.move_count >= 2 {
            let current = if g.current_turn == Color::White {
                white_time_remaining
            } else {
                black_time_remaining
            };
            current == 0
        } else {
            false
        };
        Ok(
            TimeStatusResponse {
                white_time_remaining,
                black_time_remaining,
                current_player: g.current_turn,
                time_expired,
                move_count: g.move_count,
                time_since_last_move,
            },
        )
    }

    /// Lists every match a player takes part in, in creation order.
    pub fn get_player_games(&self, player: &String) -> (r: GamesResponse)
        ensures
            r.games@.map_values(|g: ChessGame| g@) == games_of_player(self@.games, player@),
    {
        let mut out: Vec<ChessGame> = Vec::new();
        let mut k: usize = 0;
        while k < self.games.len()
            invariant
                k <= self.games.len(),
                out@.map_values(|g: ChessGame| g@) == games_of_player(
                    self@.games.subrange(0, k as int),
                    player@,
                ),
            decreases self.games.len() - k,
        {
            let ghost prefix = self@.games.subrange(0, k as int);
            let ghost e = self@.games[k as int];
            proof {
                assert(self@.games.subrange(0, (k + 1) as int) =~= prefix.push(e));
                assert(prefix.push(e).drop_last() =~= prefix);
                assert(prefix.push(e).last() == e);
            }
            let is_white = str_eq(player, &self.games[k].white);
            let is_black = str_eq(player, &self.games[k].black);
            if is_white || is_black {
                out.push(self.games[k].duplicate());
                proof {
                    assert(out@.map_values(|g: ChessGame| g@) =~= games_of_player(
                        prefix,
                        player@,
                    ).push(e));
                }
            }
            k += 1;
        }
        proof {
            assert(self@.games.subrange(0, self@.games.len() as int) =~= self@.games);
        }
        GamesResponse { games: out }
    }

    /// Lists every match id, in creation order.
    pub fn get_all_game_ids(&self) -> (r: GameIdsResponse)
        ensures
            r.game_ids@.len() == self@.games.len(),
            forall|i: int| 0 <= i < self@.games.len() ==> r.game_ids@[i]@ == self@.games[i].id,
    {
        let mut out: Vec<String> = Vec::new();
        let mut k: usize = 0;
        while k < self.games.len()
            invariant
                k <= self.games.len(),
                out@.len() == k,
                forall|j: int| 0 <= j < k ==> out@[j]@ == self@.games[j].id,
            decreases self.games.len() - k,
        {
            out.push(self.games[k].id.clone());
            k += 1;
        }
        GameIdsResponse { game_ids: out }
    }

    /// Lists every known player id, in order of first appearance.
    pub fn get_all_users(&self) -> (r: UsersResponse)
        ensures
            r.users@.len() == self@.profiles.len(),
            forall|i: int| 0 <= i < self@.profiles.len() ==> r.users@[i]@ == self@.profiles[i].addr,
    {
        let mut out: Vec<String> = Vec::new();
        let mut k: usize = 0;
        while k < self.profiles.len()
            invariant
                k <= self.profiles.len(),
                out@.len() == k,
                forall|j: int| 0 <= j < k ==> out@[j]@ == self@.profiles[j].addr,
            decreases self.profiles.len() - k,
        {
            out.push(self.profiles[k].addr.clone());
            k += 1;
        }
        UsersResponse { users: out }
    }
}

} // verus!
