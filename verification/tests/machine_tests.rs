use xion_chess::machine::ChessState;
use xion_chess::{Color, ContractError, MatchStatus, UserProfile};

fn s(x: &str) -> String {
    x.to_string()
}

#[test]
fn initialize_user_creates_and_renames() {
    let mut st = ChessState::new();
    st.initialize_user(7, &s("alice"), s("Alice")).unwrap();
    let p = st.get_user_profile(&s("alice")).profile.unwrap();
    assert_eq!(p.username, "Alice");
    assert_eq!(p.elo, 1200);
    assert_eq!(p.games_played, 0);
    assert_eq!(p.created_at, 7);
    assert!(p.current_games.is_empty());

    // An empty name leaves the existing name in place
    st.initialize_user(9, &s("alice"), s("")).unwrap();
    let p = st.get_user_profile(&s("alice")).profile.unwrap();
    assert_eq!(p.username, "Alice");
    assert_eq!(p.created_at, 7);

    // A non-empty name replaces it
    st.initialize_user(9, &s("alice"), s("Alicia")).unwrap();
    let p = st.get_user_profile(&s("alice")).profile.unwrap();
    assert_eq!(p.username, "Alicia");
}

#[test]
fn create_game_registers_both_players() {
    let mut st = ChessState::new();
    st.create_game(5, &s("alice"), s("g1"), s("bob"), s("standard"))
        .unwrap();
    let g = st.get_game(&s("g1")).game.unwrap();
    assert_eq!(g.white, "alice");
    assert_eq!(g.black, "bob");
    assert_eq!(g.status, MatchStatus::Active);
    assert_eq!(g.current_turn, Color::White);
    assert_eq!(g.move_count, 0);
    assert_eq!(g.white_time_remaining, 172_800);
    assert_eq!(g.black_time_remaining, 172_800);
    assert_eq!(
        g.current_fen,
        "rnbqkbnr/pppppppp/8/8/8/8/PPPPPPPP/RNBQKBNR w KQkq - 0 1"
    );
    let pa = st.get_user_profile(&s("alice")).profile.unwrap();
    let pb = st.get_user_profile(&s("bob")).profile.unwrap();
    assert_eq!(pa.current_games, vec![s("g1")]);
    assert_eq!(pb.current_games, vec![s("g1")]);
    assert_eq!(pa.elo, 1200);
    assert_eq!(pb.elo, 1200);
}

#[test]
fn create_game_rejects_duplicate_id() {
    let mut st = ChessState::new();
    st.create_game(5, &s("alice"), s("g1"), s("bob"), s("standard"))
        .unwrap();
    let r = st.create_game(6, &s("carol"), s("g1"), s("dan"), s("standard"));
    assert!(matches!(r, Err(ContractError::GameAlreadyExists { .. })));
}

#[test]
fn make_move_applies_a_legal_move() {
    let mut st = ChessState::new();
    st.create_game(5, &s("alice"), s("g1"), s("bob"), s("standard"))
        .unwrap();
    st.make_move(5, &s("alice"), &s("g1"), s("e2"), s("e4"), None)
        .unwrap();
    let g = st.get_game(&s("g1")).game.unwrap();
    assert_eq!(
        g.current_fen,
        "rnbqkbnr/pppppppp/8/8/4P3/8/PPPP1PPP/RNBQKBNR b KQkq e3 0 1"
    );
    assert_eq!(g.move_count, 1);
    assert_eq!(g.current_turn, Color::Black);
    assert_eq!(g.moves, vec![s("e2e4")]);
    assert_eq!(g.status, MatchStatus::Active);
}

#[test]
fn make_move_enforces_turn_order() {
    let mut st = ChessState::new();
    st.create_game(5, &s("alice"), s("g1"), s("bob"), s("standard"))
        .unwrap();
    let r = st.make_move(5, &s("bob"), &s("g1"), s("e7"), s("e5"), None);
    assert!(matches!(r, Err(ContractError::NotYourTurn {})));
}

#[test]
fn make_move_rejects_strangers_and_unknown_games() {
    let mut st = ChessState::new();
    st.create_game(5, &s("alice"), s("g1"), s("bob"), s("standard"))
        .unwrap();
    let r = st.make_move(5, &s("zoe"), &s("g1"), s("e2"), s("e4"), None);
    assert!(matches!(r, Err(ContractError::NotPlayerInGame {})));
    let r = st.make_move(5, &s("alice"), &s("nope"), s("e2"), s("e4"), None);
    assert!(matches!(r, Err(ContractError::GameNotFound {})));
}

#[test]
fn make_move_rejects_an_illegal_move_without_state_change() {
    let mut st = ChessState::new();
    st.create_game(5, &s("alice"), s("g1"), s("bob"), s("standard"))
        .unwrap();
    let r = st.make_move(5, &s("alice"), &s("g1"), s("e2"), s("e5"), None);
    match r {
        Err(ContractError::IllegalMove { error }) => assert_eq!(error, "Illegal move"),
        other => panic!("expected IllegalMove, got {:?}", other),
    }
    let g = st.get_game(&s("g1")).game.unwrap();
    assert_eq!(g.move_count, 0);
    assert_eq!(g.current_turn, Color::White);
    assert!(g.moves.is_empty());
}

#[test]
fn scholars_mate_ends_the_match() {
    let mut st = ChessState::new();
    st.create_game(5, &s("alice"), s("g1"), s("bob"), s("standard"))
        .unwrap();
    let moves = [
        ("alice", "e2", "e4"),
        ("bob", "e7", "e5"),
        ("alice", "f1", "c4"),
        ("bob", "b8", "c6"),
        ("alice", "d1", "h5"),
        ("bob", "g8", "f6"),
        ("alice", "h5", "f7"),
    ];
    for (player, from, to) in moves {
        st.make_move(5, &s(player), &s("g1"), s(from), s(to), None)
            .unwrap();
    }
    let g = st.get_game(&s("g1")).game.unwrap();
    assert_eq!(g.status, MatchStatus::WhiteWon);
    // The side to move does not flip after a terminal move
    assert_eq!(g.current_turn, Color::White);
    let pa = st.get_user_profile(&s("alice")).profile.unwrap();
    let pb = st.get_user_profile(&s("bob")).profile.unwrap();
    assert_eq!(pa.wins, 1);
    assert_eq!(pb.losses, 1);
    assert_eq!(pa.elo, 1216);
    assert_eq!(pb.elo, 1184);
    assert!(pa.current_games.is_empty());
    assert!(pb.current_games.is_empty());
    // No further moves are accepted
    let r = st.make_move(5, &s("alice"), &s("g1"), s("a2"), s("a3"), None);
    assert!(matches!(r, Err(ContractError::GameNotActive {})));
}

#[test]
fn resignation_credits_the_opponent() {
    let mut st = ChessState::new();
    st.create_game(5, &s("alice"), s("g1"), s("bob"), s("standard"))
        .unwrap();
    st.resign_game(&s("alice"), &s("g1")).unwrap();
    let g = st.get_game(&s("g1")).game.unwrap();
    assert_eq!(g.status, MatchStatus::BlackWon);
    let pa = st.get_user_profile(&s("alice")).profile.unwrap();
    let pb = st.get_user_profile(&s("bob")).profile.unwrap();
    assert_eq!(pa.losses, 1);
    assert_eq!(pa.games_played, 1);
    assert!(pa.elo < 1200);
    assert_eq!(pa.elo, 1184);
    assert_eq!(pb.wins, 1);
    assert_eq!(pb.games_played, 1);
    assert!(pb.elo > 1200);
    assert_eq!(pb.elo, 1216);
    assert!(pa.current_games.is_empty());
    assert!(pb.current_games.is_empty());
    // Resigning a finished match fails
    let r = st.resign_game(&s("bob"), &s("g1"));
    assert!(matches!(r, Err(ContractError::GameNotActive {})));
    // A stranger cannot resign
    st.create_game(6, &s("alice"), s("g2"), s("bob"), s("standard"))
        .unwrap();
    let r = st.resign_game(&s("zoe"), &s("g2"));
    assert!(matches!(r, Err(ContractError::NotPlayerInGame {})));
}

#[test]
fn accepted_draw_ends_the_match() {
    let mut st = ChessState::new();
    st.create_game(5, &s("alice"), s("g1"), s("bob"), s("standard"))
        .unwrap();
    st.propose_draw(&s("alice"), &s("g1")).unwrap();
    let r = st.propose_draw(&s("alice"), &s("g1"));
    assert!(matches!(r, Err(ContractError::DrawAlreadyProposed {})));
    let r = st.respond_to_draw(&s("alice"), &s("g1"), true);
    assert!(matches!(r, Err(ContractError::CannotRespondToOwnProposal {})));
    st.respond_to_draw(&s("bob"), &s("g1"), true).unwrap();
    let g = st.get_game(&s("g1")).game.unwrap();
    assert_eq!(g.status, MatchStatus::Draw);
    assert_eq!(g.draw_proposed_by, None);
    let pa = st.get_user_profile(&s("alice")).profile.unwrap();
    let pb = st.get_user_profile(&s("bob")).profile.unwrap();
    assert_eq!(pa.draws, 1);
    assert_eq!(pb.draws, 1);
    assert_eq!(pa.elo, 1200);
    assert_eq!(pb.elo, 1200);
    assert!(pa.current_games.is_empty());
    assert!(pb.current_games.is_empty());
}

#[test]
fn declined_draw_clears_the_proposal() {
    let mut st = ChessState::new();
    st.create_game(5, &s("alice"), s("g1"), s("bob"), s("standard"))
        .unwrap();
    let r = st.respond_to_draw(&s("bob"), &s("g1"), true);
    assert!(matches!(r, Err(ContractError::NoDrawProposal {})));
    st.propose_draw(&s("alice"), &s("g1")).unwrap();
    st.respond_to_draw(&s("bob"), &s("g1"), false).unwrap();
    let g = st.get_game(&s("g1")).game.unwrap();
    assert_eq!(g.status, MatchStatus::Active);
    assert_eq!(g.draw_proposed_by, None);
    // The same player may propose again once the slot is clear
    st.propose_draw(&s("alice"), &s("g1")).unwrap();
    let g = st.get_game(&s("g1")).game.unwrap();
    assert_eq!(g.draw_proposed_by, Some(s("alice")));
}

#[test]
fn status_override_settles_ratings_once() {
    let mut st = ChessState::new();
    st.create_game(5, &s("alice"), s("g1"), s("bob"), s("standard"))
        .unwrap();
    let r = st.update_game_status(&s("zoe"), &s("g1"), MatchStatus::WhiteWon);
    assert!(matches!(r, Err(ContractError::NotPlayerInGame {})));
    st.update_game_status(&s("bob"), &s("g1"), MatchStatus::WhiteWon)
        .unwrap();
    let g = st.get_game(&s("g1")).game.unwrap();
    assert_eq!(g.status, MatchStatus::WhiteWon);
    let pa = st.get_user_profile(&s("alice")).profile.unwrap();
    assert_eq!(pa.wins, 1);
    assert_eq!(pa.elo, 1216);
    // A second override changes nothing: no double settlement, and a
    // terminal status never transitions again
    st.update_game_status(&s("bob"), &s("g1"), MatchStatus::Draw)
        .unwrap();
    let g = st.get_game(&s("g1")).game.unwrap();
    assert_eq!(g.status, MatchStatus::WhiteWon);
    let pa = st.get_user_profile(&s("alice")).profile.unwrap();
    assert_eq!(pa.wins, 1);
    assert_eq!(pa.games_played, 1);
    assert_eq!(pa.elo, 1216);
}

#[test]
fn timeout_commits_a_loss_and_reports_an_error() {
    let mut st = ChessState::new();
    st.create_game(0, &s("carol"), s("g1"), s("dan"), s("standard"))
        .unwrap();
    // Grace window: each side's first move is free of clock pressure
    st.make_move(0, &s("carol"), &s("g1"), s("e2"), s("e4"), None)
        .unwrap();
    st.make_move(0, &s("dan"), &s("g1"), s("e7"), s("e5"), None)
        .unwrap();
    // Now the clock applies: waiting past the budget loses on time
    let r = st.make_move(200_000, &s("carol"), &s("g1"), s("g1"), s("f3"), None);
    assert!(matches!(r, Err(ContractError::TimeExpired {})));
    let g = st.get_game(&s("g1")).game.unwrap();
    assert_eq!(g.status, MatchStatus::BlackWon);
    assert_eq!(g.moves.len(), 2);
    let pc = st.get_user_profile(&s("carol")).profile.unwrap();
    let pd = st.get_user_profile(&s("dan")).profile.unwrap();
    assert_eq!(pc.losses, 1);
    assert_eq!(pc.elo, 1184);
    assert_eq!(pd.wins, 1);
    assert_eq!(pd.elo, 1216);
    assert!(pc.current_games.is_empty());
    assert!(pd.current_games.is_empty());
}

#[test]
fn increments_shrink_after_move_twenty() {
    let mut st = ChessState::new();
    st.create_game(5, &s("alice"), s("g1"), s("bob"), s("standard"))
        .unwrap();
    // 24 plies of knights stepping out and back, all on the same tick.
    // White moves at move counts 0,2,..,22: counts 2..=20 earn 600
    // ticks (10 times), count 22 earns 60. Black moves at counts
    // 1,3,..,23: counts 3..=19 earn 600 (9 times), 21 and 23 earn 60.
    let cycle = [
        ("alice", "g1", "f3"),
        ("bob", "g8", "f6"),
        ("alice", "f3", "g1"),
        ("bob", "f6", "g8"),
    ];
    for _ in 0..6 {
        for (player, from, to) in cycle {
            st.make_move(5, &s(player), &s("g1"), s(from), s(to), None)
                .unwrap();
        }
    }
    let g = st.get_game(&s("g1")).game.unwrap();
    assert_eq!(g.move_count, 24);
    assert_eq!(g.white_time_remaining, 172_800 + 10 * 600 + 60);
    assert_eq!(g.black_time_remaining, 172_800 + 9 * 600 + 2 * 60);
}

#[test]
fn clock_status_applies_the_inflight_deduction() {
    let mut st = ChessState::new();
    st.create_game(0, &s("alice"), s("g1"), s("bob"), s("standard"))
        .unwrap();
    // Before both sides have moved, the full budget is reported
    let t = st.check_time_status(1_000, &s("g1")).unwrap();
    assert_eq!(t.white_time_remaining, 172_800);
    assert_eq!(t.black_time_remaining, 172_800);
    assert!(!t.time_expired);
    st.make_move(0, &s("alice"), &s("g1"), s("e2"), s("e4"), None)
        .unwrap();
    st.make_move(0, &s("bob"), &s("g1"), s("e7"), s("e5"), None)
        .unwrap();
    // Both first moves are made: white is to move and bleeds time
    let t = st.check_time_status(1_000, &s("g1")).unwrap();
    assert_eq!(t.white_time_remaining, 172_800 - 1_000);
    assert_eq!(t.black_time_remaining, 172_800);
    assert_eq!(t.current_player, Color::White);
    assert_eq!(t.move_count, 2);
    assert_eq!(t.time_since_last_move, 1_000);
    assert!(!t.time_expired);
    // The query does not mutate anything
    let g = st.get_game(&s("g1")).game.unwrap();
    assert_eq!(g.white_time_remaining, 172_800);
    // Far past the budget the clock reads as expired
    let t = st.check_time_status(200_000, &s("g1")).unwrap();
    assert_eq!(t.white_time_remaining, 0);
    assert!(t.time_expired);
    let r = st.check_time_status(0, &s("missing"));
    assert!(matches!(r, Err(ContractError::GameNotFound {})));
}

#[test]
fn listing_queries_report_creation_order() {
    let mut st = ChessState::new();
    assert!(st.get_game(&s("g1")).game.is_none());
    assert!(st.get_user_profile(&s("alice")).profile.is_none());
    st.create_game(5, &s("alice"), s("g1"), s("bob"), s("standard"))
        .unwrap();
    st.create_game(6, &s("carol"), s("g2"), s("alice"), s("blitz"))
        .unwrap();
    assert_eq!(st.get_all_game_ids().game_ids, vec![s("g1"), s("g2")]);
    assert_eq!(
        st.get_all_users().users,
        vec![s("alice"), s("bob"), s("carol")]
    );
    let mine = st.get_player_games(&s("alice")).games;
    assert_eq!(mine.len(), 2);
    assert_eq!(mine[0].id, "g1");
    assert_eq!(mine[1].id, "g2");
    let theirs = st.get_player_games(&s("bob")).games;
    assert_eq!(theirs.len(), 1);
    assert_eq!(theirs[0].id, "g1");
    assert!(st.get_player_games(&s("zoe")).games.is_empty());
}

#[test]
fn promotion_through_the_match_path() {
    let mut st = ChessState::new();
    st.create_game(5, &s("alice"), s("g1"), s("bob"), s("standard"))
        .unwrap();
    // March the a-pawn to promotion while black shuffles a knight
    let plies = [
        ("alice", "a2", "a4", None),
        ("bob", "b8", "c6", None),
        ("alice", "a4", "a5", None),
        ("bob", "c6", "b8", None),
        ("alice", "a5", "a6", None),
        ("bob", "b8", "c6", None),
        ("alice", "a6", "b7", None),
        ("bob", "c6", "b8", None),
        ("alice", "b7", "a8", Some("q")),
    ];
    for (player, from, to, promo) in plies {
        st.make_move(5, &s(player), &s("g1"), s(from), s(to), promo.map(s))
            .unwrap();
    }
    let g = st.get_game(&s("g1")).game.unwrap();
    assert_eq!(g.moves.last().unwrap(), "b7a8q");
    assert!(g.current_fen.starts_with("Q"));
}

#[test]
fn default_profile_is_blank() {
    let p = UserProfile::default();
    assert_eq!(p.username, "");
    assert_eq!(p.elo, 1200);
    assert_eq!(p.games_played, 0);
    assert!(p.current_games.is_empty());
}
