use xion_chess::calculate_elo;

#[test]
fn equal_ratings_decisive_result() {
    // Equal ratings: expected score 500 each, so the winner gains
    // 32 * (1000 - 500) / 1000 = 16 and the loser gives up the same.
    let (w, l) = calculate_elo(1200, 1200, false);
    assert_eq!(w, 1216);
    assert_eq!(l, 1184);
}

#[test]
fn equal_ratings_draw_changes_nothing() {
    let (w, l) = calculate_elo(1200, 1200, true);
    assert_eq!(w, 1200);
    assert_eq!(l, 1200);
}

#[test]
fn draw_against_weaker_player_costs_rating() {
    // Gap 200: the stronger side expects 760 of 1000, so a draw moves
    // 32 * (500 - 760) / 1000 = -8 (truncated toward zero).
    let (w, l) = calculate_elo(1200, 1000, true);
    assert_eq!(w, 1192);
    assert_eq!(l, 1008);
}

#[test]
fn upset_win_moves_thirty_points() {
    // Gap capped at 800: the underdog expects 50 of 1000 and gains
    // 32 * 950 / 1000 = 30; the favourite loses 30.
    let (w, l) = calculate_elo(100, 2000, false);
    assert_eq!(w, 130);
    assert_eq!(l, 1970);
}

#[test]
fn rating_never_falls_below_floor() {
    // A loser already at the floor stays at 100 whatever the gap.
    let (w, l) = calculate_elo(2000, 100, false);
    assert_eq!(l, 100);
    assert!(w >= 100);
    let (w2, l2) = calculate_elo(101, 105, false);
    assert!(w2 >= 100 && l2 >= 100);
}

#[test]
fn draw_update_is_symmetric() {
    let (a1, b1) = calculate_elo(1300, 1100, true);
    let (b2, a2) = calculate_elo(1100, 1300, true);
    assert_eq!(a1, a2);
    assert_eq!(b1, b2);
}

#[test]
fn breakpoint_table_boundaries() {
    // Gap 25 still counts as even (500); gap 26 crosses to 537.
    let (w25, _) = calculate_elo(1225, 1200, false);
    assert_eq!(w25, 1225 + 16);
    let (w26, _) = calculate_elo(1226, 1200, false);
    // 32 * (1000 - 537) / 1000 = 14
    assert_eq!(w26, 1226 + 14);
}
