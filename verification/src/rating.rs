//! Rating updates after a finished match: an integer-only approximation of
//! the logistic expected-score curve, driven by a fixed breakpoint table.
use vstd::prelude::*;

verus! {

/// Expected score (scaled by 1000) of the higher-rated side, from the
/// rating difference. The table approximates the logistic curve.
pub open spec fn expected_for_diff(diff: int) -> int {
    if diff <= 25 {
        500
    } else if diff <= 50 {
        537
    } else if diff <= 100 {
        640
    } else if diff <= 150 {
        691
    } else if diff <= 200 {
        760
    } else if diff <= 300 {
        849
    } else {
        if diff <= 400 {
            909
        } else {
            950
        }
    }
}

/// Absolute rating difference, capped at 800.
pub open spec fn rating_gap(winner: int, loser: int) -> int {
    if winner >= loser {
        if winner - loser <= 800 {
            winner - loser
        } else {
            800
        }
    } else {
        if loser - winner <= 800 {
            loser - winner
        } else {
            800
        }
    }
}

/// Expected score (scaled by 1000) of the winner-side player.
pub open spec fn winner_expected(winner: int, loser: int) -> int {
    if winner >= loser {
        expected_for_diff(rating_gap(winner, loser))
    } else {
        1000 - expected_for_diff(rating_gap(winner, loser))
    }
}

/// Magnitude of the rating change for actual score `a` against expected
/// score `e` (both scaled by 1000): `32 * |a - e| / 1000`, rounded down.
pub open spec fn change_magnitude(a: int, e: int) -> int {
    if a >= e {
        32 * (a - e) / 1000
    } else {
        32 * (e - a) / 1000
    }
}

/// New rating after scoring `a` against expectation `e`: the old rating
/// moves by `change_magnitude`, gains saturate at `u32::MAX`, losses
/// saturate at zero, and the result is floored at 100.
pub open spec fn moved_rating(old: int, a: int, e: int) -> int {
    let shifted = if a >= e {
        if old + change_magnitude(a, e) <= u32::MAX {
            old + change_magnitude(a, e)
        } else {
            u32::MAX as int
        }
    } else {
        if old - change_magnitude(a, e) >= 0 {
            old - change_magnitude(a, e)
        } else {
            0
        }
    };
    if shifted >= 100 {
        shifted
    } else {
        100
    }
}

/// The pair of new ratings after a game: winner-side first. For a draw
/// both actual scores are 500; otherwise the winner scores 1000 and the
/// loser 0.
pub open spec fn spec_calculate_elo(winner: int, loser: int, is_draw: bool) -> (int, int) {
    let we = winner_expected(winner, loser);
    let le = 1000 - we;
    let wa: int = if is_draw {
        500
    } else {
        1000
    };
    let la: int = if is_draw {
        500
    } else {
        0
    };
    (moved_rating(winner, wa, we), moved_rating(loser, la, le))
}

/// New ratings after a game, from the winner's and loser's old ratings
/// (for a draw the orientation only fixes which result is which). The
/// K-factor is 32 and all arithmetic is exact-integer, so results are
/// bit-reproducible.
pub fn calculate_elo(winner_elo: u32, loser_elo: u32, is_draw: bool) -> (r: (u32, u32))
    ensures
        r.0 == spec_calculate_elo(winner_elo as int, loser_elo as int, is_draw).0,
        r.1 == spec_calculate_elo(winner_elo as int, loser_elo as int, is_draw).1,
        r.0 >= 100,
        r.1 >= 100,
{
    let diff: u32 = if winner_elo >= loser_elo {
        let d = winner_elo - loser_elo;
        if d <= 800 {
            d
        } else {
            800
        }
    } else {
        let d = loser_elo - winner_elo;
        if d <= 800 {
            d
        } else {
            800
        }
    };
    let table: u32 = if diff <= 25 {
        500
    } else if diff <= 50 {
        537
    } else if diff <= 100 {
        640
    } else if diff <= 150 {
        691
    } else if diff <= 200 {
        760
    } else if diff <= 300 {
        849
    } else if diff <= 400 {
        909
    } else {
        950
    };
    let we: u32 = if winner_elo >= loser_elo {
        table
    } else {
        1000 - table
    };
    let le: u32 = 1000 - we;
    let wa: u32 = if is_draw {
        500
    } else {
        1000
    };
    let la: u32 = if is_draw {
        500
    } else {
        0
    };
    let new_winner = shift_rating(winner_elo, wa, we);
    let new_loser = shift_rating(loser_elo, la, le);
    (new_winner, new_loser)
}

/// One side's new rating from its old rating, actual score and expected
/// score (both scaled by 1000).
fn shift_rating(old: u32, a: u32, e: u32) -> (r: u32)
    requires
        a <= 1000,
        e <= 1000,
    ensures
        r == moved_rating(old as int, a as int, e as int),
        r >= 100,
{
    let shifted: u32 = if a >= e {
        let mag = (32 * (a - e)) / 1000;
        old.saturating_add(mag)
    } else {
        let mag = (32 * (e - a)) / 1000;
        old.saturating_sub(mag)
    };
    if shifted >= 100 {
        shifted
    } else {
        100
    }
}

/// Law: the new ratings never fall below the floor of 100, whatever the
/// old ratings and the outcome.
pub proof fn lemma_rating_floor(winner: int, loser: int, is_draw: bool)
    ensures
        spec_calculate_elo(winner, loser, is_draw).0 >= 100,
        spec_calculate_elo(winner, loser, is_draw).1 >= 100,
{
}

/// Law: a draw is symmetric. Updating `(a, b)` as a draw gives the same
/// two ratings, in swapped order, as updating `(b, a)` as a draw.
pub proof fn lemma_draw_symmetry(a: int, b: int)
    ensures
        spec_calculate_elo(a, b, true).0 == spec_calculate_elo(b, a, true).1,
        spec_calculate_elo(a, b, true).1 == spec_calculate_elo(b, a, true).0,
{
}

} // verus!
