use shion::outcome::Outcome;
use shion::rating::Rating;
use shion::rating::isqrt;
use shion::rating::update_two_teams;
use shion::settings::AppSettings;
use shion::settings::DEFAULT_RATING;
use shion::settings::DEFAULT_UNCERTAINTY;
use shion::settings::DEFAULT_UNCERTAINTY_FLOOR;

fn default_team(n: usize) -> Vec<Rating> {
    let mut out = Vec::new();
    for _ in 0..n {
        out.push(Rating { rating: DEFAULT_RATING, uncertainty: DEFAULT_UNCERTAINTY });
    }
    out
}

#[test]
fn settings_defaults_are_fixed() {
    let s = AppSettings::get();
    assert_eq!(s.initial_rating, 1_000_000);
    assert_eq!(s.initial_uncertainty, 333_333);
    assert_eq!(s.beta, 166_667);
    assert_eq!(s.uncertainty_floor, 10_000);
}

#[test]
fn isqrt_exact_values() {
    assert_eq!(isqrt(0), 0);
    assert_eq!(isqrt(1), 1);
    assert_eq!(isqrt(3), 1);
    assert_eq!(isqrt(4), 2);
    assert_eq!(isqrt(999_999), 999);
    assert_eq!(isqrt(1_000_000), 1000);
    assert_eq!(isqrt(u64::MAX), 0xFFFF_FFFF);
}

#[test]
fn one_on_one_update_exact_values() {
    // Two fresh players; the first one wins.  The fixed-point arithmetic is
    // deterministic, so the result is a single exact pair of beliefs.
    let s = AppSettings::get();
    let a = default_team(1);
    let b = default_team(1);
    let (na, nb) = update_two_teams(&a, &b, Outcome::TeamAWins, &s);
    assert_eq!(na[0], Rating { rating: 1_105_409, uncertainty: 280_629 });
    assert_eq!(nb[0], Rating { rating: 894_591, uncertainty: 280_629 });
}

#[test]
fn winners_gain_losers_lose_uncertainty_shrinks() {
    let s = AppSettings::get();
    let a = default_team(2);
    let b = default_team(2);
    let (na, nb) = update_two_teams(&a, &b, Outcome::TeamBWins, &s);
    for (fresh, updated) in a.iter().zip(na.iter()) {
        assert!(updated.rating < fresh.rating);
        assert!(updated.uncertainty < fresh.uncertainty);
        assert!(updated.uncertainty >= DEFAULT_UNCERTAINTY_FLOOR);
    }
    for (fresh, updated) in b.iter().zip(nb.iter()) {
        assert!(updated.rating > fresh.rating);
        assert!(updated.uncertainty < fresh.uncertainty);
        assert!(updated.uncertainty >= DEFAULT_UNCERTAINTY_FLOOR);
    }
}

#[test]
fn two_on_two_update_exact_values() {
    let s = AppSettings::get();
    let a = default_team(2);
    let b = default_team(2);
    let (na, nb) = update_two_teams(&a, &b, Outcome::TeamBWins, &s);
    for updated in na.iter() {
        assert_eq!(*updated, Rating { rating: 925_465, uncertainty: 296_066 });
    }
    for updated in nb.iter() {
        assert_eq!(*updated, Rating { rating: 1_074_535, uncertainty: 296_066 });
    }
}

#[test]
fn update_is_symmetric_under_team_swap() {
    // Swapping the teams and the outcome swaps the outputs, down to the
    // last milli-point.
    let s = AppSettings::get();
    let a = vec![
        Rating { rating: 1_200_000, uncertainty: 250_000 },
        Rating { rating: 950_000, uncertainty: 310_000 },
    ];
    let b = vec![
        Rating { rating: 1_050_000, uncertainty: 120_000 },
        Rating { rating: 880_000, uncertainty: 333_000 },
    ];
    let (na, nb) = update_two_teams(&a, &b, Outcome::TeamAWins, &s);
    let (nb2, na2) = update_two_teams(&b, &a, Outcome::TeamBWins, &s);
    assert_eq!(na, na2);
    assert_eq!(nb, nb2);
}

#[test]
fn confident_players_move_less() {
    let s = AppSettings::get();
    let confident = Rating { rating: 1_000_000, uncertainty: 50_000 };
    let unsure = Rating { rating: 1_000_000, uncertainty: 330_000 };
    let a = vec![confident, unsure];
    let b = default_team(2);
    let (na, _) = update_two_teams(&a, &b, Outcome::TeamAWins, &s);
    let confident_gain = na[0].rating - confident.rating;
    let unsure_gain = na[1].rating - unsure.rating;
    assert!(confident_gain < unsure_gain);
}

#[test]
fn uncertainty_never_falls_below_the_floor() {
    let s = AppSettings::get();
    let a = vec![Rating { rating: 1_000_000, uncertainty: DEFAULT_UNCERTAINTY_FLOOR }];
    let b = default_team(1);
    let (na, _) = update_two_teams(&a, &b, Outcome::TeamAWins, &s);
    assert_eq!(na[0].uncertainty, DEFAULT_UNCERTAINTY_FLOOR);
}

#[test]
fn fresh_belief_uses_configured_defaults() {
    let s = AppSettings::get();
    let r = Rating::fresh(&s);
    assert_eq!(r, Rating { rating: DEFAULT_RATING, uncertainty: DEFAULT_UNCERTAINTY });
}
