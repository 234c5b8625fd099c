use shion::outcome::Outcome;
use shion::outcome::determine_winner;
use shion::outcome::total_frags;

#[test]
fn blue_wins_on_strictly_more_frags() {
    let blue = vec![20i16, 15];
    let red = vec![14i16, 20];
    assert_eq!(determine_winner(&blue, &red), Outcome::TeamAWins);
}

#[test]
fn red_wins_on_fewer_blue_frags() {
    // The documented scenario: blue {30, 22} = 52 against red {52, 51} = 103.
    let blue = vec![30i16, 22];
    let red = vec![52i16, 51];
    assert_eq!(determine_winner(&blue, &red), Outcome::TeamBWins);
}

#[test]
fn tie_goes_to_red() {
    // The documented asymmetric tie-break: equality favours the red team.
    let blue = vec![25i16, 25];
    let red = vec![30i16, 20];
    assert_eq!(determine_winner(&blue, &red), Outcome::TeamBWins);
}

#[test]
fn empty_teams_tie_goes_to_red() {
    let blue: Vec<i16> = Vec::new();
    let red: Vec<i16> = Vec::new();
    assert_eq!(determine_winner(&blue, &red), Outcome::TeamBWins);
}

#[test]
fn negative_frags_count_against_a_team() {
    // Suicides drive a frag counter below zero.
    let blue = vec![-3i16, 2];
    let red = vec![-1i16, -2];
    assert_eq!(total_frags(&blue), -1);
    assert_eq!(total_frags(&red), -3);
    assert_eq!(determine_winner(&blue, &red), Outcome::TeamAWins);
}

#[test]
fn total_frags_sums_exactly() {
    let frags = vec![30i16, 22];
    assert_eq!(total_frags(&frags), 52);
    let empty: Vec<i16> = Vec::new();
    assert_eq!(total_frags(&empty), 0);
}

#[test]
fn outcome_flip_swaps_sides() {
    assert_eq!(Outcome::TeamAWins.flip(), Outcome::TeamBWins);
    assert_eq!(Outcome::TeamBWins.flip(), Outcome::TeamAWins);
}
