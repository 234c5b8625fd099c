use shion::error::AppError;
use shion::teams::RequestBody;
use shion::teams::Team;
use shion::teams::parse_team_label;
use shion::teams::validate_teams;

fn rb(model: &str) -> RequestBody {
    RequestBody {
        steam_id: String::from("STEAM_0:1:111"),
        match_id: 1,
        frags: 10,
        deaths: 5,
        average_ping: 40,
        damage_dealt: 900,
        damage_taken: 700,
        model: String::from(model),
    }
}

#[test]
fn accepts_even_teams_case_insensitively() {
    let batch = vec![rb("Blue"), rb("RED"), rb("blue"), rb("rEd")];
    assert!(validate_teams(&batch).is_ok());
}

#[test]
fn accepts_empty_batch() {
    let batch: Vec<RequestBody> = Vec::new();
    assert!(validate_teams(&batch).is_ok());
}

#[test]
fn rejects_unknown_label() {
    let batch = vec![rb("blue"), rb("green"), rb("red"), rb("red")];
    assert!(matches!(validate_teams(&batch), Err(AppError::InvalidModel)));
}

#[test]
fn rejects_unknown_label_before_counting() {
    // An invalid label wins over a size mismatch.
    let batch = vec![rb("purple")];
    assert!(matches!(validate_teams(&batch), Err(AppError::InvalidModel)));
}

#[test]
fn rejects_uneven_teams() {
    let batch = vec![rb("blue"), rb("blue"), rb("red")];
    assert!(matches!(validate_teams(&batch), Err(AppError::UnevenTeams)));
}

#[test]
fn parses_exact_labels() {
    assert_eq!(parse_team_label("blue"), Some(Team::Blue));
    assert_eq!(parse_team_label("red"), Some(Team::Red));
}

#[test]
fn parses_mixed_case_labels() {
    assert_eq!(parse_team_label("BLUE"), Some(Team::Blue));
    assert_eq!(parse_team_label("Red"), Some(Team::Red));
    assert_eq!(parse_team_label("bLuE"), Some(Team::Blue));
}

#[test]
fn rejects_near_miss_labels() {
    assert_eq!(parse_team_label(""), None);
    assert_eq!(parse_team_label("blu"), None);
    assert_eq!(parse_team_label("bluee"), None);
    assert_eq!(parse_team_label("reds"), None);
    assert_eq!(parse_team_label("bl\u{00fc}e"), None);
}

#[test]
fn team_labels_are_lowercase() {
    assert_eq!(Team::Blue.label(), "blue");
    assert_eq!(Team::Red.label(), "red");
}
