use shion::agdb::make_url;
use shion::error::AppError;
use shion::settings::AppSettings;
use shion::store::Stats;
use shion::store::Store;
use shion::store::sat_add_i64;
use shion::store::sat_add_u64;

#[test]
fn error_codes_are_stable() {
    assert_eq!(AppError::InvalidModel.code(), "invalid_model");
    assert_eq!(AppError::UnevenTeams.code(), "uneven_teams");
    assert_eq!(AppError::MatchNotFound.code(), "match_not_found");
    assert_eq!(AppError::Unexpected.as_str(), "unexpected");
}

#[test]
fn error_messages_name_the_valid_labels() {
    assert_eq!(
        AppError::InvalidModel.message(),
        "Invalid model value. Valid values are 'blue' or 'red'."
    );
    assert_eq!(AppError::UnevenTeams.message(), "Team sizes do not match.");
}

#[test]
fn error_status_codes_follow_the_taxonomy() {
    assert_eq!(AppError::InvalidModel.http_status_code(), 400);
    assert_eq!(AppError::UnevenTeams.http_status_code(), 400);
    assert_eq!(AppError::Unauthorized.http_status_code(), 401);
    assert_eq!(AppError::PlayerNotFound.http_status_code(), 404);
    assert_eq!(AppError::MatchNotFound.http_status_code(), 404);
    assert_eq!(AppError::Unexpected.http_status_code(), 500);
}

#[test]
fn error_response_parts_carry_code_and_status() {
    let (status, body) = AppError::UnevenTeams.response_parts();
    assert_eq!(status, 400);
    assert_eq!(body.code, "uneven_teams");
    assert_eq!(body.message, "Team sizes do not match.");
}

#[test]
fn upsert_inserts_then_merges() {
    let s = AppSettings::get();
    let mut store = Store::new();
    store.update_stats(&s, 42, 1_000_000, 333_333, 1, 0, 25, 10);
    assert_eq!(
        store.fetch_one_by_player_id(42),
        Some(Stats {
            player_id: 42,
            rating: 1_000_000,
            uncertainty: 333_333,
            wins: 1,
            losses: 0,
            total_frags: 25,
            total_deaths: 10,
        })
    );
    store.update_stats(&s, 42, 1_050_000, 300_000, 0, 1, -5, 7);
    assert_eq!(
        store.fetch_one_by_player_id(42),
        Some(Stats {
            player_id: 42,
            rating: 1_050_000,
            uncertainty: 300_000,
            wins: 1,
            losses: 1,
            total_frags: 20,
            total_deaths: 17,
        })
    );
    assert_eq!(store.stats.len(), 1);
}

#[test]
fn lookup_misses_report_none() {
    let store = Store::new();
    assert_eq!(store.fetch_one_by_player_id(7), None);
}

#[test]
fn reset_keeps_players_and_zeroes_counters() {
    let s = AppSettings::get();
    let mut store = Store::new();
    store.update_stats(&s, 1, 1_200_000, 200_000, 3, 2, 90, 40);
    store.update_stats(&s, 2, 800_000, 150_000, 1, 4, 30, 80);
    store.reset_all_player_stats(&s);
    for pid in [1u64, 2] {
        let st = store.fetch_one_by_player_id(pid).expect("stats row should exist");
        assert_eq!(st.rating, 1_000_000);
        assert_eq!(st.uncertainty, 333_333);
        assert_eq!(st.wins, 0);
        assert_eq!(st.losses, 0);
        assert_eq!(st.total_frags, 0);
        assert_eq!(st.total_deaths, 0);
    }
}

#[test]
fn saturating_adds_stop_at_the_bounds() {
    assert_eq!(sat_add_u64(3, 4), 7);
    assert_eq!(sat_add_u64(u64::MAX - 1, 5), u64::MAX);
    assert_eq!(sat_add_i64(-3, 4), 1);
    assert_eq!(sat_add_i64(i64::MAX - 1, 5), i64::MAX);
    assert_eq!(sat_add_i64(i64::MIN + 2, -5), i64::MIN);
}

#[test]
fn deleting_a_match_removes_only_its_rows() {
    let mut store = Store::new();
    store.create_match(String::from("10.0.0.1"), String::from("ac_mesa"), 100);
    store.create_match(String::from("10.0.0.2"), String::from("ac_gothic"), 200);
    store.create_match_detail(1, 1, 5, 0, 0, 0, 0, shion::teams::Team::Blue, 0, 0);
    store.create_match_detail(2, 2, 6, 0, 0, 0, 0, shion::teams::Team::Red, 0, 0);
    store.delete_match_details(1);
    store.delete_match(1);
    assert_eq!(store.matches.len(), 1);
    assert_eq!(store.matches[0].id, 2);
    assert_eq!(store.match_details.len(), 1);
    assert_eq!(store.match_details[0].match_id, 2);
}

#[test]
fn match_rows_get_sequential_ids() {
    let mut store = Store::new();
    let m1 = store.create_match(String::from("10.0.0.1"), String::from("ac_mesa"), 100);
    let m2 = store.create_match(String::from("10.0.0.1"), String::from("ac_mesa"), 200);
    assert_eq!(m1.id, 1);
    assert_eq!(m2.id, 2);
    assert_eq!(store.matches.len(), 2);
    assert_eq!(store.matches[1].map_name, "ac_mesa");
}

#[test]
fn directory_url_appends_the_steam_id() {
    assert_eq!(
        make_url("STEAM_0:1:23456"),
        "https://agdb.7mochi.ru/players/STEAM_0:1:23456"
    );
}
