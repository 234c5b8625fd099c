use shion::error::AppError;
use shion::processor::create_match_details;
use shion::processor::process_match;
use shion::settings::AppSettings;
use shion::store::Stats;
use shion::store::Store;
use shion::teams::RequestBody;

fn proposal(match_id: u64, frags: i16, deaths: i16, model: &str) -> RequestBody {
    RequestBody {
        steam_id: String::from("STEAM_0:1:111"),
        match_id,
        frags,
        deaths,
        average_ping: 40,
        damage_dealt: 1200,
        damage_taken: 1100,
        model: String::from(model),
    }
}

fn ingest_two_on_two(store: &mut Store, match_id: u64, blue: [(i16, i16); 2], red: [(i16, i16); 2]) {
    let details = vec![
        proposal(match_id, blue[0].0, blue[0].1, "blue"),
        proposal(match_id, blue[1].0, blue[1].1, "Blue"),
        proposal(match_id, red[0].0, red[0].1, "red"),
        proposal(match_id, red[1].0, red[1].1, "RED"),
    ];
    let player_ids = vec![1u64, 2, 3, 4];
    assert!(create_match_details(store, &details, &player_ids).is_ok());
}

fn stats_of(store: &Store, player_id: u64) -> Stats {
    store.fetch_one_by_player_id(player_id).expect("stats row should exist")
}

#[test]
fn full_scenario_red_wins_two_on_two() {
    // Blue frags {30, 22} = 52 against red frags {52, 51} = 103: the red
    // team wins.  All four players start fresh.
    let s = AppSettings::get();
    let mut store = Store::new();
    ingest_two_on_two(&mut store, 7, [(30, 64), (22, 48)], [(52, 41), (51, 20)]);
    assert!(process_match(&mut store, &s, 7).is_ok());

    for pid in [1u64, 2] {
        let st = stats_of(&store, pid);
        assert!(st.rating < 1_000_000);
        assert_eq!(st.rating, 925_465);
        assert_eq!(st.uncertainty, 296_066);
        assert_eq!(st.wins, 0);
        assert_eq!(st.losses, 1);
    }
    for pid in [3u64, 4] {
        let st = stats_of(&store, pid);
        assert!(st.rating > 1_000_000);
        assert_eq!(st.rating, 1_074_535);
        assert_eq!(st.uncertainty, 296_066);
        assert_eq!(st.wins, 1);
        assert_eq!(st.losses, 0);
    }
    assert_eq!(stats_of(&store, 1).total_frags, 30);
    assert_eq!(stats_of(&store, 1).total_deaths, 64);
    assert_eq!(stats_of(&store, 2).total_frags, 22);
    assert_eq!(stats_of(&store, 2).total_deaths, 48);
    assert_eq!(stats_of(&store, 3).total_frags, 52);
    assert_eq!(stats_of(&store, 3).total_deaths, 41);
    assert_eq!(stats_of(&store, 4).total_frags, 51);
    assert_eq!(stats_of(&store, 4).total_deaths, 20);

    for row in store.match_details.iter() {
        if row.player_id <= 2 {
            assert_eq!(row.rating_after_match, 925_465);
            assert_eq!(row.rating_delta, -74_535);
        } else {
            assert_eq!(row.rating_after_match, 1_074_535);
            assert_eq!(row.rating_delta, 74_535);
        }
    }
}

#[test]
fn equal_frags_count_as_red_win_end_to_end() {
    // The documented tie-break: equal frag sums hand the win to red.
    let s = AppSettings::get();
    let mut store = Store::new();
    ingest_two_on_two(&mut store, 3, [(25, 10), (25, 10)], [(30, 10), (20, 10)]);
    assert!(process_match(&mut store, &s, 3).is_ok());
    assert_eq!(stats_of(&store, 1).losses, 1);
    assert_eq!(stats_of(&store, 2).losses, 1);
    assert_eq!(stats_of(&store, 3).wins, 1);
    assert_eq!(stats_of(&store, 4).wins, 1);
}

#[test]
fn missing_match_is_a_no_op() {
    // Processing a match with zero stored records mutates nothing and
    // reports success.
    let s = AppSettings::get();
    let mut store = Store::new();
    ingest_two_on_two(&mut store, 5, [(1, 0), (2, 0)], [(3, 0), (4, 0)]);
    let details_before = store.match_details.clone();
    let stats_before = store.stats.clone();
    assert!(process_match(&mut store, &s, 999).is_ok());
    assert_eq!(store.match_details, details_before);
    assert_eq!(store.stats, stats_before);
}

#[test]
fn reprocessing_with_restored_stats_reproduces_the_rows() {
    // The processor is deterministic in its inputs: run it once from fresh
    // players, then run it again over the already-written rows with the
    // stats restored to their pre-match state, and every snapshot and delta
    // comes out identical.
    let s = AppSettings::get();
    let mut first = Store::new();
    ingest_two_on_two(&mut first, 7, [(30, 64), (22, 48)], [(52, 41), (51, 20)]);
    assert!(process_match(&mut first, &s, 7).is_ok());

    let mut second = Store::new();
    for row in first.match_details.iter() {
        second.create_match_detail(
            row.player_id,
            row.match_id,
            row.frags,
            row.deaths,
            row.average_ping,
            row.damage_dealt,
            row.damage_taken,
            row.model,
            row.rating_after_match,
            row.rating_delta,
        );
    }
    assert!(process_match(&mut second, &s, 7).is_ok());
    assert_eq!(second.match_details, first.match_details);
    assert_eq!(second.stats, first.stats);
}

#[test]
fn processing_twice_without_reset_moves_ratings_again() {
    // Without restoring the stats, a second invocation reads the moved
    // ratings and answers differently: the operation is deterministic, not
    // idempotent on live state.
    let s = AppSettings::get();
    let mut store = Store::new();
    ingest_two_on_two(&mut store, 7, [(30, 64), (22, 48)], [(52, 41), (51, 20)]);
    assert!(process_match(&mut store, &s, 7).is_ok());
    let after_once = stats_of(&store, 3);
    assert!(process_match(&mut store, &s, 7).is_ok());
    let after_twice = stats_of(&store, 3);
    assert!(after_twice.rating > after_once.rating);
    assert_eq!(after_twice.wins, 2);
}

#[test]
fn ingestion_rejects_invalid_label_without_persisting() {
    let s = AppSettings::get();
    let mut store = Store::new();
    let details = vec![proposal(1, 5, 5, "blue"), proposal(1, 5, 5, "green")];
    let ids = vec![1u64, 2];
    assert!(matches!(
        create_match_details(&mut store, &details, &ids),
        Err(AppError::InvalidModel)
    ));
    assert!(store.match_details.is_empty());
    let _ = s;
}

#[test]
fn ingestion_rejects_uneven_teams_without_persisting() {
    let mut store = Store::new();
    let details = vec![
        proposal(1, 5, 5, "blue"),
        proposal(1, 5, 5, "blue"),
        proposal(1, 5, 5, "red"),
    ];
    let ids = vec![1u64, 2, 3];
    assert!(matches!(
        create_match_details(&mut store, &details, &ids),
        Err(AppError::UnevenTeams)
    ));
    assert!(store.match_details.is_empty());
}

#[test]
fn ingestion_stores_rows_with_zero_rating_fields() {
    let mut store = Store::new();
    ingest_two_on_two(&mut store, 9, [(10, 1), (11, 2)], [(12, 3), (13, 4)]);
    assert_eq!(store.match_details.len(), 4);
    for row in store.match_details.iter() {
        assert_eq!(row.match_id, 9);
        assert_eq!(row.rating_after_match, 0);
        assert_eq!(row.rating_delta, 0);
    }
    assert_eq!(store.match_details[0].id, 1);
    assert_eq!(store.match_details[3].id, 4);
}

#[test]
fn oversized_match_is_refused_untouched() {
    let s = AppSettings::get();
    let mut store = Store::new();
    for i in 0..65537u64 {
        store.create_match_detail(i, 1, 0, 0, 0, 0, 0, shion::teams::Team::Blue, 0, 0);
    }
    let rows_before = store.match_details.len();
    assert!(matches!(
        process_match(&mut store, &s, 1),
        Err(AppError::Unexpected)
    ));
    assert_eq!(store.match_details.len(), rows_before);
    assert!(store.stats.is_empty());
}
