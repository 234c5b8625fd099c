use shion::fixer::fix_matches;
use shion::fixer::match_needs_fix;
use shion::processor::create_match_details;
use shion::processor::process_match;
use shion::processor::reprocess_all;
use shion::settings::AppSettings;
use shion::store::Store;
use shion::teams::RequestBody;

fn proposal(match_id: u64, frags: i16, model: &str) -> RequestBody {
    RequestBody {
        steam_id: String::from("STEAM_0:1:111"),
        match_id,
        frags,
        deaths: 3,
        average_ping: 30,
        damage_dealt: 500,
        damage_taken: 400,
        model: String::from(model),
    }
}

fn ingest_one_on_one(store: &mut Store, match_id: u64, blue_frags: i16, red_frags: i16) {
    let details = vec![
        proposal(match_id, blue_frags, "blue"),
        proposal(match_id, red_frags, "red"),
    ];
    let ids = vec![1u64, 2];
    assert!(create_match_details(store, &details, &ids).is_ok());
}

/// Three matches between the same two players, stored out of chronological
/// order: ids 1, 2, 3 carry dates 300, 100, 200.
fn history_out_of_order() -> Store {
    let mut store = Store::new();
    store.create_match(String::from("10.0.0.1"), String::from("ac_mesa"), 300);
    store.create_match(String::from("10.0.0.1"), String::from("ac_gothic"), 100);
    store.create_match(String::from("10.0.0.1"), String::from("ac_desert"), 200);
    ingest_one_on_one(&mut store, 1, 12, 30);
    ingest_one_on_one(&mut store, 2, 25, 10);
    ingest_one_on_one(&mut store, 3, 8, 40);
    store
}

#[test]
fn reprocess_equals_chronological_replay() {
    // Rebuilding from scratch gives the same trajectory as resetting and
    // processing the matches one at a time in the order they occurred.
    let s = AppSettings::get();
    let mut rebuilt = history_out_of_order();
    assert!(reprocess_all(&mut rebuilt, &s).is_ok());

    let mut replayed = history_out_of_order();
    replayed.reset_all_player_stats(&s);
    for mid in [2u64, 3, 1] {
        assert!(process_match(&mut replayed, &s, mid).is_ok());
    }
    assert_eq!(rebuilt.stats, replayed.stats);
    assert_eq!(rebuilt.match_details, replayed.match_details);
}

#[test]
fn reprocess_differs_from_storage_order_replay() {
    // The model is path-dependent: replaying in raw storage order would
    // produce a different final state, which is why the explicit sort is
    // load-bearing.
    let s = AppSettings::get();
    let mut rebuilt = history_out_of_order();
    assert!(reprocess_all(&mut rebuilt, &s).is_ok());

    let mut unsorted = history_out_of_order();
    unsorted.reset_all_player_stats(&s);
    for mid in [1u64, 2, 3] {
        assert!(process_match(&mut unsorted, &s, mid).is_ok());
    }
    assert_ne!(rebuilt.match_details, unsorted.match_details);
}

#[test]
fn reprocess_resets_before_replaying() {
    // Processing the same history twice without a reset inflates the
    // counters; reprocessing does not.
    let s = AppSettings::get();
    let mut store = history_out_of_order();
    for mid in [2u64, 3, 1] {
        assert!(process_match(&mut store, &s, mid).is_ok());
    }
    assert!(reprocess_all(&mut store, &s).is_ok());
    let p1 = store.fetch_one_by_player_id(1).expect("stats row should exist");
    let p2 = store.fetch_one_by_player_id(2).expect("stats row should exist");
    assert_eq!(p1.wins + p1.losses, 3);
    assert_eq!(p2.wins + p2.losses, 3);
}

#[test]
fn reprocess_of_empty_store_succeeds() {
    let s = AppSettings::get();
    let mut store = Store::new();
    assert!(reprocess_all(&mut store, &s).is_ok());
    assert!(store.stats.is_empty());
    assert!(store.match_details.is_empty());
}

#[test]
fn fixer_flags_uneven_and_silent_matches() {
    let s = AppSettings::get();
    let mut store = Store::new();
    store.create_match(String::from("10.0.0.1"), String::from("ac_mesa"), 100);
    store.create_match(String::from("10.0.0.1"), String::from("ac_gothic"), 200);
    store.create_match(String::from("10.0.0.1"), String::from("ac_desert"), 300);
    // Match 1: healthy.  Match 2: uneven teams.  Match 3: both teams under
    // the frag minimum.
    ingest_one_on_one(&mut store, 1, 20, 30);
    store.create_match_detail(1, 2, 15, 0, 0, 0, 0, shion::teams::Team::Blue, 0, 0);
    ingest_one_on_one(&mut store, 3, 4, 5);

    assert!(!match_needs_fix(&store.fetch_match_details(1)));
    assert!(match_needs_fix(&store.fetch_match_details(2)));
    assert!(match_needs_fix(&store.fetch_match_details(3)));

    assert!(fix_matches(&mut store, &s).is_ok());
    assert_eq!(store.matches.len(), 1);
    assert_eq!(store.matches[0].id, 1);
    assert!(store.fetch_match_details(2).is_empty());
    assert!(store.fetch_match_details(3).is_empty());
    assert_eq!(store.fetch_match_details(1).len(), 2);
}

#[test]
fn fixer_keeps_empty_matches() {
    // A match without rows is not damaged; deleting it is not the fixer's
    // call.
    let s = AppSettings::get();
    let mut store = Store::new();
    store.create_match(String::from("10.0.0.1"), String::from("ac_mesa"), 100);
    assert!(fix_matches(&mut store, &s).is_ok());
    assert_eq!(store.matches.len(), 1);
}

#[test]
fn backfill_inserts_defaults_and_keeps_counters() {
    let s = AppSettings::get();
    let mut store = Store::new();
    ingest_one_on_one(&mut store, 1, 20, 10);
    assert!(process_match(&mut store, &s, 1).is_ok());
    let veteran = store.fetch_one_by_player_id(1).expect("stats row should exist");
    assert_eq!(veteran.wins + veteran.losses, 1);

    let ids = vec![1u64, 99];
    assert!(shion::backfill::backfill_stats(&mut store, &s, &ids).is_ok());
    let refreshed = store.fetch_one_by_player_id(1).expect("stats row should exist");
    assert_eq!(refreshed.rating, 1_000_000);
    assert_eq!(refreshed.uncertainty, 333_333);
    assert_eq!(refreshed.wins + refreshed.losses, 1);
    assert_eq!(refreshed.total_frags, 20);
    let fresh = store.fetch_one_by_player_id(99).expect("stats row should exist");
    assert_eq!(fresh.rating, 1_000_000);
    assert_eq!(fresh.wins, 0);
    assert_eq!(fresh.total_frags, 0);
}
