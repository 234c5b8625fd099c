//! The match processor: from stored rows to updated ratings and stats.
//!
//! Processing a match loads its detail rows, partitions them into the two
//! teams, decides the outcome from summed frags, runs the rating engine over
//! the teams' current skill beliefs, and writes everything back: the
//! post-match snapshot and delta on every detail row, and the new belief
//! plus counter increments on every player's stats row.  A match with no
//! stored rows is a no-op, not an error.  All writes of one match are
//! computed first and then applied as one unit, so the store never holds a
//! half-processed match.

use vstd::prelude::*;
use crate::error::AppError;
use crate::error::ServiceResult;
use crate::outcome::Outcome;
use crate::outcome::determine_winner;
use crate::outcome::spec_winner;
use crate::rating::Rating;
use crate::rating::spec_update_two_teams;
use crate::rating::team_valid;
use crate::rating::update_two_teams;
use crate::settings::AppSettings;
use crate::settings::MAX_MATCH_PLAYERS;
use crate::store::MatchDetail;
use crate::store::Stats;
use crate::store::Store;
use crate::store::all_stats_valid;
use crate::store::default_stats;
use crate::store::find_stats;
use crate::store::lemma_filter_push;
use crate::store::lemma_update_stats_preserves_valid;
use crate::store::spec_update_stats;
use crate::store::stats_rating;
use crate::store::stats_valid;
use crate::teams::RequestBody;
use crate::teams::Team;
use crate::teams::all_labels_valid;
use crate::teams::count_team;
use crate::teams::parse_team_label;
use crate::teams::team_of;
use crate::teams::validate_teams;

verus! {

/// The stored detail rows of one match, in storage order.
pub open spec fn match_records(details: Seq<MatchDetail>, match_id: u64) -> Seq<MatchDetail> {
    details.filter(|d: MatchDetail| d.match_id == match_id)
}

/// The rows of one team, in storage order.
pub open spec fn team_records(recs: Seq<MatchDetail>, t: Team) -> Seq<MatchDetail> {
    recs.filter(|d: MatchDetail| d.model == t)
}

/// The frag counters of the rows, in order.
pub open spec fn frags_of(recs: Seq<MatchDetail>) -> Seq<i16> {
    recs.map_values(|d: MatchDetail| d.frags)
}

/// The skill belief the processor reads for a player: the stored one, or the
/// configured default for a player seen for the first time.  A fresh player
/// is never dropped.
pub open spec fn rating_for(ss: Seq<Stats>, player_id: u64, cfg: AppSettings) -> Rating {
    match find_stats(ss, player_id) {
        Some(st) => stats_rating(st),
        None => Rating { rating: cfg.initial_rating, uncertainty: cfg.initial_uncertainty },
    }
}

/// The beliefs read for a whole team, in row order.
pub open spec fn ratings_of(recs: Seq<MatchDetail>, ss: Seq<Stats>, cfg: AppSettings) -> Seq<
    Rating,
> {
    recs.map_values(|d: MatchDetail| rating_for(ss, d.player_id, cfg))
}

/// The outcome of the stored match: blue wins on strictly more frags, red
/// otherwise.
pub open spec fn match_outcome(recs: Seq<MatchDetail>) -> Outcome {
    spec_winner(frags_of(team_records(recs, Team::Blue)), frags_of(team_records(recs, Team::Red)))
}

/// One row of the write set the processor commits: everything one detail
/// row and its player's stats row receive.
#[derive(Debug, Clone, Copy, PartialEq, Eq, Structural)]
pub struct RatingWrite {
    pub detail_id: u64,
    pub player_id: u64,
    pub new_rating: i64,
    pub new_uncertainty: i64,
    pub rating_delta: i64,
    pub is_winner: bool,
    pub frags: i16,
    pub deaths: i16,
}

/// The write a single row receives, given its player's belief before and
/// after the match.
pub open spec fn write_of(d: MatchDetail, before: Rating, after: Rating, winner: bool) -> RatingWrite {
    RatingWrite {
        detail_id: d.id,
        player_id: d.player_id,
        new_rating: after.rating,
        new_uncertainty: after.uncertainty,
        rating_delta: (after.rating - before.rating) as i64,
        is_winner: winner,
        frags: d.frags,
        deaths: d.deaths,
    }
}

/// The writes of one team, row by row.
pub open spec fn team_writes(
    trecs: Seq<MatchDetail>,
    before: Seq<Rating>,
    after: Seq<Rating>,
    winner: bool,
) -> Seq<RatingWrite> {
    Seq::new(trecs.len(), |j: int| write_of(trecs[j], before[j], after[j], winner))
}

/// The full write set of a match: the blue team's writes, then the red
/// team's.
pub open spec fn match_writes(recs: Seq<MatchDetail>, ss: Seq<Stats>, cfg: AppSettings) -> Seq<
    RatingWrite,
> {
    let blue = team_records(recs, Team::Blue);
    let red = team_records(recs, Team::Red);
    let before_blue = ratings_of(blue, ss, cfg);
    let before_red = ratings_of(red, ss, cfg);
    let o = match_outcome(recs);
    let updated = spec_update_two_teams(before_blue, before_red, o, cfg);
    team_writes(blue, before_blue, updated.0, o == Outcome::TeamAWins) + team_writes(
        red,
        before_red,
        updated.1,
        o == Outcome::TeamBWins,
    )
}

/// The detail table after one write: every row with the written id takes the
/// new snapshot and delta; everything else stays.
pub open spec fn apply_detail_write(
    details: Seq<MatchDetail>,
    id: u64,
    rating_after_match: i64,
    rating_delta: i64,
) -> Seq<MatchDetail> {
    details.map_values(
        |d: MatchDetail|
            if d.id == id {
                MatchDetail { rating_after_match, rating_delta, ..d }
            } else {
                d
            },
    )
}

/// Both tables after the write set has been applied, in order.
pub open spec fn apply_writes(
    details: Seq<MatchDetail>,
    ss: Seq<Stats>,
    ws: Seq<RatingWrite>,
) -> (Seq<MatchDetail>, Seq<Stats>)
    decreases ws.len(),
{
    if ws.len() == 0 {
        (details, ss)
    } else {
        let w = ws[0];
        apply_writes(
            apply_detail_write(details, w.detail_id, w.new_rating, w.rating_delta),
            spec_update_stats(
                ss,
                w.player_id,
                w.new_rating,
                w.new_uncertainty,
                if w.is_winner {
                    1u64
                } else {
                    0u64
                },
                if w.is_winner {
                    0u64
                } else {
                    1u64
                },
                w.frags as i64,
                w.deaths as i64,
            ),
            ws.drop_first(),
        )
    }
}

/// Both tables after one match has been processed.  A match with no rows
/// changes nothing.
pub open spec fn spec_process_match(
    details: Seq<MatchDetail>,
    ss: Seq<Stats>,
    cfg: AppSettings,
    match_id: u64,
) -> (Seq<MatchDetail>, Seq<Stats>) {
    let recs = match_records(details, match_id);
    if recs.len() == 0 {
        (details, ss)
    } else {
        apply_writes(details, ss, match_writes(recs, ss, cfg))
    }
}

/// Every row belongs to exactly one of the two teams.
pub proof fn lemma_team_partition(recs: Seq<MatchDetail>)
    ensures
        team_records(recs, Team::Blue).len() + team_records(recs, Team::Red).len() == recs.len(),
    decreases recs.len(),
{
    reveal(Seq::filter);
    if recs.len() > 0 {
        lemma_team_partition(recs.drop_last());
    }
}

/// What a stats lookup can come back with: a stored row of that player, or
/// nothing when the player has no row.
pub proof fn lemma_find_stats_in(ss: Seq<Stats>, player_id: u64)
    ensures
        match find_stats(ss, player_id) {
            Some(st) => exists|i: int| 0 <= i < ss.len() && ss[i] == st && st.player_id == player_id,
            None => forall|i: int| 0 <= i < ss.len() ==> (#[trigger] ss[i]).player_id != player_id,
        },
    decreases ss.len(),
{
    if ss.len() > 0 {
        lemma_find_stats_in(ss.drop_first(), player_id);
        if ss[0].player_id != player_id {
            match find_stats(ss, player_id) {
                Some(st) => {
                    let i = choose|i: int|
                        0 <= i < ss.drop_first().len() && ss.drop_first()[i] == st
                            && st.player_id == player_id;
                    assert(ss[i + 1] == st);
                },
                None => {
                    assert forall|i: int|
                        0 <= i < ss.len() implies (#[trigger] ss[i]).player_id != player_id by {
                        if i > 0 {
                            assert(ss.drop_first()[i - 1] == ss[i]);
                        }
                    }
                },
            }
        }
    }
}

/// The belief the processor reads is always workable when the table is.
pub proof fn lemma_rating_for_valid(ss: Seq<Stats>, player_id: u64, cfg: AppSettings)
    requires
        cfg.wf(),
        all_stats_valid(ss, cfg),
    ensures
        rating_for(ss, player_id, cfg).valid(cfg),
{
    lemma_find_stats_in(ss, player_id);
    match find_stats(ss, player_id) {
        Some(st) => {
            let i = choose|i: int|
                0 <= i < ss.len() && ss[i] == st && st.player_id == player_id;
            assert(stats_valid(ss[i], cfg));
        },
        None => {},
    }
}

/// Splits the rows of one match into the two teams, keeping storage order.
pub fn split_teams(recs: &Vec<MatchDetail>) -> (r: (Vec<MatchDetail>, Vec<MatchDetail>))
    ensures
        r.0@ == team_records(recs@, Team::Blue),
        r.1@ == team_records(recs@, Team::Red),
{
    let mut blue: Vec<MatchDetail> = Vec::new();
    let mut red: Vec<MatchDetail> = Vec::new();
    let mut i: usize = 0;
    while i < recs.len()
        invariant
            i <= recs@.len(),
            blue@ == team_records(recs@.subrange(0, i as int), Team::Blue),
            red@ == team_records(recs@.subrange(0, i as int), Team::Red),
        decreases recs@.len() - i,
    {
        proof {
            assert(recs@.subrange(0, i + 1) =~= recs@.subrange(0, i as int).push(
                recs@[i as int],
            ));
            lemma_filter_push(
                recs@.subrange(0, i as int),
                recs@[i as int],
                |d: MatchDetail| d.model == Team::Blue,
            );
            lemma_filter_push(
                recs@.subrange(0, i as int),
                recs@[i as int],
                |d: MatchDetail| d.model == Team::Red,
            );
        }
        match recs[i].model {
            Team::Blue => {
                blue.push(recs[i]);
            },
            Team::Red => {
                red.push(recs[i]);
            },
        }
        i = i + 1;
    }
    proof {
        assert(recs@.subrange(0, recs@.len() as int) =~= recs@);
    }
    (blue, red)
}

/// The frag counters of a team's rows.
pub fn collect_frags(recs: &Vec<MatchDetail>) -> (r: Vec<i16>)
    ensures
        r@ == frags_of(recs@),
{
    let mut out: Vec<i16> = Vec::new();
    let mut i: usize = 0;
    while i < recs.len()
        invariant
            i <= recs@.len(),
            out@.len() == i,
            forall|k: int| 0 <= k < i ==> out@[k] == (#[trigger] recs@[k]).frags,
        decreases recs@.len() - i,
    {
        out.push(recs[i].frags);
        i = i + 1;
    }
    proof {
        assert(out@ =~= frags_of(recs@));
    }
    out
}

/// The current beliefs of a team's players, read row by row; a player with
/// no stats row starts from the configured defaults.
fn collect_ratings(store: &Store, recs: &Vec<MatchDetail>, config: &AppSettings) -> (r: Vec<
    Rating,
>)
    requires
        config.wf(),
        all_stats_valid(store.stats@, *config),
    ensures
        r@ == ratings_of(recs@, store.stats@, *config),
        team_valid(r@, *config),
{
    let mut out: Vec<Rating> = Vec::new();
    let mut i: usize = 0;
    while i < recs.len()
        invariant
            i <= recs@.len(),
            config.wf(),
            all_stats_valid(store.stats@, *config),
            out@.len() == i,
            forall|k: int|
                0 <= k < i ==> out@[k] == rating_for(
                    store.stats@,
                    (#[trigger] recs@[k]).player_id,
                    *config,
                ),
            team_valid(out@, *config),
        decreases recs@.len() - i,
    {
        let pid = recs[i].player_id;
        let belief = match store.fetch_one_by_player_id(pid) {
            Some(st) => Rating { rating: st.rating, uncertainty: st.uncertainty },
            None => Rating::fresh(config),
        };
        proof {
            lemma_rating_for_valid(store.stats@, pid, *config);
        }
        out.push(belief);
        i = i + 1;
    }
    proof {
        assert(out@ =~= ratings_of(recs@, store.stats@, *config));
    }
    out
}

/// Builds one team's share of the write set.
fn push_team_writes(
    writes: &mut Vec<RatingWrite>,
    trecs: &Vec<MatchDetail>,
    before: &Vec<Rating>,
    after: &Vec<Rating>,
    winner: bool,
    config: &AppSettings,
)
    requires
        trecs@.len() == before@.len() == after@.len(),
        team_valid(before@, *config),
        team_valid(after@, *config),
    ensures
        final(writes)@ == old(writes)@ + team_writes(trecs@, before@, after@, winner),
        forall|j: int|
            old(writes)@.len() <= j < final(writes)@.len() ==> (Rating {
                rating: (#[trigger] final(writes)@[j]).new_rating,
                uncertainty: final(writes)@[j].new_uncertainty,
            }).valid(*config),
{
    let mut i: usize = 0;
    while i < trecs.len()
        invariant
            i <= trecs@.len(),
            trecs@.len() == before@.len() == after@.len(),
            team_valid(before@, *config),
            team_valid(after@, *config),
            writes@.len() == old(writes)@.len() + i,
            writes@.subrange(0, old(writes)@.len() as int) == old(writes)@,
            forall|k: int|
                0 <= k < i ==> writes@[old(writes)@.len() + k] == write_of(
                    #[trigger] trecs@[k],
                    before@[k],
                    after@[k],
                    winner,
                ),
            forall|j: int|
                old(writes)@.len() <= j < writes@.len() ==> (Rating {
                    rating: (#[trigger] writes@[j]).new_rating,
                    uncertainty: writes@[j].new_uncertainty,
                }).valid(*config),
        decreases trecs@.len() - i,
    {
        proof {
            assert(before@[i as int].valid(*config));
            assert(after@[i as int].valid(*config));
        }
        let w = RatingWrite {
            detail_id: trecs[i].id,
            player_id: trecs[i].player_id,
            new_rating: after[i].rating,
            new_uncertainty: after[i].uncertainty,
            rating_delta: after[i].rating - before[i].rating,
            is_winner: winner,
            frags: trecs[i].frags,
            deaths: trecs[i].deaths,
        };
        writes.push(w);
        proof {
            assert(writes@.subrange(0, old(writes)@.len() as int) =~= old(writes)@);
        }
        i = i + 1;
    }
    proof {
        assert(writes@ =~= old(writes)@ + team_writes(trecs@, before@, after@, winner));
    }
}

/// Processes one match: reads its rows and the players' current beliefs,
/// runs the outcome determiner and the rating engine, and commits the whole
/// write set.  A match with no rows is a no-op.  A match with more rows than
/// `MAX_MATCH_PLAYERS` is refused untouched; no real match comes close.
pub fn process_match(store: &mut Store, config: &AppSettings, match_id: u64) -> (r: ServiceResult<
    (),
>)
    requires
        config.wf(),
        all_stats_valid(old(store).stats@, *config),
    ensures
        final(store).matches@ == old(store).matches@,
        final(store).next_match_id == old(store).next_match_id,
        final(store).next_detail_id == old(store).next_detail_id,
        all_stats_valid(final(store).stats@, *config),
        match_records(old(store).match_details@, match_id).len() <= MAX_MATCH_PLAYERS ==> (r
            == Ok::<(), AppError>(()) && (final(store).match_details@, final(store).stats@)
            == spec_process_match(
            old(store).match_details@,
            old(store).stats@,
            *config,
            match_id,
        )),
        match_records(old(store).match_details@, match_id).len() > MAX_MATCH_PLAYERS ==> (r
            == Err::<(), AppError>(AppError::Unexpected)
            && final(store).match_details@ == old(store).match_details@
            && final(store).stats@ == old(store).stats@),
        match_records(old(store).match_details@, match_id).len() == 0 ==> (
            final(store).match_details@ == old(store).match_details@
            && final(store).stats@ == old(store).stats@
            && r == Ok::<(), AppError>(())),
{
    let recs = store.fetch_match_details(match_id);
    if recs.len() == 0 {
        return Ok(());
    }
    if recs.len() > MAX_MATCH_PLAYERS {
        return Err(AppError::Unexpected);
    }
    let (blue_recs, red_recs) = split_teams(&recs);
    proof {
        lemma_team_partition(recs@);
    }
    let blue_frags = collect_frags(&blue_recs);
    let red_frags = collect_frags(&red_recs);
    let outcome = determine_winner(&blue_frags, &red_frags);
    let blue_before = collect_ratings(store, &blue_recs, config);
    let red_before = collect_ratings(store, &red_recs, config);
    let (blue_after, red_after) = update_two_teams(&blue_before, &red_before, outcome, config);
    let mut writes: Vec<RatingWrite> = Vec::new();
    push_team_writes(
        &mut writes,
        &blue_recs,
        &blue_before,
        &blue_after,
        matches!(outcome, Outcome::TeamAWins),
        config,
    );
    push_team_writes(
        &mut writes,
        &red_recs,
        &red_before,
        &red_after,
        matches!(outcome, Outcome::TeamBWins),
        config,
    );
    proof {
        assert(writes@ == match_writes(recs@, old(store).stats@, *config)) by {
            assert(Seq::<RatingWrite>::empty() + team_writes(
                blue_recs@,
                blue_before@,
                blue_after@,
                outcome == Outcome::TeamAWins,
            ) =~= team_writes(
                blue_recs@,
                blue_before@,
                blue_after@,
                outcome == Outcome::TeamAWins,
            ));
        }
    }
    let ghost start_details = store.match_details@;
    let ghost start_stats = store.stats@;
    proof {
        assert(writes@.subrange(0, writes@.len() as int) =~= writes@);
    }
    let mut k: usize = 0;
    while k < writes.len()
        invariant
            k <= writes@.len(),
            config.wf(),
            all_stats_valid(store.stats@, *config),
            forall|j: int|
                0 <= j < writes@.len() ==> (Rating {
                    rating: (#[trigger] writes@[j]).new_rating,
                    uncertainty: writes@[j].new_uncertainty,
                }).valid(*config),
            apply_writes(start_details, start_stats, writes@) == apply_writes(
                store.match_details@,
                store.stats@,
                writes@.subrange(k as int, writes@.len() as int),
            ),
            store.matches@ == old(store).matches@,
            store.next_match_id == old(store).next_match_id,
            store.next_detail_id == old(store).next_detail_id,
        decreases writes@.len() - k,
    {
        let w = writes[k];
        let ghost pre_details = store.match_details@;
        let ghost pre_stats = store.stats@;
        store.update_ratings(w.detail_id, w.new_rating, w.rating_delta);
        proof {
            assert(store.match_details@ =~= apply_detail_write(
                pre_details,
                w.detail_id,
                w.new_rating,
                w.rating_delta,
            ));
        }
        let wins_inc: u64 = if w.is_winner {
            1
        } else {
            0
        };
        let losses_inc: u64 = if w.is_winner {
            0
        } else {
            1
        };
        store.update_stats(
            config,
            w.player_id,
            w.new_rating,
            w.new_uncertainty,
            wins_inc,
            losses_inc,
            w.frags as i64,
            w.deaths as i64,
        );
        proof {
            assert(writes@.subrange(k as int, writes@.len() as int).drop_first()
                =~= writes@.subrange(k + 1, writes@.len() as int));
            assert(writes@.subrange(k as int, writes@.len() as int)[0] == w);
        }
        k = k + 1;
    }
    proof {
        assert(writes@.subrange(writes@.len() as int, writes@.len() as int)
            =~= Seq::<RatingWrite>::empty());
    }
    Ok(())
}

/// A detail row with its rating fields blanked: what ingestion stored, and
/// everything processing never changes.
pub open spec fn detail_core(d: MatchDetail) -> MatchDetail {
    MatchDetail { rating_after_match: 0, rating_delta: 0, ..d }
}

/// The cores of a whole table.
pub open spec fn cores(s: Seq<MatchDetail>) -> Seq<MatchDetail> {
    s.map_values(|d: MatchDetail| detail_core(d))
}

/// Core-equal tables have the same length and core-equal rows.
proof fn lemma_cores_eq_unpack(s1: Seq<MatchDetail>, s2: Seq<MatchDetail>)
    requires
        cores(s1) == cores(s2),
    ensures
        s1.len() == s2.len(),
        forall|k: int|
            0 <= k < s1.len() ==> detail_core(#[trigger] s1[k]) == detail_core(s2[k]),
{
    assert(cores(s1).len() == s1.len());
    assert(cores(s2).len() == s2.len());
    assert forall|k: int|
        0 <= k < s1.len() implies detail_core(#[trigger] s1[k]) == detail_core(s2[k]) by {
        assert(cores(s1)[k] == detail_core(s1[k]));
        assert(cores(s2)[k] == detail_core(s2[k]));
    }
}

/// Rows with the same core agree on every field except the two rating
/// fields.
proof fn lemma_core_fields(a: MatchDetail, b: MatchDetail)
    requires
        detail_core(a) == detail_core(b),
    ensures
        a.id == b.id,
        a.player_id == b.player_id,
        a.match_id == b.match_id,
        a.frags == b.frags,
        a.deaths == b.deaths,
        a.model == b.model,
{
    assert(detail_core(a).id == a.id && detail_core(a).player_id == a.player_id && detail_core(
        a,
    ).match_id == a.match_id && detail_core(a).frags == a.frags && detail_core(a).deaths
        == a.deaths && detail_core(a).model == a.model);
    assert(detail_core(b).id == b.id && detail_core(b).player_id == b.player_id && detail_core(
        b,
    ).match_id == b.match_id && detail_core(b).frags == b.frags && detail_core(b).deaths
        == b.deaths && detail_core(b).model == b.model);
}

/// One detail write changes no core.
proof fn lemma_apply_detail_write_cores(
    details: Seq<MatchDetail>,
    id: u64,
    rating_after_match: i64,
    rating_delta: i64,
)
    ensures
        cores(apply_detail_write(details, id, rating_after_match, rating_delta)) == cores(details),
{
    assert(cores(apply_detail_write(details, id, rating_after_match, rating_delta)) =~= cores(
        details,
    ));
}

/// A whole write set changes no core, and no row count.
proof fn lemma_apply_writes_cores(details: Seq<MatchDetail>, ss: Seq<Stats>, ws: Seq<RatingWrite>)
    ensures
        cores(apply_writes(details, ss, ws).0) == cores(details),
        apply_writes(details, ss, ws).0.len() == details.len(),
    decreases ws.len(),
{
    if ws.len() > 0 {
        let w = ws[0];
        lemma_apply_detail_write_cores(details, w.detail_id, w.new_rating, w.rating_delta);
        lemma_apply_writes_cores(
            apply_detail_write(details, w.detail_id, w.new_rating, w.rating_delta),
            spec_update_stats(
                ss,
                w.player_id,
                w.new_rating,
                w.new_uncertainty,
                if w.is_winner {
                    1u64
                } else {
                    0u64
                },
                if w.is_winner {
                    0u64
                } else {
                    1u64
                },
                w.frags as i64,
                w.deaths as i64,
            ),
            ws.drop_first(),
        );
    }
}

/// What the stats table becomes never depends on the detail table.
proof fn lemma_apply_writes_stats_ignore_details(
    d1: Seq<MatchDetail>,
    d2: Seq<MatchDetail>,
    ss: Seq<Stats>,
    ws: Seq<RatingWrite>,
)
    ensures
        apply_writes(d1, ss, ws).1 == apply_writes(d2, ss, ws).1,
    decreases ws.len(),
{
    if ws.len() > 0 {
        let w = ws[0];
        lemma_apply_writes_stats_ignore_details(
            apply_detail_write(d1, w.detail_id, w.new_rating, w.rating_delta),
            apply_detail_write(d2, w.detail_id, w.new_rating, w.rating_delta),
            spec_update_stats(
                ss,
                w.player_id,
                w.new_rating,
                w.new_uncertainty,
                if w.is_winner {
                    1u64
                } else {
                    0u64
                },
                if w.is_winner {
                    0u64
                } else {
                    1u64
                },
                w.frags as i64,
                w.deaths as i64,
            ),
            ws.drop_first(),
        );
    }
}

/// A filter whose test reads only the core keeps core-equal tables
/// core-equal.
proof fn lemma_filter_cores(
    s1: Seq<MatchDetail>,
    s2: Seq<MatchDetail>,
    pred: spec_fn(MatchDetail) -> bool,
)
    requires
        cores(s1) == cores(s2),
        forall|a: MatchDetail, b: MatchDetail|
            detail_core(a) == detail_core(b) ==> #[trigger] pred(a) == #[trigger] pred(b),
    ensures
        cores(s1.filter(pred)) == cores(s2.filter(pred)),
    decreases s1.len(),
{
    reveal(Seq::filter);
    lemma_cores_eq_unpack(s1, s2);
    if s1.len() > 0 {
        assert(cores(s1.drop_last()) =~= cores(s2.drop_last())) by {
            assert(cores(s1.drop_last()).len() == s1.drop_last().len());
            assert(cores(s2.drop_last()).len() == s2.drop_last().len());
            assert forall|k: int|
                0 <= k < s1.len() - 1 implies cores(s1.drop_last())[k] == cores(
                s2.drop_last(),
            )[k] by {
                assert(cores(s1.drop_last())[k] == detail_core(s1.drop_last()[k]));
                assert(cores(s2.drop_last())[k] == detail_core(s2.drop_last()[k]));
                assert(s1.drop_last()[k] == s1[k]);
                assert(s2.drop_last()[k] == s2[k]);
            }
        }
        lemma_filter_cores(s1.drop_last(), s2.drop_last(), pred);
        let f1 = s1.drop_last().filter(pred);
        let f2 = s2.drop_last().filter(pred);
        lemma_cores_eq_unpack(f1, f2);
        assert(detail_core(s1.last()) == detail_core(s2.last()));
        assert(pred(s1.last()) == pred(s2.last()));
        if pred(s1.last()) {
            assert(s1.filter(pred) == f1.push(s1.last()));
            assert(s2.filter(pred) == f2.push(s2.last()));
            assert(cores(f1.push(s1.last())) =~= cores(f2.push(s2.last()))) by {
                assert(cores(f1.push(s1.last())).len() == f1.len() + 1);
                assert(cores(f2.push(s2.last())).len() == f2.len() + 1);
                assert forall|k: int|
                    0 <= k < f1.len() + 1 implies cores(f1.push(s1.last()))[k] == cores(
                    f2.push(s2.last()),
                )[k] by {
                    assert(cores(f1.push(s1.last()))[k] == detail_core(f1.push(s1.last())[k]));
                    assert(cores(f2.push(s2.last()))[k] == detail_core(f2.push(s2.last())[k]));
                    if k < f1.len() {
                        assert(f1.push(s1.last())[k] == f1[k]);
                        assert(f2.push(s2.last())[k] == f2[k]);
                    } else {
                        assert(f1.push(s1.last())[k] == s1.last());
                        assert(f2.push(s2.last())[k] == s2.last());
                    }
                }
            }
        }
    }
}

/// Core-equal record lists produce the same frag lists.
proof fn lemma_frags_from_cores(r1: Seq<MatchDetail>, r2: Seq<MatchDetail>)
    requires
        cores(r1) == cores(r2),
    ensures
        frags_of(r1) == frags_of(r2),
{
    lemma_cores_eq_unpack(r1, r2);
    assert(frags_of(r1) =~= frags_of(r2)) by {
        assert(frags_of(r1).len() == r1.len());
        assert(frags_of(r2).len() == r2.len());
        assert forall|k: int| 0 <= k < r1.len() implies frags_of(r1)[k] == frags_of(r2)[k] by {
            assert(frags_of(r1)[k] == r1[k].frags);
            assert(frags_of(r2)[k] == r2[k].frags);
            lemma_core_fields(r1[k], r2[k]);
        }
    }
}

/// Core-equal record lists read the same beliefs.
proof fn lemma_ratings_from_cores(
    r1: Seq<MatchDetail>,
    r2: Seq<MatchDetail>,
    ss: Seq<Stats>,
    cfg: AppSettings,
)
    requires
        cores(r1) == cores(r2),
    ensures
        ratings_of(r1, ss, cfg) == ratings_of(r2, ss, cfg),
{
    lemma_cores_eq_unpack(r1, r2);
    assert(ratings_of(r1, ss, cfg) =~= ratings_of(r2, ss, cfg)) by {
        assert(ratings_of(r1, ss, cfg).len() == r1.len());
        assert(ratings_of(r2, ss, cfg).len() == r2.len());
        assert forall|k: int|
            0 <= k < r1.len() implies ratings_of(r1, ss, cfg)[k] == ratings_of(r2, ss, cfg)[k] by {
            assert(ratings_of(r1, ss, cfg)[k] == rating_for(ss, r1[k].player_id, cfg));
            assert(ratings_of(r2, ss, cfg)[k] == rating_for(ss, r2[k].player_id, cfg));
            lemma_core_fields(r1[k], r2[k]);
        }
    }
}

/// The write set of a match depends only on the rows' cores and the stats
/// of the players on them: the rating fields the rows already carry play no
/// part.
proof fn lemma_match_writes_from_cores(
    r1: Seq<MatchDetail>,
    r2: Seq<MatchDetail>,
    ss: Seq<Stats>,
    cfg: AppSettings,
)
    requires
        cores(r1) == cores(r2),
    ensures
        match_writes(r1, ss, cfg) == match_writes(r2, ss, cfg),
{
    assert forall|a: MatchDetail, b: MatchDetail|
        detail_core(a) == detail_core(b) implies a.model == b.model && a.match_id == b.match_id by {
        assert(detail_core(a).model == a.model && detail_core(a).match_id == a.match_id);
        assert(detail_core(b).model == b.model && detail_core(b).match_id == b.match_id);
    }
    lemma_filter_cores(r1, r2, |d: MatchDetail| d.model == Team::Blue);
    lemma_filter_cores(r1, r2, |d: MatchDetail| d.model == Team::Red);
    let b1 = team_records(r1, Team::Blue);
    let b2 = team_records(r2, Team::Blue);
    let d1 = team_records(r1, Team::Red);
    let d2 = team_records(r2, Team::Red);
    lemma_frags_from_cores(b1, b2);
    lemma_frags_from_cores(d1, d2);
    lemma_ratings_from_cores(b1, b2, ss, cfg);
    lemma_ratings_from_cores(d1, d2, ss, cfg);
    lemma_cores_eq_unpack(b1, b2);
    lemma_cores_eq_unpack(d1, d2);
    let o = match_outcome(r1);
    let bb = ratings_of(b1, ss, cfg);
    let rr = ratings_of(d1, ss, cfg);
    let updated = spec_update_two_teams(bb, rr, o, cfg);
    assert(team_writes(b1, bb, updated.0, o == Outcome::TeamAWins) =~= team_writes(
        b2,
        bb,
        updated.0,
        o == Outcome::TeamAWins,
    )) by {
        assert forall|j: int| #![trigger b1[j]]
            0 <= j < b1.len() implies team_writes(b1, bb, updated.0, o == Outcome::TeamAWins)[j]
            == team_writes(b2, bb, updated.0, o == Outcome::TeamAWins)[j] by {
            assert(team_writes(b1, bb, updated.0, o == Outcome::TeamAWins)[j] == write_of(
                b1[j],
                bb[j],
                updated.0[j],
                o == Outcome::TeamAWins,
            ));
            assert(team_writes(b2, bb, updated.0, o == Outcome::TeamAWins)[j] == write_of(
                b2[j],
                bb[j],
                updated.0[j],
                o == Outcome::TeamAWins,
            ));
            lemma_core_fields(b1[j], b2[j]);
        }
    }
    assert(team_writes(d1, rr, updated.1, o == Outcome::TeamBWins) =~= team_writes(
        d2,
        rr,
        updated.1,
        o == Outcome::TeamBWins,
    )) by {
        assert forall|j: int| #![trigger d1[j]]
            0 <= j < d1.len() implies team_writes(d1, rr, updated.1, o == Outcome::TeamBWins)[j]
            == team_writes(d2, rr, updated.1, o == Outcome::TeamBWins)[j] by {
            assert(team_writes(d1, rr, updated.1, o == Outcome::TeamBWins)[j] == write_of(
                d1[j],
                rr[j],
                updated.1[j],
                o == Outcome::TeamBWins,
            ));
            assert(team_writes(d2, rr, updated.1, o == Outcome::TeamBWins)[j] == write_of(
                d2[j],
                rr[j],
                updated.1[j],
                o == Outcome::TeamBWins,
            ));
            lemma_core_fields(d1[j], d2[j]);
        }
    }
}

/// The last write aimed at a row id, if any.
pub open spec fn final_write_for(ws: Seq<RatingWrite>, id: u64) -> Option<RatingWrite>
    decreases ws.len(),
{
    if ws.len() == 0 {
        None
    } else {
        match final_write_for(ws.drop_first(), id) {
            Some(w) => Some(w),
            None => if ws[0].detail_id == id {
                Some(ws[0])
            } else {
                None
            },
        }
    }
}

/// What one row looks like after a whole write set: unchanged, unless some
/// write aims at its id, in which case it carries the last such write's
/// snapshot and delta.
proof fn lemma_apply_writes_detail_elem(
    details: Seq<MatchDetail>,
    ss: Seq<Stats>,
    ws: Seq<RatingWrite>,
    i: int,
)
    requires
        0 <= i < details.len(),
    ensures
        apply_writes(details, ss, ws).0[i] == (match final_write_for(ws, details[i].id) {
            Some(w) => MatchDetail {
                rating_after_match: w.new_rating,
                rating_delta: w.rating_delta,
                ..details[i]
            },
            None => details[i],
        }),
    decreases ws.len(),
{
    lemma_apply_writes_cores(details, ss, ws);
    if ws.len() > 0 {
        let w = ws[0];
        let stepped = apply_detail_write(details, w.detail_id, w.new_rating, w.rating_delta);
        let ss2 = spec_update_stats(
            ss,
            w.player_id,
            w.new_rating,
            w.new_uncertainty,
            if w.is_winner {
                1u64
            } else {
                0u64
            },
            if w.is_winner {
                0u64
            } else {
                1u64
            },
            w.frags as i64,
            w.deaths as i64,
        );
        assert(stepped[i].id == details[i].id);
        lemma_apply_writes_detail_elem(stepped, ss2, ws.drop_first(), i);
    }
}

/// Re-invoking the processor on an already-processed match, with the player
/// stats restored to the values it read the first time, reproduces exactly
/// the state it produced the first time: the same snapshot and delta on
/// every row, and the same stats.  The operation is a deterministic
/// function of the rows' stored fields and the players' stats; only the
/// rating fields it itself rewrites differ between the two invocations'
/// inputs, and they play no part in the computation.
pub proof fn lemma_process_match_idempotent(
    details: Seq<MatchDetail>,
    ss: Seq<Stats>,
    cfg: AppSettings,
    match_id: u64,
)
    ensures
        ({
            let once = spec_process_match(details, ss, cfg, match_id);
            spec_process_match(once.0, ss, cfg, match_id) == once
        }),
{
    let once = spec_process_match(details, ss, cfg, match_id);
    let recs0 = match_records(details, match_id);
    if recs0.len() == 0 {
    } else {
        let ws = match_writes(recs0, ss, cfg);
        lemma_apply_writes_cores(details, ss, ws);
        assert forall|a: MatchDetail, b: MatchDetail|
            detail_core(a) == detail_core(b) implies a.match_id == b.match_id by {
            assert(detail_core(a).match_id == a.match_id);
            assert(detail_core(b).match_id == b.match_id);
        }
        lemma_filter_cores(once.0, details, |d: MatchDetail| d.match_id == match_id);
        let recs1 = match_records(once.0, match_id);
        lemma_cores_eq_unpack(recs1, recs0);
        lemma_match_writes_from_cores(recs1, recs0, ss, cfg);
        let twice = spec_process_match(once.0, ss, cfg, match_id);
        assert(twice.1 == once.1) by {
            lemma_apply_writes_stats_ignore_details(once.0, details, ss, ws);
        }
        assert(twice.0 =~= once.0) by {
            lemma_apply_writes_cores(once.0, ss, ws);
            lemma_cores_eq_unpack(once.0, details);
            assert forall|i: int| 0 <= i < once.0.len() implies twice.0[i] == once.0[i] by {
                lemma_apply_writes_detail_elem(details, ss, ws, i);
                lemma_apply_writes_detail_elem(once.0, ss, ws, i);
                lemma_core_fields(once.0[i], details[i]);
            }
        }
    }
}

/// The detail row a validated proposal turns into.
pub open spec fn batch_row(rb: RequestBody, player_id: u64, id: u64) -> MatchDetail {
    MatchDetail {
        id,
        player_id,
        match_id: rb.match_id,
        frags: rb.frags,
        deaths: rb.deaths,
        average_ping: rb.average_ping,
        damage_dealt: rb.damage_dealt,
        damage_taken: rb.damage_taken,
        model: team_of(rb)->Some_0,
        rating_after_match: 0,
        rating_delta: 0,
    }
}

/// The rows a whole validated batch turns into, with ids handed out in
/// order starting from `first_id`.
pub open spec fn batch_rows(details: Seq<RequestBody>, player_ids: Seq<u64>, first_id: u64) -> Seq<
    MatchDetail,
> {
    Seq::new(details.len(), |j: int| batch_row(details[j], player_ids[j], (first_id + j) as u64))
}

/// Accepts a batch of proposed records for one match, all or nothing: the
/// whole batch is validated first, and only an accepted batch is persisted,
/// every row with zeroed rating fields.  Identity resolution is the
/// excluded collaborator's job, so the caller passes each proposal's player
/// id alongside it.
pub fn create_match_details(
    store: &mut Store,
    details: &Vec<RequestBody>,
    player_ids: &Vec<u64>,
) -> (r: ServiceResult<()>)
    requires
        player_ids@.len() == details@.len(),
        old(store).next_detail_id + details@.len() <= u64::MAX,
    ensures
        r is Ok <==> (all_labels_valid(details@) && count_team(details@, Team::Blue) == count_team(
            details@,
            Team::Red,
        )),
        r == Err::<(), AppError>(AppError::InvalidModel) <==> !all_labels_valid(details@),
        r == Err::<(), AppError>(AppError::UnevenTeams) <==> (all_labels_valid(details@)
            && count_team(details@, Team::Blue) != count_team(details@, Team::Red)),
        r is Err ==> *final(store) == *old(store),
        r is Ok ==> final(store).match_details@ == old(store).match_details@ + batch_rows(
            details@,
            player_ids@,
            old(store).next_detail_id,
        ),
        r is Ok ==> final(store).next_detail_id == old(store).next_detail_id + details@.len(),
        final(store).matches@ == old(store).matches@,
        final(store).stats@ == old(store).stats@,
        final(store).next_match_id == old(store).next_match_id,
{
    match validate_teams(details) {
        Err(e) => {
            return Err(e);
        },
        Ok(()) => {},
    }
    let n = details.len();
    let mut i: usize = 0;
    while i < n
        invariant
            i <= n == details@.len(),
            player_ids@.len() == details@.len(),
            all_labels_valid(details@),
            old(store).next_detail_id + details@.len() <= u64::MAX,
            store.next_detail_id == old(store).next_detail_id + i,
            store.match_details@ == old(store).match_details@ + batch_rows(
                details@.subrange(0, i as int),
                player_ids@.subrange(0, i as int),
                old(store).next_detail_id,
            ),
            store.matches@ == old(store).matches@,
            store.stats@ == old(store).stats@,
            store.next_match_id == old(store).next_match_id,
        decreases n - i,
    {
        proof {
            assert(team_of(details@[i as int]) is Some);
        }
        let model = match parse_team_label(details[i].model.as_str()) {
            Some(t) => t,
            None => unreached(),
        };
        store.create_match_detail(
            player_ids[i],
            details[i].match_id,
            details[i].frags,
            details[i].deaths,
            details[i].average_ping,
            details[i].damage_dealt,
            details[i].damage_taken,
            model,
            0,
            0,
        );
        i = i + 1;
        proof {
            assert(store.match_details@ =~= old(store).match_details@ + batch_rows(
                details@.subrange(0, i as int),
                player_ids@.subrange(0, i as int),
                old(store).next_detail_id,
            ));
        }
    }
    proof {
        assert(details@.subrange(0, details@.len() as int) =~= details@);
        assert(player_ids@.subrange(0, player_ids@.len() as int) =~= player_ids@);
    }
    Ok(())
}

/// The chronological key of a stored match: when it was played, with the
/// match id as the tie-break.  Storage order is not guaranteed to be
/// chronological, so the reprocessor sorts by this key explicitly.
#[derive(Debug, Clone, Copy, PartialEq, Eq, Structural)]
pub struct MatchKey {
    pub match_date: i64,
    pub id: u64,
}

/// The total order the reprocessor replays in: by date, then by id.
pub open spec fn key_le(a: MatchKey, b: MatchKey) -> bool {
    a.match_date < b.match_date || (a.match_date == b.match_date && a.id <= b.id)
}

/// Whether the keys already stand in replay order.
pub open spec fn keys_sorted(s: Seq<MatchKey>) -> bool {
    forall|i: int, j: int| 0 <= i < j < s.len() ==> key_le(#[trigger] s[i], #[trigger] s[j])
}

/// Inserts a key into a run, keeping everything that compares at or below
/// it in front.
pub open spec fn spec_insert_key(s: Seq<MatchKey>, x: MatchKey) -> Seq<MatchKey>
    decreases s.len(),
{
    if s.len() == 0 {
        seq![x]
    } else if key_le(s.last(), x) {
        s.push(x)
    } else {
        spec_insert_key(s.drop_last(), x).push(s.last())
    }
}

/// Sorts the keys into replay order by repeated insertion.
pub open spec fn spec_sort_keys(s: Seq<MatchKey>) -> Seq<MatchKey>
    decreases s.len(),
{
    if s.len() == 0 {
        Seq::empty()
    } else {
        spec_insert_key(spec_sort_keys(s.drop_last()), s.last())
    }
}

/// Where the insertion lands: after every element at or below the new key,
/// before all the rest.
proof fn lemma_insert_key_at(s: Seq<MatchKey>, x: MatchKey, j: int)
    requires
        0 <= j <= s.len(),
        forall|k: int| 0 <= k < j ==> key_le(#[trigger] s[k], x),
        forall|k: int| j <= k < s.len() ==> !key_le(#[trigger] s[k], x),
    ensures
        spec_insert_key(s, x) == s.subrange(0, j) + seq![x] + s.subrange(j, s.len() as int),
    decreases s.len(),
{
    if s.len() == 0 {
        assert(spec_insert_key(s, x) =~= s.subrange(0, j) + seq![x] + s.subrange(
            j,
            s.len() as int,
        ));
    } else if key_le(s.last(), x) {
        assert(j == s.len());
        assert(spec_insert_key(s, x) =~= s.subrange(0, j) + seq![x] + s.subrange(
            j,
            s.len() as int,
        ));
    } else {
        assert(forall|k: int|
            0 <= k < s.len() - 1 ==> s.drop_last()[k] == #[trigger] s[k]);
        lemma_insert_key_at(s.drop_last(), x, j);
        assert(spec_insert_key(s, x) =~= s.subrange(0, j) + seq![x] + s.subrange(
            j,
            s.len() as int,
        ));
    }
}

/// Inserting a key adds exactly that key: nothing else appears or
/// disappears.
proof fn lemma_insert_key_multiset(s: Seq<MatchKey>, x: MatchKey)
    ensures
        spec_insert_key(s, x).to_multiset() == s.to_multiset().insert(x),
    decreases s.len(),
{
    broadcast use vstd::seq_lib::group_to_multiset_ensures;

    if s.len() == 0 {
        assert(seq![x] =~= Seq::<MatchKey>::empty().push(x));
    } else if key_le(s.last(), x) {
    } else {
        lemma_insert_key_multiset(s.drop_last(), x);
        assert(s =~= s.drop_last().push(s.last()));
        assert(s.drop_last().to_multiset().insert(x).insert(s.last())
            =~= s.drop_last().to_multiset().insert(s.last()).insert(x));
    }
}

/// The sorted run holds exactly the keys it was given: the replay visits
/// every stored match once and invents none.
pub proof fn lemma_sort_keys_multiset(s: Seq<MatchKey>)
    ensures
        spec_sort_keys(s).to_multiset() == s.to_multiset(),
    decreases s.len(),
{
    broadcast use vstd::seq_lib::group_to_multiset_ensures;

    if s.len() > 0 {
        lemma_sort_keys_multiset(s.drop_last());
        lemma_insert_key_multiset(spec_sort_keys(s.drop_last()), s.last());
        assert(s =~= s.drop_last().push(s.last()));
    }
}

/// Sorting keys that are already in replay order changes nothing.
pub proof fn lemma_sort_keys_identity(s: Seq<MatchKey>)
    requires
        keys_sorted(s),
    ensures
        spec_sort_keys(s) == s,
    decreases s.len(),
{
    if s.len() > 0 {
        assert(keys_sorted(s.drop_last())) by {
            assert(forall|k: int|
                0 <= k < s.len() - 1 ==> s.drop_last()[k] == #[trigger] s[k]);
        }
        lemma_sort_keys_identity(s.drop_last());
        if s.len() == 1 {
            assert(spec_sort_keys(s) =~= s);
        } else {
            assert(key_le(s.drop_last().last(), s.last()));
            assert(spec_sort_keys(s) =~= s);
        }
    }
}

/// Whether two keys are in replay order.
fn key_earlier(a: MatchKey, b: MatchKey) -> (r: bool)
    ensures
        r == key_le(a, b),
{
    a.match_date < b.match_date || (a.match_date == b.match_date && a.id <= b.id)
}

/// Inserts one key into a sorted run, keeping it sorted.
fn insert_key(sorted: &Vec<MatchKey>, x: MatchKey) -> (out: Vec<MatchKey>)
    requires
        keys_sorted(sorted@),
    ensures
        out@ == spec_insert_key(sorted@, x),
        keys_sorted(out@),
        out@.len() == sorted@.len() + 1,
{
    let n = sorted.len();
    let mut out: Vec<MatchKey> = Vec::new();
    let mut i: usize = 0;
    while i < n && key_earlier(sorted[i], x)
        invariant
            i <= n == sorted@.len(),
            out@ == sorted@.subrange(0, i as int),
            forall|k: int| 0 <= k < i ==> key_le(#[trigger] sorted@[k], x),
        decreases n - i,
    {
        out.push(sorted[i]);
        i = i + 1;
        proof {
            assert(out@ =~= sorted@.subrange(0, i as int));
        }
    }
    let ghost j = i as int;
    out.push(x);
    while i < n
        invariant
            0 <= j <= i <= n == sorted@.len(),
            out@ == sorted@.subrange(0, j) + seq![x] + sorted@.subrange(j, i as int),
        decreases n - i,
    {
        out.push(sorted[i]);
        i = i + 1;
        proof {
            assert(out@ =~= sorted@.subrange(0, j) + seq![x] + sorted@.subrange(j, i as int));
        }
    }
    proof {
        assert(forall|k: int| j <= k < sorted@.len() ==> !key_le(#[trigger] sorted@[k], x)) by {
            if j < sorted@.len() {
                assert(!key_le(sorted@[j], x));
                assert forall|k: int|
                    j <= k < sorted@.len() implies !key_le(#[trigger] sorted@[k], x) by {
                    if key_le(sorted@[k], x) && k > j {
                        assert(key_le(sorted@[j], sorted@[k]));
                    }
                }
            }
        }
        lemma_insert_key_at(sorted@, x, j);
        assert(out@ == spec_insert_key(sorted@, x));
        assert forall|a: int, b: int|
            0 <= a < b < out@.len() implies key_le(#[trigger] out@[a], #[trigger] out@[b]) by {
            if b < j {
                assert(out@[a] == sorted@[a] && out@[b] == sorted@[b]);
            } else if a < j && b == j {
                assert(out@[a] == sorted@[a] && out@[b] == x);
            } else if a < j && b > j {
                assert(out@[a] == sorted@[a] && out@[b] == sorted@[b - 1]);
            } else if a == j && b > j {
                assert(out@[a] == x && out@[b] == sorted@[b - 1]);
                assert(!key_le(sorted@[b - 1], x));
            } else {
                assert(out@[a] == sorted@[a - 1] && out@[b] == sorted@[b - 1]);
            }
        }
    }
    out
}

/// Sorts the keys into replay order.
fn sort_keys(keys: &Vec<MatchKey>) -> (out: Vec<MatchKey>)
    ensures
        out@ == spec_sort_keys(keys@),
        keys_sorted(out@),
{
    let mut out: Vec<MatchKey> = Vec::new();
    let mut i: usize = 0;
    while i < keys.len()
        invariant
            i <= keys@.len(),
            out@ == spec_sort_keys(keys@.subrange(0, i as int)),
            keys_sorted(out@),
        decreases keys@.len() - i,
    {
        proof {
            assert(keys@.subrange(0, i + 1).drop_last() =~= keys@.subrange(0, i as int));
            assert(keys@.subrange(0, i + 1).last() == keys@[i as int]);
        }
        out = insert_key(&out, keys[i]);
        i = i + 1;
    }
    proof {
        assert(keys@.subrange(0, keys@.len() as int) =~= keys@);
    }
    out
}

/// The chronological keys of the stored matches, in storage order.
pub open spec fn match_keys(ms: Seq<crate::store::Match>) -> Seq<MatchKey> {
    ms.map_values(|m: crate::store::Match| MatchKey { match_date: m.match_date, id: m.id })
}

/// One replay step: processes the match, or skips it untouched when it is
/// too large for the engine, exactly as the best-effort batch driver does.
pub open spec fn spec_process_step(
    details: Seq<MatchDetail>,
    ss: Seq<Stats>,
    cfg: AppSettings,
    match_id: u64,
) -> (Seq<MatchDetail>, Seq<Stats>) {
    if match_records(details, match_id).len() > MAX_MATCH_PLAYERS {
        (details, ss)
    } else {
        spec_process_match(details, ss, cfg, match_id)
    }
}

/// Both tables after the matches under the given keys have been replayed,
/// first to last.
pub open spec fn spec_replay(
    details: Seq<MatchDetail>,
    ss: Seq<Stats>,
    cfg: AppSettings,
    keys: Seq<MatchKey>,
) -> (Seq<MatchDetail>, Seq<Stats>)
    decreases keys.len(),
{
    if keys.len() == 0 {
        (details, ss)
    } else {
        let once = spec_process_step(details, ss, cfg, keys[0].id);
        spec_replay(once.0, once.1, cfg, keys.drop_first())
    }
}

/// When the stored matches already stand in chronological order, the
/// reprocessor's explicit sort changes nothing: rebuilding from scratch
/// replays exactly the sequence of single-match processing steps in the
/// order the matches originally occurred.
pub proof fn lemma_replay_in_original_order(
    details: Seq<MatchDetail>,
    ss: Seq<Stats>,
    cfg: AppSettings,
    keys: Seq<MatchKey>,
)
    requires
        keys_sorted(keys),
    ensures
        spec_replay(details, ss, cfg, spec_sort_keys(keys)) == spec_replay(details, ss, cfg, keys),
{
    lemma_sort_keys_identity(keys);
}

/// Every stats row reset to the configured defaults.
pub open spec fn reset_stats(ss: Seq<Stats>, cfg: AppSettings) -> Seq<Stats> {
    ss.map_values(|st: Stats| default_stats(st.player_id, cfg))
}

/// Rebuilds the whole rating history: resets every player's stats to the
/// defaults, then replays every stored match through the processor in
/// strictly chronological order (by date, match id as tie-break).  The
/// rating model is path-dependent, so this order is load-bearing.  A match
/// the processor refuses is skipped and the run continues.
pub fn reprocess_all(store: &mut Store, settings: &AppSettings) -> (r: ServiceResult<()>)
    requires
        settings.wf(),
    ensures
        r is Ok,
        final(store).matches@ == old(store).matches@,
        final(store).next_match_id == old(store).next_match_id,
        final(store).next_detail_id == old(store).next_detail_id,
        (final(store).match_details@, final(store).stats@) == spec_replay(
            old(store).match_details@,
            reset_stats(old(store).stats@, *settings),
            *settings,
            spec_sort_keys(match_keys(old(store).matches@)),
        ),
        all_stats_valid(final(store).stats@, *settings),
{
    store.reset_all_player_stats(settings);
    proof {
        assert(store.stats@ =~= reset_stats(old(store).stats@, *settings));
    }
    let mut keys: Vec<MatchKey> = Vec::new();
    let mut i: usize = 0;
    while i < store.matches.len()
        invariant
            i <= store.matches@.len(),
            keys@.len() == i,
            forall|k: int|
                0 <= k < i ==> keys@[k] == (MatchKey {
                    match_date: (#[trigger] store.matches@[k]).match_date,
                    id: store.matches@[k].id,
                }),
        decreases store.matches@.len() - i,
    {
        let key = MatchKey {
            match_date: store.matches[i].match_date,
            id: store.matches[i].id,
        };
        keys.push(key);
        i = i + 1;
    }
    proof {
        assert(keys@ =~= match_keys(store.matches@));
    }
    let order = sort_keys(&keys);
    let ghost start_details = store.match_details@;
    let ghost start_stats = store.stats@;
    proof {
        assert(order@.subrange(0, order@.len() as int) =~= order@);
    }
    let mut k: usize = 0;
    while k < order.len()
        invariant
            k <= order@.len(),
            settings.wf(),
            all_stats_valid(store.stats@, *settings),
            spec_replay(start_details, start_stats, *settings, order@) == spec_replay(
                store.match_details@,
                store.stats@,
                *settings,
                order@.subrange(k as int, order@.len() as int),
            ),
            store.matches@ == old(store).matches@,
            store.next_match_id == old(store).next_match_id,
            store.next_detail_id == old(store).next_detail_id,
        decreases order@.len() - k,
    {
        let mid = order[k].id;
        let _ = process_match(store, settings, mid);
        proof {
            assert(order@.subrange(k as int, order@.len() as int).drop_first()
                =~= order@.subrange(k + 1, order@.len() as int));
            assert(order@.subrange(k as int, order@.len() as int)[0] == order@[k as int]);
        }
        k = k + 1;
    }
    proof {
        assert(order@.subrange(order@.len() as int, order@.len() as int)
            =~= Seq::<MatchKey>::empty());
    }
    Ok(())
}

} // verus!

