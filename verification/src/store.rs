//! Durable state, modelled in memory.
//!
//! The store holds the three tables the service works on: matches, per-player
//! match detail rows, and per-player aggregate stats.  Every operation is
//! specified exactly: what row it adds, which rows it rewrites, and that it
//! touches nothing else.  The match processor builds its atomic write sets on
//! top of these operations; an embedding that keeps the data elsewhere must
//! refresh it through the same contracts.

use vstd::prelude::*;
use crate::rating::Rating;
use crate::settings::AppSettings;
use crate::teams::Team;

verus! {

/// One persisted per-player-per-match row.  The rating fields are zero until
/// the owning match has been processed; they are in milli-points.
#[derive(Debug, Clone, Copy, PartialEq, Eq, Structural)]
pub struct MatchDetail {
    pub id: u64,
    pub player_id: u64,
    pub match_id: u64,
    pub frags: i16,
    pub deaths: i16,
    pub average_ping: u16,
    pub damage_dealt: u16,
    pub damage_taken: u16,
    pub model: Team,
    pub rating_after_match: i64,
    pub rating_delta: i64,
}

/// One player's aggregate state: current skill belief and cumulative
/// counters.
#[derive(Debug, Clone, Copy, PartialEq, Eq, Structural)]
pub struct Stats {
    pub player_id: u64,
    pub rating: i64,
    pub uncertainty: i64,
    pub wins: u64,
    pub losses: u64,
    pub total_frags: i64,
    pub total_deaths: i64,
}

/// One match: where it was played and when, with the chronological key the
/// reprocessor sorts by.  `match_date` is seconds since the Unix epoch.
#[derive(Debug)]
pub struct Match {
    pub id: u64,
    pub server_ip: String,
    pub match_date: i64,
    pub map_name: String,
}

impl Clone for Match {
    /// Copies the row, field for field.
    fn clone(&self) -> (r: Match)
        ensures
            r == *self,
    {
        Match {
            id: self.id,
            server_ip: self.server_ip.clone(),
            match_date: self.match_date,
            map_name: self.map_name.clone(),
        }
    }
}

/// The stats row a player starts out with.
pub open spec fn default_stats(player_id: u64, s: AppSettings) -> Stats {
    Stats {
        player_id,
        rating: s.initial_rating,
        uncertainty: s.initial_uncertainty,
        wins: 0,
        losses: 0,
        total_frags: 0,
        total_deaths: 0,
    }
}

/// The skill belief a stats row carries.
pub open spec fn stats_rating(st: Stats) -> Rating {
    Rating { rating: st.rating, uncertainty: st.uncertainty }
}

/// Whether the row's skill belief is workable under the configuration.
pub open spec fn stats_valid(st: Stats, s: AppSettings) -> bool {
    stats_rating(st).valid(s)
}

/// Whether every row's skill belief is workable.
pub open spec fn all_stats_valid(ss: Seq<Stats>, s: AppSettings) -> bool {
    forall|i: int| 0 <= i < ss.len() ==> stats_valid(#[trigger] ss[i], s)
}

/// The first stats row of the player, if one is stored.
pub open spec fn find_stats(ss: Seq<Stats>, player_id: u64) -> Option<Stats>
    decreases ss.len(),
{
    if ss.len() == 0 {
        None
    } else if ss[0].player_id == player_id {
        Some(ss[0])
    } else {
        find_stats(ss.drop_first(), player_id)
    }
}

/// Addition that stops at the ceiling instead of wrapping.
pub open spec fn spec_sat_add_u64(a: u64, b: u64) -> u64 {
    if a + b > u64::MAX {
        u64::MAX
    } else {
        (a + b) as u64
    }
}

/// Addition that stops at the bounds instead of wrapping.
pub open spec fn spec_sat_add_i64(a: i64, b: i64) -> i64 {
    if a + b > i64::MAX {
        i64::MAX
    } else if a + b < i64::MIN {
        i64::MIN
    } else {
        (a + b) as i64
    }
}

/// Adds two counters without wrapping.
pub fn sat_add_u64(a: u64, b: u64) -> (r: u64)
    ensures
        r == spec_sat_add_u64(a, b),
{
    if a > u64::MAX - b {
        u64::MAX
    } else {
        a + b
    }
}

/// Adds two signed counters without wrapping.
pub fn sat_add_i64(a: i64, b: i64) -> (r: i64)
    ensures
        r == spec_sat_add_i64(a, b),
{
    if b >= 0 {
        if a > i64::MAX - b {
            i64::MAX
        } else {
            a + b
        }
    } else {
        if a < i64::MIN - b {
            i64::MIN
        } else {
            a + b
        }
    }
}

/// An existing stats row after an upsert: the skill belief is replaced, the
/// counters are increased.
pub open spec fn merged_stats(
    old_row: Stats,
    rating: i64,
    uncertainty: i64,
    wins: u64,
    losses: u64,
    total_frags: i64,
    total_deaths: i64,
) -> Stats {
    Stats {
        player_id: old_row.player_id,
        rating,
        uncertainty,
        wins: spec_sat_add_u64(old_row.wins, wins),
        losses: spec_sat_add_u64(old_row.losses, losses),
        total_frags: spec_sat_add_i64(old_row.total_frags, total_frags),
        total_deaths: spec_sat_add_i64(old_row.total_deaths, total_deaths),
    }
}

/// The stats table after an upsert: the player's first row is merged, or a
/// fresh row with exactly the given values is appended.
pub open spec fn spec_update_stats(
    ss: Seq<Stats>,
    player_id: u64,
    rating: i64,
    uncertainty: i64,
    wins: u64,
    losses: u64,
    total_frags: i64,
    total_deaths: i64,
) -> Seq<Stats>
    decreases ss.len(),
{
    if ss.len() == 0 {
        seq![
            Stats {
                player_id,
                rating,
                uncertainty,
                wins,
                losses,
                total_frags,
                total_deaths,
            },
        ]
    } else if ss[0].player_id == player_id {
        seq![merged_stats(ss[0], rating, uncertainty, wins, losses, total_frags, total_deaths)]
            + ss.drop_first()
    } else {
        seq![ss[0]] + spec_update_stats(
            ss.drop_first(),
            player_id,
            rating,
            uncertainty,
            wins,
            losses,
            total_frags,
            total_deaths,
        )
    }
}

/// An upsert with a workable skill belief keeps every row workable.
pub proof fn lemma_update_stats_preserves_valid(
    ss: Seq<Stats>,
    player_id: u64,
    rating: i64,
    uncertainty: i64,
    wins: u64,
    losses: u64,
    total_frags: i64,
    total_deaths: i64,
    s: AppSettings,
)
    requires
        all_stats_valid(ss, s),
        (Rating { rating, uncertainty }).valid(s),
    ensures
        all_stats_valid(
            spec_update_stats(ss, player_id, rating, uncertainty, wins, losses, total_frags,
                total_deaths),
            s,
        ),
    decreases ss.len(),
{
    let out = spec_update_stats(ss, player_id, rating, uncertainty, wins, losses, total_frags,
        total_deaths);
    if ss.len() == 0 {
        assert(stats_valid(out[0], s));
    } else if ss[0].player_id == player_id {
        assert(stats_valid(ss[0], s));
        assert forall|j: int| 0 <= j < out.len() implies stats_valid(#[trigger] out[j], s) by {
            if j > 0 {
                assert(out[j] == ss[j]);
                assert(stats_valid(ss[j], s));
            } else {
                assert(out[0] == merged_stats(ss[0], rating, uncertainty, wins, losses,
                    total_frags, total_deaths));
            }
        }
    } else {
        assert(all_stats_valid(ss.drop_first(), s)) by {
            assert(forall|k: int|
                0 <= k < ss.len() - 1 ==> ss.drop_first()[k] == #[trigger] ss[k + 1]);
        }
        lemma_update_stats_preserves_valid(
            ss.drop_first(),
            player_id,
            rating,
            uncertainty,
            wins,
            losses,
            total_frags,
            total_deaths,
            s,
        );
        let rest = spec_update_stats(ss.drop_first(), player_id, rating, uncertainty, wins,
            losses, total_frags, total_deaths);
        assert forall|j: int| 0 <= j < out.len() implies stats_valid(#[trigger] out[j], s) by {
            if j == 0 {
                assert(out[0] == ss[0]);
                assert(stats_valid(ss[0], s));
            } else {
                assert(out[j] == rest[j - 1]);
                assert(stats_valid(rest[j - 1], s));
            }
        }
    }
}

/// When the player's first row sits at `idx`, the upsert rewrites exactly
/// that row.
proof fn lemma_update_stats_found(
    ss: Seq<Stats>,
    player_id: u64,
    rating: i64,
    uncertainty: i64,
    wins: u64,
    losses: u64,
    total_frags: i64,
    total_deaths: i64,
    idx: int,
)
    requires
        0 <= idx < ss.len(),
        ss[idx].player_id == player_id,
        forall|k: int| 0 <= k < idx ==> (#[trigger] ss[k]).player_id != player_id,
    ensures
        spec_update_stats(ss, player_id, rating, uncertainty, wins, losses, total_frags,
            total_deaths) == ss.update(
            idx,
            merged_stats(ss[idx], rating, uncertainty, wins, losses, total_frags, total_deaths),
        ),
    decreases idx,
{
    let out = spec_update_stats(ss, player_id, rating, uncertainty, wins, losses, total_frags,
        total_deaths);
    if idx == 0 {
        assert(out =~= ss.update(
            0,
            merged_stats(ss[0], rating, uncertainty, wins, losses, total_frags, total_deaths),
        ));
    } else {
        assert(ss[0].player_id != player_id);
        lemma_update_stats_found(
            ss.drop_first(),
            player_id,
            rating,
            uncertainty,
            wins,
            losses,
            total_frags,
            total_deaths,
            idx - 1,
        );
        assert(out =~= ss.update(
            idx,
            merged_stats(ss[idx], rating, uncertainty, wins, losses, total_frags, total_deaths),
        ));
    }
}

/// When the player has no row at all, the upsert appends a fresh one.
proof fn lemma_update_stats_absent(
    ss: Seq<Stats>,
    player_id: u64,
    rating: i64,
    uncertainty: i64,
    wins: u64,
    losses: u64,
    total_frags: i64,
    total_deaths: i64,
)
    requires
        forall|k: int| 0 <= k < ss.len() ==> (#[trigger] ss[k]).player_id != player_id,
    ensures
        spec_update_stats(ss, player_id, rating, uncertainty, wins, losses, total_frags,
            total_deaths) == ss.push(
            Stats { player_id, rating, uncertainty, wins, losses, total_frags, total_deaths },
        ),
    decreases ss.len(),
{
    let row = Stats { player_id, rating, uncertainty, wins, losses, total_frags, total_deaths };
    if ss.len() == 0 {
        assert(spec_update_stats(ss, player_id, rating, uncertainty, wins, losses, total_frags,
            total_deaths) =~= ss.push(row));
    } else {
        lemma_update_stats_absent(
            ss.drop_first(),
            player_id,
            rating,
            uncertainty,
            wins,
            losses,
            total_frags,
            total_deaths,
        );
        assert(spec_update_stats(ss, player_id, rating, uncertainty, wins, losses, total_frags,
            total_deaths) =~= ss.push(row));
    }
}

/// Filtering a sequence extended by one element keeps the filtered prefix
/// and appends the element exactly when it matches.
pub proof fn lemma_filter_push<A>(s: Seq<A>, x: A, pred: spec_fn(A) -> bool)
    ensures
        s.push(x).filter(pred) == if pred(x) {
            s.filter(pred).push(x)
        } else {
            s.filter(pred)
        },
{
    reveal(Seq::filter);
    assert(s.push(x).drop_last() =~= s);
    assert(s.push(x).last() == x);
}

/// The in-memory image of the three tables, with the two id counters the
/// stores assign new rows from.
#[derive(Debug)]
pub struct Store {
    pub matches: Vec<Match>,
    pub match_details: Vec<MatchDetail>,
    pub stats: Vec<Stats>,
    pub next_match_id: u64,
    pub next_detail_id: u64,
}

impl Store {
    /// An empty store; row ids start at 1.
    pub fn new() -> (r: Store)
        ensures
            r.matches@ =~= Seq::<Match>::empty(),
            r.match_details@ =~= Seq::<MatchDetail>::empty(),
            r.stats@ =~= Seq::<Stats>::empty(),
            r.next_match_id == 1,
            r.next_detail_id == 1,
    {
        Store {
            matches: Vec::new(),
            match_details: Vec::new(),
            stats: Vec::new(),
            next_match_id: 1,
            next_detail_id: 1,
        }
    }

    /// Appends a match row with the next free id.
    pub fn create_match(&mut self, server_ip: String, map_name: String, match_date: i64) -> (m:
        Match)
        requires
            old(self).next_match_id < u64::MAX,
        ensures
            m.id == old(self).next_match_id,
            m.server_ip@ == server_ip@,
            m.map_name@ == map_name@,
            m.match_date == match_date,
            final(self).matches@ == old(self).matches@.push(m),
            final(self).match_details@ == old(self).match_details@,
            final(self).stats@ == old(self).stats@,
            final(self).next_match_id == old(self).next_match_id + 1,
            final(self).next_detail_id == old(self).next_detail_id,
    {
        let m = Match { id: self.next_match_id, server_ip, match_date, map_name };
        let copy = m.clone();
        self.matches.push(m);
        self.next_match_id = self.next_match_id + 1;
        copy
    }

    /// Removes every match row with the given id.
    pub fn delete_match(&mut self, match_id: u64)
        ensures
            final(self).matches@ == old(self).matches@.filter(|m: Match| m.id != match_id),
            final(self).match_details@ == old(self).match_details@,
            final(self).stats@ == old(self).stats@,
            final(self).next_match_id == old(self).next_match_id,
            final(self).next_detail_id == old(self).next_detail_id,
    {
        let mut kept: Vec<Match> = Vec::new();
        let mut i: usize = 0;
        while i < self.matches.len()
            invariant
                i <= self.matches@.len(),
                kept@ == self.matches@.subrange(0, i as int).filter(|m: Match| m.id != match_id),
            decreases self.matches@.len() - i,
        {
            proof {
                assert(self.matches@.subrange(0, i + 1) =~= self.matches@.subrange(
                    0,
                    i as int,
                ).push(self.matches@[i as int]));
                lemma_filter_push(
                    self.matches@.subrange(0, i as int),
                    self.matches@[i as int],
                    |m: Match| m.id != match_id,
                );
            }
            if self.matches[i].id != match_id {
                kept.push(self.matches[i].clone());
            }
            i = i + 1;
        }
        proof {
            assert(self.matches@.subrange(0, self.matches@.len() as int) =~= self.matches@);
        }
        self.matches = kept;
    }

    /// Removes every detail row of the given match.
    pub fn delete_match_details(&mut self, match_id: u64)
        ensures
            final(self).match_details@ == old(self).match_details@.filter(
                |d: MatchDetail| d.match_id != match_id,
            ),
            final(self).matches@ == old(self).matches@,
            final(self).stats@ == old(self).stats@,
            final(self).next_match_id == old(self).next_match_id,
            final(self).next_detail_id == old(self).next_detail_id,
    {
        let mut kept: Vec<MatchDetail> = Vec::new();
        let mut i: usize = 0;
        while i < self.match_details.len()
            invariant
                i <= self.match_details@.len(),
                kept@ == self.match_details@.subrange(0, i as int).filter(
                    |d: MatchDetail| d.match_id != match_id,
                ),
            decreases self.match_details@.len() - i,
        {
            proof {
                assert(self.match_details@.subrange(0, i + 1) =~= self.match_details@.subrange(
                    0,
                    i as int,
                ).push(self.match_details@[i as int]));
                lemma_filter_push(
                    self.match_details@.subrange(0, i as int),
                    self.match_details@[i as int],
                    |d: MatchDetail| d.match_id != match_id,
                );
            }
            if self.match_details[i].match_id != match_id {
                kept.push(self.match_details[i]);
            }
            i = i + 1;
        }
        proof {
            assert(self.match_details@.subrange(0, self.match_details@.len() as int)
                =~= self.match_details@);
        }
        self.match_details = kept;
    }

    /// Appends a detail row with the next free id.
    pub fn create_match_detail(
        &mut self,
        player_id: u64,
        match_id: u64,
        frags: i16,
        deaths: i16,
        average_ping: u16,
        damage_dealt: u16,
        damage_taken: u16,
        model: Team,
        rating_after_match: i64,
        rating_delta: i64,
    ) -> (d: MatchDetail)
        requires
            old(self).next_detail_id < u64::MAX,
        ensures
            d == (MatchDetail {
                id: old(self).next_detail_id,
                player_id,
                match_id,
                frags,
                deaths,
                average_ping,
                damage_dealt,
                damage_taken,
                model,
                rating_after_match,
                rating_delta,
            }),
            final(self).match_details@ == old(self).match_details@.push(d),
            final(self).matches@ == old(self).matches@,
            final(self).stats@ == old(self).stats@,
            final(self).next_match_id == old(self).next_match_id,
            final(self).next_detail_id == old(self).next_detail_id + 1,
    {
        let d = MatchDetail {
            id: self.next_detail_id,
            player_id,
            match_id,
            frags,
            deaths,
            average_ping,
            damage_dealt,
            damage_taken,
            model,
            rating_after_match,
            rating_delta,
        };
        self.match_details.push(d);
        self.next_detail_id = self.next_detail_id + 1;
        d
    }

    /// All detail rows of one match, in storage order.
    pub fn fetch_match_details(&self, match_id: u64) -> (r: Vec<MatchDetail>)
        ensures
            r@ == self.match_details@.filter(|d: MatchDetail| d.match_id == match_id),
    {
        let mut out: Vec<MatchDetail> = Vec::new();
        let mut i: usize = 0;
        while i < self.match_details.len()
            invariant
                i <= self.match_details@.len(),
                out@ == self.match_details@.subrange(0, i as int).filter(
                    |d: MatchDetail| d.match_id == match_id,
                ),
            decreases self.match_details@.len() - i,
        {
            proof {
                assert(self.match_details@.subrange(0, i + 1) =~= self.match_details@.subrange(
                    0,
                    i as int,
                ).push(self.match_details@[i as int]));
                lemma_filter_push(
                    self.match_details@.subrange(0, i as int),
                    self.match_details@[i as int],
                    |d: MatchDetail| d.match_id == match_id,
                );
            }
            if self.match_details[i].match_id == match_id {
                out.push(self.match_details[i]);
            }
            i = i + 1;
        }
        proof {
            assert(self.match_details@.subrange(0, self.match_details@.len() as int)
                =~= self.match_details@);
        }
        out
    }

    /// Writes the post-match rating snapshot onto every detail row with the
    /// given row id, leaving all other fields and rows alone.
    pub fn update_ratings(&mut self, id: u64, rating_after_match: i64, rating_delta: i64)
        ensures
            final(self).match_details@.len() == old(self).match_details@.len(),
            forall|k: int|
                0 <= k < old(self).match_details@.len() ==> final(self).match_details@[k] == (
                if (#[trigger] old(self).match_details@[k]).id == id {
                    MatchDetail {
                        rating_after_match,
                        rating_delta,
                        ..old(self).match_details@[k]
                    }
                } else {
                    old(self).match_details@[k]
                }),
            final(self).matches@ == old(self).matches@,
            final(self).stats@ == old(self).stats@,
            final(self).next_match_id == old(self).next_match_id,
            final(self).next_detail_id == old(self).next_detail_id,
    {
        let mut i: usize = 0;
        while i < self.match_details.len()
            invariant
                i <= self.match_details@.len(),
                self.match_details@.len() == old(self).match_details@.len(),
                forall|k: int|
                    i <= k < old(self).match_details@.len() ==> self.match_details@[k] == old(
                        self,
                    ).match_details@[k],
                forall|k: int|
                    0 <= k < i ==> self.match_details@[k] == (if (#[trigger] old(
                        self,
                    ).match_details@[k]).id == id {
                        MatchDetail {
                            rating_after_match,
                            rating_delta,
                            ..old(self).match_details@[k]
                        }
                    } else {
                        old(self).match_details@[k]
                    }),
                self.matches@ == old(self).matches@,
                self.stats@ == old(self).stats@,
                self.next_match_id == old(self).next_match_id,
                self.next_detail_id == old(self).next_detail_id,
            decreases self.match_details@.len() - i,
        {
            if self.match_details[i].id == id {
                let row = self.match_details[i];
                self.match_details.set(
                    i,
                    MatchDetail { rating_after_match, rating_delta, ..row },
                );
            }
            i = i + 1;
        }
    }

    /// The player's stats row, if one is stored.
    pub fn fetch_one_by_player_id(&self, player_id: u64) -> (r: Option<Stats>)
        ensures
            r == find_stats(self.stats@, player_id),
    {
        let n = self.stats.len();
        proof {
            assert(self.stats@.subrange(0, n as int) =~= self.stats@);
        }
        let mut i: usize = 0;
        while i < n
            invariant
                i <= n == self.stats@.len(),
                find_stats(self.stats@, player_id) == find_stats(
                    self.stats@.subrange(i as int, n as int),
                    player_id,
                ),
            decreases n - i,
        {
            proof {
                assert(self.stats@.subrange(i as int, n as int).drop_first()
                    =~= self.stats@.subrange(i + 1, n as int));
            }
            if self.stats[i].player_id == player_id {
                return Some(self.stats[i]);
            }
            i = i + 1;
        }
        None
    }

    /// Upserts a player's stats: replaces the skill belief, adds the counter
    /// increments, and creates the row if the player had none.
    pub fn update_stats(
        &mut self,
        config: &AppSettings,
        player_id: u64,
        rating: i64,
        uncertainty: i64,
        wins: u64,
        losses: u64,
        total_frags: i64,
        total_deaths: i64,
    )
        requires
            config.wf(),
            (Rating { rating, uncertainty }).valid(*config),
        ensures
            final(self).stats@ == spec_update_stats(
                old(self).stats@,
                player_id,
                rating,
                uncertainty,
                wins,
                losses,
                total_frags,
                total_deaths,
            ),
            all_stats_valid(old(self).stats@, *config) ==> all_stats_valid(
                final(self).stats@,
                *config,
            ),
            final(self).matches@ == old(self).matches@,
            final(self).match_details@ == old(self).match_details@,
            final(self).next_match_id == old(self).next_match_id,
            final(self).next_detail_id == old(self).next_detail_id,
    {
        let n = self.stats.len();
        let mut i: usize = 0;
        while i < n
            invariant
                i <= n == self.stats@.len(),
                self == old(self),
                config.wf(),
                (Rating { rating, uncertainty }).valid(*config),
                forall|k: int| 0 <= k < i ==> (#[trigger] self.stats@[k]).player_id != player_id,
            decreases n - i,
        {
            if self.stats[i].player_id == player_id {
                let row = self.stats[i];
                let merged = Stats {
                    player_id: row.player_id,
                    rating,
                    uncertainty,
                    wins: sat_add_u64(row.wins, wins),
                    losses: sat_add_u64(row.losses, losses),
                    total_frags: sat_add_i64(row.total_frags, total_frags),
                    total_deaths: sat_add_i64(row.total_deaths, total_deaths),
                };
                self.stats.set(i, merged);
                proof {
                    lemma_update_stats_found(
                        old(self).stats@,
                        player_id,
                        rating,
                        uncertainty,
                        wins,
                        losses,
                        total_frags,
                        total_deaths,
                        i as int,
                    );
                    if all_stats_valid(old(self).stats@, *config) {
                        lemma_update_stats_preserves_valid(
                            old(self).stats@,
                            player_id,
                            rating,
                            uncertainty,
                            wins,
                            losses,
                            total_frags,
                            total_deaths,
                            *config,
                        );
                    }
                }
                return ;
            }
            i = i + 1;
        }
        let row = Stats {
            player_id,
            rating,
            uncertainty,
            wins,
            losses,
            total_frags,
            total_deaths,
        };
        self.stats.push(row);
        proof {
            lemma_update_stats_absent(
                old(self).stats@,
                player_id,
                rating,
                uncertainty,
                wins,
                losses,
                total_frags,
                total_deaths,
            );
            if all_stats_valid(old(self).stats@, *config) {
                lemma_update_stats_preserves_valid(
                    old(self).stats@,
                    player_id,
                    rating,
                    uncertainty,
                    wins,
                    losses,
                    total_frags,
                    total_deaths,
                    *config,
                );
            }
        }
    }

    /// Resets every stored stats row to the defaults, keeping only the
    /// player ids.
    pub fn reset_all_player_stats(&mut self, config: &AppSettings)
        requires
            config.wf(),
        ensures
            final(self).stats@.len() == old(self).stats@.len(),
            forall|k: int|
                0 <= k < old(self).stats@.len() ==> final(self).stats@[k] == default_stats(
                    (#[trigger] old(self).stats@[k]).player_id,
                    *config,
                ),
            all_stats_valid(final(self).stats@, *config),
            final(self).matches@ == old(self).matches@,
            final(self).match_details@ == old(self).match_details@,
            final(self).next_match_id == old(self).next_match_id,
            final(self).next_detail_id == old(self).next_detail_id,
    {
        let n = self.stats.len();
        let mut i: usize = 0;
        while i < n
            invariant
                i <= n == self.stats@.len(),
                self.stats@.len() == old(self).stats@.len(),
                config.wf(),
                forall|k: int|
                    i <= k < old(self).stats@.len() ==> self.stats@[k] == old(self).stats@[k],
                forall|k: int|
                    0 <= k < i ==> self.stats@[k] == default_stats(
                        (#[trigger] old(self).stats@[k]).player_id,
                        *config,
                    ),
                self.matches@ == old(self).matches@,
                self.match_details@ == old(self).match_details@,
                self.next_match_id == old(self).next_match_id,
                self.next_detail_id == old(self).next_detail_id,
            decreases n - i,
        {
            let pid = self.stats[i].player_id;
            self.stats.set(
                i,
                Stats {
                    player_id: pid,
                    rating: config.initial_rating,
                    uncertainty: config.initial_uncertainty,
                    wins: 0,
                    losses: 0,
                    total_frags: 0,
                    total_deaths: 0,
                },
            );
            i = i + 1;
        }
        proof {
            assert forall|j: int| 0 <= j < self.stats@.len() implies stats_valid(
                #[trigger] self.stats@[j],
                *config,
            ) by {
                assert(self.stats@[j] == default_stats(old(self).stats@[j].player_id, *config));
            }
        }
    }

    /// Every stored match row, in storage order.
    pub fn fetch_all_matches(&self) -> (r: Vec<Match>)
        ensures
            r@ == self.matches@,
    {
        let mut out: Vec<Match> = Vec::new();
        let mut i: usize = 0;
        while i < self.matches.len()
            invariant
                i <= self.matches@.len(),
                out@ =~= self.matches@.subrange(0, i as int),
            decreases self.matches@.len() - i,
        {
            out.push(self.matches[i].clone());
            i = i + 1;
        }
        proof {
            assert(self.matches@.subrange(0, self.matches@.len() as int) =~= self.matches@);
        }
        out
    }
}

} // verus!
