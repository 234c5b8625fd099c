//! Repairs the stored match history.
//!
//! Matches recorded before validation existed can carry uneven teams or
//! almost no frags; replaying them would poison the rating history.  The
//! fixer walks every stored match and deletes the flagged ones together
//! with their detail rows.

use vstd::prelude::*;
use crate::error::ServiceResult;
use crate::outcome::sum_frags;
use crate::outcome::total_frags;
use crate::processor::frags_of;
use crate::processor::match_records;
use crate::processor::team_records;
use crate::settings::AppSettings;
use crate::store::Match;
use crate::store::MatchDetail;
use crate::store::Store;
use crate::teams::Team;

verus! {

/// The least combined frag count a legitimate match shows.
pub const MIN_TEAM_FRAGS: i64 = 10;

/// Whether a recorded match is damaged: its teams are uneven, or both
/// teams finished below the minimum frag count.  A match without rows needs
/// nothing.
pub open spec fn spec_match_needs_fix(recs: Seq<MatchDetail>) -> bool {
    recs.len() > 0 && (team_records(recs, Team::Blue).len() != team_records(recs, Team::Red).len()
        || (sum_frags(frags_of(team_records(recs, Team::Blue))) < MIN_TEAM_FRAGS && sum_frags(
        frags_of(team_records(recs, Team::Red)),
    ) < MIN_TEAM_FRAGS))
}

/// Decides whether a match's rows flag it for deletion.
pub fn match_needs_fix(recs: &Vec<MatchDetail>) -> (r: bool)
    requires
        recs@.len() < 0x1000_0000_0000,
    ensures
        r == spec_match_needs_fix(recs@),
{
    if recs.len() == 0 {
        return false;
    }
    let (blue, red) = crate::processor::split_teams(recs);
    proof {
        recs@.lemma_filter_len(|d: MatchDetail| d.model == Team::Blue);
        recs@.lemma_filter_len(|d: MatchDetail| d.model == Team::Red);
    }
    if blue.len() != red.len() {
        return true;
    }
    let blue_frags = crate::processor::collect_frags(&blue);
    let red_frags = crate::processor::collect_frags(&red);
    let blue_score = total_frags(&blue_frags);
    let red_score = total_frags(&red_frags);
    blue_score < MIN_TEAM_FRAGS && red_score < MIN_TEAM_FRAGS
}

/// The stored ids, in storage order.
pub open spec fn ids_of(ms: Seq<Match>) -> Seq<u64> {
    ms.map_values(|m: Match| m.id)
}

/// One fixing step: when the match under the id is damaged, its row and its
/// detail rows vanish; otherwise nothing changes.
pub open spec fn spec_fix_step(
    matches: Seq<Match>,
    details: Seq<MatchDetail>,
    mid: u64,
) -> (Seq<Match>, Seq<MatchDetail>) {
    if spec_match_needs_fix(match_records(details, mid)) {
        (
            matches.filter(|m: Match| m.id != mid),
            details.filter(|d: MatchDetail| d.match_id != mid),
        )
    } else {
        (matches, details)
    }
}

/// Both tables after the fixer has visited the matches under the given ids,
/// first to last.
pub open spec fn spec_fix_all(
    matches: Seq<Match>,
    details: Seq<MatchDetail>,
    ids: Seq<u64>,
) -> (Seq<Match>, Seq<MatchDetail>)
    decreases ids.len(),
{
    if ids.len() == 0 {
        (matches, details)
    } else {
        let once = spec_fix_step(matches, details, ids[0]);
        spec_fix_all(once.0, once.1, ids.drop_first())
    }
}

/// Walks every stored match and deletes the damaged ones with their detail
/// rows.  Player stats are left alone: a rebuild runs separately.
pub fn fix_matches(store: &mut Store, settings: &AppSettings) -> (r: ServiceResult<()>)
    requires
        settings.wf(),
        old(store).match_details@.len() < 0x1000_0000_0000,
    ensures
        r is Ok,
        (final(store).matches@, final(store).match_details@) == spec_fix_all(
            old(store).matches@,
            old(store).match_details@,
            ids_of(old(store).matches@),
        ),
        final(store).stats@ == old(store).stats@,
        final(store).next_match_id == old(store).next_match_id,
        final(store).next_detail_id == old(store).next_detail_id,
{
    let mut ids: Vec<u64> = Vec::new();
    let mut i: usize = 0;
    while i < store.matches.len()
        invariant
            i <= store.matches@.len(),
            ids@.len() == i,
            forall|k: int| 0 <= k < i ==> ids@[k] == (#[trigger] store.matches@[k]).id,
        decreases store.matches@.len() - i,
    {
        let id = store.matches[i].id;
        ids.push(id);
        i = i + 1;
    }
    proof {
        assert(ids@ =~= ids_of(store.matches@));
        assert(ids@.subrange(0, ids@.len() as int) =~= ids@);
    }
    let ghost start_matches = store.matches@;
    let ghost start_details = store.match_details@;
    let mut k: usize = 0;
    while k < ids.len()
        invariant
            k <= ids@.len(),
            store.match_details@.len() < 0x1000_0000_0000,
            spec_fix_all(start_matches, start_details, ids@) == spec_fix_all(
                store.matches@,
                store.match_details@,
                ids@.subrange(k as int, ids@.len() as int),
            ),
            store.stats@ == old(store).stats@,
            store.next_match_id == old(store).next_match_id,
            store.next_detail_id == old(store).next_detail_id,
        decreases ids@.len() - k,
    {
        let mid = ids[k];
        let recs = store.fetch_match_details(mid);
        proof {
            store.match_details@.lemma_filter_len(|d: MatchDetail| d.match_id == mid);
        }
        if match_needs_fix(&recs) {
            store.delete_match_details(mid);
            store.delete_match(mid);
            proof {
                store.match_details@.lemma_filter_len(|d: MatchDetail| d.match_id != mid);
            }
        }
        proof {
            assert(ids@.subrange(k as int, ids@.len() as int).drop_first() =~= ids@.subrange(
                k + 1,
                ids@.len() as int,
            ));
            assert(ids@.subrange(k as int, ids@.len() as int)[0] == ids@[k as int]);
        }
        k = k + 1;
    }
    proof {
        assert(ids@.subrange(ids@.len() as int, ids@.len() as int) =~= Seq::<u64>::empty());
    }
    Ok(())
}

} // verus!
