//! Backfills aggregate stats for players recorded before stats existed.
//!
//! Every named player is upserted with the default skill belief: a player
//! without a stats row gets a fresh one, a player with one keeps the
//! counters and has the belief reset to the defaults.

use vstd::prelude::*;
use crate::error::ServiceResult;
use crate::settings::AppSettings;
use crate::store::Stats;
use crate::store::Store;
use crate::store::all_stats_valid;
use crate::store::spec_update_stats;

verus! {

/// The stats table after the players under the given ids have been
/// backfilled, first to last.
pub open spec fn spec_backfill(ss: Seq<Stats>, ids: Seq<u64>, cfg: AppSettings) -> Seq<Stats>
    decreases ids.len(),
{
    if ids.len() == 0 {
        ss
    } else {
        spec_backfill(
            spec_update_stats(
                ss,
                ids[0],
                cfg.initial_rating,
                cfg.initial_uncertainty,
                0,
                0,
                0,
                0,
            ),
            ids.drop_first(),
            cfg,
        )
    }
}

/// Upserts the default skill belief for every named player, adding nothing
/// to any counter.
pub fn backfill_stats(store: &mut Store, settings: &AppSettings, player_ids: &Vec<u64>) -> (r:
    ServiceResult<()>)
    requires
        settings.wf(),
    ensures
        r is Ok,
        final(store).stats@ == spec_backfill(old(store).stats@, player_ids@, *settings),
        all_stats_valid(old(store).stats@, *settings) ==> all_stats_valid(
            final(store).stats@,
            *settings,
        ),
        final(store).matches@ == old(store).matches@,
        final(store).match_details@ == old(store).match_details@,
        final(store).next_match_id == old(store).next_match_id,
        final(store).next_detail_id == old(store).next_detail_id,
{
    let ghost start_stats = store.stats@;
    proof {
        assert(player_ids@.subrange(0, player_ids@.len() as int) =~= player_ids@);
    }
    let mut i: usize = 0;
    while i < player_ids.len()
        invariant
            i <= player_ids@.len(),
            settings.wf(),
            spec_backfill(start_stats, player_ids@, *settings) == spec_backfill(
                store.stats@,
                player_ids@.subrange(i as int, player_ids@.len() as int),
                *settings,
            ),
            all_stats_valid(start_stats, *settings) ==> all_stats_valid(store.stats@, *settings),
            store.matches@ == old(store).matches@,
            store.match_details@ == old(store).match_details@,
            store.next_match_id == old(store).next_match_id,
            store.next_detail_id == old(store).next_detail_id,
        decreases player_ids@.len() - i,
    {
        store.update_stats(
            settings,
            player_ids[i],
            settings.initial_rating,
            settings.initial_uncertainty,
            0,
            0,
            0,
            0,
        );
        proof {
            assert(player_ids@.subrange(i as int, player_ids@.len() as int).drop_first()
                =~= player_ids@.subrange(i + 1, player_ids@.len() as int));
            assert(player_ids@.subrange(i as int, player_ids@.len() as int)[0]
                == player_ids@[i as int]);
        }
        i = i + 1;
    }
    proof {
        assert(player_ids@.subrange(player_ids@.len() as int, player_ids@.len() as int)
            =~= Seq::<u64>::empty());
    }
    Ok(())
}

} // verus!
