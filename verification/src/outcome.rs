//! Reduces two teams' raw performance to a binary result.
//!
//! The only signal is total frags.  The blue team wins exactly when it scored
//! strictly more frags than the red team; every other relation, equality
//! included, goes to red.  The asymmetric tie-break is deliberate historical
//! behaviour: changing it would change every stored rating trajectory.

use vstd::prelude::*;

verus! {

/// The binary result of a finished match.  Team A is the blue team, team B
/// the red team; ties are not representable and resolve to `TeamBWins`.
#[derive(Debug, Clone, Copy, PartialEq, Eq, Structural)]
pub enum Outcome {
    TeamAWins,
    TeamBWins,
}

impl Outcome {
    /// The outcome as seen from the other side of the table.
    pub open spec fn spec_flip(self) -> Outcome {
        match self {
            Outcome::TeamAWins => Outcome::TeamBWins,
            Outcome::TeamBWins => Outcome::TeamAWins,
        }
    }

    /// Swaps the two teams' roles.
    pub fn flip(self) -> (r: Outcome)
        ensures
            r == self.spec_flip(),
    {
        match self {
            Outcome::TeamAWins => Outcome::TeamBWins,
            Outcome::TeamBWins => Outcome::TeamAWins,
        }
    }
}

/// Total frags of one team.
pub open spec fn sum_frags(s: Seq<i16>) -> int
    decreases s.len(),
{
    if s.len() == 0 {
        0
    } else {
        sum_frags(s.drop_last()) + s.last()
    }
}

/// The outcome `determine_winner` must reach from the two frag lists.
pub open spec fn spec_winner(blue: Seq<i16>, red: Seq<i16>) -> Outcome {
    if sum_frags(blue) > sum_frags(red) {
        Outcome::TeamAWins
    } else {
        Outcome::TeamBWins
    }
}

/// Sums a team's frag counters without overflow.
pub fn total_frags(stats: &Vec<i16>) -> (r: i64)
    requires
        stats@.len() < 0x1000_0000_0000,
    ensures
        r == sum_frags(stats@),
{
    let mut sum: i64 = 0;
    let mut i: usize = 0;
    while i < stats.len()
        invariant
            i <= stats@.len(),
            stats@.len() < 0x1000_0000_0000,
            sum == sum_frags(stats@.subrange(0, i as int)),
            -32768 * (i as int) <= sum <= 32767 * (i as int),
        decreases stats@.len() - i,
    {
        proof {
            assert(stats@.subrange(0, i + 1).drop_last() =~= stats@.subrange(0, i as int));
            assert(stats@.subrange(0, i + 1).last() == stats@[i as int]);
        }
        sum = sum + stats[i] as i64;
        i = i + 1;
    }
    proof {
        assert(stats@.subrange(0, stats@.len() as int) =~= stats@);
    }
    sum
}

/// Decides the match from the per-player frag counts of each team: blue wins
/// on strictly more frags, red wins otherwise, ties included.
pub fn determine_winner(blue_stats: &Vec<i16>, red_stats: &Vec<i16>) -> (r: Outcome)
    requires
        blue_stats@.len() < 0x1000_0000_0000,
        red_stats@.len() < 0x1000_0000_0000,
    ensures
        r == spec_winner(blue_stats@, red_stats@),
        (r == Outcome::TeamAWins) == (sum_frags(blue_stats@) > sum_frags(red_stats@)),
{
    let blue_score = total_frags(blue_stats);
    let red_score = total_frags(red_stats);
    if blue_score > red_score {
        Outcome::TeamAWins
    } else {
        Outcome::TeamBWins
    }
}

} // verus!
