//! The Bayesian two-team skill update.
//!
//! Every player carries a Gaussian skill belief: a mean and an uncertainty,
//! both fixed-point integers in milli-points.  A match moves each mean toward
//! the observed outcome by an amount proportional to the player's own
//! variance, scaled by how surprising the outcome was, and shrinks each
//! uncertainty, never below the configured floor.  The predicted chance that
//! team A outscores team B is a sigmoid of the normalized strength
//! difference `(sum of A's means - sum of B's means) / c`, where `c`
//! combines both teams' uncertainties with the per-game noise `beta`.
//!
//! The update is a pure function of its inputs.  Its contracts pin down the
//! exact fixed-point arithmetic, and the lemmas at the end state the two
//! facts the model lives by: winners never lose rating and losers never gain
//! any, and swapping the two teams together with the outcome swaps the
//! results and changes nothing else.

use vstd::prelude::*;
use vstd::arithmetic::div_mod::lemma_div_nonincreasing;
use vstd::arithmetic::div_mod::lemma_div_of0;
use vstd::arithmetic::div_mod::lemma_div_pos_is_pos;
use vstd::arithmetic::div_mod::lemma_multiply_divide_lt;
use crate::outcome::Outcome;
use crate::settings::AppSettings;
use crate::settings::MAX_MATCH_PLAYERS;
use crate::settings::MAX_UNCERTAINTY_SQ;
use crate::settings::RATING_BOUND;

verus! {

/// Upper bound on the combined scale `c`; it holds because `c * c` never
/// exceeds what `MAX_MATCH_PLAYERS` players of maximal uncertainty and noise
/// can contribute.
pub const SCALE_BOUND: i64 = 400_000_000;

/// Upper bound on the magnitude of a strength difference between two teams.
pub const DIFF_BOUND: i64 = 1_400_000_000_000_000;

/// A player's skill belief: estimated mean and uncertainty, in milli-points.
#[derive(Debug, Clone, Copy, PartialEq, Eq, Structural)]
pub struct Rating {
    pub rating: i64,
    pub uncertainty: i64,
}

impl Rating {
    /// A belief the engine can work with: the mean within the divergence
    /// bound, the uncertainty between the configured floor and the
    /// configured initial value.
    pub open spec fn valid(self, s: AppSettings) -> bool {
        &&& -RATING_BOUND <= self.rating <= RATING_BOUND
        &&& s.uncertainty_floor <= self.uncertainty <= s.initial_uncertainty
    }

    /// The belief a player starts out with.
    pub fn fresh(s: &AppSettings) -> (r: Rating)
        requires
            s.wf(),
        ensures
            r == (Rating { rating: s.initial_rating, uncertainty: s.initial_uncertainty }),
            r.valid(*s),
    {
        Rating { rating: s.initial_rating, uncertainty: s.initial_uncertainty }
    }
}

/// Every member of the team is a workable belief.
pub open spec fn team_valid(t: Seq<Rating>, s: AppSettings) -> bool {
    forall|i: int| 0 <= i < t.len() ==> #[trigger] t[i].valid(s)
}

/// Sum of the team's skill means: the team's strength.
pub open spec fn sum_rating(t: Seq<Rating>) -> int
    decreases t.len(),
{
    if t.len() == 0 {
        0
    } else {
        sum_rating(t.drop_last()) + t.last().rating
    }
}

/// Sum of the squared uncertainties: the team's variance contribution.
pub open spec fn sum_sigma_sq(t: Seq<Rating>) -> int
    decreases t.len(),
{
    if t.len() == 0 {
        0
    } else {
        sum_sigma_sq(t.drop_last()) + t.last().uncertainty * t.last().uncertainty
    }
}

/// A team's variance contribution is non-negative and stays within `len`
/// times the square of the largest configurable uncertainty.
pub proof fn lemma_sum_sigma_sq_bounds(t: Seq<Rating>, s: AppSettings)
    requires
        s.wf(),
        team_valid(t, s),
    ensures
        0 <= sum_sigma_sq(t) <= t.len() * MAX_UNCERTAINTY_SQ,
    decreases t.len(),
{
    if t.len() > 0 {
        assert(team_valid(t.drop_last(), s)) by {
            assert(forall|i: int|
                0 <= i < t.len() - 1 ==> t.drop_last()[i] == #[trigger] t[i]);
        }
        lemma_sum_sigma_sq_bounds(t.drop_last(), s);
        let sg = t.last().uncertainty as int;
        assert(t.last().valid(s));
        assert(0 <= sg * sg <= 1_000_000_000_000) by (nonlinear_arith)
            requires
                0 < sg <= 1_000_000,
        ;
    }
}

/// Whether `r` is the integer square root of `n`.
pub open spec fn is_isqrt(n: int, r: int) -> bool {
    &&& 0 <= r
    &&& r * r <= n
    &&& n < (r + 1) * (r + 1)
}

/// The integer square root of a non-negative number.
pub open spec fn spec_isqrt(n: int) -> int {
    choose|r: int| is_isqrt(n, r)
}

/// Two integer square roots of the same number are the same number.
pub proof fn lemma_isqrt_unique(n: int, a: int, b: int) by (nonlinear_arith)
    requires
        0 <= a,
        a * a <= n,
        n < (a + 1) * (a + 1),
        0 <= b,
        b * b <= n,
        n < (b + 1) * (b + 1),
    ensures
        a == b,
{
}

/// Every non-negative number has an integer square root, and `spec_isqrt`
/// denotes it.
pub proof fn lemma_isqrt_exists(n: int)
    requires
        0 <= n,
    ensures
        is_isqrt(n, spec_isqrt(n)),
    decreases n,
{
    if n == 0 {
        assert(is_isqrt(0, 0));
    } else {
        lemma_isqrt_exists(n - 1);
        let r = spec_isqrt(n - 1);
        if (r + 1) * (r + 1) <= n {
            assert(is_isqrt(n, r + 1)) by (nonlinear_arith)
                requires
                    0 <= r,
                    r * r <= n - 1,
                    n - 1 < (r + 1) * (r + 1),
                    (r + 1) * (r + 1) <= n,
            ;
        } else {
            assert(is_isqrt(n, r));
        }
    }
    assert(is_isqrt(n, spec_isqrt(n))) by {
        let w = choose|r: int| is_isqrt(n, r);
        assert(is_isqrt(n, w));
    }
}

/// Computes the integer square root by binary search.
pub fn isqrt(n: u64) -> (r: u64)
    ensures
        is_isqrt(n as int, r as int),
        r == spec_isqrt(n as int),
        r <= 0xFFFF_FFFF,
{
    let mut lo: u64 = 0;
    let mut hi: u64 = 0xFFFF_FFFF;
    proof {
        assert((0xFFFF_FFFFu64 + 1) * (0xFFFF_FFFFu64 + 1) > n) by (nonlinear_arith);
    }
    while lo < hi
        invariant
            lo <= hi <= 0xFFFF_FFFF,
            lo * lo <= n,
            n < (hi + 1) * (hi + 1),
        decreases hi - lo,
    {
        let mid = lo + (hi - lo + 1) / 2;
        proof {
            assert(lo < mid <= hi);
            assert(mid * mid <= 0xFFFF_FFFFu64 * 0xFFFF_FFFFu64) by (nonlinear_arith)
                requires
                    0 <= mid <= 0xFFFF_FFFFu64,
            ;
        }
        if mid * mid <= n {
            lo = mid;
        } else {
            hi = mid - 1;
        }
    }
    proof {
        lemma_isqrt_exists(n as int);
        lemma_isqrt_unique(n as int, lo as int, spec_isqrt(n as int));
    }
    lo
}

/// The combined scale of a match: the square root of both teams' variance
/// contributions plus one unit of squared noise for every player.
pub open spec fn spec_scale(a: Seq<Rating>, b: Seq<Rating>, s: AppSettings) -> int {
    spec_isqrt(sum_sigma_sq(a) + sum_sigma_sq(b) + (a.len() + b.len()) * (s.beta * s.beta))
}

/// The predicted chance, in thousandths, that the team leading by `d`
/// milli-points of strength wins: one half at zero, strictly between 0 and
/// 1000 everywhere, monotone in `d`, and exactly complementary under
/// negation of `d`.
pub open spec fn spec_win_probability(d: int, c: int) -> int {
    if d >= 0 {
        500 + (500 * d) / (d + c)
    } else {
        500 - (500 * (-d)) / ((-d) + c)
    }
}

/// The predicted probability always lies strictly between sure loss and
/// sure win.
pub proof fn lemma_win_probability_range(d: int, c: int)
    requires
        1 <= c,
    ensures
        1 <= spec_win_probability(d, c) <= 999,
{
    if d >= 0 {
        lemma_div_pos_is_pos(500 * d, d + c);
        lemma_multiply_divide_lt(500 * d, d + c, 500);
    } else {
        lemma_div_pos_is_pos(500 * (-d), (-d) + c);
        lemma_multiply_divide_lt(500 * (-d), (-d) + c, 500);
    }
}

/// Negating the strength difference complements the predicted probability.
pub proof fn lemma_win_probability_flip(d: int, c: int)
    requires
        1 <= c,
    ensures
        spec_win_probability(-d, c) == 1000 - spec_win_probability(d, c),
{
    if d == 0 {
        lemma_div_of0(c);
    }
}

/// Clamps a shifted mean into the divergence bound.
pub open spec fn clamp_rating(x: int) -> int {
    if x > RATING_BOUND {
        RATING_BOUND as int
    } else if x < -RATING_BOUND {
        -RATING_BOUND as int
    } else {
        x
    }
}

/// One player's belief after the match.  `team_score` is this player's
/// team's observed score (1000 for a win, 0 for a loss) and `p_team` the
/// chance the model gave that team beforehand, both in thousandths.
pub open spec fn spec_updated_player(
    r: Rating,
    team_score: int,
    p_team: int,
    c: int,
    s: AppSettings,
) -> Rating {
    let sig2 = r.uncertainty * r.uncertainty;
    let smag = if team_score >= p_team {
        team_score - p_team
    } else {
        p_team - team_score
    };
    let mag = (sig2 * smag) / (c * 1000);
    let shifted = if team_score == 1000 {
        r.rating + mag
    } else {
        r.rating - mag
    };
    let shr = (((sig2 / c) * p_team) * (1000 - p_team)) / 1_000_000;
    let candidate = r.uncertainty - shr;
    let new_sigma = if candidate < s.uncertainty_floor {
        s.uncertainty_floor as int
    } else {
        candidate
    };
    Rating { rating: clamp_rating(shifted) as i64, uncertainty: new_sigma as i64 }
}

/// The per-player update keeps the belief valid, never grows the
/// uncertainty, and moves the mean with the outcome: up for the winning
/// team, down for the losing one.
pub proof fn lemma_updated_player(r: Rating, team_score: int, p_team: int, c: int, s: AppSettings)
    requires
        s.wf(),
        r.valid(s),
        1 <= c,
        1 <= p_team <= 999,
        team_score == 0 || team_score == 1000,
    ensures
        spec_updated_player(r, team_score, p_team, c, s).valid(s),
        spec_updated_player(r, team_score, p_team, c, s).uncertainty <= r.uncertainty,
        team_score == 1000 ==> spec_updated_player(r, team_score, p_team, c, s).rating
            >= r.rating,
        team_score == 0 ==> spec_updated_player(r, team_score, p_team, c, s).rating <= r.rating,
{
    assert(0 < r.uncertainty * r.uncertainty) by (nonlinear_arith)
        requires
            0 < r.uncertainty,
    ;
    let sig2 = r.uncertainty * r.uncertainty;
    let smag = if team_score >= p_team {
        team_score - p_team
    } else {
        p_team - team_score
    };
    assert(0 <= sig2 * smag) by (nonlinear_arith)
        requires
            0 <= sig2,
            0 <= smag,
    ;
    lemma_div_pos_is_pos(sig2 * smag, c * 1000);
    let w = sig2 / c;
    lemma_div_pos_is_pos(sig2, c);
    assert(0 <= (w * p_team) * (1000 - p_team)) by (nonlinear_arith)
        requires
            0 <= w,
            0 < p_team < 1000,
    ;
    lemma_div_pos_is_pos((w * p_team) * (1000 - p_team), 1_000_000);
}

/// A whole team after the match: each member updated independently.
pub open spec fn spec_update_team(
    t: Seq<Rating>,
    team_score: int,
    p_team: int,
    c: int,
    s: AppSettings,
) -> Seq<Rating> {
    t.map_values(|r: Rating| spec_updated_player(r, team_score, p_team, c, s))
}

/// Both teams after the match.  Team A's score is 1000 exactly when the
/// outcome favours it; team B always sees the complementary score and the
/// complementary predicted probability.
pub open spec fn spec_update_two_teams(
    a: Seq<Rating>,
    b: Seq<Rating>,
    o: Outcome,
    s: AppSettings,
) -> (Seq<Rating>, Seq<Rating>) {
    let c = spec_scale(a, b, s);
    let d = sum_rating(a) - sum_rating(b);
    let p = spec_win_probability(d, c);
    let score_a: int = if o == Outcome::TeamAWins {
        1000
    } else {
        0
    };
    (
        spec_update_team(a, score_a, p, c, s),
        spec_update_team(b, 1000 - score_a, 1000 - p, c, s),
    )
}

/// Sums a team's skill means.
fn sum_ratings(team: &Vec<Rating>, s: &AppSettings) -> (r: i64)
    requires
        team_valid(team@, *s),
        team@.len() <= MAX_MATCH_PLAYERS,
    ensures
        r == sum_rating(team@),
        -(team@.len() * RATING_BOUND) <= r <= team@.len() * RATING_BOUND,
{
    let mut sum: i64 = 0;
    let mut i: usize = 0;
    while i < team.len()
        invariant
            i <= team@.len() <= MAX_MATCH_PLAYERS,
            team_valid(team@, *s),
            sum == sum_rating(team@.subrange(0, i as int)),
            -(i as int * RATING_BOUND) <= sum <= i as int * RATING_BOUND,
        decreases team@.len() - i,
    {
        proof {
            assert(team@.subrange(0, i + 1).drop_last() =~= team@.subrange(0, i as int));
            assert(team@.subrange(0, i + 1).last() == team@[i as int]);
            assert(team@[i as int].valid(*s));
        }
        sum = sum + team[i].rating;
        i = i + 1;
    }
    proof {
        assert(team@.subrange(0, team@.len() as int) =~= team@);
    }
    sum
}

/// Sums a team's squared uncertainties.
fn sum_sigma_squares(team: &Vec<Rating>, s: &AppSettings) -> (r: i64)
    requires
        s.wf(),
        team_valid(team@, *s),
        team@.len() <= MAX_MATCH_PLAYERS,
    ensures
        r == sum_sigma_sq(team@),
        0 <= r <= team@.len() * MAX_UNCERTAINTY_SQ,
{
    let mut sum: i64 = 0;
    let mut i: usize = 0;
    while i < team.len()
        invariant
            i <= team@.len() <= MAX_MATCH_PLAYERS,
            s.wf(),
            team_valid(team@, *s),
            sum == sum_sigma_sq(team@.subrange(0, i as int)),
            0 <= sum <= (i as int) * MAX_UNCERTAINTY_SQ,
        decreases team@.len() - i,
    {
        proof {
            assert(team@.subrange(0, i + 1).drop_last() =~= team@.subrange(0, i as int));
            assert(team@.subrange(0, i + 1).last() == team@[i as int]);
            assert(team@[i as int].valid(*s));
        }
        let sg = team[i].uncertainty;
        proof {
            assert(0 < sg * sg <= 1_000_000_000_000) by (nonlinear_arith)
                requires
                    0 < sg <= 1_000_000,
            ;
        }
        sum = sum + sg * sg;
        i = i + 1;
    }
    proof {
        assert(team@.subrange(0, team@.len() as int) =~= team@);
    }
    sum
}

/// Computes the predicted chance, in thousandths, that the team leading by
/// `d` wins.
fn win_probability(d: i64, c: i64) -> (p: i64)
    requires
        1 <= c <= SCALE_BOUND,
        -DIFF_BOUND <= d <= DIFF_BOUND,
    ensures
        p == spec_win_probability(d as int, c as int),
        1 <= p <= 999,
{
    proof {
        lemma_win_probability_range(d as int, c as int);
    }
    if d >= 0 {
        let dm = d as u64;
        let num: u64 = 500 * dm;
        let den: u64 = dm + c as u64;
        let q: u64 = num / den;
        proof {
            lemma_div_nonincreasing(num as int, den as int);
        }
        500 + q as i64
    } else {
        let dm = (-d) as u64;
        let num: u64 = 500 * dm;
        let den: u64 = dm + c as u64;
        let q: u64 = num / den;
        proof {
            lemma_div_nonincreasing(num as int, den as int);
        }
        500 - q as i64
    }
}

/// Updates one player's belief after the match.
fn updated_player(r: Rating, team_score: i64, p_team: i64, c: i64, s: &AppSettings) -> (out: Rating)
    requires
        s.wf(),
        r.valid(*s),
        1 <= c <= SCALE_BOUND,
        1 <= p_team <= 999,
        team_score == 0 || team_score == 1000,
    ensures
        out == spec_updated_player(r, team_score as int, p_team as int, c as int, *s),
{
    let sigma = r.uncertainty;
    proof {
        assert(0 < sigma * sigma <= 1_000_000_000_000) by (nonlinear_arith)
            requires
                0 < sigma <= 1_000_000,
        ;
    }
    let sig2: u64 = (sigma as u64) * (sigma as u64);
    let smag: u64 = if team_score >= p_team {
        (team_score - p_team) as u64
    } else {
        (p_team - team_score) as u64
    };
    proof {
        assert(sig2 * smag <= 999_000_000_000_000u64) by (nonlinear_arith)
            requires
                sig2 <= 1_000_000_000_000u64,
                smag <= 999u64,
        ;
    }
    let num: u64 = sig2 * smag;
    let den: u64 = (c as u64) * 1000;
    let q: u64 = num / den;
    proof {
        lemma_div_nonincreasing(num as int, den as int);
        lemma_div_pos_is_pos(num as int, den as int);
    }
    let mag: i64 = q as i64;
    let shifted: i64 = if team_score == 1000 {
        r.rating + mag
    } else {
        r.rating - mag
    };
    let new_rating: i64 = if shifted > RATING_BOUND {
        RATING_BOUND
    } else if shifted < -RATING_BOUND {
        -RATING_BOUND
    } else {
        shifted
    };
    let w: u64 = sig2 / (c as u64);
    let pt: u64 = p_team as u64;
    let qt: u64 = (1000 - p_team) as u64;
    proof {
        lemma_div_nonincreasing(sig2 as int, c as int);
        lemma_div_pos_is_pos(sig2 as int, c as int);
        assert(w * pt <= 999_000_000_000_000u64) by (nonlinear_arith)
            requires
                w <= 1_000_000_000_000u64,
                pt <= 999u64,
        ;
        assert((w * pt) * qt <= 998_001_000_000_000_000u64) by (nonlinear_arith)
            requires
                w * pt <= 999_000_000_000_000u64,
                qt <= 999u64,
                0 <= w * pt,
        ;
    }
    let wp: u64 = w * pt;
    let wpq: u64 = wp * qt;
    let shr64: u64 = wpq / 1_000_000;
    proof {
        lemma_div_nonincreasing(wpq as int, 1_000_000);
        lemma_div_pos_is_pos(wpq as int, 1_000_000);
    }
    let shr: i64 = shr64 as i64;
    let candidate: i64 = sigma - shr;
    let new_sigma: i64 = if candidate < s.uncertainty_floor {
        s.uncertainty_floor
    } else {
        candidate
    };
    Rating { rating: new_rating, uncertainty: new_sigma }
}

/// Updates a whole team's beliefs after the match.
fn update_team(team: &Vec<Rating>, team_score: i64, p_team: i64, c: i64, s: &AppSettings) -> (out:
    Vec<Rating>)
    requires
        s.wf(),
        team_valid(team@, *s),
        1 <= c <= SCALE_BOUND,
        1 <= p_team <= 999,
        team_score == 0 || team_score == 1000,
    ensures
        out@ == spec_update_team(team@, team_score as int, p_team as int, c as int, *s),
        out@.len() == team@.len(),
{
    let mut out: Vec<Rating> = Vec::new();
    let mut i: usize = 0;
    while i < team.len()
        invariant
            i <= team@.len(),
            s.wf(),
            team_valid(team@, *s),
            1 <= c <= SCALE_BOUND,
            1 <= p_team <= 999,
            team_score == 0 || team_score == 1000,
            out@.len() == i,
            forall|k: int|
                0 <= k < i ==> out@[k] == spec_updated_player(
                    #[trigger] team@[k],
                    team_score as int,
                    p_team as int,
                    c as int,
                    *s,
                ),
        decreases team@.len() - i,
    {
        proof {
            assert(team@[i as int].valid(*s));
        }
        let updated = updated_player(team[i], team_score, p_team, c, s);
        out.push(updated);
        i = i + 1;
    }
    proof {
        assert(out@ =~= spec_update_team(team@, team_score as int, p_team as int, c as int, *s));
    }
    out
}

/// Updates both teams' beliefs from the match outcome: the pure core of the
/// rating engine.  The results are exactly `spec_update_two_teams` of the
/// inputs; in particular every winner's mean stays or rises, every loser's
/// mean stays or falls, and nobody's uncertainty grows or drops below the
/// configured floor.
pub fn update_two_teams(
    team_a: &Vec<Rating>,
    team_b: &Vec<Rating>,
    outcome: Outcome,
    config: &AppSettings,
) -> (r: (Vec<Rating>, Vec<Rating>))
    requires
        config.wf(),
        team_valid(team_a@, *config),
        team_valid(team_b@, *config),
        1 <= team_a@.len() + team_b@.len() <= MAX_MATCH_PLAYERS,
    ensures
        (r.0@, r.1@) == spec_update_two_teams(team_a@, team_b@, outcome, *config),
        r.0@.len() == team_a@.len(),
        r.1@.len() == team_b@.len(),
        team_valid(r.0@, *config),
        team_valid(r.1@, *config),
        forall|i: int|
            0 <= i < team_a@.len() ==> #[trigger] r.0@[i].uncertainty <= team_a@[i].uncertainty,
        forall|i: int|
            0 <= i < team_b@.len() ==> #[trigger] r.1@[i].uncertainty <= team_b@[i].uncertainty,
        outcome == Outcome::TeamAWins ==> forall|i: int|
            0 <= i < team_a@.len() ==> #[trigger] r.0@[i].rating >= team_a@[i].rating,
        outcome == Outcome::TeamAWins ==> forall|i: int|
            0 <= i < team_b@.len() ==> #[trigger] r.1@[i].rating <= team_b@[i].rating,
        outcome == Outcome::TeamBWins ==> forall|i: int|
            0 <= i < team_a@.len() ==> #[trigger] r.0@[i].rating <= team_a@[i].rating,
        outcome == Outcome::TeamBWins ==> forall|i: int|
            0 <= i < team_b@.len() ==> #[trigger] r.1@[i].rating >= team_b@[i].rating,
{
    let ssa = sum_sigma_squares(team_a, config);
    let ssb = sum_sigma_squares(team_b, config);
    let n: usize = team_a.len() + team_b.len();
    proof {
        assert(0 < config.beta * config.beta <= 1_000_000_000_000) by (nonlinear_arith)
            requires
                0 < config.beta <= 1_000_000,
        ;
    }
    let beta_sq: i64 = config.beta * config.beta;
    proof {
        assert(beta_sq <= (n as int) * beta_sq <= 65536 * 1_000_000_000_000) by (nonlinear_arith)
            requires
                1 <= n <= 65536,
                0 < beta_sq <= 1_000_000_000_000,
        ;
    }
    let noise: i64 = (n as i64) * beta_sq;
    let total: i64 = ssa + ssb + noise;
    let c64: u64 = isqrt(total as u64);
    proof {
        assert((c64 as int) * (c64 as int) <= total);
        assert(c64 < 400_000_000) by (nonlinear_arith)
            requires
                0 <= c64,
                (c64 as int) * (c64 as int) <= (total as int),
                (total as int) < 160_000_000_000_000_000,
        ;
        assert(1 <= c64) by (nonlinear_arith)
            requires
                0 <= c64,
                1 <= (total as int),
                (total as int) < ((c64 as int) + 1) * ((c64 as int) + 1),
        ;
    }
    let c: i64 = c64 as i64;
    let suma = sum_ratings(team_a, config);
    let sumb = sum_ratings(team_b, config);
    let d: i64 = suma - sumb;
    let p = win_probability(d, c);
    let score_a: i64 = if matches!(outcome, Outcome::TeamAWins) {
        1000
    } else {
        0
    };
    let new_a = update_team(team_a, score_a, p, c, config);
    let new_b = update_team(team_b, 1000 - score_a, 1000 - p, c, config);
    proof {
        lemma_win_probability_range(d as int, c as int);
        assert(1 <= 1000 - p <= 999);
        assert forall|i: int| 0 <= i < team_a@.len() implies (#[trigger] new_a@[i]).valid(*config)
            && new_a@[i].uncertainty <= team_a@[i].uncertainty && (score_a == 1000
            ==> new_a@[i].rating >= team_a@[i].rating) && (score_a == 0 ==> new_a@[i].rating
            <= team_a@[i].rating) by {
            assert(team_a@[i].valid(*config));
            lemma_updated_player(team_a@[i], score_a as int, p as int, c as int, *config);
        }
        assert forall|i: int| 0 <= i < team_b@.len() implies (#[trigger] new_b@[i]).valid(*config)
            && new_b@[i].uncertainty <= team_b@[i].uncertainty && (score_a == 0
            ==> new_b@[i].rating >= team_b@[i].rating) && (score_a == 1000 ==> new_b@[i].rating
            <= team_b@[i].rating) by {
            assert(team_b@[i].valid(*config));
            lemma_updated_player(
                team_b@[i],
                (1000 - score_a) as int,
                (1000 - p) as int,
                c as int,
                *config,
            );
        }
    }
    (new_a, new_b)
}

/// Swapping the two teams and the outcome swaps the results: the update
/// plays no favourites beyond the outcome itself.
pub proof fn lemma_update_symmetry(a: Seq<Rating>, b: Seq<Rating>, o: Outcome, s: AppSettings)
    requires
        s.wf(),
        team_valid(a, s),
        team_valid(b, s),
        1 <= a.len() + b.len(),
    ensures
        spec_update_two_teams(a, b, o, s).0 == spec_update_two_teams(b, a, o.spec_flip(), s).1,
        spec_update_two_teams(a, b, o, s).1 == spec_update_two_teams(b, a, o.spec_flip(), s).0,
{
    let tot = sum_sigma_sq(a) + sum_sigma_sq(b) + (a.len() + b.len()) * (s.beta * s.beta);
    lemma_sum_sigma_sq_bounds(a, s);
    lemma_sum_sigma_sq_bounds(b, s);
    assert(0 < s.beta * s.beta) by (nonlinear_arith)
        requires
            0 < s.beta,
    ;
    assert((a.len() + b.len()) * (s.beta * s.beta) >= s.beta * s.beta) by (nonlinear_arith)
        requires
            1 <= a.len() + b.len(),
            0 < s.beta * s.beta,
    ;
    assert(tot >= 1);
    lemma_isqrt_exists(tot);
    let c = spec_isqrt(tot);
    assert(1 <= c) by (nonlinear_arith)
        requires
            0 <= c,
            1 <= tot,
            tot < (c + 1) * (c + 1),
    ;
    assert(spec_scale(b, a, s) == c) by {
        assert(sum_sigma_sq(b) + sum_sigma_sq(a) + (b.len() + a.len()) * (s.beta * s.beta) == tot);
    }
    let d = sum_rating(a) - sum_rating(b);
    lemma_win_probability_flip(d, c);
    assert(sum_rating(b) - sum_rating(a) == -d);
}

} // verus!
