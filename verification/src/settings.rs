//! Deployment-fixed configuration.
//!
//! The rating model's constants are configuration, not computed values: they
//! must stay the same across the whole stored match history, because changing
//! them invalidates the comparability of every previously computed rating.
//! All rating quantities are fixed-point integers counted in thousandths of a
//! rating point (milli-points), so `1_000_000` below reads as a rating of
//! 1000.0.

use vstd::prelude::*;

verus! {

/// Default skill mean of a fresh player: 1000.0 points.
pub const DEFAULT_RATING: i64 = 1_000_000;

/// Default skill uncertainty of a fresh player: 333.333 points, one third of
/// the default mean.
pub const DEFAULT_UNCERTAINTY: i64 = 333_333;

/// Per-game performance noise: 166.667 points, one sixth of the default mean.
pub const DEFAULT_BETA: i64 = 166_667;

/// Lower bound on any player's uncertainty: 10.0 points.  The floor keeps the
/// model responsive to new evidence forever.
pub const DEFAULT_UNCERTAINTY_FLOOR: i64 = 10_000;

/// Hard bound on the magnitude of any skill mean: ten million points.  A
/// single match moves a mean by at most its player's uncertainty, so this
/// bound is unreachable in practice; it exists so that the model provably
/// never diverges.
pub const RATING_BOUND: i64 = 10_000_000_000;

/// Largest uncertainty any well-formed configuration may hand out: 1000.0
/// points.  Together with `MAX_MATCH_PLAYERS` it keeps every intermediate
/// quantity of the update far from overflow.
pub const MAX_UNCERTAINTY: i64 = 1_000_000;

/// The square of `MAX_UNCERTAINTY`, spelled out so that contracts can use it
/// as a plain number.
pub const MAX_UNCERTAINTY_SQ: i64 = 1_000_000_000_000;

/// Largest performance noise a well-formed configuration may choose.
pub const MAX_BETA: i64 = 1_000_000;

/// Largest number of players a single match may carry, both teams together.
pub const MAX_MATCH_PLAYERS: usize = 65536;

/// The configuration handed explicitly to the rating engine and the match
/// processor.  There is no process-wide singleton: callers pass a value.
#[derive(Debug, Clone, Copy)]
pub struct AppSettings {
    /// Skill mean given to a player on first contact, in milli-points.
    pub initial_rating: i64,
    /// Skill uncertainty given to a player on first contact, in milli-points.
    pub initial_uncertainty: i64,
    /// Performance noise of a single game, in milli-points.
    pub beta: i64,
    /// Lower bound every uncertainty is clamped to, in milli-points.
    pub uncertainty_floor: i64,
}

impl AppSettings {
    /// A configuration the engine can run on: every constant positive, the
    /// floor below the initial uncertainty, and everything small enough that
    /// the fixed-point update provably cannot overflow.
    pub open spec fn wf(self) -> bool {
        &&& 0 < self.uncertainty_floor <= self.initial_uncertainty <= MAX_UNCERTAINTY
        &&& 0 < self.beta <= MAX_BETA
        &&& 0 <= self.initial_rating <= RATING_BOUND
    }

    /// The deployment's configuration.
    pub fn get() -> (r: AppSettings)
        ensures
            r == spec_settings(),
            r.wf(),
    {
        settings()
    }
}

/// The configuration value every component of this deployment runs with.
pub open spec fn spec_settings() -> AppSettings {
    AppSettings {
        initial_rating: DEFAULT_RATING,
        initial_uncertainty: DEFAULT_UNCERTAINTY,
        beta: DEFAULT_BETA,
        uncertainty_floor: DEFAULT_UNCERTAINTY_FLOOR,
    }
}

/// The deployment's configuration, as a plain value.
pub fn settings() -> (r: AppSettings)
    ensures
        r == spec_settings(),
        r.wf(),
{
    AppSettings {
        initial_rating: DEFAULT_RATING,
        initial_uncertainty: DEFAULT_UNCERTAINTY,
        beta: DEFAULT_BETA,
        uncertainty_floor: DEFAULT_UNCERTAINTY_FLOOR,
    }
}

} // verus!
