//! Fixed-point model of a Glicko-2 rating.
//!
//! The external rating library works on binary floating point, which the
//! verified core does not hold. Every rating is carried here in micro-units:
//! one unit of `value` is one millionth of a rating point. The reconciler
//! only ever compares and copies ratings; the pairwise update itself is an
//! external collaborator and is handed in as plain values.

use vstd::prelude::*;

verus! {

/// One micro-unit scaled rating point.
pub const RATING_SCALE: i64 = 1_000_000;

/// Default rating value (1500 points) in micro-units.
pub const DEFAULT_RATING_VALUE: i64 = 1_500_000_000;

/// Default rating deviation (350 points) in micro-units.
pub const DEFAULT_RATING_DEVIATION: i64 = 350_000_000;

/// Default rating volatility (0.06) in micro-units.
pub const DEFAULT_RATING_VOLATILITY: i64 = 60_000;

/// A Glicko-2 rating in micro-units: `value` is the rating points times one
/// million, `deviation` and `volatility` likewise. Ordering and ranking read
/// `value` alone.
#[derive(Clone, Copy, PartialEq, Eq, Structural, Hash, Debug)]
pub struct Rating {
    pub value: i64,
    pub deviation: i64,
    pub volatility: i64,
}

impl Rating {
    /// The rating every unseen entrant starts from.
    pub fn new() -> (r: Rating)
        ensures
            r == Rating::default_rating(),
    {
        Rating {
            value: DEFAULT_RATING_VALUE,
            deviation: DEFAULT_RATING_DEVIATION,
            volatility: DEFAULT_RATING_VOLATILITY,
        }
    }

    pub open spec fn default_rating() -> Rating {
        Rating {
            value: DEFAULT_RATING_VALUE,
            deviation: DEFAULT_RATING_DEVIATION,
            volatility: DEFAULT_RATING_VOLATILITY,
        }
    }
}

} // verus!
