//! The notification dispatcher's decision: which status graphic, if any,
//! one delta event earns. Rendering and delivery are external collaborators;
//! this module only decides, and its result is plain values.

use vstd::prelude::*;
use crate::reconcile::DeltaEvent;

verus! {

/// The graphic a delta event is rendered as. Powers are rating values in
/// micro-units; ranks are 1-based.
#[derive(Clone, Copy, PartialEq, Eq, Structural, Debug)]
pub enum PowerStatusPlan {
    /// A brand-new entrant mid-calculation: progress through the swiss
    /// rounds.
    Calculating { progress: u32, total: u32 },
    /// A brand-new entrant whose calculation just finished: their first
    /// power and estimated rank.
    Calculated { calculation_rounds: u32, power: i64, rank: u32 },
    /// An established entrant after a played set: power and rank movement.
    SetPlayed { old_power: i64, new_power: i64, old_rank: u32, new_rank: u32 },
}

/// The plan an event earns:
/// - nothing without a notification channel for the team;
/// - a new entrant (absent from the baseline) in a swiss round sees the
///   calculation progress, or the final calculated power once the last
///   round is reached;
/// - an established entrant sees the played set — but only for a real
///   opponent, never for a bye;
/// - anything else (a bye for an established entrant) sends nothing.
pub open spec fn spec_plan(
    e: DeltaEvent,
    in_baseline: bool,
    swiss_round_count: u32,
    has_channel: bool,
) -> Option<PowerStatusPlan> {
    if !has_channel {
        None
    } else if e.calc_round is Some && !in_baseline {
        let c = e.calc_round.unwrap();
        if c < swiss_round_count {
            Some(PowerStatusPlan::Calculating { progress: c, total: swiss_round_count })
        } else {
            Some(
                PowerStatusPlan::Calculated {
                    calculation_rounds: swiss_round_count,
                    power: e.new_rating.value,
                    rank: e.new_rank as u32,
                },
            )
        }
    } else if e.opponent_team is Some {
        Some(
            PowerStatusPlan::SetPlayed {
                old_power: e.old_rating.value,
                new_power: e.new_rating.value,
                old_rank: e.old_rank.unwrap() as u32,
                new_rank: e.new_rank as u32,
            },
        )
    } else {
        None
    }
}

/// Decides the status graphic for one delta event. `in_baseline` says
/// whether the entity already had a baseline entry before this tournament;
/// `has_channel` whether a notification channel exists for the team.
pub fn plan_notification(
    e: &DeltaEvent,
    in_baseline: bool,
    swiss_round_count: u32,
    has_channel: bool,
) -> (r: Option<PowerStatusPlan>)
    requires
        !(e.calc_round is Some && !in_baseline) && e.opponent_team is Some && has_channel
            ==> e.old_rank is Some,
        e.new_rank <= u32::MAX,
        e.old_rank matches Some(k) ==> k <= u32::MAX,
    ensures
        r == spec_plan(*e, in_baseline, swiss_round_count, has_channel),
{
    if !has_channel {
        return None;
    }
    match e.calc_round {
        Some(c) if !in_baseline => {
            if c < swiss_round_count {
                Some(PowerStatusPlan::Calculating { progress: c, total: swiss_round_count })
            } else {
                Some(
                    PowerStatusPlan::Calculated {
                        calculation_rounds: swiss_round_count,
                        power: e.new_rating.value,
                        rank: e.new_rank as u32,
                    },
                )
            }
        },
        _ => {
            if e.opponent_team.is_some() {
                let old_rank = match e.old_rank {
                    Some(k) => k,
                    None => {
                        proof {
                            assert(false);
                        }
                        0
                    },
                };
                Some(
                    PowerStatusPlan::SetPlayed {
                        old_power: e.old_rating.value,
                        new_power: e.new_rating.value,
                        old_rank: old_rank as u32,
                        new_rank: e.new_rank as u32,
                    },
                )
            } else {
                None
            }
        },
    }
}

} // verus!
