//! Match outcomes as the status graphic shows them, and the score of a set.

use vstd::prelude::*;

verus! {

/// One game of a set, as shown in the graphic.
#[derive(Clone, Copy, PartialEq, Eq, Structural, Debug)]
pub enum MatchOutcome {
    Unplayed,
    Win,
    Lose,
}

impl Default for MatchOutcome {
    /// A slot not yet played.
    fn default() -> (r: Self)
        ensures
            r == MatchOutcome::Unplayed,
    {
        MatchOutcome::Unplayed
    }
}

/// Number of entries of `s` equal to `o`.
pub open spec fn count_outcome(s: Seq<MatchOutcome>, o: MatchOutcome) -> int
    decreases s.len(),
{
    if s.len() == 0 {
        0
    } else {
        count_outcome(s.drop_last(), o) + if s.last() == o {
            1int
        } else {
            0int
        }
    }
}

pub proof fn lemma_count_outcome_bounds(s: Seq<MatchOutcome>, o: MatchOutcome)
    ensures
        0 <= count_outcome(s, o) <= s.len(),
    decreases s.len(),
{
    if s.len() > 0 {
        lemma_count_outcome_bounds(s.drop_last(), o);
    }
}

/// Anything that can report a set's score.
pub trait SetScore {
    /// The wins and losses of the set.
    fn set_score(&self) -> (usize, usize);
}

impl SetScore for Vec<MatchOutcome> {
    /// Counts the wins and losses of a set; unplayed slots count for
    /// neither.
    fn set_score(&self) -> (r: (usize, usize))
        ensures
            r.0 == count_outcome(self@, MatchOutcome::Win),
            r.1 == count_outcome(self@, MatchOutcome::Lose),
    {
        let mut wins: usize = 0;
        let mut losses: usize = 0;
        let n = self.len();
        for i in 0..n
            invariant
                n == self@.len(),
                wins == count_outcome(self@.subrange(0, i as int), MatchOutcome::Win),
                losses == count_outcome(self@.subrange(0, i as int), MatchOutcome::Lose),
                wins <= i && losses <= i,
        {
            proof {
                assert(self@.subrange(0, i + 1).drop_last() =~= self@.subrange(0, i as int));
                assert(self@.subrange(0, i + 1).last() == self@[i as int]);
            }
            match self[i] {
                MatchOutcome::Win => {
                    wins = wins + 1;
                },
                MatchOutcome::Lose => {
                    losses = losses + 1;
                },
                MatchOutcome::Unplayed => {
                },
            }
        }
        proof {
            assert(self@.subrange(0, n as int) =~= self@);
        }
        (wins, losses)
    }
}

} // verus!
