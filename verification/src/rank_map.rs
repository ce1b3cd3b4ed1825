//! The side map updated alongside the rank index: for each entity, the rank
//! last reported for them and the rating currently stored for them in the
//! rank index. The tracked rating is what a later withdrawal must remove —
//! after a match is reopened and recompleted, the working table has the
//! baseline rating again while the index still holds the rating of the
//! first processing.

use vstd::prelude::*;
use crate::db::{PlayerId, PlayerKey};
use crate::rating::Rating;

verus! {

/// First position of a player key among rank entries, or the length when
/// absent.
pub open spec fn index_of_rank_key(s: Seq<(PlayerId, usize, Rating)>, k: PlayerKey) -> int
    decreases s.len(),
{
    if s.len() == 0 {
        0
    } else if s[0].0.key() == k {
        0
    } else {
        1 + index_of_rank_key(s.subrange(1, s.len() as int), k)
    }
}

pub open spec fn rank_seq_contains(s: Seq<(PlayerId, usize, Rating)>, k: PlayerKey) -> bool {
    exists|i: int| 0 <= i < s.len() && s[i].0.key() == k
}

pub open spec fn unique_rank_keys(s: Seq<(PlayerId, usize, Rating)>) -> bool {
    forall|i: int, j: int| 0 <= i < j < s.len() ==> s[i].0.key() != s[j].0.key()
}

/// The rank stored for a key, if any.
pub open spec fn rank_of_key(s: Seq<(PlayerId, usize, Rating)>, k: PlayerKey) -> Option<usize> {
    if rank_seq_contains(s, k) {
        Some(s[index_of_rank_key(s, k)].1)
    } else {
        None
    }
}

/// The rating currently held in the rank index for a key, if any.
pub open spec fn indexed_rating_of_key(s: Seq<(PlayerId, usize, Rating)>, k: PlayerKey) -> Option<
    Rating,
> {
    if rank_seq_contains(s, k) {
        Some(s[index_of_rank_key(s, k)].2)
    } else {
        None
    }
}

pub proof fn lemma_index_of_rank_key_bounds(s: Seq<(PlayerId, usize, Rating)>, k: PlayerKey)
    ensures
        0 <= index_of_rank_key(s, k) <= s.len(),
        index_of_rank_key(s, k) < s.len() ==> s[index_of_rank_key(s, k)].0.key() == k
            && rank_seq_contains(s, k),
    decreases s.len(),
{
    if s.len() > 0 && s[0].0.key() != k {
        lemma_index_of_rank_key_bounds(s.subrange(1, s.len() as int), k);
    }
}

pub proof fn lemma_index_of_rank_key_first(s: Seq<(PlayerId, usize, Rating)>, k: PlayerKey, i: int)
    requires
        0 <= i <= s.len(),
        forall|j: int| 0 <= j < i ==> s[j].0.key() != k,
        i < s.len() ==> s[i].0.key() == k,
    ensures
        index_of_rank_key(s, k) == if i < s.len() {
            i
        } else {
            s.len() as int
        },
    decreases s.len(),
{
    if s.len() > 0 {
        if i == 0 {
        } else {
            let t = s.subrange(1, s.len() as int);
            assert(forall|j: int| 0 <= j < i - 1 ==> t[j].0.key() != k);
            lemma_index_of_rank_key_first(t, k, i - 1);
        }
    }
}

pub proof fn lemma_rank_key_absent(s: Seq<(PlayerId, usize, Rating)>, k: PlayerKey)
    requires
        !rank_seq_contains(s, k),
    ensures
        index_of_rank_key(s, k) == s.len(),
{
    lemma_index_of_rank_key_first(s, k, s.len() as int);
}

/// Map from player identity to their last reported rank and the rating the
/// rank index currently stores for them.
#[derive(Debug)]
pub struct RankMap {
    entries: Vec<(PlayerId, usize, Rating)>,
}

impl RankMap {
    pub closed spec fn view(self) -> Seq<(PlayerId, usize, Rating)> {
        self.entries@
    }

    pub open spec fn wf(self) -> bool {
        unique_rank_keys(self@)
    }

    pub open spec fn spec_get(self, k: PlayerKey) -> Option<usize> {
        rank_of_key(self@, k)
    }

    pub open spec fn spec_indexed_rating(self, k: PlayerKey) -> Option<Rating> {
        indexed_rating_of_key(self@, k)
    }

    pub fn new() -> (r: Self)
        ensures
            r@ == Seq::<(PlayerId, usize, Rating)>::empty(),
            r.wf(),
    {
        let r = RankMap { entries: Vec::new() };
        proof {
            assert(r@ =~= Seq::<(PlayerId, usize, Rating)>::empty());
        }
        r
    }

    fn find(&self, id: &PlayerId) -> (r: Option<usize>)
        ensures
            match r {
                Some(i) => i == index_of_rank_key(self@, id.key()) && i < self@.len()
                    && self@[i as int].0.key() == id.key(),
                None => !rank_seq_contains(self@, id.key()),
            },
    {
        let n = self.entries.len();
        for i in 0..n
            invariant
                n == self@.len(),
                forall|j: int| 0 <= j < i ==> self@[j].0.key() != id.key(),
        {
            if &self.entries[i].0 == id {
                proof {
                    lemma_index_of_rank_key_first(self@, id.key(), i as int);
                }
                return Some(i);
            }
        }
        None
    }

    /// The rank last recorded for a player.
    pub fn get(&self, id: &PlayerId) -> (r: Option<usize>)
        ensures
            r == self.spec_get(id.key()),
    {
        match self.find(id) {
            Some(i) => Some(self.entries[i].1),
            None => None,
        }
    }

    /// The rating the rank index currently stores for a player.
    pub fn indexed_rating(&self, id: &PlayerId) -> (r: Option<Rating>)
        ensures
            r == self.spec_indexed_rating(id.key()),
    {
        match self.find(id) {
            Some(i) => Some(self.entries[i].2),
            None => None,
        }
    }

    /// Records a player's new rank and newly indexed rating, and hands back
    /// the rank the record replaces, if any.
    pub fn insert(&mut self, id: PlayerId, rank: usize, indexed: Rating) -> (prev: Option<usize>)
        requires
            old(self).wf(),
        ensures
            final(self).wf(),
            prev == old(self).spec_get(id.key()),
            rank_seq_contains(old(self)@, id.key()) ==> final(self)@ == old(self)@.update(
                index_of_rank_key(old(self)@, id.key()),
                (id, rank, indexed),
            ),
            !rank_seq_contains(old(self)@, id.key()) ==> final(self)@ == old(self)@.push(
                (id, rank, indexed),
            ),
    {
        match self.find(&id) {
            Some(i) => {
                let prev = self.entries[i].1;
                vstd::pervasive::VecAdditionalExecFns::set(
                    &mut self.entries,
                    i,
                    (id, rank, indexed),
                );
                proof {
                    let s = old(self)@;
                    let t = final(self)@;
                    assert(forall|a: int| 0 <= a < t.len() && a != i ==> t[a].0.key() == s[a].0.key());
                    assert(t[i as int].0.key() == s[i as int].0.key());
                    assert(final(self).wf());
                }
                Some(prev)
            },
            None => {
                proof {
                    lemma_rank_key_absent(self@, id.key());
                }
                self.entries.push((id, rank, indexed));
                proof {
                    let s = old(self)@;
                    let t = final(self)@;
                    assert(forall|a: int| 0 <= a < s.len() ==> t[a] == s[a]);
                    assert(final(self).wf());
                }
                None
            },
        }
    }
}

} // verus!
