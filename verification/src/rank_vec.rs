//! Order-statistics index over ratings.
//!
//! `RankVec` keeps every stored rating in a vector sorted by strictly
//! descending preference (higher rating value first; ties keep arbitrary
//! relative order and are never lost). The rank of a value is the number of
//! stored values strictly greater than it, so rank queries work for values
//! that are not stored. All queries and updates run by binary search.

use vstd::prelude::*;
use crate::rating::Rating;

verus! {

/// Number of entries of `s` strictly greater than `v`.
pub open spec fn count_gt(s: Seq<i64>, v: i64) -> int
    decreases s.len(),
{
    if s.len() == 0 {
        0
    } else {
        count_gt(s.drop_last(), v) + if s.last() > v {
            1int
        } else {
            0int
        }
    }
}

/// Non-strictly descending order.
pub open spec fn sorted_desc(s: Seq<i64>) -> bool {
    forall|i: int, j: int| 0 <= i < j < s.len() ==> s[i] >= s[j]
}

pub proof fn lemma_count_gt_bounds(s: Seq<i64>, v: i64)
    ensures
        0 <= count_gt(s, v) <= s.len(),
    decreases s.len(),
{
    if s.len() > 0 {
        lemma_count_gt_bounds(s.drop_last(), v);
    }
}

/// On a descending sequence, a two-sided partition point is exactly the
/// count of strictly greater entries.
pub proof fn lemma_count_gt_from_partition(s: Seq<i64>, v: i64, i: int)
    requires
        0 <= i <= s.len(),
        forall|k: int| 0 <= k < i ==> s[k] > v,
        forall|k: int| i <= k < s.len() ==> s[k] <= v,
    ensures
        count_gt(s, v) == i,
    decreases s.len(),
{
    if s.len() == 0 {
    } else if i == s.len() {
        lemma_count_gt_from_partition(s.drop_last(), v, i - 1);
    } else {
        assert(s.last() <= v);
        lemma_count_gt_from_partition(s.drop_last(), v, i);
    }
}

/// On a descending sequence that contains `v`, the entry at the partition
/// point is `v` itself.
pub proof fn lemma_present_at_partition(s: Seq<i64>, v: i64)
    requires
        sorted_desc(s),
        exists|k: int| 0 <= k < s.len() && s[k] == v,
    ensures
        0 <= count_gt(s, v) < s.len(),
        s[count_gt(s, v)] == v,
{
    let k = choose|k: int| 0 <= k < s.len() && s[k] == v;
    let i = count_gt(s, v);
    lemma_count_gt_partition(s, v);
    lemma_count_gt_bounds(s, v);
    assert(k >= i);
    if i < s.len() {
        assert(s[i] >= s[k]);
    }
}

/// On a descending sequence, everything left of the count is strictly
/// greater and everything from the count on is less or equal.
pub proof fn lemma_count_gt_partition(s: Seq<i64>, v: i64)
    requires
        sorted_desc(s),
    ensures
        forall|k: int| 0 <= k < count_gt(s, v) ==> s[k] > v,
        forall|k: int| count_gt(s, v) <= k < s.len() ==> s[k] <= v,
    decreases s.len(),
{
    lemma_count_gt_bounds(s, v);
    if s.len() > 0 {
        let t = s.drop_last();
        assert(forall|k: int| 0 <= k < t.len() ==> t[k] == s[k]);
        assert(sorted_desc(t));
        lemma_count_gt_partition(t, v);
        lemma_count_gt_bounds(t, v);
        let i = count_gt(s, v);
        if s.last() > v {
            // every entry before the last is at least the last, hence > v
            assert(count_gt(t, v) == t.len()) by {
                if count_gt(t, v) < t.len() {
                    assert(t[count_gt(t, v)] == s[count_gt(t, v)]);
                    assert(s[count_gt(t, v)] >= s[s.len() - 1]);
                }
            }
            assert(i == s.len());
            assert forall|k: int| 0 <= k < i implies s[k] > v by {
                if k < s.len() - 1 {
                    assert(t[k] > v);
                }
            }
        } else {
            assert(i == count_gt(t, v));
            assert forall|k: int| 0 <= k < i implies s[k] > v by {
                assert(t[k] > v);
            }
            assert forall|k: int| i <= k < s.len() implies s[k] <= v by {
                if k < s.len() - 1 {
                    assert(t[k] <= v);
                }
            }
        }
    }
}

/// An order-statistics multiset of ratings, held sorted by descending value.
#[derive(Debug)]
pub struct RankVec {
    ratings: Vec<Rating>,
}

impl RankVec {
    /// The stored rating values, best first.
    pub closed spec fn view(self) -> Seq<i64> {
        self.ratings@.map_values(|r: Rating| r.value)
    }

    /// The index is well formed when its values descend.
    pub closed spec fn wf(self) -> bool {
        sorted_desc(self@)
    }

    pub proof fn lemma_wf(self)
        requires
            self.wf(),
        ensures
            sorted_desc(self@),
    {
    }

    pub open spec fn contains_value(self, v: i64) -> bool {
        exists|k: int| 0 <= k < self@.len() && self@[k] == v
    }

    /// Builds the index from an unordered collection of ratings.
    pub fn new(ratings: Vec<Rating>) -> (r: RankVec)
        ensures
            r.wf(),
            r@ == sort_desc_values(ratings@.map_values(|x: Rating| x.value)),
    {
        let ghost vals = ratings@.map_values(|x: Rating| x.value);
        let mut r = RankVec { ratings: Vec::new() };
        assert(r@ =~= Seq::<i64>::empty());
        assert(r@ == sort_desc_values(vals.subrange(0, 0))) by {
            assert(vals.subrange(0, 0) =~= Seq::<i64>::empty());
        }
        let n = ratings.len();
        for i in 0..n
            invariant
                n == ratings.len(),
                vals == ratings@.map_values(|x: Rating| x.value),
                r.wf(),
                r@ == sort_desc_values(vals.subrange(0, i as int)),
        {
            let ghost prev = vals.subrange(0, i as int);
            r.insert_and_get_rank(ratings[i]);
            assert(vals.subrange(0, i + 1).drop_last() =~= prev);
            assert(vals.subrange(0, i + 1).last() == vals[i as int]);
        }
        assert(vals.subrange(0, n as int) =~= vals);
        r
    }

    pub fn len(&self) -> (n: usize)
        ensures
            n == self@.len(),
    {
        self.ratings.len()
    }

    /// Whether a rating with exactly this value is stored.
    pub fn contains(&self, rating: Rating) -> (b: bool)
        requires
            self.wf(),
        ensures
            b == self.contains_value(rating.value),
    {
        let i = self.get_rank(rating);
        proof {
            lemma_count_gt_bounds(self@, rating.value);
            if self.contains_value(rating.value) {
                lemma_present_at_partition(self@, rating.value);
            }
        }
        let b = i < self.ratings.len() && self.ratings[i].value == rating.value;
        proof {
            if b {
                assert(self@[i as int] == self.ratings@[i as int].value);
            }
        }
        b
    }

    /// The 1-based rank of a value among the stored ratings: one more than
    /// the number of stored values strictly better, so the best rates 1.
    /// The value itself need not be stored.
    pub fn rank_of(&self, rating: Rating) -> (rank: usize)
        requires
            self.wf(),
            self@.len() < usize::MAX,
        ensures
            rank == 1 + count_gt(self@, rating.value),
    {
        proof {
            lemma_count_gt_bounds(self@, rating.value);
        }
        let count = self.get_rank(rating);
        count + 1
    }

    /// The number of stored values strictly greater than a value: the
    /// 0-based position the value would be stored at. The value itself need
    /// not be stored.
    pub fn get_rank(&self, rating: Rating) -> (rank: usize)
        requires
            self.wf(),
        ensures
            rank == count_gt(self@, rating.value),
    {
        let v = rating.value;
        let mut lo: usize = 0;
        let mut hi: usize = self.ratings.len();
        while lo < hi
            invariant
                self.wf(),
                v == rating.value,
                lo <= hi <= self@.len(),
                self@.len() == self.ratings.len(),
                forall|k: int| 0 <= k < lo ==> self@[k] > v,
                forall|k: int| hi <= k < self@.len() ==> self@[k] <= v,
            decreases hi - lo,
        {
            let mid = lo + (hi - lo) / 2;
            if self.ratings[mid].value > v {
                proof {
                    self.lemma_wf();
                    assert(forall|k: int| 0 <= k <= mid ==> self@[k] >= self@[mid as int]);
                }
                lo = mid + 1;
            } else {
                proof {
                    self.lemma_wf();
                    assert(forall|k: int| mid <= k < self@.len() ==> self@[mid as int] >= self@[k]);
                }
                hi = mid;
            }
        }
        proof {
            lemma_count_gt_from_partition(self@, v, lo as int);
        }
        lo
    }

    /// Inserts a rating at its rank and returns that rank.
    pub fn insert_and_get_rank(&mut self, rating: Rating) -> (rank: usize)
        requires
            old(self).wf(),
        ensures
            rank == count_gt(old(self)@, rating.value),
            final(self)@ == old(self)@.insert(rank as int, rating.value),
            final(self).wf(),
            final(self)@.len() == old(self)@.len() + 1,
    {
        let rank = self.get_rank(rating);
        proof {
            lemma_count_gt_bounds(self@, rating.value);
            lemma_count_gt_partition(self@, rating.value);
            self@.insert_ensures(rank as int, rating.value);
        }
        self.ratings.insert(rank, rating);
        proof {
            assert(self.ratings@.map_values(|r: Rating| r.value)
                =~= old(self).ratings@.map_values(|r: Rating| r.value).insert(
                rank as int,
                rating.value,
            ));
            let s = old(self)@;
            let t = self@;
            let v = rating.value;
            assert(forall|k: int| 0 <= k < rank ==> t[k] == s[k]);
            assert(t[rank as int] == v);
            assert(forall|k: int| rank < k < t.len() ==> t[k] == s[k - 1]);
            assert forall|i: int, j: int| 0 <= i < j < t.len() implies t[i] >= t[j] by {
                lemma_count_gt_partition(s, v);
            }
        }
        rank
    }

    /// Removes one stored rating with exactly this value (the caller must
    /// know one is stored; removing an absent value would corrupt the
    /// index) and returns the rank it had.
    pub fn get_rank_and_remove(&mut self, rating: Rating) -> (rank: usize)
        requires
            old(self).wf(),
            old(self).contains_value(rating.value),
        ensures
            rank == count_gt(old(self)@, rating.value),
            old(self)@[rank as int] == rating.value,
            final(self)@ == old(self)@.remove(rank as int),
            final(self).wf(),
            final(self)@.len() == old(self)@.len() - 1,
    {
        let rank = self.get_rank(rating);
        proof {
            lemma_present_at_partition(self@, rating.value);
        }
        self.ratings.remove(rank);
        proof {
            assert(self.ratings@.map_values(|r: Rating| r.value)
                =~= old(self).ratings@.map_values(|r: Rating| r.value).remove(rank as int));
            assert(final(self).wf()) by {
                let s = old(self)@;
                let t = final(self)@;
                assert(forall|i: int, j: int| 0 <= i < j < t.len() ==> t[i] >= t[j]) by {
                    assert(forall|i: int| 0 <= i < rank ==> t[i] == s[i]);
                    assert(forall|i: int| rank <= i < t.len() ==> t[i] == s[i + 1]);
                }
            }
        }
        rank
    }
}

/// The sorted arrangement of a value collection, defined by repeated
/// insertion at the rank position.
pub open spec fn sort_desc_values(s: Seq<i64>) -> Seq<i64>
    decreases s.len(),
{
    if s.len() == 0 {
        Seq::empty()
    } else {
        let prev = sort_desc_values(s.drop_last());
        prev.insert(count_gt(prev, s.last()), s.last())
    }
}

} // verus!
