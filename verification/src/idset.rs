//! A set of match identifiers: the processed-match set and the
//! excluded-match set of the reconciler.

use vstd::prelude::*;
use crate::schema::SendouId;

verus! {

/// A set of match ids, stored without duplicates.
#[derive(Debug)]
pub struct IdSet {
    ids: Vec<SendouId>,
}

impl IdSet {
    /// The ids as a mathematical set.
    pub closed spec fn view(self) -> Set<SendouId> {
        self.ids@.to_set()
    }

    /// No id is stored twice.
    pub closed spec fn wf(self) -> bool {
        forall|i: int, j: int| 0 <= i < j < self.ids@.len() ==> self.ids@[i] != self.ids@[j]
    }

    pub fn new() -> (r: IdSet)
        ensures
            r@ == Set::<SendouId>::empty(),
            r.wf(),
    {
        let r = IdSet { ids: Vec::new() };
        proof {
            assert(r@ =~= Set::<SendouId>::empty());
        }
        r
    }

    fn position(&self, id: SendouId) -> (r: Option<usize>)
        ensures
            match r {
                Some(i) => i < self.ids@.len() && self.ids@[i as int] == id,
                None => !self@.contains(id),
            },
    {
        let n = self.ids.len();
        for i in 0..n
            invariant
                n == self.ids@.len(),
                forall|j: int| 0 <= j < i ==> self.ids@[j] != id,
        {
            if self.ids[i] == id {
                return Some(i);
            }
        }
        proof {
            assert(!self.ids@.contains(id));
        }
        None
    }

    pub fn contains(&self, id: SendouId) -> (r: bool)
        ensures
            r == self@.contains(id),
    {
        match self.position(id) {
            Some(_) => {
                proof {
                    assert(self.ids@.contains(id));
                }
                true
            },
            None => false,
        }
    }

    /// Adds an id; reports whether it was new.
    pub fn insert(&mut self, id: SendouId) -> (is_new: bool)
        requires
            old(self).wf(),
        ensures
            final(self).wf(),
            final(self)@ == old(self)@.insert(id),
            is_new == !old(self)@.contains(id),
    {
        if self.contains(id) {
            proof {
                assert(final(self)@ =~= old(self)@.insert(id));
            }
            false
        } else {
            self.ids.push(id);
            proof {
                assert(forall|j: int|
                    0 <= j < old(self).ids@.len() ==> final(self).ids@[j] == old(self).ids@[j]);
                assert(!old(self).ids@.contains(id));
                assert(final(self).wf());
                assert(final(self)@ =~= old(self)@.insert(id)) by {
                    assert(forall|x: SendouId| old(self).ids@.contains(x)
                        ==> final(self).ids@.contains(x)) by {
                        assert(forall|j: int|
                            0 <= j < old(self).ids@.len() ==> final(self).ids@[j] == old(
                                self,
                            ).ids@[j]);
                    }
                    assert(final(self).ids@.contains(id)) by {
                        assert(final(self).ids@.last() == id);
                    }
                    assert forall|x: SendouId| final(self).ids@.contains(x) implies old(
                        self,
                    )@.insert(id).contains(x) by {
                        let j = choose|j: int|
                            0 <= j < final(self).ids@.len() && final(self).ids@[j] == x;
                        if j < old(self).ids@.len() {
                            assert(old(self).ids@[j] == x);
                        }
                    }
                }
            }
            true
        }
    }

    /// Removes an id; reports whether it was present.
    pub fn remove(&mut self, id: SendouId) -> (was_present: bool)
        requires
            old(self).wf(),
        ensures
            final(self).wf(),
            final(self)@ == old(self)@.remove(id),
            was_present == old(self)@.contains(id),
    {
        match self.position(id) {
            Some(i) => {
                proof {
                    assert(old(self).ids@.contains(id));
                }
                self.ids.remove(i);
                proof {
                    let s = old(self).ids@;
                    let t = final(self).ids@;
                    assert(forall|a: int| 0 <= a < i ==> t[a] == s[a]);
                    assert(forall|a: int| i <= a < t.len() ==> t[a] == s[a + 1]);
                    assert(final(self).wf());
                    assert(final(self)@ =~= old(self)@.remove(id)) by {
                        assert forall|x: SendouId| t.contains(x) implies s.contains(x) && x != id by {
                            let a = choose|a: int| 0 <= a < t.len() && t[a] == x;
                            if a < i {
                                assert(s[a] == x);
                            } else {
                                assert(s[a + 1] == x);
                            }
                        }
                        assert forall|x: SendouId| s.contains(x) && x != id implies t.contains(
                            x,
                        ) by {
                            let a = choose|a: int| 0 <= a < s.len() && s[a] == x;
                            if a < i {
                                assert(t[a] == x);
                            } else {
                                assert(a != i);
                                assert(t[a - 1] == x);
                            }
                        }
                    }
                }
                true
            },
            None => {
                proof {
                    assert(final(self)@ =~= old(self)@.remove(id));
                }
                false
            },
        }
    }

    pub fn len(&self) -> (n: usize)
        requires
            self.wf(),
        ensures
            n == self@.len(),
    {
        proof {
            self.lemma_len();
        }
        self.ids.len()
    }

    proof fn lemma_len(self)
        requires
            self.wf(),
        ensures
            self@.len() == self.ids@.len(),
    {
        assert(self.ids@.no_duplicates());
        self.ids@.unique_seq_to_set();
    }
}

} // verus!
