//! The listener registry: a refcounted record of which event identities
//! are live in the rendered tree. An identity is registered once per
//! binding occurrence; the host may detach the underlying platform handler
//! only when the last occurrence has been released.
//!
//! The registry's model is the multiset of live identities: the refcount
//! of an identity is its multiplicity. Handler records themselves stay
//! with the host, keyed by identity.
use vstd::prelude::*;

use crate::vdom::EventId;
use vstd::multiset::Multiset;

verus! {

broadcast use vstd::seq_lib::group_to_multiset_ensures, vstd::multiset::group_multiset_axioms;

/// Release one occurrence of an identity: decrement if present, no-op if
/// not. Releasing an absent identity is legal and does nothing.
pub open spec fn release_one(m: Multiset<EventId>, id: EventId) -> Multiset<EventId> {
    if m.count(id) > 0 {
        m.remove(id)
    } else {
        m
    }
}

/// The refcounted listener registry.
pub struct Registry {
    ids: Vec<EventId>,
}

impl View for Registry {
    type V = Multiset<EventId>;

    closed spec fn view(&self) -> Multiset<EventId> {
        self.ids@.to_multiset()
    }
}

impl Registry {
    /// An empty registry: no identity is live.
    pub fn new() -> (r: Registry)
        ensures
            r@ == Multiset::<EventId>::empty(),
    {
        let r = Registry { ids: Vec::new() };
        proof {
            assert(r.ids@.to_multiset().len() == 0);
            assert(r.ids@.to_multiset() =~= Multiset::<EventId>::empty());
        }
        r
    }

    /// Register one more occurrence of an identity: increment its
    /// refcount, creating the entry at one if it was absent.
    pub fn stash(&mut self, id: EventId)
        ensures
            final(self)@ == old(self)@.insert(id),
    {
        self.ids.push(id);
    }

    /// Release one occurrence of an identity. Returns true exactly when
    /// this was the last occurrence: the signal that the underlying
    /// platform handler may now be detached.
    pub fn release(&mut self, id: EventId) -> (freed: bool)
        ensures
            final(self)@ == release_one(old(self)@, id),
            freed == (old(self)@.count(id) == 1),
    {
        let ghost m0 = self.ids@.to_multiset();
        let mut i: usize = 0;
        while i < self.ids.len()
            invariant
                *self == *old(self),
                m0 == self.ids@.to_multiset(),
                i <= self.ids@.len(),
                forall|k: int| 0 <= k < i ==> self.ids@[k] != id,
            decreases self.ids@.len() - i,
        {
            if self.ids[i] == id {
                proof {
                    assert(self.ids@[i as int] == id);
                    assert(self.ids@.contains(id));
                    assert(m0.count(id) > 0);
                }
                let ghost pre = self.ids@;
                self.ids.remove(i);
                proof {
                    assert(pre.remove(i as int).to_multiset() =~= pre.to_multiset().remove(
                        pre[i as int],
                    ));
                    assert(self@ == m0.remove(id));
                    assert(self@.count(id) == m0.count(id) - 1);
                }
                let freed = !self.contains_id(id);
                return freed;
            }
            i += 1;
        }
        proof {
            assert(!self.ids@.contains(id)) by {
                if self.ids@.contains(id) {
                    let j = choose|j: int| 0 <= j < self.ids@.len() && self.ids@[j] == id;
                }
            }
            assert(m0.count(id) == 0);
        }
        false
    }

    fn contains_id(&self, id: EventId) -> (r: bool)
        ensures
            r == (self@.count(id) > 0),
    {
        let mut i: usize = 0;
        while i < self.ids.len()
            invariant
                i <= self.ids@.len(),
                forall|k: int| 0 <= k < i ==> self.ids@[k] != id,
            decreases self.ids@.len() - i,
        {
            if self.ids[i] == id {
                assert(self.ids@[i as int] == id);
                assert(self.ids@.contains(id));
                return true;
            }
            i += 1;
        }
        proof {
            assert(!self.ids@.contains(id)) by {
                if self.ids@.contains(id) {
                    let j = choose|j: int| 0 <= j < self.ids@.len() && self.ids@[j] == id;
                }
            }
        }
        false
    }

    /// The refcount of an identity: how many live binding occurrences
    /// share it.
    pub fn refcount(&self, id: EventId) -> (n: usize)
        ensures
            n == self@.count(id),
    {
        let mut n: usize = 0;
        let mut i: usize = 0;
        while i < self.ids.len()
            invariant
                i <= self.ids@.len(),
                n == self.ids@.subrange(0, i as int).to_multiset().count(id),
                n <= i,
            decreases self.ids@.len() - i,
        {
            let ghost pre = self.ids@.subrange(0, i as int);
            proof {
                assert(pre.push(self.ids@[i as int]) =~= self.ids@.subrange(0, i + 1 as int));
            }
            if self.ids[i] == id {
                n += 1;
            }
            i += 1;
        }
        proof {
            assert(self.ids@.subrange(0, self.ids@.len() as int) =~= self.ids@);
        }
        n
    }

    /// The sum of all refcounts: the number of live binding occurrences.
    pub fn len(&self) -> (n: usize)
        ensures
            n == self@.len(),
    {
        self.ids.len()
    }

    /// Whether no identity is live at all.
    pub fn is_empty(&self) -> (r: bool)
        ensures
            r == (self@ == Multiset::<EventId>::empty()),
    {
        let n = self.ids.len();
        proof {
            if self.ids@.len() == 0 {
                assert(self@ =~= Multiset::<EventId>::empty());
            } else {
                assert(self@.len() != 0);
                assert(Multiset::<EventId>::empty().len() == 0);
            }
        }
        n == 0
    }
}

} // verus!
