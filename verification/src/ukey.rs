//! Small set of chunk-group identifiers, kept in insertion order.

use vstd::prelude::*;

verus! {

/// A set of identifiers backed by a vector without duplicates.
///
/// Relationships between graph nodes are stored as identifier sets; this
/// keeps them deterministic (insertion order) and duplicate-free.
pub struct UkeySet {
    items: Vec<u32>,
}

impl UkeySet {
    /// The members, as a mathematical set.
    pub closed spec fn set_view(&self) -> Set<u32> {
        self.items@.to_set()
    }

    /// The members, in insertion order.
    pub closed spec fn seq_view(&self) -> Seq<u32> {
        self.items@
    }

    pub closed spec fn wf(&self) -> bool {
        forall|i: int, j: int|
            0 <= i < j < self.items@.len() ==> self.items@[i] != self.items@[j]
    }

    pub proof fn lemma_views_agree(&self)
        ensures
            forall|x: u32| #[trigger] self.set_view().contains(x) <==> self.seq_view().contains(x),
    {
        assert forall|x: u32| #[trigger] self.set_view().contains(x) <==> self.seq_view().contains(x) by {
            if self.seq_view().contains(x) {
                assert(self.items@.to_set().contains(x));
            }
        }
    }

    pub fn new() -> (r: UkeySet)
        ensures
            r.set_view() == Set::<u32>::empty(),
            r.seq_view() == Seq::<u32>::empty(),
            r.wf(),
    {
        let r = UkeySet { items: Vec::new() };
        proof {
            assert(r.items@.to_set() =~= Set::<u32>::empty());
        }
        r
    }

    pub fn len(&self) -> (n: usize)
        ensures
            n == self.seq_view().len(),
    {
        self.items.len()
    }

    pub fn contains(&self, x: u32) -> (r: bool)
        ensures
            r == self.set_view().contains(x),
    {
        let mut i: usize = 0;
        while i < self.items.len()
            invariant
                0 <= i <= self.items@.len(),
                forall|j: int| 0 <= j < i ==> self.items@[j] != x,
            decreases self.items@.len() - i,
        {
            if self.items[i] == x {
                proof {
                    assert(self.items@.contains(x));
                    assert(self.items@.to_set().contains(x));
                }
                return true;
            }
            i += 1;
        }
        proof {
            if self.items@.to_set().contains(x) {
                assert(self.items@.contains(x));
            }
        }
        false
    }

    /// Inserts `x`; returns whether the membership is new.
    pub fn insert(&mut self, x: u32) -> (newly: bool)
        requires
            old(self).wf(),
        ensures
            final(self).wf(),
            newly == !old(self).set_view().contains(x),
            final(self).set_view() == old(self).set_view().insert(x),
            final(self).seq_view() == if old(self).set_view().contains(x) {
                old(self).seq_view()
            } else {
                old(self).seq_view().push(x)
            },
    {
        if self.contains(x) {
            proof {
                assert(self.set_view() =~= old(self).set_view().insert(x));
            }
            false
        } else {
            self.items.push(x);
            proof {
                assert(self.items@ == old(self).items@.push(x));
                assert(self.items@.to_set() =~= old(self).items@.to_set().insert(x)) by {
                    assert forall|y: u32| #[trigger] self.items@.to_set().contains(y)
                        <==> old(self).items@.to_set().contains(y) || y == x by {
                        if self.items@.contains(y) {
                            let k = choose|k: int| 0 <= k < self.items@.len() && self.items@[k] == y;
                            if k < old(self).items@.len() {
                                assert(old(self).items@.contains(y));
                            }
                        }
                        if old(self).items@.contains(y) {
                            let k = choose|k: int|
                                0 <= k < old(self).items@.len() && old(self).items@[k] == y;
                            assert(self.items@[k] == y);
                            assert(self.items@.contains(y));
                        }
                        if y == x {
                            assert(self.items@[self.items@.len() - 1] == x);
                            assert(self.items@.contains(x));
                        }
                    }
                }
                assert forall|i: int, j: int|
                    0 <= i < j < self.items@.len() implies self.items@[i] != self.items@[j] by {
                    if j == self.items@.len() - 1 {
                        assert(old(self).items@[i] == self.items@[i]);
                        if self.items@[i] == x {
                            assert(old(self).items@.contains(x));
                        }
                    }
                }
            }
            true
        }
    }

    /// The members in insertion order, for iteration.
    pub fn to_vec(&self) -> (r: Vec<u32>)
        ensures
            r@ == self.seq_view(),
    {
        let mut r: Vec<u32> = Vec::new();
        let mut i: usize = 0;
        while i < self.items.len()
            invariant
                0 <= i <= self.items@.len(),
                r@ == self.items@.subrange(0, i as int),
            decreases self.items@.len() - i,
        {
            r.push(self.items[i]);
            i += 1;
        }
        proof {
            assert(r@ =~= self.items@);
        }
        r
    }
}

} // verus!
