//! A set of row ids, held in std's hash set.
use std::collections::HashSet;
use vstd::prelude::*;
use vstd::std_specs::iter::IteratorSpec;

use crate::data::Id;

verus! {

broadcast use vstd::std_specs::hash::group_hash_axioms;

/// A set of ids.
pub struct IdSet {
    ids: HashSet<Id>,
}

impl IdSet {
    pub closed spec fn view(&self) -> Set<Id> {
        self.ids@
    }

    /// The set is finite, as every set that the methods here make is.
    pub closed spec fn wf(&self) -> bool {
        self.ids@.finite()
    }

    pub fn new() -> (s: Self)
        ensures
            s.wf(),
            s.view() == Set::<Id>::empty(),
    {
        IdSet { ids: HashSet::new() }
    }

    pub fn contains(&self, id: Id) -> (b: bool)
        ensures
            b == self.view().contains(id),
    {
        self.ids.contains(&id)
    }

    /// Adds `id`; tells whether it was new.
    pub fn insert(&mut self, id: Id) -> (added: bool)
        requires
            old(self).wf(),
        ensures
            final(self).wf(),
            final(self).view() == old(self).view().insert(id),
            added == !old(self).view().contains(id),
    {
        self.ids.insert(id)
    }

    /// Takes `id` out; tells whether it was there.
    pub fn remove(&mut self, id: Id) -> (removed: bool)
        requires
            old(self).wf(),
        ensures
            final(self).wf(),
            final(self).view() == old(self).view().remove(id),
            removed == old(self).view().contains(id),
    {
        self.ids.remove(&id)
    }

    pub fn clear(&mut self)
        ensures
            final(self).wf(),
            final(self).view() == Set::<Id>::empty(),
    {
        self.ids.clear();
    }

    pub fn is_empty(&self) -> (b: bool)
        requires
            self.wf(),
        ensures
            b == (self.view() == Set::<Id>::empty()),
    {
        let b = self.ids.is_empty();
        proof {
            if !b {
                let x = self.ids@.choose();
                assert(self.ids@.contains(x));
                assert(!Set::<Id>::empty().contains(x));
            } else {
                assert(self.ids@ =~= Set::<Id>::empty());
            }
        }
        b
    }

    /// Keeps only the ids that occur in `known`.
    pub fn retain(&mut self, known: &[Id])
        requires
            old(self).wf(),
        ensures
            final(self).wf(),
            final(self).view() == old(self).view().intersect(known@.to_set()),
    {
        let mut kept: HashSet<Id> = HashSet::new();
        let mut i: usize = 0;
        while i < known.len()
            invariant
                i <= known@.len(),
                self.ids@ == old(self).ids@,
                kept@.finite(),
                kept@ == self.ids@.intersect(known@.subrange(0, i as int).to_set()),
            decreases known@.len() - i,
        {
            let id = known[i];
            if self.ids.contains(&id) {
                kept.insert(id);
            }
            proof {
                let pre = known@.subrange(0, i as int);
                let post = known@.subrange(0, i + 1);
                assert(post =~= pre.push(id));
                assert(post.to_set() =~= pre.to_set().insert(id)) by {
                    assert forall|a: Id| post.contains(a) <==> (pre.contains(a) || a == id) by {
                        if post.contains(a) {
                            let k = choose|k: int| 0 <= k < post.len() && post[k] == a;
                            if k < pre.len() {
                                assert(pre[k] == a);
                            }
                        }
                        if pre.contains(a) {
                            let k = choose|k: int| 0 <= k < pre.len() && pre[k] == a;
                            assert(post[k] == a);
                        }
                        if a == id {
                            assert(post[i as int] == a);
                        }
                    }
                }
                assert(kept@ =~= self.ids@.intersect(post.to_set()));
            }
            i = i + 1;
        }
        proof {
            assert(known@.subrange(0, known@.len() as int) =~= known@);
        }
        self.ids = kept;
    }

    /// The ids, each once, in the order in which the hash set holds them.
    pub fn to_vec(&self) -> (v: Vec<Id>)
        ensures
            v@.to_set() == self.view(),
            v@.no_duplicates(),
    {
        let mut v: Vec<Id> = Vec::new();
        for x in it: self.ids.iter()
            invariant
                v@ == it.seq().take(it.index()).unref(),
                it.seq().unref().to_set() == self.ids@,
                it.index() == it.seq().len() ==> v@.to_set() == self.ids@,
        {
            v.push(*x);
            proof {
                assert(it.seq().take(it.index() + 1).unref() =~= it.seq().take(it.index()).unref().push(*x));
                assert(it.seq().take(it.seq().len() as int) =~= it.seq());
            }
        }
        v
    }
}

} // verus!
