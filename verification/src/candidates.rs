//! The room selection index: a mutable set of room identifiers with
//! random-uniform pick and removal, seeded with every initially non-empty
//! room. Removal during one search is transient per call; it does not
//! persist room emptiness across calls unless explicitly committed.

use vstd::prelude::*;
use crate::rng::RngHandle;
use crate::rooms::Room;

verus! {

/// A set of still-candidate room identifiers.
#[derive(Clone, Debug)]
pub struct Candidates {
    pub ids: Vec<usize>,
}

impl Candidates {
    /// The identifiers are pairwise distinct.
    pub open spec fn wf(self) -> bool {
        forall|a: int, b: int| 0 <= a < b < self.ids@.len() ==> self.ids@[a] != self.ids@[b]
    }

    pub open spec fn spec_contains(self, id: usize) -> bool {
        self.ids@.contains(id)
    }

    pub open spec fn spec_len(self) -> int {
        self.ids@.len() as int
    }

    /// The index seeded with the identifier of every non-empty room.
    pub fn from_non_empty(rooms: &Vec<Room>) -> (c: Candidates)
        ensures
            c.wf(),
            forall|id: usize|
                #[trigger] c.spec_contains(id) <==> (id < rooms@.len() && !(rooms@[id as int].kind
                    is Empty)),
    {
        let mut ids: Vec<usize> = Vec::new();
        let mut i: usize = 0;
        while i < rooms.len()
            invariant
                i <= rooms@.len(),
                forall|a: int, b: int| 0 <= a < b < ids@.len() ==> ids@[a] < ids@[b],
                forall|k: int| 0 <= k < ids@.len() ==> #[trigger] ids@[k] < i,
                forall|id: usize|
                    #[trigger] ids@.contains(id) <==> (id < i && !(rooms@[id as int].kind
                        is Empty)),
            decreases rooms@.len() - i,
        {
            let ghost pre = ids@;
            if !rooms[i].is_empty() {
                ids.push(i);
            }
            proof {
                assert forall|id: usize|
                    #[trigger] ids@.contains(id) <==> (id < i + 1 && !(rooms@[id as int].kind
                        is Empty)) by {
                    if ids@.contains(id) {
                        let k = choose|k: int| 0 <= k < ids@.len() && ids@[k] == id;
                        if k < pre.len() {
                            assert(pre[k] == id);
                            assert(pre.contains(id));
                        } else {
                            assert(id == i);
                        }
                    }
                    if id < i + 1 && !(rooms@[id as int].kind is Empty) {
                        if id < i {
                            assert(pre.contains(id));
                            let k = choose|k: int| 0 <= k < pre.len() && pre[k] == id;
                            assert(ids@[k] == id);
                        } else {
                            assert(ids@[pre.len() as int] == id);
                        }
                    }
                }
                assert forall|a: int, b: int|
                    0 <= a < b < ids@.len() implies ids@[a] < ids@[b] by {
                    if b < pre.len() {
                        assert(pre[a] == ids@[a] && pre[b] == ids@[b]);
                    } else if b == pre.len() && pre.len() < ids@.len() {
                        assert(pre[a] == ids@[a]);
                        assert(pre[a] < i);
                        assert(ids@[b] == i);
                    }
                }
                assert(forall|k: int| 0 <= k < ids@.len() ==> #[trigger] ids@[k] < i + 1);
            }
            i = i + 1;
        }
        let c = Candidates { ids };
        proof {
            assert(forall|a: int, b: int|
                0 <= a < b < c.ids@.len() ==> c.ids@[a] != c.ids@[b]);
        }
        c
    }

    pub fn len(&self) -> (r: usize)
        ensures
            r == self.spec_len(),
    {
        self.ids.len()
    }

    /// A working copy holding the same identifiers.
    pub fn duplicate(&self) -> (c: Candidates)
        ensures
            c.ids@ == self.ids@,
    {
        let mut ids: Vec<usize> = Vec::new();
        let mut i: usize = 0;
        while i < self.ids.len()
            invariant
                i <= self.ids@.len(),
                ids@ == self.ids@.take(i as int),
            decreases self.ids@.len() - i,
        {
            ids.push(self.ids[i]);
            i = i + 1;
        }
        proof {
            assert(ids@ =~= self.ids@);
        }
        Candidates { ids }
    }

    /// A uniformly random still-candidate identifier, if any is left.
    pub fn select(&self, rng: &mut RngHandle) -> (r: Option<usize>)
        ensures
            match r {
                Some(id) => self.spec_contains(id),
                None => self.spec_len() == 0,
            },
    {
        if self.ids.len() == 0 {
            return None;
        }
        let idx = rng.range_usize(0, self.ids.len());
        let id = self.ids[idx];
        proof {
            assert(self.ids@[idx as int] == id);
        }
        Some(id)
    }

    /// Drop the identifier from the set, if present.
    pub fn remove(&mut self, id: usize)
        requires
            old(self).wf(),
        ensures
            final(self).wf(),
            !final(self).spec_contains(id),
            forall|o: usize| o != id ==> final(self).spec_contains(o) == old(self).spec_contains(o),
            old(self).spec_contains(id) ==> final(self).spec_len() == old(self).spec_len() - 1,
            !old(self).spec_contains(id) ==> *final(self) == *old(self),
    {
        let mut i: usize = 0;
        while i < self.ids.len()
            invariant
                self.wf(),
                *self == *old(self),
                i <= self.ids@.len(),
                forall|k: int| 0 <= k < i ==> self.ids@[k] != id,
            decreases self.ids@.len() - i,
        {
            if self.ids[i] == id {
                let ghost pre = self.ids@;
                self.ids.swap_remove(i);
                proof {
                    lemma_swap_remove_distinct(pre, self.ids@, i as int);
                    assert(pre.contains(id));
                }
                return ;
            }
            i = i + 1;
        }
        proof {
            if self.ids@.contains(id) {
                let k = choose|k: int| 0 <= k < self.ids@.len() && self.ids@[k] == id;
                assert(self.ids@[k] != id);
            }
        }
    }
}

/// What swap-removing position `i` does to a duplicate-free sequence: the
/// removed element is gone, every other element stays, distinctness is
/// kept.
pub(crate) proof fn lemma_swap_remove_distinct<A>(pre: Seq<A>, post: Seq<A>, i: int)
    requires
        0 <= i < pre.len(),
        post == pre.update(i, pre.last()).drop_last(),
        forall|a: int, b: int| 0 <= a < b < pre.len() ==> pre[a] != pre[b],
    ensures
        forall|a: int, b: int| 0 <= a < b < post.len() ==> post[a] != post[b],
        !post.contains(pre[i]),
        forall|o: A| o != pre[i] ==> post.contains(o) == pre.contains(o),
        post.len() == pre.len() - 1,
{
    assert forall|a: int, b: int| 0 <= a < b < post.len() implies post[a] != post[b] by {
        assert(pre.update(i, pre.last())[a] == post[a]);
        assert(pre.update(i, pre.last())[b] == post[b]);
    }
    assert forall|o: A| post.contains(o) implies o != pre[i] && pre.contains(o) by {
        let k = choose|k: int| 0 <= k < post.len() && post[k] == o;
        if k == i {
            assert(pre[pre.len() - 1] == o);
        } else {
            assert(pre[k] == o);
        }
    }
    assert forall|o: A| o != pre[i] && pre.contains(o) implies post.contains(o) by {
        let k = choose|k: int| 0 <= k < pre.len() && pre[k] == o;
        if k == i {
            assert(false);
        } else if k == pre.len() - 1 {
            if i < pre.len() - 1 {
                assert(post[i] == pre.last());
            } else {
                assert(false);
            }
        } else {
            assert(post[k] == o);
        }
    }
    assert(!post.contains(pre[i]));
}

} // verus!
