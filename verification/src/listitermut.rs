//! The definitions of the ListIterMut type
use vstd::prelude::*;

use crate::indexlist::IndexList;
use crate::listindex::ListIndex;
use crate::listiter::GetByIndex;

verus! {

/// A double-ended iterator handing out exclusive views into the list:
/// fused, exact-size, and drivable from either end in any interleaving.
///
/// It keeps only the traversal state — the two cursors and the remaining
/// count; each produce call takes the exclusive borrow of the container
/// and returns a mutable view of one element. Exclusivity holds because
/// the chain is acyclic and the cursors only ever converge: no produced
/// slot is ever resolved a second time, so no two views overlap.
pub struct ListIterMut {
    pub start: ListIndex,
    pub end: ListIndex,
    pub len: usize,
    pub pos: Ghost<int>,
}

impl ListIterMut {
    /// The iterator's invariant over the container it traverses: the
    /// container is well formed and the two cursors sit `len` positions
    /// apart on its chain — at position `pos` and position
    /// `pos + len - 1` — or are both "empty" once exhausted.
    pub open spec fn wf_for<T>(&self, list: IndexList<T>) -> bool {
        &&& list.wf()
        &&& (if self.len == 0 {
            self.start.spec_is_empty() && self.end.spec_is_empty()
        } else {
            &&& 0 <= self.pos@
            &&& self.pos@ + self.len <= list.handles().len()
            &&& self.start == list.handles()[self.pos@]
            &&& self.end == list.handles()[self.pos@ + self.len - 1]
        })
    }

    /// The elements still to be produced, front to back.
    pub open spec fn remaining<T>(&self, list: IndexList<T>) -> Seq<T> {
        if self.len == 0 {
            Seq::empty()
        } else {
            list.elems().subrange(self.pos@, self.pos@ + self.len)
        }
    }

    /// Collapse to the fused-empty state: both cursors "empty", nothing
    /// remaining.
    pub fn set_empty(&mut self)
        ensures
            final(self).len == 0,
            final(self).start.spec_is_empty(),
            final(self).end.spec_is_empty(),
    {
        self.start = ListIndex::new();
        self.end = ListIndex::new();
        self.len = 0;
    }

    /// Produce an exclusive view of the next element from the front, or
    /// nothing once the iterator is exhausted — and, being fused, it then
    /// stays exhausted. Writing through the view changes exactly the
    /// produced element of the list; the chain and every other element
    /// stay as they were, so views produced by consecutive calls never
    /// overlap.
    pub fn next<'b, T>(&mut self, list: &'b mut IndexList<T>) -> (r: Option<&'b mut T>)
        requires
            old(self).wf_for(*old(list)),
        ensures
            (match r {
                Some(item) => {
                    &&& old(self).len > 0
                    &&& final(self).len == old(self).len - 1
                    &&& *item == old(self).remaining(*old(list))[0]
                    &&& final(list).wf()
                    &&& final(list).handles() == old(list).handles()
                    &&& final(list).elems() == old(list).elems().update(
                        old(self).pos@,
                        *final(item),
                    )
                    &&& final(self).wf_for(*final(list))
                    &&& old(self).len > 1 ==> final(self).pos@ == old(self).pos@ + 1
                    &&& final(self).remaining(*final(list)) == old(self).remaining(
                        *old(list),
                    ).drop_first()
                },
                None => {
                    &&& old(self).len == 0
                    &&& *final(self) == *old(self)
                    &&& *final(list) == *old(list)
                },
            }),
    {
        proof {
            old(list).lemma_wf();
        }
        let nxt = list.next_index(self.start);
        match list.get_mut(self.start) {
            None => {
                proof {
                    if old(self).len > 0 {
                        assert(old(list).handles()[old(self).pos@] == old(self).start);
                        assert(false);
                    }
                }
                None
            },
            Some(item) => {
                let ghost f = self.pos@;
                let ghost oldlen = self.len as int;
                let ghost e0 = old(list).elems();
                proof {
                    if self.len == 0 {
                        assert(false);
                    }
                    assert(old(list).handles()[f] == self.start);
                }
                if self.start == self.end {
                    proof {
                        if self.len != 1 {
                            assert(old(list).handles()[f] == old(list).handles()[f + oldlen - 1]);
                            assert(false);
                        }
                        assert(old(self).remaining(*old(list)).drop_first() =~= Seq::<T>::empty());
                    }
                    self.set_empty();
                } else {
                    proof {
                        if self.len == 1 {
                            assert(false);
                        }
                    }
                    self.start = nxt;
                    self.len = self.len - 1;
                    self.pos = Ghost(f + 1);
                    proof {
                        assert forall|x: T| (#[trigger] e0.update(f, x)).subrange(f + 1, f + oldlen)
                            == old(self).remaining(*old(list)).drop_first() by {
                            assert(e0.update(f, x).subrange(f + 1, f + oldlen) =~= old(
                                self,
                            ).remaining(*old(list)).drop_first());
                        }
                    }
                }
                Some(item)
            },
        }
    }

    /// Produce an exclusive view of the next element from the back, or
    /// nothing once the iterator is exhausted — and, being fused, it then
    /// stays exhausted. Writing through the view changes exactly the
    /// produced element of the list; the chain and every other element
    /// stay as they were, so views produced by consecutive calls never
    /// overlap.
    pub fn next_back<'b, T>(&mut self, list: &'b mut IndexList<T>) -> (r: Option<&'b mut T>)
        requires
            old(self).wf_for(*old(list)),
        ensures
            (match r {
                Some(item) => {
                    &&& old(self).len > 0
                    &&& final(self).len == old(self).len - 1
                    &&& *item == old(self).remaining(*old(list)).last()
                    &&& final(list).wf()
                    &&& final(list).handles() == old(list).handles()
                    &&& final(list).elems() == old(list).elems().update(
                        old(self).pos@ + old(self).len - 1,
                        *final(item),
                    )
                    &&& final(self).wf_for(*final(list))
                    &&& old(self).len > 1 ==> final(self).pos@ == old(self).pos@
                    &&& final(self).remaining(*final(list)) == old(self).remaining(
                        *old(list),
                    ).drop_last()
                },
                None => {
                    &&& old(self).len == 0
                    &&& *final(self) == *old(self)
                    &&& *final(list) == *old(list)
                },
            }),
    {
        proof {
            old(list).lemma_wf();
        }
        let prv = list.prev_index(self.end);
        match list.get_mut(self.end) {
            None => {
                proof {
                    if old(self).len > 0 {
                        assert(old(list).handles()[old(self).pos@ + old(self).len - 1] == old(
                            self,
                        ).end);
                        assert(false);
                    }
                }
                None
            },
            Some(item) => {
                let ghost f = self.pos@;
                let ghost oldlen = self.len as int;
                let ghost e0 = old(list).elems();
                proof {
                    if self.len == 0 {
                        assert(false);
                    }
                    assert(old(list).handles()[f + oldlen - 1] == self.end);
                }
                if self.start == self.end {
                    proof {
                        if self.len != 1 {
                            assert(old(list).handles()[f] == old(list).handles()[f + oldlen - 1]);
                            assert(false);
                        }
                        assert(old(self).remaining(*old(list)).drop_last() =~= Seq::<T>::empty());
                    }
                    self.set_empty();
                } else {
                    proof {
                        if self.len == 1 {
                            assert(false);
                        }
                    }
                    self.end = prv;
                    self.len = self.len - 1;
                    proof {
                        assert forall|x: T|
                            (#[trigger] e0.update(f + oldlen - 1, x)).subrange(f, f + oldlen - 1)
                                == old(self).remaining(*old(list)).drop_last() by {
                            assert(e0.update(f + oldlen - 1, x).subrange(f, f + oldlen - 1) =~= old(
                                self,
                            ).remaining(*old(list)).drop_last());
                        }
                    }
                }
                Some(item)
            },
        }
    }

    /// The exact number of productions still to come, as a size hint: the
    /// lower and upper bounds agree.
    pub fn size_hint(&self) -> (r: (usize, Option<usize>))
        ensures
            r.0 == self.len,
            r.1 == Some(self.len),
    {
        (self.len, Some(self.len))
    }

    /// Exact-size law: at every point of a traversal, the remaining count
    /// equals the number of productions still obtainable.
    pub proof fn lemma_exact_size<T>(self, list: IndexList<T>)
        requires
            self.wf_for(list),
        ensures
            self.len == self.remaining(list).len(),
    {
        list.lemma_wf();
    }

    /// Non-overlap law: while at least two elements remain, the front and
    /// back cursors name distinct slots, so the views produced at the two
    /// ends are views of different elements.
    pub proof fn lemma_cursors_distinct<T>(self, list: IndexList<T>)
        requires
            self.wf_for(list),
            self.len >= 2,
        ensures
            self.start != self.end,
    {
        list.lemma_wf();
    }
}

} // verus!
