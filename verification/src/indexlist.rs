//! The arena container behind the list: slots, links, and fallible lookup.
use vstd::prelude::*;

use crate::listindex::ListIndex;
use crate::listiter::GetByIndex;
use crate::listiter::ListIterG;
use crate::listitermut::ListIterMut;

verus! {

/// The link pair stored with one arena slot: the handles of the slot's
/// neighbours in list order, "empty" where there is none.
struct Link {
    prev: ListIndex,
    next: ListIndex,
}

/// An arena-backed doubly linked list. The elements live in `store`; list
/// order is carried by the `prev`/`next` handles kept per slot in `links`,
/// with `head` and `tail` naming the two ends. Iteration never indexes the
/// arena directly: it walks the stored links, handle by handle.
pub struct IndexList<T> {
    store: Vec<T>,
    links: Vec<Link>,
    head: ListIndex,
    tail: ListIndex,
}

impl<T> GetByIndex for IndexList<T> {
    type Item = T;

    closed spec fn wf(&self) -> bool {
        let n = self.store@.len() as int;
        &&& n < usize::MAX
        &&& self.links@.len() == n
        &&& (if n == 0 {
            self.head.spec_is_empty() && self.tail.spec_is_empty()
        } else {
            self.head == ListIndex::spec_at(0) && self.tail == ListIndex::spec_at(n - 1)
        })
        &&& (forall|i: int|
            0 <= i < n ==> (#[trigger] self.links@[i]).next == (if i + 1 < n {
                ListIndex::spec_at(i + 1)
            } else {
                ListIndex { ix: usize::MAX }
            }))
        &&& (forall|i: int|
            0 <= i < n ==> (#[trigger] self.links@[i]).prev == (if i > 0 {
                ListIndex::spec_at(i - 1)
            } else {
                ListIndex { ix: usize::MAX }
            }))
    }

    closed spec fn handles(&self) -> Seq<ListIndex> {
        Seq::new(self.store@.len(), |p: int| ListIndex::spec_at(p))
    }

    closed spec fn elems(&self) -> Seq<T> {
        self.store@
    }

    proof fn lemma_wf(&self) {
        assert forall|p: int|
            0 <= p < self.handles().len() implies !(#[trigger] self.handles()[p]).spec_is_empty() by {
            assert(self.handles()[p].ix == p as usize);
        }
    }

    fn get(&self, index: ListIndex) -> (r: Option<&T>) {
        if index.ix < self.store.len() {
            proof {
                assert(self.handles()[index.ix as int] == index);
            }
            Some(&self.store[index.ix])
        } else {
            proof {
                assert forall|p: int| 0 <= p < self.handles().len() implies #[trigger] self
                    .handles()[p] != index by {
                    assert(self.handles()[p].ix == p as usize);
                }
            }
            None
        }
    }

    fn next_index(&self, index: ListIndex) -> (r: ListIndex) {
        if index.ix < self.store.len() {
            let r = self.links[index.ix].next;
            proof {
                assert(self.handles()[index.ix as int] == index);
                assert forall|p: int|
                    0 <= p < self.handles().len() && #[trigger] self.handles()[p]
                        == index implies r == (if p + 1 < self.handles().len() {
                    self.handles()[p + 1]
                } else {
                    ListIndex { ix: usize::MAX }
                }) by {
                    assert(self.handles()[p].ix == p as usize);
                    assert(p == index.ix as int);
                }
            }
            r
        } else {
            ListIndex::new()
        }
    }

    fn prev_index(&self, index: ListIndex) -> (r: ListIndex) {
        if index.ix < self.store.len() {
            let r = self.links[index.ix].prev;
            proof {
                assert(self.handles()[index.ix as int] == index);
                assert forall|p: int|
                    0 <= p < self.handles().len() && #[trigger] self.handles()[p]
                        == index implies r == (if p > 0 {
                    self.handles()[p - 1]
                } else {
                    ListIndex { ix: usize::MAX }
                }) by {
                    assert(self.handles()[p].ix == p as usize);
                    assert(p == index.ix as int);
                }
            }
            r
        } else {
            ListIndex::new()
        }
    }
}

impl<T> IndexList<T> {
    /// Builds a list holding the elements of `v`, in order.
    pub fn from_vec(v: Vec<T>) -> (l: IndexList<T>)
        requires
            v@.len() < usize::MAX,
        ensures
            l.wf(),
            l.elems() == v@,
    {
        let n = v.len();
        let mut links: Vec<Link> = Vec::new();
        let mut i: usize = 0;
        while i < n
            invariant
                n < usize::MAX,
                i <= n,
                links@.len() == i,
                forall|j: int|
                    0 <= j < i ==> (#[trigger] links@[j]).next == (if j + 1 < n {
                        ListIndex::spec_at(j + 1)
                    } else {
                        ListIndex { ix: usize::MAX }
                    }),
                forall|j: int|
                    0 <= j < i ==> (#[trigger] links@[j]).prev == (if j > 0 {
                        ListIndex::spec_at(j - 1)
                    } else {
                        ListIndex { ix: usize::MAX }
                    }),
            decreases n - i,
        {
            let nxt = if i + 1 < n {
                ListIndex::at(i + 1)
            } else {
                ListIndex::new()
            };
            let prv = if i > 0 {
                ListIndex::at(i - 1)
            } else {
                ListIndex::new()
            };
            links.push(Link { prev: prv, next: nxt });
            i = i + 1;
        }
        let head = if n > 0 {
            ListIndex::at(0)
        } else {
            ListIndex::new()
        };
        let tail = if n > 0 {
            ListIndex::at(n - 1)
        } else {
            ListIndex::new()
        };
        IndexList { store: v, links, head, tail }
    }

    /// The number of elements in the list.
    pub fn len(&self) -> (r: usize)
        requires
            self.wf(),
        ensures
            r == self.elems().len(),
    {
        self.store.len()
    }

    /// The handle of the first element in list order; "empty" when the
    /// list is empty.
    pub fn head(&self) -> (r: ListIndex)
        requires
            self.wf(),
        ensures
            self.elems().len() > 0 ==> r == self.handles()[0],
            self.elems().len() == 0 ==> r.spec_is_empty(),
    {
        self.head
    }

    /// The handle of the last element in list order; "empty" when the
    /// list is empty.
    pub fn tail(&self) -> (r: ListIndex)
        requires
            self.wf(),
        ensures
            self.elems().len() > 0 ==> r == self.handles()[self.elems().len() - 1],
            self.elems().len() == 0 ==> r.spec_is_empty(),
    {
        self.tail
    }

    /// Exclusive lookup: a mutable view of the element at `index`, or
    /// nothing when no slot of the list bears that handle. Writing through
    /// the view changes exactly that element: the link structure, every
    /// handle, and every other element stay as they were.
    pub fn get_mut(&mut self, index: ListIndex) -> (r: Option<&mut T>)
        requires
            old(self).wf(),
        ensures
            (match r {
                Some(item) => {
                    &&& exists|p: int|
                        0 <= p < old(self).handles().len() && (#[trigger] old(self).handles()[p])
                            == index && *item == old(self).elems()[p] && final(self).elems() == old(
                            self,
                        ).elems().update(p, *final(item))
                    &&& final(self).wf()
                    &&& final(self).handles() == old(self).handles()
                },
                None => {
                    &&& (forall|p: int|
                        0 <= p < old(self).handles().len() ==> (#[trigger] old(self).handles()[p])
                            != index)
                    &&& *final(self) == *old(self)
                },
            }),
    {
        if index.ix < self.store.len() {
            proof {
                assert(self.handles()[index.ix as int] == index);
            }
            Some(&mut self.store[index.ix])
        } else {
            proof {
                assert forall|p: int| 0 <= p < self.handles().len() implies #[trigger] self
                    .handles()[p] != index by {
                    assert(self.handles()[p].ix == p as usize);
                }
            }
            None
        }
    }

    /// A read-only double-ended iterator over the whole list.
    pub fn iter(&self) -> (it: ListIterG<'_, IndexList<T>>)
        requires
            self.wf(),
        ensures
            it.wf(),
            it.list == self,
            it.remaining() == self.elems(),
            it.len == self.elems().len(),
    {
        let n = self.store.len();
        ListIterG::new(self, self.head, self.tail, n)
    }

    /// The cursor state for an exclusive double-ended traversal of the
    /// whole list; drive it with `ListIterMut::next` and `next_back`,
    /// handing each call the exclusive borrow of this list.
    pub fn iter_mut(&self) -> (it: ListIterMut)
        requires
            self.wf(),
        ensures
            it.wf_for(*self),
            it.remaining(*self) == self.elems(),
            it.len == self.elems().len(),
            it.pos@ == 0,
    {
        let it = ListIterMut {
            start: self.head,
            end: self.tail,
            len: self.store.len(),
            pos: Ghost(0 as int),
        };
        proof {
            assert(it.remaining(*self) =~= self.elems());
        }
        it
    }
}

} // verus!
