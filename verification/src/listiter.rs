//! The definitions of the ListIter type
use vstd::prelude::*;

use crate::listindex::ListIndex;

verus! {

/// The capability a container offers a traversal: resolve a handle to a
/// view of the element stored there (or to nothing, when the handle is
/// "empty" or stale), and navigate to the handle following or preceding a
/// given one in list order.
///
/// The specification side describes the container as two sequences running
/// in step: `handles()`, the handles of its slots in list order, and
/// `elems()`, the elements stored at those slots. `wf()` says the link
/// structure is a finite acyclic chain; `lemma_wf` records that along such
/// a chain no handle repeats and none is the "empty" sentinel — the fact
/// the traversal's exclusivity argument rests on.
pub trait GetByIndex {
    type Item;

    /// Whether the container's link structure is well formed.
    spec fn wf(&self) -> bool;

    /// The handles of the container's slots, in list order.
    spec fn handles(&self) -> Seq<ListIndex>;

    /// The elements of the container, in list order.
    spec fn elems(&self) -> Seq<Self::Item>;

    /// In a well-formed container the element and handle sequences run in
    /// step, no handle repeats, and no handle is the "empty" sentinel.
    proof fn lemma_wf(&self)
        requires
            self.wf(),
        ensures
            self.elems().len() == self.handles().len(),
            forall|p: int, q: int|
                0 <= p < self.handles().len() && 0 <= q < self.handles().len() && p != q
                    ==> self.handles()[p] != self.handles()[q],
            forall|p: int|
                0 <= p < self.handles().len() ==> !(#[trigger] self.handles()[p]).spec_is_empty(),
    ;

    /// Shared lookup: a view of the element at `index`, or nothing when no
    /// slot of the chain bears that handle.
    fn get(&self, index: ListIndex) -> (r: Option<&Self::Item>)
        requires
            self.wf(),
        ensures
            (match r {
                Some(item) => exists|p: int|
                    0 <= p < self.handles().len() && (#[trigger] self.handles()[p]) == index
                        && *item == self.elems()[p],
                None => forall|p: int|
                    0 <= p < self.handles().len() ==> (#[trigger] self.handles()[p]) != index,
            }),
    ;

    /// The handle following `index` in list order; "empty" after the last
    /// handle of the chain, and "empty" when no slot of the chain bears
    /// `index` at all (so the operation is total and never fails).
    fn next_index(&self, index: ListIndex) -> (r: ListIndex)
        requires
            self.wf(),
        ensures
            forall|p: int|
                0 <= p < self.handles().len() && (#[trigger] self.handles()[p]) == index ==> r == (
                if p + 1 < self.handles().len() {
                    self.handles()[p + 1]
                } else {
                    ListIndex { ix: usize::MAX }
                }),
            (forall|p: int|
                0 <= p < self.handles().len() ==> (#[trigger] self.handles()[p]) != index)
                ==> r.spec_is_empty(),
    ;

    /// The handle preceding `index` in list order; "empty" before the
    /// first handle of the chain, and "empty" when no slot of the chain
    /// bears `index` at all (so the operation is total and never fails).
    fn prev_index(&self, index: ListIndex) -> (r: ListIndex)
        requires
            self.wf(),
        ensures
            forall|p: int|
                0 <= p < self.handles().len() && (#[trigger] self.handles()[p]) == index ==> r == (
                if p > 0 {
                    self.handles()[p - 1]
                } else {
                    ListIndex { ix: usize::MAX }
                }),
            (forall|p: int|
                0 <= p < self.handles().len() ==> (#[trigger] self.handles()[p]) != index)
                ==> r.spec_is_empty(),
    ;
}

/// A double-ended iterator over all the elements in the list: fused,
/// exact-size, and drivable from either end in any interleaving. Written
/// once against the `GetByIndex` capability; it holds a shared borrow of
/// the container together with its two cursors and the remaining count.
pub struct ListIterG<'a, L: GetByIndex> {
    pub list: &'a L,
    pub start: ListIndex,
    pub end: ListIndex,
    pub len: usize,
    pub pos: Ghost<int>,
}

impl<'a, L: GetByIndex> ListIterG<'a, L> {
    /// The iterator's invariant: the container is well formed and the two
    /// cursors sit `len` positions apart on its chain — at position `pos`
    /// and position `pos + len - 1` — or are both "empty" once exhausted.
    pub open spec fn wf(&self) -> bool {
        &&& self.list.wf()
        &&& (if self.len == 0 {
            self.start.spec_is_empty() && self.end.spec_is_empty()
        } else {
            &&& 0 <= self.pos@
            &&& self.pos@ + self.len <= self.list.handles().len()
            &&& self.start == self.list.handles()[self.pos@]
            &&& self.end == self.list.handles()[self.pos@ + self.len - 1]
        })
    }

    /// The elements still to be produced, front to back.
    pub open spec fn remaining(&self) -> Seq<L::Item> {
        if self.len == 0 {
            Seq::empty()
        } else {
            self.list.elems().subrange(self.pos@, self.pos@ + self.len)
        }
    }

    /// Builds an iterator from the snapshot a container hands out: its
    /// head handle, tail handle, and element count.
    pub fn new(list: &'a L, start: ListIndex, end: ListIndex, len: usize) -> (it: ListIterG<
        'a,
        L,
    >)
        requires
            list.wf(),
            len == list.elems().len(),
            len > 0 ==> start == list.handles()[0] && end == list.handles()[len - 1],
            len == 0 ==> start.spec_is_empty() && end.spec_is_empty(),
        ensures
            it.wf(),
            it.list == list,
            it.len == len,
            it.remaining() == list.elems(),
    {
        let it = ListIterG { list, start, end, len, pos: Ghost(0 as int) };
        proof {
            list.lemma_wf();
            assert(it.remaining() =~= list.elems());
        }
        it
    }

    /// Collapse to the fused-empty state: both cursors "empty", nothing
    /// remaining.
    pub fn set_empty(&mut self)
        ensures
            final(self).list == old(self).list,
            final(self).len == 0,
            final(self).start.spec_is_empty(),
            final(self).end.spec_is_empty(),
            final(self).remaining() == Seq::<L::Item>::empty(),
            old(self).list.wf() ==> final(self).wf(),
    {
        self.start = ListIndex::new();
        self.end = ListIndex::new();
        self.len = 0;
    }

    /// Produce the next element from the front, or nothing once the
    /// iterator is exhausted — and, being fused, it then stays exhausted.
    pub fn next(&mut self) -> (r: Option<&'a L::Item>)
        requires
            old(self).wf(),
        ensures
            final(self).wf(),
            final(self).list == old(self).list,
            (match r {
                Some(item) => {
                    &&& old(self).len > 0
                    &&& final(self).len == old(self).len - 1
                    &&& *item == old(self).remaining()[0]
                    &&& old(self).len > 1 ==> final(self).pos@ == old(self).pos@ + 1
                    &&& final(self).remaining() == old(self).remaining().drop_first()
                },
                None => {
                    &&& old(self).len == 0
                    &&& *final(self) == *old(self)
                },
            }),
    {
        let list = self.list;
        proof {
            list.lemma_wf();
        }
        match list.get(self.start) {
            None => {
                proof {
                    if self.len > 0 {
                        assert(list.handles()[self.pos@] == self.start);
                        assert(false);
                    }
                }
                None
            },
            Some(item) => {
                proof {
                    if self.len == 0 {
                        let p = choose|p: int|
                            0 <= p < list.handles().len() && (#[trigger] list.handles()[p])
                                == self.start && *item == list.elems()[p];
                        assert(!list.handles()[p].spec_is_empty());
                        assert(false);
                    }
                    assert(list.handles()[self.pos@] == self.start);
                }
                let ghost f = self.pos@;
                if self.start == self.end {
                    proof {
                        if self.len != 1 {
                            assert(list.handles()[f] == list.handles()[f + self.len - 1]);
                            assert(false);
                        }
                    }
                    self.set_empty();
                    proof {
                        assert(old(self).remaining().drop_first() =~= Seq::<L::Item>::empty());
                    }
                } else {
                    proof {
                        if self.len == 1 {
                            assert(false);
                        }
                    }
                    self.start = list.next_index(self.start);
                    self.len = self.len - 1;
                    self.pos = Ghost(f + 1);
                    proof {
                        assert(self.remaining() =~= old(self).remaining().drop_first());
                    }
                }
                Some(item)
            },
        }
    }

    /// Produce the next element from the back, or nothing once the
    /// iterator is exhausted — and, being fused, it then stays exhausted.
    pub fn next_back(&mut self) -> (r: Option<&'a L::Item>)
        requires
            old(self).wf(),
        ensures
            final(self).wf(),
            final(self).list == old(self).list,
            (match r {
                Some(item) => {
                    &&& old(self).len > 0
                    &&& final(self).len == old(self).len - 1
                    &&& *item == old(self).remaining().last()
                    &&& old(self).len > 1 ==> final(self).pos@ == old(self).pos@
                    &&& final(self).remaining() == old(self).remaining().drop_last()
                },
                None => {
                    &&& old(self).len == 0
                    &&& *final(self) == *old(self)
                },
            }),
    {
        let list = self.list;
        proof {
            list.lemma_wf();
        }
        match list.get(self.end) {
            None => {
                proof {
                    if self.len > 0 {
                        assert(list.handles()[self.pos@ + self.len - 1] == self.end);
                        assert(false);
                    }
                }
                None
            },
            Some(item) => {
                proof {
                    if self.len == 0 {
                        let p = choose|p: int|
                            0 <= p < list.handles().len() && (#[trigger] list.handles()[p])
                                == self.end && *item == list.elems()[p];
                        assert(!list.handles()[p].spec_is_empty());
                        assert(false);
                    }
                    assert(list.handles()[self.pos@ + self.len - 1] == self.end);
                }
                let ghost f = self.pos@;
                if self.start == self.end {
                    proof {
                        if self.len != 1 {
                            assert(list.handles()[f] == list.handles()[f + self.len - 1]);
                            assert(false);
                        }
                    }
                    self.set_empty();
                    proof {
                        assert(old(self).remaining().drop_last() =~= Seq::<L::Item>::empty());
                    }
                } else {
                    proof {
                        if self.len == 1 {
                            assert(false);
                        }
                    }
                    self.end = list.prev_index(self.end);
                    self.len = self.len - 1;
                    proof {
                        assert(self.remaining() =~= old(self).remaining().drop_last());
                    }
                }
                Some(item)
            },
        }
    }

    /// Drains the iterator from the front, collecting every remaining
    /// element: each comes out exactly once, in link order.
    pub fn collect_forward(self) -> (v: Vec<L::Item>) where L::Item: Copy
        requires
            self.wf(),
        ensures
            v@ == self.remaining(),
    {
        let ghost orig = self;
        let mut it = self;
        let mut v: Vec<L::Item> = Vec::new();
        while it.len > 0
            invariant
                it.wf(),
                v@ + it.remaining() == orig.remaining(),
            decreases it.len,
        {
            proof {
                it.list.lemma_wf();
            }
            let ghost pre_v = v@;
            let ghost pre_rem = it.remaining();
            match it.next() {
                Some(x) => {
                    v.push(*x);
                    proof {
                        assert(pre_v + pre_rem == orig.remaining());
                        assert(v@ == pre_v.push(*x));
                        assert(it.remaining() == pre_rem.drop_first());
                        assert(v@ + it.remaining() =~= orig.remaining());
                    }
                },
                None => {
                    proof {
                        assert(false);
                    }
                },
            }
        }
        proof {
            assert(v@ =~= orig.remaining());
        }
        v
    }

    /// Drains the iterator from the back, collecting every remaining
    /// element: each comes out exactly once, and the result is the
    /// front-to-back order reversed.
    pub fn collect_backward(self) -> (v: Vec<L::Item>) where L::Item: Copy
        requires
            self.wf(),
        ensures
            v@ == self.remaining().reverse(),
            v@.reverse() == self.remaining(),
    {
        let ghost orig = self;
        let mut it = self;
        let mut v: Vec<L::Item> = Vec::new();
        while it.len > 0
            invariant
                it.wf(),
                it.remaining() + v@.reverse() == orig.remaining(),
            decreases it.len,
        {
            proof {
                it.list.lemma_wf();
            }
            let ghost pre_v = v@;
            let ghost pre_rem = it.remaining();
            match it.next_back() {
                Some(x) => {
                    v.push(*x);
                    proof {
                        assert(pre_rem + pre_v.reverse() == orig.remaining());
                        assert(v@ == pre_v.push(*x));
                        assert(it.remaining() == pre_rem.drop_last());
                        assert(v@.reverse() =~= seq![*x] + pre_v.reverse());
                        assert(it.remaining() + v@.reverse() =~= orig.remaining());
                    }
                },
                None => {
                    proof {
                        assert(false);
                    }
                },
            }
        }
        proof {
            assert(v@.reverse() =~= orig.remaining());
            assert(v@ =~= orig.remaining().reverse());
        }
        v
    }

    /// The exact number of productions still to come, as a size hint: the
    /// lower and upper bounds agree.
    pub fn size_hint(&self) -> (r: (usize, Option<usize>))
        ensures
            r.0 == self.len,
            r.1 == Some(self.len),
            self.wf() ==> self.len == self.remaining().len(),
    {
        proof {
            if self.wf() {
                self.list.lemma_wf();
            }
        }
        (self.len, Some(self.len))
    }
}

} // verus!
