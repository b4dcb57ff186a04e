//! The definitions of the ListIndex type
use vstd::prelude::*;

verus! {

/// An opaque, copyable handle identifying a slot in the arena that backs an
/// `IndexList`. One reserved value, the "empty" sentinel, means "no slot":
/// it marks the end of the list during link navigation and the exhausted
/// state of an iterator.
#[derive(Clone, Copy, PartialEq, Eq, Structural, Debug)]
pub struct ListIndex {
    /// The raw slot number; `usize::MAX` is the reserved "empty" sentinel.
    /// Callers should treat handles as opaque and only compare them.
    pub ix: usize,
}

impl ListIndex {
    /// True of the reserved "empty" sentinel and of no other handle.
    pub open spec fn spec_is_empty(self) -> bool {
        self.ix == usize::MAX
    }

    /// The handle denoting the arena slot numbered `slot`.
    pub open spec fn spec_at(slot: int) -> ListIndex {
        ListIndex { ix: slot as usize }
    }

    /// The slot number a handle denotes.
    pub open spec fn slot(self) -> int {
        self.ix as int
    }

    /// The "empty" handle.
    pub fn new() -> (r: ListIndex)
        ensures
            r.spec_is_empty(),
    {
        ListIndex { ix: usize::MAX }
    }

    /// The handle for the slot numbered `slot`.
    pub(crate) fn at(slot: usize) -> (r: ListIndex)
        requires
            slot < usize::MAX,
        ensures
            r == ListIndex::spec_at(slot as int),
            !r.spec_is_empty(),
    {
        ListIndex { ix: slot }
    }

    /// Whether this handle is the "empty" sentinel.
    pub fn is_empty(&self) -> (r: bool)
        ensures
            r == self.spec_is_empty(),
    {
        self.ix == usize::MAX
    }
}

} // verus!
