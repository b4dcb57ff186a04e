use indexlist::indexlist::IndexList;
use indexlist::listindex::ListIndex;
use indexlist::listiter::GetByIndex;
use indexlist::listiter::ListIterG;

#[test]
fn from_vec_and_len() {
    let l = IndexList::from_vec(vec![3u64, 1, 4]);
    assert_eq!(l.len(), 3);
    let e: IndexList<u64> = IndexList::from_vec(Vec::new());
    assert_eq!(e.len(), 0);
}

#[test]
fn link_navigation_walks_the_chain() {
    let l = IndexList::from_vec(vec![3u64, 1, 4]);
    let h0 = l.head();
    assert!(!h0.is_empty());
    assert_eq!(l.get(h0), Some(&3));
    let h1 = l.next_index(h0);
    assert_eq!(l.get(h1), Some(&1));
    let h2 = l.next_index(h1);
    assert_eq!(l.get(h2), Some(&4));
    assert_eq!(h2, l.tail());
    assert!(l.next_index(h2).is_empty());
    assert_eq!(l.prev_index(h2), h1);
    assert_eq!(l.prev_index(h1), h0);
    assert!(l.prev_index(h0).is_empty());
}

#[test]
fn lookup_of_absent_handle_finds_nothing() {
    let l = IndexList::from_vec(vec![3u64, 1, 4]);
    assert_eq!(l.get(ListIndex::new()), None);
    let past_the_end = l.next_index(l.tail());
    assert_eq!(l.get(past_the_end), None);
}

#[test]
fn empty_list_has_empty_ends() {
    let e: IndexList<u64> = IndexList::from_vec(Vec::new());
    assert!(e.head().is_empty());
    assert!(e.tail().is_empty());
    assert_eq!(e.get(e.head()), None);
}

#[test]
fn iterator_built_from_the_container_snapshot() {
    let l = IndexList::from_vec(vec![8u64, 6, 7]);
    let mut it = ListIterG::new(&l, l.head(), l.tail(), l.len());
    assert_eq!(it.size_hint(), (3, Some(3)));
    assert_eq!(it.next(), Some(&8));
    assert_eq!(it.next_back(), Some(&7));
    assert_eq!(it.next(), Some(&6));
    assert_eq!(it.next(), None);
}
