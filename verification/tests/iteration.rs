use indexlist::indexlist::IndexList;

#[test]
fn forward_yields_in_order_then_nothing() {
    let l = IndexList::from_vec(vec![1u64, 2, 3]);
    let mut it = l.iter();
    assert_eq!(it.size_hint(), (3, Some(3)));
    assert_eq!(it.next(), Some(&1));
    assert_eq!(it.size_hint(), (2, Some(2)));
    assert_eq!(it.next(), Some(&2));
    assert_eq!(it.size_hint(), (1, Some(1)));
    assert_eq!(it.next(), Some(&3));
    assert_eq!(it.size_hint(), (0, Some(0)));
    assert_eq!(it.next(), None);
    assert_eq!(it.next(), None);
    assert_eq!(it.next_back(), None);
}

#[test]
fn backward_yields_reverse_order_then_nothing() {
    let l = IndexList::from_vec(vec![1u64, 2, 3]);
    let mut it = l.iter();
    assert_eq!(it.next_back(), Some(&3));
    assert_eq!(it.next_back(), Some(&2));
    assert_eq!(it.next_back(), Some(&1));
    assert_eq!(it.next_back(), None);
    assert_eq!(it.next(), None);
}

#[test]
fn back_to_front_reversed_equals_front_to_back() {
    let elems = vec![4u64, 9, 2, 7, 7, 1];
    let l = IndexList::from_vec(elems.clone());
    let mut forward = Vec::new();
    let mut it = l.iter();
    while let Some(x) = it.next() {
        forward.push(*x);
    }
    let mut backward = Vec::new();
    let mut it = l.iter();
    while let Some(x) = it.next_back() {
        backward.push(*x);
    }
    backward.reverse();
    assert_eq!(forward, elems);
    assert_eq!(backward, elems);
}

#[test]
fn interleaved_production_yields_each_once() {
    let l = IndexList::from_vec(vec![1u64, 2, 3, 4, 5]);
    let mut it = l.iter();
    assert_eq!(it.next(), Some(&1));
    assert_eq!(it.next_back(), Some(&5));
    assert_eq!(it.next(), Some(&2));
    assert_eq!(it.next_back(), Some(&4));
    assert_eq!(it.size_hint(), (1, Some(1)));
    assert_eq!(it.next(), Some(&3));
    assert_eq!(it.next(), None);
    assert_eq!(it.next_back(), None);
}

#[test]
fn single_element_front_collapses_meeting_point() {
    let l = IndexList::from_vec(vec![42u64]);
    let mut it = l.iter();
    assert_eq!(it.size_hint(), (1, Some(1)));
    assert_eq!(it.next(), Some(&42));
    assert_eq!(it.size_hint(), (0, Some(0)));
    assert_eq!(it.next(), None);
    assert_eq!(it.next_back(), None);
}

#[test]
fn single_element_back_collapses_meeting_point() {
    let l = IndexList::from_vec(vec![42u64]);
    let mut it = l.iter();
    assert_eq!(it.next_back(), Some(&42));
    assert_eq!(it.next_back(), None);
    assert_eq!(it.next(), None);
}

#[test]
fn empty_list_produces_nothing_from_the_start() {
    let l: IndexList<u64> = IndexList::from_vec(Vec::new());
    let mut it = l.iter();
    assert_eq!(it.size_hint(), (0, Some(0)));
    assert_eq!(it.next(), None);
    assert_eq!(it.next_back(), None);
    assert_eq!(it.next(), None);
}

#[test]
fn collect_forward_returns_the_list_in_order() {
    let l = IndexList::from_vec(vec![5u64, 8, 13, 21]);
    assert_eq!(l.iter().collect_forward(), vec![5u64, 8, 13, 21]);
    let e: IndexList<u64> = IndexList::from_vec(Vec::new());
    assert_eq!(e.iter().collect_forward(), Vec::<u64>::new());
}

#[test]
fn collect_backward_is_collect_forward_reversed() {
    let l = IndexList::from_vec(vec![5u64, 8, 13, 21]);
    let mut back = l.iter().collect_backward();
    assert_eq!(back, vec![21u64, 13, 8, 5]);
    back.reverse();
    assert_eq!(back, l.iter().collect_forward());
}

#[test]
fn partially_driven_iterator_collects_what_remains() {
    let l = IndexList::from_vec(vec![1u64, 2, 3, 4, 5]);
    let mut it = l.iter();
    assert_eq!(it.next(), Some(&1));
    assert_eq!(it.next_back(), Some(&5));
    assert_eq!(it.collect_forward(), vec![2u64, 3, 4]);
}

#[test]
fn set_empty_fuses_the_iterator() {
    let l = IndexList::from_vec(vec![1u64, 2, 3]);
    let mut it = l.iter();
    assert_eq!(it.next(), Some(&1));
    it.set_empty();
    assert_eq!(it.size_hint(), (0, Some(0)));
    assert_eq!(it.next(), None);
    assert_eq!(it.next_back(), None);
}
