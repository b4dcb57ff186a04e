use indexlist::indexlist::IndexList;

#[test]
fn alternating_mut_views_write_independently() {
    let mut l = IndexList::from_vec(vec![10u64, 20, 30]);
    let mut it = l.iter_mut();
    let a = it.next(&mut l).unwrap();
    assert_eq!(*a, 10);
    *a = 11;
    let c = it.next_back(&mut l).unwrap();
    assert_eq!(*c, 30);
    *c = 33;
    let b = it.next(&mut l).unwrap();
    assert_eq!(*b, 20);
    *b = 22;
    assert!(it.next(&mut l).is_none());
    assert!(it.next_back(&mut l).is_none());
    let mut out = Vec::new();
    let mut r = l.iter();
    while let Some(x) = r.next() {
        out.push(*x);
    }
    assert_eq!(out, vec![11u64, 22, 33]);
}

#[test]
fn mut_forward_pass_writes_every_element() {
    let mut l = IndexList::from_vec(vec![1u64, 2, 3, 4]);
    let mut it = l.iter_mut();
    while let Some(x) = it.next(&mut l) {
        *x *= 10;
    }
    let mut out = Vec::new();
    let mut r = l.iter();
    while let Some(x) = r.next() {
        out.push(*x);
    }
    assert_eq!(out, vec![10u64, 20, 30, 40]);
}

#[test]
fn mut_backward_pass_writes_every_element() {
    let mut l = IndexList::from_vec(vec![1u64, 2, 3]);
    let mut it = l.iter_mut();
    let mut bump = 100u64;
    while let Some(x) = it.next_back(&mut l) {
        *x += bump;
        bump += 100;
    }
    let mut out = Vec::new();
    let mut r = l.iter();
    while let Some(x) = r.next() {
        out.push(*x);
    }
    assert_eq!(out, vec![301u64, 202, 103]);
}

#[test]
fn mut_iterator_is_fused_and_exact_size() {
    let mut l = IndexList::from_vec(vec![5u64, 6]);
    let mut it = l.iter_mut();
    assert_eq!(it.size_hint(), (2, Some(2)));
    assert_eq!(it.next(&mut l).map(|x| *x), Some(5));
    assert_eq!(it.size_hint(), (1, Some(1)));
    assert_eq!(it.next_back(&mut l).map(|x| *x), Some(6));
    assert_eq!(it.size_hint(), (0, Some(0)));
    assert!(it.next(&mut l).is_none());
    assert!(it.next_back(&mut l).is_none());
    assert_eq!(it.size_hint(), (0, Some(0)));
}

#[test]
fn mut_single_element_from_either_end() {
    let mut l = IndexList::from_vec(vec![9u64]);
    let mut it = l.iter_mut();
    let x = it.next_back(&mut l).unwrap();
    assert_eq!(*x, 9);
    *x = 99;
    assert!(it.next(&mut l).is_none());
    assert!(it.next_back(&mut l).is_none());
    let mut r = l.iter();
    assert_eq!(r.next(), Some(&99));
    assert_eq!(r.next(), None);
}

#[test]
fn mut_empty_list_produces_nothing() {
    let mut l: IndexList<u64> = IndexList::from_vec(Vec::new());
    let mut it = l.iter_mut();
    assert_eq!(it.size_hint(), (0, Some(0)));
    assert!(it.next(&mut l).is_none());
    assert!(it.next_back(&mut l).is_none());
}

#[test]
fn mut_set_empty_fuses_the_iterator() {
    let mut l = IndexList::from_vec(vec![1u64, 2]);
    let mut it = l.iter_mut();
    it.set_empty();
    assert!(it.next(&mut l).is_none());
    assert!(it.next_back(&mut l).is_none());
}
