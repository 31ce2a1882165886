use weak_lists::element::WeakListElement;
use weak_lists::list::WeakList;

/// Runs one full iteration, summing the payload keys it yields, and
/// gives the cursor back.
fn sum_all(list: &mut WeakList) -> u64 {
    let mut it = list.iter();
    let mut total: u64 = 0;
    loop {
        match it.next(list) {
            Some((_, key)) => total += key,
            None => break,
        }
    }
    it.finish(list);
    total
}

#[test]
fn clear() {
    let mut list = WeakList::new(1);
    let mut entry = WeakListElement::new(0);
    entry.attach(&mut list);
    let mut it = list.iter();
    assert!(it.next(&list).is_some());
    it.finish(&mut list);
    list.clear();
    let mut it = list.iter();
    assert!(it.next(&list).is_none());
    it.finish(&mut list);
}

#[test]
fn attach_detach() {
    let mut list = WeakList::new(1);
    let mut e0 = WeakListElement::new(1);
    let mut e1 = WeakListElement::new(2);
    let mut e2 = WeakListElement::new(4);
    assert_eq!(sum_all(&mut list), 0);
    e0.attach(&mut list);
    assert_eq!(sum_all(&mut list), 1);
    e1.attach(&mut list);
    assert_eq!(sum_all(&mut list), 3);
    e2.attach(&mut list);
    assert_eq!(sum_all(&mut list), 7);
    e1.detach(&mut list);
    assert_eq!(sum_all(&mut list), 5);
    // Attaching during an iteration puts the member past the snapshot
    // bound, so the running iteration does not see it.
    let mut it = list.iter();
    let mut total: u64 = 0;
    loop {
        match it.next(&list) {
            Some((_, k)) => {
                total += k;
                if k == 1 {
                    e1.attach(&mut list);
                }
            },
            None => break,
        }
    }
    it.finish(&mut list);
    assert_eq!(total, 5);
    assert_eq!(sum_all(&mut list), 7);
    e0.detach(&mut list);
    let mut it = list.iter();
    let mut total: u64 = 0;
    loop {
        match it.next(&list) {
            Some((_, k)) => {
                total += k;
                if k == 2 {
                    e0.attach(&mut list);
                }
            },
            None => break,
        }
    }
    it.finish(&mut list);
    assert_eq!(total, 6);
    assert_eq!(sum_all(&mut list), 7);
    // Detaching members from within the iteration: the ones already
    // yielded stay yielded once, the vacated positions stay vacated.
    let mut it = list.iter();
    let mut total: u64 = 0;
    loop {
        match it.next(&list) {
            Some((_, k)) => {
                total += k;
                if k == 1 {
                    e1.detach(&mut list);
                    e2.detach(&mut list);
                }
            },
            None => break,
        }
    }
    it.finish(&mut list);
    assert_eq!(total, 7);
    assert_eq!(sum_all(&mut list), 1);
}

#[test]
fn no_compact_with_iter() {
    let mut list = WeakList::new(1);
    let mut entries: Vec<WeakListElement> = Vec::new();
    for i in 0..16 {
        entries.push(WeakListElement::new(1u64 << i));
    }
    for e in entries.iter_mut() {
        e.attach(&mut list);
    }
    for i in 0..15 {
        entries[i].detach(&mut list);
    }
    // No iterator outstanding: opening one compacts first.
    let mut it1 = list.iter();
    assert_eq!(it1.end, 1);
    entries[0].attach(&mut list);
    assert_eq!(it1.next(&list).unwrap().1, 1 << 15);
    assert!(it1.next(&list).is_none());
    list.clear();
    for e in entries.iter_mut() {
        e.attach(&mut list);
    }
    for i in 0..15 {
        entries[i].detach(&mut list);
    }
    // `it1` is still open, so this one must not compact: the snapshot
    // keeps the full numbering, vacancies included.
    let mut it2 = list.iter();
    assert_eq!(it2.end, 16);
    entries[0].attach(&mut list);
    assert_eq!(it2.next(&list).unwrap().1, 1 << 15);
    assert!(it2.next(&list).is_none());
    it1.finish(&mut list);
    it2.finish(&mut list);
    assert_eq!(sum_all(&mut list), (1 << 15) + 1);
}

#[test]
fn clone_iter() {
    let mut list = WeakList::new(1);
    let mut e0 = WeakListElement::new(1);
    let mut e1 = WeakListElement::new(2);
    let mut e2 = WeakListElement::new(4);
    e0.attach(&mut list);
    e1.attach(&mut list);
    e2.attach(&mut list);
    let mut it1 = list.iter();
    it1.next(&list);
    let mut it2 = it1.duplicate(&mut list);
    assert_eq!(it1.next(&list), it2.next(&list));
    assert_eq!(it1.next(&list), it2.next(&list));
    assert_eq!(it1.next(&list), it2.next(&list));
    it1.finish(&mut list);
    it2.finish(&mut list);
}

#[test]
fn into_iter() {
    let mut list = WeakList::new(1);
    let mut e0 = WeakListElement::new(1);
    let mut e1 = WeakListElement::new(2);
    let mut e2 = WeakListElement::new(4);
    e0.attach(&mut list);
    e1.attach(&mut list);
    e2.attach(&mut list);
    let mut it1 = list.iter();
    let mut it2 = list.iter();
    assert_eq!(it1.next(&list), it2.next(&list));
    assert_eq!(it1.next(&list), it2.next(&list));
    assert_eq!(it1.next(&list), it2.next(&list));
    assert_eq!(it1.next(&list), it2.next(&list));
    it1.finish(&mut list);
    it2.finish(&mut list);
}

#[test]
fn detach_on_drop() {
    // When a member goes away its element detaches itself; the detach
    // that teardown performs is called directly here.
    let mut list = WeakList::new(1);
    let mut e = WeakListElement::new(1);
    e.attach(&mut list);
    assert_eq!(sum_all(&mut list), 1);
    e.detach(&mut list);
    assert_eq!(sum_all(&mut list), 0);
}

#[test]
fn mutation_during_iteration() {
    let mut list = WeakList::new(1);
    let mut h0 = WeakListElement::new(10);
    let mut h1 = WeakListElement::new(20);
    let mut h2 = WeakListElement::new(30);
    h0.attach(&mut list);
    h1.attach(&mut list);
    h2.attach(&mut list);
    let mut it = list.iter();
    assert_eq!(it.next(&list).unwrap().1, 10);
    h1.detach(&mut list);
    assert_eq!(it.next(&list).unwrap().1, 30);
    assert!(it.next(&list).is_none());
    it.finish(&mut list);
}

#[test]
fn detach_self_during_iteration() {
    let mut list = WeakList::new(1);
    let mut h0 = WeakListElement::new(10);
    let mut h1 = WeakListElement::new(20);
    let mut h2 = WeakListElement::new(30);
    h0.attach(&mut list);
    h1.attach(&mut list);
    h2.attach(&mut list);
    let mut it = list.iter();
    let mut seen: Vec<u64> = Vec::new();
    loop {
        match it.next(&list) {
            Some((_, k)) => {
                seen.push(k);
                if k == 20 {
                    h1.detach(&mut list);
                }
            },
            None => break,
        }
    }
    it.finish(&mut list);
    assert_eq!(seen, vec![10, 20, 30]);
    assert_eq!(sum_all(&mut list), 40);
}

#[test]
fn attach_during_iteration_is_safe() {
    let mut list = WeakList::new(1);
    let mut h0 = WeakListElement::new(1);
    let mut h1 = WeakListElement::new(2);
    let mut h2 = WeakListElement::new(4);
    h0.attach(&mut list);
    h1.attach(&mut list);
    let mut it = list.iter();
    assert_eq!(it.next(&list).unwrap().1, 1);
    h2.attach(&mut list);
    assert_eq!(it.next(&list).unwrap().1, 2);
    assert!(it.next(&list).is_none());
    it.finish(&mut list);
    assert_eq!(sum_all(&mut list), 7);
}

#[test]
fn compaction_bounds_storage() {
    let mut list = WeakList::new(1);
    let mut keep = WeakListElement::new(7);
    keep.attach(&mut list);
    for _ in 0..10 {
        let mut e = WeakListElement::new(9);
        e.attach(&mut list);
        e.detach(&mut list);
        assert_eq!(sum_all(&mut list), 7);
        assert!(list.members.index_len() <= 2);
    }
}

#[test]
fn duplicate_counts_as_iterator() {
    let mut list = WeakList::new(1);
    let mut e = WeakListElement::new(5);
    e.attach(&mut list);
    let it1 = list.iter();
    assert_eq!(list.active_iterators, 1);
    let it2 = it1.duplicate(&mut list);
    assert_eq!(list.active_iterators, 2);
    it1.finish(&mut list);
    it2.finish(&mut list);
    assert_eq!(list.active_iterators, 0);
}

#[test]
fn empty_iteration() {
    let mut list = WeakList::new(1);
    let mut it = list.iter();
    assert_eq!(it.end, 0);
    assert!(it.next(&list).is_none());
    assert!(it.next(&list).is_none());
    it.finish(&mut list);
}

#[test]
fn same_payload_under_two_elements() {
    let mut list = WeakList::new(1);
    let mut a = WeakListElement::new(5);
    let mut b = WeakListElement::new(5);
    a.attach(&mut list);
    b.attach(&mut list);
    assert_eq!(sum_all(&mut list), 10);
}

#[test]
fn reattach_reassigns_id() {
    let mut list = WeakList::new(1);
    let mut e = WeakListElement::new(5);
    e.attach(&mut list);
    assert_eq!(e.id, 0);
    assert_eq!(e.owner_tag(), Some(1));
    e.attach(&mut list);
    assert_eq!(e.id, 1);
    assert_eq!(e.owner_tag(), Some(1));
    assert_eq!(sum_all(&mut list), 5);
}

#[test]
fn release_clears_only_the_record() {
    // `release` is the path taken when the owning registry is already
    // unreachable; the registry is kept alive here only to observe that
    // release touched the element alone.
    let mut list = WeakList::new(3);
    let mut e = WeakListElement::new(5);
    e.attach(&mut list);
    assert_eq!(e.owner_tag(), Some(3));
    assert_eq!(e.release(), Some(3));
    assert_eq!(e.owner_tag(), None);
    assert_eq!(e.release(), None);
    e.detach(&mut list);
    assert_eq!(sum_all(&mut list), 5);
}

#[test]
fn clear_keeps_element_beliefs() {
    let mut list = WeakList::new(1);
    let mut e = WeakListElement::new(5);
    e.attach(&mut list);
    list.clear();
    assert_eq!(e.owner_tag(), Some(1));
    e.detach(&mut list);
    assert_eq!(sum_all(&mut list), 0);
    e.attach(&mut list);
    assert_eq!(sum_all(&mut list), 5);
}

#[test]
fn fused_after_exhaustion() {
    let mut list = WeakList::new(1);
    let mut e = WeakListElement::new(5);
    e.attach(&mut list);
    let mut it = list.iter();
    assert!(it.next(&list).is_some());
    assert!(it.next(&list).is_none());
    assert!(it.next(&list).is_none());
    it.finish(&mut list);
}

#[test]
fn compaction_preserves_order() {
    let mut list = WeakList::new(1);
    let mut a = WeakListElement::new(10);
    let mut b = WeakListElement::new(20);
    let mut c = WeakListElement::new(30);
    a.attach(&mut list);
    b.attach(&mut list);
    c.attach(&mut list);
    a.detach(&mut list);
    let mut it = list.iter();
    assert_eq!(it.end, 2);
    let mut seen: Vec<u64> = Vec::new();
    loop {
        match it.next(&list) {
            Some((_, k)) => seen.push(k),
            None => break,
        }
    }
    it.finish(&mut list);
    assert_eq!(seen, vec![20, 30]);
}

#[test]
fn collect_entries_in_order() {
    let mut list = WeakList::new(1);
    let mut a = WeakListElement::new(10);
    let mut b = WeakListElement::new(20);
    let mut c = WeakListElement::new(30);
    a.attach(&mut list);
    b.attach(&mut list);
    c.attach(&mut list);
    b.detach(&mut list);
    let entries = list.collect_entries();
    assert_eq!(entries, vec![(0, 10), (2, 30)]);
    assert_eq!(list.active_iterators, 0);
}
