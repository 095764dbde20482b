use gestalt_core::context::desc::TASK_NUM;
use gestalt_core::sheduler::{ExecList, List, Node};

fn links(l: &List<u32>, i: usize) -> (usize, usize) {
    (l.el_crate[i].next, l.el_crate[i].prev)
}

#[test]
fn new_list_has_every_slot_empty() {
    let mut l = List::new(0u32);
    for i in 0..TASK_NUM {
        assert!(l.is_el_empty(i));
        assert_eq!(*l.fetch(i), 0);
        assert_eq!(links(&l, i), (0, 0));
    }
}

#[test]
fn push_takes_lowest_free_slot_from_two() {
    let mut l = List::new(0u32);
    assert_eq!(l.push(5), 2);
    assert_eq!(l.push(7), 3);
    assert_eq!(l.push(9), 4);
    // ring 0 -> 2 -> 3 -> 4 -> 0
    assert_eq!(links(&l, 0), (2, 4));
    assert_eq!(links(&l, 2), (3, 0));
    assert_eq!(links(&l, 3), (4, 2));
    assert_eq!(links(&l, 4), (0, 3));
    assert!(!l.is_el_empty(3));
    assert!(l.is_el_empty(1));
    assert!(l.is_el_empty(5));
}

#[test]
fn push_then_fetch_gives_the_element_back() {
    let mut l = List::new(0u32);
    let a = l.push(11);
    let b = l.push(22);
    assert_eq!(*l.fetch(a), 11);
    assert_eq!(*l.fetch(b), 22);
}

#[test]
fn pop_unlinks_and_frees_the_slot() {
    let mut l = List::new(0u32);
    l.push(5);
    l.push(7);
    l.push(9);
    l.pop(3);
    assert!(l.is_el_empty(3));
    assert_eq!(*l.fetch(3), 0);
    // ring 0 -> 2 -> 4 -> 0
    assert_eq!(links(&l, 0), (2, 4));
    assert_eq!(links(&l, 2).0, 4);
    assert_eq!(links(&l, 4).1, 2);
    // the freed slot is the lowest free one again
    assert_eq!(l.push(13), 3);
    // and it is linked last: 0 -> 2 -> 4 -> 3 -> 0
    assert_eq!(links(&l, 4).0, 3);
    assert_eq!(links(&l, 3), (0, 4));
    assert_eq!(links(&l, 0).1, 3);
}

#[test]
fn pop_of_only_element_empties_the_ring() {
    let mut l = List::new(0u32);
    let t = l.push(1);
    l.pop(t);
    assert_eq!(links(&l, 0), (0, 0));
    assert!(l.is_el_empty(t));
}

#[test]
fn pop_undoes_push() {
    let mut l = List::new(0u32);
    l.push(5);
    l.push(7);
    let before: Vec<(u32, usize, usize)> = (0..TASK_NUM)
        .map(|i| (l.el_crate[i].elem, l.el_crate[i].next, l.el_crate[i].prev))
        .collect();
    let t = l.push(42);
    l.pop(t);
    for i in (0..TASK_NUM).filter(|i| *i != t) {
        assert_eq!((l.el_crate[i].elem, l.el_crate[i].next, l.el_crate[i].prev), before[i]);
    }
    assert!(l.is_el_empty(t));
}

#[test]
fn next_then_prev_comes_back() {
    let mut l = List::new(0u32);
    l.push(5);
    l.push(7);
    l.push(9);
    for x in [0usize, 2, 3, 4] {
        let n = l.el_crate[x].next;
        let p = l.el_crate[x].prev;
        assert_eq!(l.el_crate[n].prev, x);
        assert_eq!(l.el_crate[p].next, x);
    }
}

#[test]
fn push_keeps_the_first_element() {
    let mut l = List::new(0u32);
    l.push(5);
    let head = l.el_crate[0].next;
    l.push(7);
    l.push(9);
    assert_eq!(l.el_crate[0].next, head);
}

#[test]
fn list_fills_eight_slots() {
    let mut l = List::new(0u32);
    for k in 0..(TASK_NUM - 2) {
        assert_eq!(l.push(100 + k as u32), k + 2);
    }
    for i in 2..TASK_NUM {
        assert!(!l.is_el_empty(i));
    }
    assert_eq!(l.el_crate[0].prev, TASK_NUM - 1);
}

#[test]
fn nodes_compare_by_element_only() {
    let a = Node { elem: 3u32, next: 1, prev: 2 };
    let b = Node { elem: 3u32, next: 4, prev: 5 };
    let c = Node { elem: 4u32, next: 1, prev: 2 };
    assert!(a == b);
    assert!(!(a != b));
    assert!(a != c);
    assert!(!(a == c));
}
