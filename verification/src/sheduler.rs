//! Fixed-capacity doubly linked lists kept inside an array, and an executor
//! that runs the functions stored in such a list.
//!
//! Slot 0 of every list is its sentinel: following `next` from slot 0 walks
//! the linked slots in insertion order and comes back to slot 0; `prev` walks
//! the same ring backwards. A slot whose element equals the list's `empty`
//! value is free; `push` takes the lowest free slot from slot 2 on, so slots 0
//! and 1 are never handed out by `push` (the executor links slot 1 as a fixed
//! first element).

use crate::context::desc::TASK_NUM;
use vstd::prelude::*;
use vstd::std_specs::cmp::{PartialEqSpec, PartialEqSpecImpl};

verus! {

/// How the executor's cursor (or the kernel's active thread) moves.
pub enum ActiveElSetting {
    NEXT,
    PREV,
    ARBITRARY(usize),
}

/// The function that marks a free slot of an executor's list; it does nothing.
pub fn def_fn() {
}

/// One slot of a list: the stored element and the indices of its neighbours.
#[derive(Debug, Clone, Copy)]
pub struct Node<T> {
    pub elem: T,
    pub next: usize,
    pub prev: usize,
}

/// Two slots are equal when their elements are; the links are not compared.
impl<T: PartialEq> PartialEq for Node<T> {
    fn eq(&self, other: &Self) -> (r: bool) {
        self.elem == other.elem
    }

    fn ne(&self, other: &Self) -> (r: bool) {
        self.elem != other.elem
    }
}

impl<T: PartialEq> PartialEqSpecImpl for Node<T> {
    open spec fn obeys_eq_spec() -> bool {
        T::obeys_eq_spec()
    }

    open spec fn eq_spec(&self, other: &Self) -> bool {
        self.elem.eq_spec(&other.elem)
    }
}

impl<T: Eq> Eq for Node<T> {
}

/// A doubly linked ring of at most `TASK_NUM - 1` elements kept in an array.
///
/// `order` is the sequence of linked slots, in the order in which `next`
/// visits them starting from the sentinel slot 0.
#[derive(Clone, Copy)]
pub struct List<T> {
    pub empty: T,
    pub el_crate: [Node<T>; TASK_NUM],
    pub order: Ghost<Seq<usize>>,
}

/// The slot that follows position `k` of `order` on the ring (0 after the last).
pub open spec fn next_in(order: Seq<usize>, k: int) -> usize {
    if k + 1 < order.len() {
        order[k + 1]
    } else {
        0
    }
}

/// The slot that precedes position `k` of `order` on the ring (0 before the first).
pub open spec fn prev_in(order: Seq<usize>, k: int) -> usize {
    if k == 0 {
        0
    } else {
        order[k - 1]
    }
}

/// The first linked slot, or the sentinel when nothing is linked.
pub open spec fn head_of(order: Seq<usize>) -> usize {
    if order.len() == 0 {
        0
    } else {
        order[0]
    }
}

/// The last linked slot, or the sentinel when nothing is linked.
pub open spec fn tail_of(order: Seq<usize>) -> usize {
    if order.len() == 0 {
        0
    } else {
        order.last()
    }
}

/// Slot `i` holds the empty value, i.e. it is free.
pub open spec fn is_vacant<T: PartialEq>(s: Seq<Node<T>>, empty: T, i: int) -> bool {
    s[i].elem.eq_spec(&empty)
}

/// Some slot from 2 on is free, so `push` finds a place.
pub open spec fn has_vacancy<T: PartialEq>(s: Seq<Node<T>>, empty: T) -> bool {
    exists|i: int| 2 <= i < TASK_NUM && #[trigger] is_vacant(s, empty, i)
}

/// `r` is the lowest free slot from 2 on.
pub open spec fn first_vacancy<T: PartialEq>(s: Seq<Node<T>>, empty: T, r: int) -> bool {
    &&& 2 <= r < TASK_NUM
    &&& is_vacant(s, empty, r)
    &&& forall|j: int| 2 <= j < r ==> !#[trigger] is_vacant(s, empty, j)
}

/// The slots `s`, linked as a ring through slot 0 in the order `order`, with
/// exactly the slots from 2 on that hold a non-empty element linked.
pub open spec fn list_wf<T: PartialEq>(s: Seq<Node<T>>, empty: T, order: Seq<usize>) -> bool {
    &&& s.len() == TASK_NUM
    &&& empty.eq_spec(&empty)
    &&& order.no_duplicates()
    &&& forall|k: int| 0 <= k < order.len() ==> 1 <= #[trigger] order[k] < TASK_NUM
    &&& forall|k: int|
        0 <= k < order.len() ==> s[#[trigger] order[k] as int].next == next_in(order, k)
            && s[order[k] as int].prev == prev_in(order, k)
    &&& s[0].next == head_of(order)
    &&& s[0].prev == tail_of(order)
    &&& forall|i: int|
        2 <= i < TASK_NUM ==> (order.contains(i as usize) <==> !#[trigger] is_vacant(s, empty, i))
}

/// `s` with the element of slot `i` replaced.
pub open spec fn with_elem<T>(s: Seq<Node<T>>, i: int, e: T) -> Seq<Node<T>> {
    s.update(i, Node { elem: e, next: s[i].next, prev: s[i].prev })
}

/// `s` with the `next` link of slot `i` replaced.
pub open spec fn with_next<T>(s: Seq<Node<T>>, i: int, v: usize) -> Seq<Node<T>> {
    s.update(i, Node { elem: s[i].elem, next: v, prev: s[i].prev })
}

/// `s` with the `prev` link of slot `i` replaced.
pub open spec fn with_prev<T>(s: Seq<Node<T>>, i: int, v: usize) -> Seq<Node<T>> {
    s.update(i, Node { elem: s[i].elem, next: s[i].next, prev: v })
}

/// The slots after `obj` is stored in slot `r` and linked behind the slot
/// that `s[0].prev` names.
pub open spec fn appended<T>(s: Seq<Node<T>>, r: int, obj: T) -> Seq<Node<T>> {
    let h = s[0].prev;
    let s1 = s.update(r, Node { elem: obj, next: 0, prev: h });
    let s2 = with_next(s1, h as int, r as usize);
    with_prev(s2, 0, r as usize)
}

/// The slots after slot `id` is emptied and its neighbours (as `id`'s links
/// name them) are joined to each other.
pub open spec fn unlinked<T>(s: Seq<Node<T>>, id: int, empty: T) -> Seq<Node<T>> {
    let p = s[id].prev;
    let n = s[id].next;
    with_prev(with_next(with_elem(s, id, empty), p as int, n), n as int, p)
}

/// Every slot holds `empty` and both links are 0.
pub open spec fn cleared<T>(empty: T) -> Seq<Node<T>> {
    Seq::new(TASK_NUM as nat, |i: int| Node { elem: empty, next: 0usize, prev: 0usize })
}

/// Linking a non-empty element into a free slot keeps a list well formed, and
/// appends that slot to the ring order.
pub proof fn lemma_appended_wf<T: PartialEq>(s: Seq<Node<T>>, empty: T, order: Seq<usize>, r: int, obj: T)
    requires
        list_wf(s, empty, order),
        2 <= r < TASK_NUM,
        is_vacant(s, empty, r),
        !obj.eq_spec(&empty),
    ensures
        list_wf(appended(s, r, obj), empty, order.push(r as usize)),
{
    let s2 = appended(s, r, obj);
    let o2 = order.push(r as usize);
    let h = s[0].prev;
    assert(!order.contains(r as usize));
    assert(h == 0 || order.contains(h)) by {
        if order.len() > 0 {
            assert(order[order.len() - 1] == h);
        }
    }
    assert(h != r);
    assert(o2.no_duplicates()) by {
        assert forall|a: int, b: int| 0 <= a < b < o2.len() implies o2[a] != o2[b] by {
            if b == o2.len() - 1 {
                assert(order[a] == o2[a]);
            } else {
                assert(order[a] == o2[a] && order[b] == o2[b]);
            }
        }
    }
    assert forall|k: int| 0 <= k < o2.len() implies 1 <= #[trigger] o2[k] < TASK_NUM by {
        if k < order.len() {
            assert(o2[k] == order[k]);
        }
    }
    assert forall|k: int| 0 <= k < o2.len() implies s2[#[trigger] o2[k] as int].next == next_in(o2, k)
        && s2[o2[k] as int].prev == prev_in(o2, k) by {
        if k < order.len() {
            assert(o2[k] == order[k]);
            assert(order[k] != 0);
            assert(order[k] != r);
            if k + 1 < order.len() {
                assert(o2[k + 1] == order[k + 1]);
            }
            if k > 0 {
                assert(o2[k - 1] == order[k - 1]);
            }
            if k == order.len() - 1 {
                assert(h == order[k]);
            } else {
                assert(order[k] != h) by {
                    assert(order[order.len() - 1] == h);
                }
            }
        } else {
            assert(o2[k] == r);
            if k > 0 {
                assert(o2[k - 1] == order[k - 1]);
                assert(h == order[k - 1]);
            }
        }
    }
    assert forall|i: int| 2 <= i < TASK_NUM implies (o2.contains(i as usize) <==> !#[trigger] is_vacant(
        s2,
        empty,
        i,
    )) by {
        if i == r {
            assert(o2[o2.len() - 1] == r);
            assert(s2[r].elem == obj);
        } else {
            assert(s2[i].elem == s[i].elem);
            assert(order.contains(i as usize) <==> !is_vacant(s, empty, i));
            if order.contains(i as usize) {
                let k = choose|k: int| 0 <= k < order.len() && order[k] == i as usize;
                assert(o2[k] == i as usize);
            }
            if o2.contains(i as usize) {
                let k = choose|k: int| 0 <= k < o2.len() && o2[k] == i as usize;
                assert(k < order.len());
                assert(order[k] == i as usize);
            }
        }
    }
}

/// How `unlinked` changes the slots: the emptied slot, the two neighbours it
/// names, and nothing else.
proof fn lemma_unlinked_slots<T>(s: Seq<Node<T>>, id: int, empty: T)
    requires
        0 <= id < s.len(),
        0 <= s[id].prev < s.len(),
        0 <= s[id].next < s.len(),
        s[id].prev != id,
        s[id].next != id,
    ensures
        ({
            let s2 = unlinked(s, id, empty);
            let p = s[id].prev as int;
            let n = s[id].next as int;
            &&& s2.len() == s.len()
            &&& s2[id] == Node { elem: empty, next: s[id].next, prev: s[id].prev }
            &&& s2[p].next == n
            &&& s2[n].prev == p
            &&& p != n ==> s2[p].prev == s[p].prev && s2[n].next == s[n].next
            &&& s2[p].elem == s[p].elem && s2[n].elem == s[n].elem
            &&& forall|x: int| 0 <= x < s.len() && x != id && x != p && x != n ==> #[trigger] s2[x] == s[x]
        }),
{
}

/// Removing position `k` from a sequence without duplicates leaves none.
proof fn lemma_remove_no_duplicates(order: Seq<usize>, k: int)
    requires
        order.no_duplicates(),
        0 <= k < order.len(),
    ensures
        order.remove(k).no_duplicates(),
        forall|x: usize| #[trigger] order.remove(k).contains(x) <==> order.contains(x) && x != order[k],
{
    let o2 = order.remove(k);
    order.remove_ensures(k);
    assert forall|a: int, b: int| 0 <= a < b < o2.len() implies o2[a] != o2[b] by {
        let a1 = if a < k { a } else { a + 1 };
        let b1 = if b < k { b } else { b + 1 };
        assert(o2[a] == order[a1] && o2[b] == order[b1]);
    }
    assert forall|x: usize| #[trigger] o2.contains(x) <==> order.contains(x) && x != order[k] by {
        if o2.contains(x) {
            let j = choose|j: int| 0 <= j < o2.len() && o2[j] == x;
            let j1 = if j < k { j } else { j + 1 };
            assert(order[j1] == x);
        }
        if order.contains(x) && x != order[k] {
            let j = choose|j: int| 0 <= j < order.len() && order[j] == x;
            let j2 = if j < k { j } else { j - 1 };
            assert(o2[j2] == x);
        }
    }
}

/// After unlinking `order[k]`, the slot at position `j` of the shortened
/// order has the links that the shortened ring asks for.
#[verifier::rlimit(40)]
proof fn lemma_unlinked_link<T: PartialEq>(s: Seq<Node<T>>, empty: T, order: Seq<usize>, k: int, j: int)
    requires
        list_wf(s, empty, order),
        0 <= k < order.len(),
        0 <= j < order.len() - 1,
    ensures
        ({
            let o2 = order.remove(k);
            let s2 = unlinked(s, order[k] as int, empty);
            s2[o2[j] as int].next == next_in(o2, j) && s2[o2[j] as int].prev == prev_in(o2, j)
        }),
{
    let id = order[k] as int;
    let o2 = order.remove(k);
    let s2 = unlinked(s, id, empty);
    assert(s[order[k] as int].next == next_in(order, k));
    let p = s[id].prev as int;
    let n = s[id].next as int;
    order.remove_ensures(k);
    assert(p != id && n != id) by {
        if k > 0 {
            assert(order[k - 1] != order[k]);
        }
        if k + 1 < order.len() {
            assert(order[k + 1] != order[k]);
        }
    }
    lemma_unlinked_slots(s, id, empty);
    let j1 = if j < k { j } else { j + 1 };
    let x = order[j1];
    assert(o2[j] == x);
    assert(s[order[j1] as int].next == next_in(order, j1));
    assert(x != id) by {
        assert(order[j1] != order[k]);
    }
    if j + 1 < o2.len() {
        let j2 = if j + 1 < k { j + 1 } else { j + 2 };
        assert(o2[j + 1] == order[j2]);
    }
    if j > 0 {
        let j0 = if j - 1 < k { j - 1 } else { j };
        assert(o2[j - 1] == order[j0]);
    }
    if j1 == k - 1 {
        assert(x == p);
        if k + 1 < order.len() {
            assert(order[k - 1] != order[k + 1]);
        }
    } else {
        assert(x != p) by {
            if k > 0 {
                assert(order[j1] != order[k - 1]);
            }
        }
    }
    if j1 == k + 1 {
        assert(x == n);
    } else {
        assert(x != n) by {
            if k + 1 < order.len() {
                assert(order[j1] != order[k + 1]);
            }
        }
    }
}

/// Unlinking a linked slot keeps a list well formed, and removes that slot
/// from the ring order.
pub proof fn lemma_unlinked_wf<T: PartialEq>(s: Seq<Node<T>>, empty: T, order: Seq<usize>, id: int)
    requires
        list_wf(s, empty, order),
        0 <= id < TASK_NUM,
        order.contains(id as usize),
    ensures
        list_wf(unlinked(s, id, empty), empty, order.remove(order.index_of(id as usize))),
{
    let k = order.index_of(id as usize);
    let o2 = order.remove(k);
    let s2 = unlinked(s, id, empty);
    assert(order[k] == id as usize);
    assert(s[order[k] as int].next == next_in(order, k));
    let p = s[id].prev as int;
    let n = s[id].next as int;
    order.remove_ensures(k);
    assert(p != id && n != id) by {
        if k > 0 {
            assert(order[k - 1] != order[k]);
        }
        if k + 1 < order.len() {
            assert(order[k + 1] != order[k]);
        }
    }
    lemma_unlinked_slots(s, id, empty);
    lemma_remove_no_duplicates(order, k);
    assert forall|j: int| 0 <= j < o2.len() implies 1 <= #[trigger] o2[j] < TASK_NUM by {
        let j1 = if j < k { j } else { j + 1 };
        assert(o2[j] == order[j1]);
    }
    assert forall|j: int| 0 <= j < o2.len() implies s2[#[trigger] o2[j] as int].next == next_in(o2, j)
        && s2[o2[j] as int].prev == prev_in(o2, j) by {
        lemma_unlinked_link(s, empty, order, k, j);
    }
    assert(s2[0].next == head_of(o2)) by {
        if k > 0 {
            assert(o2[0] == order[0]);
            assert(order[0] != 0);
            if n == 0 {
                assert(p == order[k - 1]);
            }
        } else if o2.len() > 0 {
            assert(o2[0] == order[1]);
        }
    }
    assert(s2[0].prev == tail_of(o2)) by {
        if k + 1 < order.len() {
            assert(o2[o2.len() - 1] == order[order.len() - 1]);
            assert(order[order.len() - 1] != 0);
        } else if o2.len() > 0 {
            assert(o2[o2.len() - 1] == order[k - 1]);
        }
    }
    assert forall|i: int| 2 <= i < TASK_NUM implies (o2.contains(i as usize) <==> !#[trigger] is_vacant(
        s2,
        empty,
        i,
    )) by {
        assert(o2.contains(i as usize) <==> order.contains(i as usize) && i as usize != order[k]);
        if i == id {
            assert(s2[i].elem == empty);
        } else {
            assert(s2[i].elem == s[i].elem);
            assert(order.contains(i as usize) <==> !is_vacant(s, empty, i));
        }
    }
}

/// Operations on a list of elements of type `T`.
///
/// `slots`, `empty_value` and `tokens` expose the list's array, the value that
/// marks a free slot, and the linked slots in ring order.
pub trait ExecList<T: PartialEq>: Sized {
    spec fn slots(&self) -> Seq<Node<T>>;

    spec fn empty_value(&self) -> T;

    spec fn tokens(&self) -> Seq<usize>;

    /// Whether slot `numb` holds the empty value (is free).
    fn is_el_empty(&mut self, numb: usize) -> (r: bool)
        requires
            numb < TASK_NUM,
            old(self).slots().len() == TASK_NUM,
        ensures
            T::obeys_eq_spec() ==> r == is_vacant(old(self).slots(), old(self).empty_value(), numb as int),
            *final(self) == *old(self),
    ;

    /// Stores `obj` in the lowest free slot from 2 on, links it at the end of
    /// the ring, and returns that slot.
    fn push(&mut self, obj: T) -> (r: usize)
        requires
            old(self).slots().len() == TASK_NUM,
            T::obeys_eq_spec(),
            has_vacancy(old(self).slots(), old(self).empty_value()),
            old(self).slots()[0].prev < TASK_NUM,
        ensures
            first_vacancy(old(self).slots(), old(self).empty_value(), r as int),
            final(self).slots() == appended(old(self).slots(), r as int, obj),
            final(self).empty_value() == old(self).empty_value(),
            final(self).tokens() == old(self).tokens().push(r),
            list_wf(old(self).slots(), old(self).empty_value(), old(self).tokens()) && !obj.eq_spec(
                &old(self).empty_value(),
            ) ==> list_wf(final(self).slots(), final(self).empty_value(), final(self).tokens()),
    ;

    /// Empties slot `id` and joins the slots its links name to each other.
    fn pop(&mut self, id: usize)
        requires
            old(self).slots().len() == TASK_NUM,
            id < TASK_NUM,
            old(self).slots()[id as int].prev < TASK_NUM,
            old(self).slots()[id as int].next < TASK_NUM,
        ensures
            final(self).slots() == unlinked(old(self).slots(), id as int, old(self).empty_value()),
            final(self).empty_value() == old(self).empty_value(),
            old(self).tokens().contains(id) ==> final(self).tokens() == old(self).tokens().remove(
                old(self).tokens().index_of(id),
            ),
            !old(self).tokens().contains(id) ==> final(self).tokens() == old(self).tokens(),
            list_wf(old(self).slots(), old(self).empty_value(), old(self).tokens())
                && old(self).tokens().contains(id) ==> list_wf(
                final(self).slots(),
                final(self).empty_value(),
                final(self).tokens(),
            ),
    ;

    /// The element stored in slot `id`.
    fn fetch(&self, id: usize) -> (r: &T)
        requires
            id < TASK_NUM,
            self.slots().len() == TASK_NUM,
        ensures
            *r == self.slots()[id as int].elem,
    ;
}

impl<T: PartialEq + Copy> ExecList<T> for List<T> {
    open spec fn slots(&self) -> Seq<Node<T>> {
        self.el_crate@
    }

    open spec fn empty_value(&self) -> T {
        self.empty
    }

    open spec fn tokens(&self) -> Seq<usize> {
        self.order@
    }

    fn is_el_empty(&mut self, numb: usize) -> (r: bool) {
        self.el_crate[numb].elem == self.empty
    }

    fn push(&mut self, obj: T) -> (r: usize) {
        let mut i: usize = 2;
        while !(self.el_crate[i].elem == self.empty)
            invariant
                2 <= i < TASK_NUM,
                T::obeys_eq_spec(),
                has_vacancy(self.el_crate@, self.empty),
                forall|j: int| 2 <= j < i ==> !#[trigger] is_vacant(self.el_crate@, self.empty, j),
            decreases TASK_NUM - i,
        {
            i = i + 1;
            assert(i < TASK_NUM) by {
                let w = choose|w: int| 2 <= w < TASK_NUM && #[trigger] is_vacant(self.el_crate@, self.empty, w);
                assert(w >= i);
            }
        }
        let h = self.el_crate[0].prev;
        self.el_crate[i] = Node { elem: obj, next: 0, prev: h };
        self.el_crate[h].next = i;
        self.el_crate[0].prev = i;
        proof {
            if list_wf(old(self).el_crate@, old(self).empty, old(self).order@) && !obj.eq_spec(&old(self).empty) {
                lemma_appended_wf(old(self).el_crate@, old(self).empty, old(self).order@, i as int, obj);
            }
            self.order@ = self.order@.push(i);
        }
        i
    }

    fn pop(&mut self, id: usize) {
        self.el_crate[id].elem = self.empty;
        let p = self.el_crate[id].prev;
        let n = self.el_crate[id].next;
        self.el_crate[p].next = n;
        let p2 = self.el_crate[id].prev;
        let n2 = self.el_crate[id].next;
        self.el_crate[n2].prev = p2;
        proof {
            if self.order@.contains(id) {
                if list_wf(old(self).el_crate@, old(self).empty, old(self).order@) {
                    lemma_unlinked_wf(old(self).el_crate@, old(self).empty, old(self).order@, id as int);
                }
                self.order@ = self.order@.remove(self.order@.index_of(id));
            }
        }
    }

    fn fetch(&self, id: usize) -> (r: &T) {
        &self.el_crate[id].elem
    }
}

impl<T: PartialEq + Copy> List<T> {
    /// The list is a well-formed ring whose linked slots are `order`.
    pub open spec fn wf(&self) -> bool {
        list_wf(self.el_crate@, self.empty, self.order@)
    }

    /// A list in which every slot holds `empty` and nothing is linked.
    pub fn new(empty: T) -> (l: List<T>)
        ensures
            l.empty == empty,
            l.el_crate@ == cleared(empty),
            l.order@ == Seq::<usize>::empty(),
            empty.eq_spec(&empty) ==> l.wf(),
    {
        let n = Node { elem: empty, next: 0, prev: 0 };
        let l = List { empty, el_crate: [n, n, n, n, n, n, n, n, n, n], order: Ghost(Seq::empty()) };
        assert(l.el_crate@ =~= cleared(empty));
        l
    }
}


/// Runs a list of functions: `task_pool` holds them, `cur` is a cursor into
/// its slots.
#[derive(Clone, Copy)]
pub struct Executor<F> {
    pub task_pool: List<F>,
    pub cur: usize,
}

/// The slots of a fresh executor: every slot holds `idle`, and slot 0 links
/// to slot 1 both ways, so slot 1 is the ring's fixed first element.
pub open spec fn executor_slots<F>(idle: F) -> Seq<Node<F>> {
    with_prev(with_next(cleared(idle), 0, 1), 0, 1)
}

/// A fresh executor whose free slots hold `idle` (`def_fn` in a kernel
/// built on function pointers): slot 1 is linked as the first element, slot 2 is where the
/// first `push` goes, and the cursor is at slot 2.
pub fn new<F: PartialEq + Copy>(idle: F) -> (e: Executor<F>)
    ensures
        e.cur == 2,
        e.task_pool.empty == idle,
        e.task_pool.el_crate@ == executor_slots(idle),
        e.task_pool.order@ == seq![1usize],
        idle.eq_spec(&idle) ==> e.task_pool.wf(),
{
    let mut task_pool = List::new(idle);
    let chain_1: usize = 0;
    let chain_2: usize = 1;
    task_pool.el_crate[0].next = chain_2;
    task_pool.el_crate[0].prev = chain_2;
    let cur: usize = 2;
    task_pool.el_crate[cur].next = chain_1;
    task_pool.el_crate[cur].prev = chain_1;
    proof {
        task_pool.order@ = seq![1usize];
    }
    let e = Executor { task_pool, cur };
    assert(e.task_pool.el_crate@ =~= executor_slots(idle));
    proof {
        if idle.eq_spec(&idle) {
            let o = e.task_pool.order@;
            assert(o[0] == 1usize);
            assert forall|i: int| 2 <= i < TASK_NUM implies (o.contains(i as usize) <==> !#[trigger] is_vacant(
                e.task_pool.el_crate@,
                idle,
                i,
            )) by {
                assert(e.task_pool.el_crate@[i].elem == idle);
                if o.contains(i as usize) {
                    let j = choose|j: int| 0 <= j < o.len() && o[j] == i as usize;
                    assert(j == 0);
                }
            }
        }
    }
    e
}

impl<F: PartialEq + Copy> ExecList<F> for Executor<F> {
    open spec fn slots(&self) -> Seq<Node<F>> {
        self.task_pool.el_crate@
    }

    open spec fn empty_value(&self) -> F {
        self.task_pool.empty
    }

    open spec fn tokens(&self) -> Seq<usize> {
        self.task_pool.order@
    }

    fn is_el_empty(&mut self, numb: usize) -> (r: bool) {
        self.task_pool.is_el_empty(numb)
    }

    fn push(&mut self, obj: F) -> (r: usize)
        ensures
            final(self).cur == old(self).cur,
    {
        self.task_pool.push(obj)
    }

    fn pop(&mut self, id: usize)
        ensures
            final(self).cur == old(self).cur,
    {
        self.task_pool.pop(id)
    }

    fn fetch(&self, id: usize) -> (r: &F) {
        self.task_pool.fetch(id)
    }
}

/// Running the elements of a list and moving a cursor over it.
pub trait Kolotilka: Sized {
    /// Slot `token` exists and its element may be run.
    spec fn can_exec(&self, token: int) -> bool;

    /// The element of slot `token` has run (its postcondition holds).
    spec fn ran(&self, token: int) -> bool;

    /// Moving the cursor by `mode` reads only slots that exist.
    spec fn can_move(&self, mode: ActiveElSetting) -> bool;

    /// The cursor.
    spec fn cursor(&self) -> usize;

    /// Where the cursor goes when moved by `mode`.
    spec fn moved(&self, mode: ActiveElSetting) -> usize;

    /// Runs the element stored in slot `token`.
    fn exec(&self, token: usize)
        requires
            self.can_exec(token as int),
        ensures
            self.ran(token as int),
    ;

    /// Moves the cursor to the next or previous linked slot, or to a given slot.
    fn set_exec_el(&mut self, mode: ActiveElSetting)
        requires
            old(self).can_move(mode),
        ensures
            final(self).cursor() == old(self).moved(mode),
    ;
}

impl<F: Fn() + PartialEq + Copy> Kolotilka for Executor<F> {
    open spec fn can_exec(&self, token: int) -> bool {
        0 <= token < TASK_NUM && call_requires(self.task_pool.el_crate@[token].elem, ())
    }

    open spec fn ran(&self, token: int) -> bool {
        call_ensures(self.task_pool.el_crate@[token].elem, (), ())
    }

    open spec fn can_move(&self, mode: ActiveElSetting) -> bool {
        match mode {
            ActiveElSetting::ARBITRARY(_) => true,
            _ => self.cur < TASK_NUM,
        }
    }

    open spec fn cursor(&self) -> usize {
        self.cur
    }

    open spec fn moved(&self, mode: ActiveElSetting) -> usize {
        match mode {
            ActiveElSetting::NEXT => self.task_pool.el_crate@[self.cur as int].next,
            ActiveElSetting::PREV => self.task_pool.el_crate@[self.cur as int].prev,
            ActiveElSetting::ARBITRARY(n) => n,
        }
    }

    fn exec(&self, token: usize) {
        let el = self.task_pool.el_crate[token];
        (el.elem)();
    }

    fn set_exec_el(&mut self, mode: ActiveElSetting)
        ensures
            final(self).task_pool == old(self).task_pool,
            mode is NEXT ==> final(self).cur == old(self).task_pool.el_crate@[old(self).cur as int].next,
            mode is PREV ==> final(self).cur == old(self).task_pool.el_crate@[old(self).cur as int].prev,
            forall|n: usize| mode == ActiveElSetting::ARBITRARY(n) ==> final(self).cur == n,
    {
        match mode {
            ActiveElSetting::NEXT => {
                self.cur = self.task_pool.el_crate[self.cur].next;
            },
            ActiveElSetting::ARBITRARY(elem_numb) => {
                self.cur = elem_numb;
            },
            ActiveElSetting::PREV => {
                self.cur = self.task_pool.el_crate[self.cur].prev;
            },
        }
    }
}

/// Law: on a well-formed ring, moving the cursor from the sentinel or a
/// linked slot to the next slot and then back to the previous one (or the
/// other way round) returns it to where it was.
pub proof fn law_cursor_steps_invert<F: Fn() + PartialEq + Copy>(e: Executor<F>, e1: Executor<F>, e2: Executor<F>)
    requires
        e.task_pool.wf(),
        e.cur == 0 || e.task_pool.order@.contains(e.cur),
        e1.task_pool == e.task_pool,
        e1.cur == e.moved(ActiveElSetting::NEXT),
        e2.task_pool == e.task_pool,
        e2.cur == e.moved(ActiveElSetting::PREV),
    ensures
        e1.moved(ActiveElSetting::PREV) == e.cur,
        e2.moved(ActiveElSetting::NEXT) == e.cur,
{
    law_ring_steps_invert(e.task_pool.el_crate@, e.task_pool.empty, e.task_pool.order@, e.cur);
}

/// `c` is the walk along the `next` links from slot 0 back to slot 0: slot
/// 0 names the first slot of `c` (0 when `c` is empty), each slot of `c`
/// names the one after it and the last names 0, and no slot of `c` is 0.
pub open spec fn next_chain<T>(s: Seq<Node<T>>, c: Seq<usize>) -> bool {
    &&& s.len() == TASK_NUM
    &&& forall|k: int| 0 <= k < c.len() ==> 1 <= #[trigger] c[k] < TASK_NUM
    &&& s[0].next == head_of(c)
    &&& forall|k: int| #![trigger s[c[k] as int]] 0 <= k < c.len() ==> s[c[k] as int].next == next_in(c, k)
}

/// Following `next` from slot 0 comes back to slot 0 through slots only.
pub open spec fn has_next_chain<T>(s: Seq<Node<T>>) -> bool {
    exists|c: Seq<usize>| #[trigger] next_chain(s, c)
}

/// The slots visited on the walk along `next` from slot 0 back to slot 0.
pub open spec fn run_chain<T>(s: Seq<Node<T>>) -> Seq<usize> {
    choose|c: Seq<usize>| #[trigger] next_chain(s, c)
}

/// Two walks along `next` from slot 0 agree on every position they share.
proof fn lemma_next_chains_agree<T>(s: Seq<Node<T>>, c1: Seq<usize>, c2: Seq<usize>, k: int)
    requires
        next_chain(s, c1),
        next_chain(s, c2),
        0 <= k < c1.len(),
        k < c2.len(),
    ensures
        c1[k] == c2[k],
    decreases k,
{
    if k > 0 {
        lemma_next_chains_agree(s, c1, c2, k - 1);
        assert(s[c1[k - 1] as int].next == next_in(c1, k - 1));
        assert(s[c2[k - 1] as int].next == next_in(c2, k - 1));
    }
}

/// Law: the walk along `next` from slot 0 is unique, and on a well-formed
/// list it is the ring order.
pub proof fn law_next_chain_unique<T: PartialEq>(s: Seq<Node<T>>, c1: Seq<usize>, c2: Seq<usize>)
    requires
        next_chain(s, c1),
        next_chain(s, c2),
    ensures
        c1 == c2,
{
    if c1.len() < c2.len() {
        let l = c1.len() as int;
        if l == 0 {
            assert(c2[0] >= 1);
        } else {
            lemma_next_chains_agree(s, c1, c2, l - 1);
            assert(s[c1[l - 1] as int].next == next_in(c1, l - 1));
            assert(s[c2[l - 1] as int].next == next_in(c2, l - 1));
            assert(c2[l] >= 1);
        }
    } else if c2.len() < c1.len() {
        let l = c2.len() as int;
        if l == 0 {
            assert(c1[0] >= 1);
        } else {
            lemma_next_chains_agree(s, c1, c2, l - 1);
            assert(s[c1[l - 1] as int].next == next_in(c1, l - 1));
            assert(s[c2[l - 1] as int].next == next_in(c2, l - 1));
            assert(c1[l] >= 1);
        }
    }
    assert forall|k: int| 0 <= k < c1.len() implies c1[k] == c2[k] by {
        lemma_next_chains_agree(s, c1, c2, k);
    }
    assert(c1 =~= c2);
}

/// Law: on a well-formed list the walk along `next` from slot 0 is the ring
/// order.
pub proof fn law_run_chain_of_wf<T: PartialEq>(s: Seq<Node<T>>, empty: T, order: Seq<usize>)
    requires
        list_wf(s, empty, order),
    ensures
        has_next_chain(s),
        run_chain(s) == order,
{
    assert(next_chain(s, order));
    law_next_chain_unique(s, run_chain(s), order);
}

impl<F: Fn() + PartialEq + Copy> Executor<F> {
    /// Every element on the walk along `next` from slot 0 may be run.
    pub open spec fn runnable(&self) -> bool {
        forall|k: int|
            0 <= k < run_chain(self.task_pool.el_crate@).len() ==> call_requires(
                #[trigger] self.task_pool.el_crate@[run_chain(self.task_pool.el_crate@)[k] as int].elem,
                (),
            )
    }

    /// Runs the element of every slot on the walk along `next` from slot 0,
    /// until the walk is back at slot 0.
    pub fn exec_all(&self)
        requires
            has_next_chain(self.task_pool.el_crate@),
            self.runnable(),
        ensures
            forall|k: int|
                0 <= k < run_chain(self.task_pool.el_crate@).len() ==> call_ensures(
                    #[trigger] self.task_pool.el_crate@[run_chain(self.task_pool.el_crate@)[k] as int].elem,
                    (),
                    (),
                ),
    {
        let ghost s = self.task_pool.el_crate@;
        let ghost order = run_chain(s);
        assert(next_chain(s, order));
        let mut el = self.task_pool.el_crate[0].next;
        let ghost mut k: int = 0;
        while el != 0
            invariant
                forall|j: int| 0 <= j < order.len() ==> call_requires(#[trigger] s[order[j] as int].elem, ()),
                s == self.task_pool.el_crate@,
                next_chain(s, order),
                0 <= k <= order.len(),
                el == (if k < order.len() { order[k] } else { 0usize }),
                forall|j: int|
                    0 <= j < k ==> call_ensures(#[trigger] s[order[j] as int].elem, (), ()),
            decreases order.len() - k,
        {
            assert(k < order.len()) by {
                if k == order.len() {
                    assert(el == 0);
                }
            }
            assert(1 <= order[k] < TASK_NUM);
            let f = self.task_pool.el_crate[el].elem;
            f();
            assert(s[order[k] as int].next == next_in(order, k));
            el = self.task_pool.el_crate[el].next;
            proof {
                k = k + 1;
            }
        }
        assert(k == order.len()) by {
            if k < order.len() {
                assert(order[k] != 0);
            }
        }
    }
}

/// The elements of the linked slots, in ring order.
pub open spec fn items<T>(s: Seq<Node<T>>, order: Seq<usize>) -> Seq<T> {
    order.map_values(|i: usize| s[i as int].elem)
}

/// Law: an element stored by `push` is what `fetch` gives back for the
/// returned slot, and it is the last element the ring visits; the elements
/// already linked keep their places.
pub proof fn law_push_then_fetch<T: PartialEq>(s: Seq<Node<T>>, empty: T, order: Seq<usize>, r: int, obj: T)
    requires
        list_wf(s, empty, order),
        first_vacancy(s, empty, r),
    ensures
        appended(s, r, obj)[r].elem == obj,
        items(appended(s, r, obj), order.push(r as usize)) == items(s, order).push(obj),
{
    let s1 = appended(s, r, obj);
    let o1 = order.push(r as usize);
    assert(!order.contains(r as usize));
    assert forall|k: int| 0 <= k < order.len() implies s1[#[trigger] order[k] as int].elem == s[order[k] as int].elem by {
        assert(order[k] != r);
    }
    assert(items(s1, o1) =~= items(s, order).push(obj)) by {
        assert forall|k: int| 0 <= k < o1.len() implies #[trigger] items(s1, o1)[k] == items(s, order).push(obj)[k] by {
            if k < order.len() {
                assert(o1[k] == order[k]);
            }
        }
    }
}

/// Law: `pop` of the slot that `push` returned undoes the `push`: the ring
/// order and the linked elements are as before, every other slot (element
/// and links) is as it was, the slot holds the empty value again, and the
/// list is still well formed.
pub proof fn law_pop_undoes_push<T: PartialEq>(s: Seq<Node<T>>, empty: T, order: Seq<usize>, r: int, obj: T)
    requires
        list_wf(s, empty, order),
        first_vacancy(s, empty, r),
        !obj.eq_spec(&empty),
    ensures
        ({
            let s1 = appended(s, r, obj);
            let o1 = order.push(r as usize);
            let s2 = unlinked(s1, r, empty);
            let o2 = o1.remove(o1.index_of(r as usize));
            &&& o2 == order
            &&& items(s2, o2) == items(s, order)
            &&& list_wf(s2, empty, o2)
            &&& is_vacant(s2, empty, r)
            &&& s2[r].elem == empty
            &&& forall|i: int| 0 <= i < TASK_NUM && i != r ==> #[trigger] s2[i] == s[i]
        }),
{
    let s1 = appended(s, r, obj);
    let o1 = order.push(r as usize);
    lemma_appended_wf(s, empty, order, r, obj);
    assert(o1[o1.len() - 1] == r as usize);
    assert(o1.contains(r as usize));
    lemma_unlinked_wf(s1, empty, o1, r);
    let k = o1.index_of(r as usize);
    assert(k == order.len()) by {
        assert(!order.contains(r as usize));
        if k < order.len() {
            assert(order[k] == r as usize);
        }
    }
    let s2 = unlinked(s1, r, empty);
    let o2 = o1.remove(k);
    assert(o2 =~= order);
    let h = s[0].prev as int;
    assert(h != r) by {
        if order.len() > 0 {
            assert(order[order.len() - 1] != r);
        }
    }
    assert(s[h].next == 0) by {
        if order.len() > 0 {
            let l = order.len() - 1;
            assert(s[order[l] as int].next == next_in(order, l));
        }
    }
    assert forall|i: int| 0 <= i < TASK_NUM && i != r implies #[trigger] s2[i] == s[i] by {
        assert(s1[i].elem == s[i].elem);
    }
    assert(!order.contains(r as usize));
    assert(items(s2, o2) =~= items(s, order)) by {
        assert forall|k2: int| 0 <= k2 < order.len() implies #[trigger] items(s2, o2)[k2] == items(s, order)[k2] by {
            assert(order[k2] != r);
            assert(s2[order[k2] as int].elem == s[order[k2] as int].elem);
        }
    }
}

/// Law: on a well-formed ring, stepping `next` and then `prev` (or `prev`
/// and then `next`) from the sentinel or a linked slot comes back to it.
pub proof fn law_ring_steps_invert<T: PartialEq>(s: Seq<Node<T>>, empty: T, order: Seq<usize>, x: usize)
    requires
        list_wf(s, empty, order),
        x == 0 || order.contains(x),
    ensures
        s[s[x as int].next as int].prev == x,
        s[s[x as int].prev as int].next == x,
{
    if x == 0 {
        if order.len() > 0 {
            assert(s[order[0] as int].prev == prev_in(order, 0));
            let l = order.len() - 1;
            assert(s[order[l] as int].next == next_in(order, l));
        }
    } else {
        let k = choose|k: int| 0 <= k < order.len() && order[k] == x;
        assert(s[order[k] as int].next == next_in(order, k));
        if k + 1 < order.len() {
            assert(s[order[k + 1] as int].prev == prev_in(order, k + 1));
        }
        if k > 0 {
            assert(s[order[k - 1] as int].next == next_in(order, k - 1));
        }
    }
}

/// Law: once the sentinel's `prev` link names a slot other than the
/// sentinel (the ring is not empty), `push` changes neither the sentinel's
/// element nor its `next` link, so the ring's first element stays first.
pub proof fn law_push_keeps_head<T>(s: Seq<Node<T>>, r: int, obj: T)
    requires
        s.len() == TASK_NUM,
        2 <= r < TASK_NUM,
        0 < s[0].prev < TASK_NUM,
    ensures
        appended(s, r, obj)[0].next == s[0].next,
        appended(s, r, obj)[0].elem == s[0].elem,
{
}

/// Law: a list is determined by its slots, its empty value and its ring
/// order.
pub proof fn law_list_determined<T>(l1: List<T>, l2: List<T>)
    requires
        l1.el_crate@ == l2.el_crate@,
        l1.empty == l2.empty,
        l1.order@ == l2.order@,
    ensures
        l1 == l2,
{
    broadcast use vstd::array::axiom_array_ext_equal;

    assert(l1.el_crate =~= l2.el_crate);
}

/// Law: `push` has one outcome. Two results that both meet the contract of
/// `push` from the same list and element name the same slot and the same
/// list; so the executor's `push` does to its task pool exactly what the
/// list's `push` does (the executor's also keeps its cursor).
pub proof fn law_push_outcome_unique<T: PartialEq>(l: List<T>, obj: T, l1: List<T>, r1: usize, l2: List<T>, r2: usize)
    requires
        first_vacancy(l.el_crate@, l.empty, r1 as int),
        l1.el_crate@ == appended(l.el_crate@, r1 as int, obj),
        l1.empty == l.empty,
        l1.order@ == l.order@.push(r1),
        first_vacancy(l.el_crate@, l.empty, r2 as int),
        l2.el_crate@ == appended(l.el_crate@, r2 as int, obj),
        l2.empty == l.empty,
        l2.order@ == l.order@.push(r2),
    ensures
        r1 == r2,
        l1 == l2,
{
    if r1 < r2 {
        assert(!is_vacant(l.el_crate@, l.empty, r1 as int));
    }
    if r2 < r1 {
        assert(!is_vacant(l.el_crate@, l.empty, r2 as int));
    }
    law_list_determined(l1, l2);
}

} // verus!
