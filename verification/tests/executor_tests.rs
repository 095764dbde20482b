use gestalt_core::context::desc::TASK_NUM;
use gestalt_core::sheduler::{def_fn, new, ActiveElSetting, ExecList, Executor, Kolotilka};
use std::sync::Mutex;

static RUNS: Mutex<Vec<u32>> = Mutex::new(Vec::new());

fn task_a() {
    RUNS.lock().unwrap().push(1);
}

fn task_b() {
    RUNS.lock().unwrap().push(2);
}

fn task_c() {
    RUNS.lock().unwrap().push(3);
}

fn fresh() -> Executor<fn()> {
    new(def_fn as fn())
}

#[test]
fn new_executor_links_slot_one_first() {
    let e = fresh();
    assert_eq!(e.cur, 2);
    assert_eq!(e.task_pool.el_crate[0].next, 1);
    assert_eq!(e.task_pool.el_crate[0].prev, 1);
    assert_eq!(e.task_pool.el_crate[1].next, 0);
    assert_eq!(e.task_pool.el_crate[1].prev, 0);
    for i in 0..TASK_NUM {
        assert!(e.task_pool.el_crate[i].elem == def_fn as fn());
    }
}

#[test]
fn executor_push_goes_after_slot_one() {
    let mut e = fresh();
    assert_eq!(e.push(task_a as fn()), 2);
    assert_eq!(e.push(task_b as fn()), 3);
    // ring 0 -> 1 -> 2 -> 3 -> 0; slot 1 stays first
    assert_eq!(e.task_pool.el_crate[0].next, 1);
    assert_eq!(e.task_pool.el_crate[1].next, 2);
    assert_eq!(e.task_pool.el_crate[2].next, 3);
    assert_eq!(e.task_pool.el_crate[3].next, 0);
    assert_eq!(e.task_pool.el_crate[0].prev, 3);
    assert_eq!(e.cur, 2);
    assert!(!e.is_el_empty(2));
    assert!(e.is_el_empty(4));
    assert!(*e.fetch(3) == task_b as fn());
}

#[test]
fn exec_all_runs_every_task_in_ring_order_and_exec_runs_one() {
    let mut e = fresh();
    e.push(task_c as fn());
    e.push(task_a as fn());
    e.push(task_b as fn());
    e.pop(3);
    RUNS.lock().unwrap().clear();
    e.exec_all();
    assert_eq!(*RUNS.lock().unwrap(), vec![3, 2]);
    e.exec(2);
    assert_eq!(*RUNS.lock().unwrap(), vec![3, 2, 3]);
}

#[test]
fn set_exec_el_moves_the_cursor() {
    let mut e = fresh();
    e.push(task_a as fn());
    e.push(task_b as fn());
    assert_eq!(e.cur, 2);
    e.set_exec_el(ActiveElSetting::NEXT);
    assert_eq!(e.cur, 3);
    e.set_exec_el(ActiveElSetting::NEXT);
    assert_eq!(e.cur, 0);
    e.set_exec_el(ActiveElSetting::PREV);
    assert_eq!(e.cur, 3);
    e.set_exec_el(ActiveElSetting::PREV);
    assert_eq!(e.cur, 2);
    e.set_exec_el(ActiveElSetting::ARBITRARY(7));
    assert_eq!(e.cur, 7);
}

#[test]
fn executor_pop_keeps_cursor_and_frees_slot() {
    let mut e = fresh();
    e.push(task_a as fn());
    e.push(task_b as fn());
    e.pop(2);
    assert_eq!(e.cur, 2);
    assert!(e.is_el_empty(2));
    assert_eq!(e.task_pool.el_crate[1].next, 3);
    assert_eq!(e.task_pool.el_crate[3].prev, 1);
}

#[test]
fn exec_all_follows_next_links_even_with_an_empty_value_linked() {
    let mut e = fresh();
    assert_eq!(e.push(def_fn as fn()), 2);
    assert_eq!(e.task_pool.el_crate[1].next, 2);
    RUNS.lock().unwrap().clear();
    e.exec_all();
    assert!(RUNS.lock().unwrap().is_empty());
    // slot 2 still holds the empty value, so it is handed out again and
    // linked behind itself
    assert_eq!(e.push(task_b as fn()), 2);
    assert_eq!(e.task_pool.el_crate[2].next, 2);
    assert_eq!(e.task_pool.el_crate[2].prev, 2);
}
