use gestalt_core::arch::arm_m4::context::{task_stack_pointer, Context, ContextSwitch};
use gestalt_core::context::desc::{change_context, save_sw_context, ContextStatus, CPU_NUM, TASK_NUM};
use gestalt_core::context::{free_token, get_token, gluing, rtos_start, RtosCell};
use gestalt_core::sheduler::{def_fn, ActiveElSetting};

fn task1() {}

fn task2() {}

fn kernel() -> RtosCell<fn()> {
    RtosCell::new(def_fn as fn())
}

#[test]
fn stack_pointer_is_word_aligned_and_leaves_64_bytes() {
    assert_eq!(task_stack_pointer(103), 36);
    assert_eq!(task_stack_pointer(100), 36);
    assert_eq!(task_stack_pointer(0x2000_03ff), 0x2000_03fc - 64);
    assert_eq!(task_stack_pointer(0x2000_0401), 0x2000_0400 - 64);
}

#[test]
fn new_kernel_has_no_threads() {
    let k = kernel();
    assert_eq!(k.active_thread_pool, [2; CPU_NUM]);
    for i in 0..TASK_NUM {
        assert_eq!(k.status_pool[i], ContextStatus::Free);
        assert_eq!(k.thread_pool.el_crate[i].elem.sp, 0);
    }
    assert_eq!(k.thread_pool.el_crate[0].next, 0);
}

#[test]
fn get_token_creates_a_thread_in_slot_two() {
    let mut k = kernel();
    let t = get_token(&mut k, task1 as fn(), 0x2000_0403);
    assert_eq!(t, 2);
    let c = k.thread_pool.el_crate[2].elem;
    assert!(c.task_fn == task1 as fn());
    assert_eq!(c.sp, 0x2000_0400 - 64);
    assert_eq!(c.rons, [0; 8]);
    assert_eq!(k.status_pool[2], ContextStatus::Empty);
    assert_eq!(k.thread_pool.el_crate[0].next, 2);
    let t2 = get_token(&mut k, task2 as fn(), 0x2000_0803);
    assert_eq!(t2, 3);
    assert_eq!(k.thread_pool.el_crate[2].next, 3);
    assert_eq!(k.thread_pool.el_crate[0].prev, 3);
}

#[test]
fn rtos_start_needs_a_first_thread() {
    let mut k = kernel();
    assert!(rtos_start(&mut k).is_none());
    assert_eq!(k.status_pool[2], ContextStatus::Free);
    get_token(&mut k, task1 as fn(), 0x2000_0403);
    let started = rtos_start(&mut k);
    let (f, sp) = started.unwrap();
    assert!(f == task1 as fn());
    assert_eq!(sp, 0x2000_0400 - 64);
    assert_eq!(k.status_pool[2], ContextStatus::Active);
}

#[test]
fn change_context_launches_then_restores() {
    let mut k = kernel();
    get_token(&mut k, task1 as fn(), 0x2000_0403);
    get_token(&mut k, task2 as fn(), 0x2000_0803);
    rtos_start(&mut k);
    // 2 -> 3: thread 3 never ran
    assert_eq!(change_context(&mut k, ActiveElSetting::NEXT), ContextSwitch::Launch);
    assert_eq!(k.active_thread_pool[0], 3);
    assert_eq!(k.status_pool[2], ContextStatus::Idle);
    assert_eq!(k.status_pool[3], ContextStatus::Active);
    // 3 -> sentinel -> 2: thread 2 was suspended
    assert_eq!(change_context(&mut k, ActiveElSetting::NEXT), ContextSwitch::Restore);
    assert_eq!(k.active_thread_pool[0], 2);
    assert_eq!(k.status_pool[3], ContextStatus::Idle);
    assert_eq!(k.status_pool[2], ContextStatus::Active);
    // 2 -> prev is the sentinel -> first thread, itself
    assert_eq!(change_context(&mut k, ActiveElSetting::PREV), ContextSwitch::Restore);
    assert_eq!(k.active_thread_pool[0], 2);
    assert_eq!(k.status_pool[2], ContextStatus::Active);
    // to a free slot: nothing to switch to
    assert_eq!(change_context(&mut k, ActiveElSetting::ARBITRARY(5)), ContextSwitch::Stay);
    assert_eq!(k.active_thread_pool[0], 5);
    assert_eq!(k.status_pool[2], ContextStatus::Idle);
    assert_eq!(k.status_pool[5], ContextStatus::Free);
}

#[test]
fn save_sw_context_stores_registers_of_active_thread() {
    let mut k = kernel();
    get_token(&mut k, task1 as fn(), 0x2000_0403);
    save_sw_context(&mut k, 0x2000_0100, [1, 2, 3, 4, 5, 6, 7, 8]);
    let c = k.thread_pool.el_crate[2].elem;
    assert_eq!(c.sp, 0x2000_0100);
    assert_eq!(c.rons, [1, 2, 3, 4, 5, 6, 7, 8]);
    assert!(c.task_fn == task1 as fn());
}

#[test]
fn free_token_clears_stack_pointer_and_gluing_sets_next() {
    let mut k = kernel();
    get_token(&mut k, task1 as fn(), 0x2000_0403);
    free_token(&mut k, 2);
    assert_eq!(k.thread_pool.el_crate[2].elem.sp, 0);
    assert_eq!(k.status_pool[2], ContextStatus::Free);
    gluing(&mut k, 2, 7);
    assert_eq!(k.thread_pool.el_crate[2].next, 7);
}

#[test]
fn contexts_compare_by_stack_pointer() {
    let a = Context { task_fn: task1 as fn(), sp: 10, rons: [0; 8] };
    let b = Context { task_fn: task2 as fn(), sp: 10, rons: [1; 8] };
    let c = Context { task_fn: task1 as fn(), sp: 11, rons: [0; 8] };
    assert!(a == b);
    assert!(a != c);
    assert_ne!(ContextStatus::Idle, ContextStatus::Active);
    assert_eq!(ContextStatus::Empty, ContextStatus::Empty);
}
