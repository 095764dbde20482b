//! The kernel's thread table: which threads exist, their saved contexts and
//! scheduling states, and which thread each core runs.

pub mod desc;

use crate::arch::arm_m4::context::{spec_task_stack_pointer, task_stack_pointer, Context};
use crate::context::desc::{CPU_NUM, TASK_NUM};
use crate::sheduler::{
    appended, cleared, first_vacancy, has_vacancy, lemma_appended_wf, with_next, ExecList, List, Node,
};
use vstd::prelude::*;

verus! {

/// Scheduling state of a thread slot.
#[derive(Debug, Clone, Copy, PartialEq, Eq, Structural)]
pub enum ContextStatus {
    Active,
    Idle,
    Free,
    Empty,
}

/// The kernel: a list of thread contexts, the state of each slot, and the
/// active thread of each core.
#[derive(Clone, Copy)]
pub struct RtosCell<F> {
    pub thread_pool: List<Context<F>>,
    pub status_pool: [ContextStatus; TASK_NUM],
    pub active_thread_pool: [usize; CPU_NUM],
}

/// The context every free thread slot holds: entry `idle`, stack pointer 0,
/// registers 0.
pub open spec fn idle_context<F>(idle: F) -> Context<F> {
    Context { task_fn: idle, sp: 0, rons: [0usize, 0, 0, 0, 0, 0, 0, 0] }
}

impl<F: Copy> RtosCell<F> {
    /// The thread table is a well-formed list whose free-slot marker has
    /// stack pointer 0, and the core's active thread names a slot.
    pub open spec fn wf(&self) -> bool {
        &&& self.thread_pool.wf()
        &&& self.thread_pool.empty.sp == 0
        &&& self.active_thread_pool@[0] < TASK_NUM
    }

    /// The kernel before any thread exists: every slot holds the idle context
    /// with entry `idle`, every slot is free, and the core's active thread is
    /// slot 2, the slot the first thread gets.
    pub fn new(idle: F) -> (k: RtosCell<F>)
        ensures
            k.thread_pool.empty == idle_context(idle),
            k.thread_pool.el_crate@ == cleared(idle_context(idle)),
            k.thread_pool.order@ == Seq::<usize>::empty(),
            k.status_pool@ == Seq::new(TASK_NUM as nat, |i: int| ContextStatus::Free),
            k.active_thread_pool@ == seq![2usize],
            k.wf(),
    {
        let empty = Context { task_fn: idle, sp: 0, rons: [0, 0, 0, 0, 0, 0, 0, 0] };
        assert(empty.rons@ =~= idle_context(idle).rons@);
        let thread_pool = List::new(empty);
        let f = ContextStatus::Free;
        let k = RtosCell {
            thread_pool,
            status_pool: [f, f, f, f, f, f, f, f, f, f],
            active_thread_pool: [2],
        };
        assert(k.status_pool@ =~= Seq::new(TASK_NUM as nat, |i: int| ContextStatus::Free));
        assert(k.active_thread_pool@ =~= seq![2usize]);
        k
    }
}

/// The registers a thread starts with: entry `task_fn`, stack pointer `sp`,
/// registers 0.
pub open spec fn fresh_context<F>(task_fn: F, sp: usize) -> Context<F> {
    Context { task_fn, sp, rons: [0usize, 0, 0, 0, 0, 0, 0, 0] }
}

/// Saving and switching the context of the running thread.
pub trait ContextMethods {
    fn save_sw_context(&mut self);

    fn change_context(&mut self);
}

/// Creates a thread that starts in `task_fn` on the stack whose last byte is
/// at `stack_last`: its context goes into the lowest free slot from 2 on, at
/// the end of the thread ring, with the stack pointer `task_stack_pointer`
/// gives, and the slot is marked `Empty` (never run). Returns the slot.
pub fn get_token<F: Copy>(kernel: &mut RtosCell<F>, task_fn: F, stack_last: usize) -> (token: usize)
    requires
        has_vacancy(old(kernel).thread_pool.el_crate@, old(kernel).thread_pool.empty),
        old(kernel).thread_pool.el_crate@[0].prev < TASK_NUM,
        stack_last - stack_last % 4 >= 64,
    ensures
        first_vacancy(old(kernel).thread_pool.el_crate@, old(kernel).thread_pool.empty, token as int),
        final(kernel).thread_pool.el_crate@ == appended(
            old(kernel).thread_pool.el_crate@,
            token as int,
            fresh_context(task_fn, spec_task_stack_pointer(stack_last) as usize),
        ),
        final(kernel).thread_pool.empty == old(kernel).thread_pool.empty,
        final(kernel).thread_pool.order@ == old(kernel).thread_pool.order@.push(token),
        final(kernel).status_pool@ == old(kernel).status_pool@.update(token as int, ContextStatus::Empty),
        final(kernel).active_thread_pool == old(kernel).active_thread_pool,
        old(kernel).wf() && spec_task_stack_pointer(stack_last) != 0 ==> final(kernel).wf(),
{
    let token = kernel.thread_pool.push(Context { task_fn, sp: 1, rons: [0, 0, 0, 0, 0, 0, 0, 0] });
    let stk_addr = task_stack_pointer(stack_last);
    kernel.status_pool[token] = ContextStatus::Empty;
    kernel.thread_pool.el_crate[token].elem.task_fn = task_fn;
    kernel.thread_pool.el_crate[token].elem.sp = stk_addr;
    proof {
        let ctx = fresh_context(task_fn, stk_addr);
        let o = old(kernel).thread_pool.el_crate@;
        assert(ctx.rons@ =~= kernel.thread_pool.el_crate@[token as int].elem.rons@);
        assert(kernel.thread_pool.el_crate@ =~= appended(o, token as int, ctx));
        if old(kernel).wf() && stk_addr != 0 {
            lemma_appended_wf(o, old(kernel).thread_pool.empty, old(kernel).thread_pool.order@, token as int, ctx);
        }
    }
    token
}

/// Marks slot `numb` free: its stack pointer becomes 0 and its state `Free`.
/// The slot stays linked in the thread ring.
pub fn free_token<F: Copy>(kernel: &mut RtosCell<F>, numb: usize)
    requires
        numb < TASK_NUM,
    ensures
        ({
            let s = old(kernel).thread_pool.el_crate@;
            final(kernel).thread_pool.el_crate@ == s.update(
                numb as int,
                Node {
                    elem: Context { task_fn: s[numb as int].elem.task_fn, sp: 0, rons: s[numb as int].elem.rons },
                    next: s[numb as int].next,
                    prev: s[numb as int].prev,
                },
            )
        }),
        final(kernel).thread_pool.empty == old(kernel).thread_pool.empty,
        final(kernel).thread_pool.order == old(kernel).thread_pool.order,
        final(kernel).status_pool@ == old(kernel).status_pool@.update(numb as int, ContextStatus::Free),
        final(kernel).active_thread_pool == old(kernel).active_thread_pool,
{
    kernel.thread_pool.el_crate[numb].elem.sp = 0;
    kernel.status_pool[numb] = ContextStatus::Free;
}

/// Points the `next` link of slot `token_1` at slot `token_2`.
pub fn gluing<F: Copy>(kernel: &mut RtosCell<F>, token_1: usize, token_2: usize)
    requires
        token_1 < TASK_NUM,
    ensures
        final(kernel).thread_pool.el_crate@ == with_next(
            old(kernel).thread_pool.el_crate@,
            token_1 as int,
            token_2,
        ),
        final(kernel).thread_pool.empty == old(kernel).thread_pool.empty,
        final(kernel).thread_pool.order == old(kernel).thread_pool.order,
        final(kernel).status_pool == old(kernel).status_pool,
        final(kernel).active_thread_pool == old(kernel).active_thread_pool,
{
    kernel.thread_pool.el_crate[token_1].next = token_2;
}

/// Starts the scheduler if slot 2 (the first thread created) has a stack:
/// slot 2 is marked `Active` and the entry and stack pointer of the core's
/// active thread are returned, to be jumped to. Returns `None` and changes
/// nothing otherwise.
pub fn rtos_start<F: Copy>(kernel: &mut RtosCell<F>) -> (r: Option<(F, usize)>)
    requires
        old(kernel).thread_pool.el_crate@[2].elem.sp != 0 ==> old(kernel).active_thread_pool@[0] < TASK_NUM,
    ensures
        ({
            let s = old(kernel).thread_pool.el_crate@;
            let a = old(kernel).active_thread_pool@[0] as int;
            if s[2].elem.sp != 0 {
                &&& r == Some((s[a].elem.task_fn, s[a].elem.sp))
                &&& final(kernel).status_pool@ == old(kernel).status_pool@.update(2, ContextStatus::Active)
            } else {
                &&& r is None
                &&& final(kernel).status_pool == old(kernel).status_pool
            }
        }),
        final(kernel).thread_pool == old(kernel).thread_pool,
        final(kernel).active_thread_pool == old(kernel).active_thread_pool,
{
    if kernel.thread_pool.el_crate[2].elem.sp != 0 {
        kernel.status_pool[2] = ContextStatus::Active;
        let a = kernel.active_thread_pool[0];
        let ctx = kernel.thread_pool.el_crate[a].elem;
        Some((ctx.task_fn, ctx.sp))
    } else {
        None
    }
}

} // verus!
