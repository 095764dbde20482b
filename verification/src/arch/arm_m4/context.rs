//! Cortex-M4 thread contexts: the registers the core does not stack by
//! itself, and the decisions taken when the kernel saves and switches them.
//!
//! The register moves themselves are machine instructions; what is decided
//! here is which slot is written, which thread becomes active, and how the
//! switch has to be completed.

use crate::context::desc::TASK_NUM;
use crate::context::{ContextStatus, RtosCell};
use crate::sheduler::{is_vacant, law_ring_steps_invert, next_in, prev_in, ActiveElSetting, Node};
use vstd::prelude::*;
use vstd::std_specs::cmp::PartialEqSpecImpl;

verus! {

/// The registers of a thread that the core does not push on exception entry:
/// its entry function, its stack pointer and r4..r11.
#[derive(Debug, Clone, Copy)]
pub struct Context<F> {
    pub task_fn: F,
    pub sp: usize,
    pub rons: [usize; 8],
}

/// Two contexts are equal when their stack pointers are; a stack pointer of
/// 0 marks a free thread slot.
impl<F> PartialEq for Context<F> {
    fn eq(&self, other: &Self) -> (r: bool) {
        self.sp == other.sp
    }
}

impl<F> PartialEqSpecImpl for Context<F> {
    open spec fn obeys_eq_spec() -> bool {
        true
    }

    open spec fn eq_spec(&self, other: &Self) -> bool {
        self.sp == other.sp
    }
}

impl<F> Eq for Context<F> {
}

/// The stack pointer a thread starts with when `stack_last` is the address of
/// the last byte of its stack: that address rounded down to a multiple of 4,
/// less 64 bytes.
pub open spec fn spec_task_stack_pointer(stack_last: usize) -> int {
    stack_last - stack_last % 4 - 64
}

/// Rounds the address of a stack's last byte down to a word boundary and
/// leaves 64 bytes below it.
pub fn task_stack_pointer(stack_last: usize) -> (sp: usize)
    requires
        stack_last - stack_last % 4 >= 64,
    ensures
        sp == spec_task_stack_pointer(stack_last),
{
    let mut stk_addr = stack_last;
    while stk_addr % 4 != 0
        invariant
            stack_last - stack_last % 4 <= stk_addr <= stack_last,
            stack_last - stack_last % 4 >= 64,
        decreases stk_addr,
    {
        stk_addr = stk_addr - 1;
    }
    assert(stk_addr == stack_last - stack_last % 4);
    stk_addr = stk_addr - 64;
    stk_addr
}


/// Stores the registers read on exception entry into the context of the
/// core's active thread: `psp` as its stack pointer, `regs` as r4..r11.
pub fn save_sw_context<F: Copy>(kernel: &mut RtosCell<F>, psp: usize, regs: [usize; 8])
    requires
        old(kernel).active_thread_pool@[0] < TASK_NUM,
    ensures
        ({
            let a = old(kernel).active_thread_pool@[0] as int;
            let s = old(kernel).thread_pool.el_crate@;
            final(kernel).thread_pool.el_crate@ == s.update(
                a,
                Node {
                    elem: Context { task_fn: s[a].elem.task_fn, sp: psp, rons: regs },
                    next: s[a].next,
                    prev: s[a].prev,
                },
            )
        }),
        final(kernel).thread_pool.empty == old(kernel).thread_pool.empty,
        final(kernel).thread_pool.order == old(kernel).thread_pool.order,
        final(kernel).status_pool == old(kernel).status_pool,
        final(kernel).active_thread_pool == old(kernel).active_thread_pool,
        old(kernel).wf() && (psp == 0) == (old(kernel).thread_pool.el_crate@[old(
            kernel,
        ).active_thread_pool@[0] as int].elem.sp == 0) ==> final(kernel).wf(),
{
    let a = kernel.active_thread_pool[0];
    kernel.thread_pool.el_crate[a].elem.sp = psp;
    kernel.thread_pool.el_crate[a].elem.rons = regs;
    proof {
        let o = old(kernel).thread_pool.el_crate@;
        let n = kernel.thread_pool.el_crate@;
        if old(kernel).wf() && (psp == 0) == (o[a as int].elem.sp == 0) {
            let order = kernel.thread_pool.order@;
            assert forall|k: int| 0 <= k < order.len() implies n[#[trigger] order[k] as int].next
                == next_in(order, k) && n[order[k] as int].prev
                == prev_in(order, k) by {
                assert(o[order[k] as int].next == next_in(order, k));
            }
            assert forall|i: int| 2 <= i < TASK_NUM implies (order.contains(i as usize)
                <==> !#[trigger] is_vacant(n, kernel.thread_pool.empty, i)) by {
                assert(order.contains(i as usize) <==> !is_vacant(
                    o,
                    kernel.thread_pool.empty,
                    i,
                ));
                if i != a {
                    assert(n[i] == o[i]);
                }
            }
        }
    }
}

/// How a context switch has to be completed on the core.
#[derive(Debug, Clone, Copy, PartialEq, Eq, Structural)]
pub enum ContextSwitch {
    /// The new thread has never run: enter it through its entry function on a
    /// fresh stack.
    Launch,
    /// The new thread was suspended: restore its saved registers and stack.
    Restore,
    /// Nothing to switch to: return to the interrupted code.
    Stay,
}

/// The slot that `change_context` makes active: the active thread's next or
/// previous slot, or the given one; the sentinel slot 0 stands for the first
/// linked slot.
pub open spec fn switch_target<F>(kernel: RtosCell<F>, el: ActiveElSetting) -> usize {
    let a = kernel.active_thread_pool@[0] as int;
    let s = kernel.thread_pool.el_crate@;
    let cand = match el {
        ActiveElSetting::PREV => s[a].prev,
        ActiveElSetting::NEXT => s[a].next,
        ActiveElSetting::ARBITRARY(num) => num,
    };
    if cand == 0 {
        s[0].next
    } else {
        cand
    }
}

/// How a switch from slot `a` to slot `t` is completed: the state of `t`
/// once `a` is idle decides it.
pub open spec fn switch_kind(status: Seq<ContextStatus>, a: int, t: int) -> ContextSwitch {
    match status.update(a, ContextStatus::Idle)[t] {
        ContextStatus::Empty => ContextSwitch::Launch,
        ContextStatus::Idle => ContextSwitch::Restore,
        _ => ContextSwitch::Stay,
    }
}

/// The slot states after a switch from slot `a` to slot `t`: `a` is idle,
/// and `t` is active if it was never run or suspended.
pub open spec fn switched_status(status: Seq<ContextStatus>, a: int, t: int) -> Seq<ContextStatus> {
    let st = status.update(a, ContextStatus::Idle);
    match st[t] {
        ContextStatus::Empty => st.update(t, ContextStatus::Active),
        ContextStatus::Idle => st.update(t, ContextStatus::Active),
        _ => st,
    }
}

/// Switches the core to another thread: the active thread becomes idle, the
/// target (see `switch_target`) becomes the active thread, and if it was
/// never run (`Empty`) or suspended (`Idle`) it is marked active and the
/// switch is completed by `Launch` or `Restore`; otherwise nothing more
/// changes (`Stay`).
pub fn change_context<F: Copy>(kernel: &mut RtosCell<F>, el: ActiveElSetting) -> (r: ContextSwitch)
    requires
        old(kernel).active_thread_pool@[0] < TASK_NUM,
        switch_target(*old(kernel), el) < TASK_NUM,
    ensures
        ({
            let a = old(kernel).active_thread_pool@[0] as int;
            let t = switch_target(*old(kernel), el);
            &&& final(kernel).active_thread_pool@ == old(kernel).active_thread_pool@.update(0, t)
            &&& r == switch_kind(old(kernel).status_pool@, a, t as int)
            &&& final(kernel).status_pool@ == switched_status(old(kernel).status_pool@, a, t as int)
        }),
        ({
            let a = old(kernel).active_thread_pool@[0] as int;
            let s = old(kernel).thread_pool.el_crate@;
            let now = final(kernel).active_thread_pool@[0];
            &&& el is NEXT && s[a].next != 0 ==> now == s[a].next
            &&& el is PREV && s[a].prev != 0 ==> now == s[a].prev
            &&& forall|n: usize| el == ActiveElSetting::ARBITRARY(n) && n != 0 ==> now == n
            &&& (el is NEXT && s[a].next == 0) || (el is PREV && s[a].prev == 0) || el
                == ActiveElSetting::ARBITRARY(0) ==> now == s[0].next
            &&& now != a ==> final(kernel).status_pool@[a] == ContextStatus::Idle
        }),
        final(kernel).thread_pool == old(kernel).thread_pool,
{
    let a = kernel.active_thread_pool[0];
    let mut next_el = match el {
        ActiveElSetting::PREV => kernel.thread_pool.el_crate[a].prev,
        ActiveElSetting::NEXT => kernel.thread_pool.el_crate[a].next,
        ActiveElSetting::ARBITRARY(num) => num,
    };
    if next_el == 0 {
        next_el = kernel.thread_pool.el_crate[next_el].next;
    }
    kernel.status_pool[a] = ContextStatus::Idle;
    kernel.active_thread_pool[0] = next_el;
    match kernel.status_pool[next_el] {
        ContextStatus::Empty => {
            kernel.status_pool[next_el] = ContextStatus::Active;
            ContextSwitch::Launch
        },
        ContextStatus::Idle => {
            kernel.status_pool[next_el] = ContextStatus::Active;
            ContextSwitch::Restore
        },
        _ => ContextSwitch::Stay,
    }
}

/// Law: a thread that was never run is entered through its entry function
/// the first time the core switches to it, and has its registers restored
/// every time the core comes back to it after switching away; each time it
/// ends up active, and switching away leaves it idle.
pub proof fn law_launch_once_then_restore(status: Seq<ContextStatus>, a: int, t: int, u: int)
    requires
        status.len() == TASK_NUM,
        0 <= a < TASK_NUM,
        0 <= t < TASK_NUM,
        0 <= u < TASK_NUM,
        t != a,
        u != t,
        status[t] == ContextStatus::Empty,
    ensures
        switch_kind(status, a, t) == ContextSwitch::Launch,
        switched_status(status, a, t)[t] == ContextStatus::Active,
        switched_status(switched_status(status, a, t), t, u)[t] == ContextStatus::Idle,
        switch_kind(switched_status(switched_status(status, a, t), t, u), u, t) == ContextSwitch::Restore,
        switched_status(switched_status(switched_status(status, a, t), t, u), u, t)[t]
            == ContextStatus::Active,
{
}

/// Law: on a kernel whose thread ring is well formed, switching from a
/// thread on the ring to the next thread and then to the previous one
/// returns to the first thread, unless it was the last on the ring (then the
/// switch wraps round to the first thread, whose previous link is the
/// sentinel); switching to the previous thread and then to the next one
/// returns likewise, unless it was the first. `k1` and `k2` are the kernels
/// after the first switch by `NEXT` and by `PREV`.
pub proof fn law_switch_steps_invert<F: Copy>(k: RtosCell<F>, k1: RtosCell<F>, k2: RtosCell<F>)
    requires
        k.wf(),
        k.thread_pool.order@.contains(k.active_thread_pool@[0]),
        k1.thread_pool == k.thread_pool,
        k1.active_thread_pool@[0] == switch_target(k, ActiveElSetting::NEXT),
        k2.thread_pool == k.thread_pool,
        k2.active_thread_pool@[0] == switch_target(k, ActiveElSetting::PREV),
    ensures
        k.thread_pool.el_crate@[k.active_thread_pool@[0] as int].next != 0 ==> switch_target(
            k1,
            ActiveElSetting::PREV,
        ) == k.active_thread_pool@[0],
        k.thread_pool.el_crate@[k.active_thread_pool@[0] as int].prev != 0 ==> switch_target(
            k2,
            ActiveElSetting::NEXT,
        ) == k.active_thread_pool@[0],
{
    let a = k.active_thread_pool@[0];
    law_ring_steps_invert(k.thread_pool.el_crate@, k.thread_pool.empty, k.thread_pool.order@, a);
}

} // verus!
