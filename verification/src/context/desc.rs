//! Build-time description of the target: core clock and table sizes.

pub use crate::arch::arm_m4::context;
pub use crate::arch::arm_m4::context::{change_context, save_sw_context};
pub use crate::context::ContextStatus;
use vstd::prelude::*;

verus! {

/// Core clock frequency in Hz.
pub const FREQ_CORE: u32 = 64_000_000;

/// Number of slots of every task list (slot 0 is the list's sentinel).
pub const TASK_NUM: usize = 10;

/// Number of interrupt lines of the target.
pub const INTERRUPT_NUM: usize = 14;

/// Number of threads the kernel is dimensioned for.
pub const THREAD_NUM: usize = 4;

/// Number of cores; the kernel keeps one active thread per core.
pub const CPU_NUM: usize = 1;

} // verus!
