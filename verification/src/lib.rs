//! A small cooperative/preemptive task kernel for Cortex-M4 class cores:
//! fixed-capacity doubly linked task lists, a function executor and the
//! bookkeeping of thread contexts and their switching.

pub mod arch;
pub mod context;
pub mod sheduler;
