# gestalt_core

A small task kernel for Cortex-M4 cores, verified with Verus.

- `src/sheduler.rs`: fixed-capacity doubly linked rings kept in an array
  (`List`), the `ExecList` operations on them, and the `Executor` that runs
  the functions stored in such a ring; the laws of the ring are proved at the
  end of the file.
- `src/context.rs`: the kernel's thread table (`RtosCell`), thread creation
  (`get_token`) and start (`rtos_start`).
- `src/arch/arm_m4/context.rs`: thread contexts, saving them and the decision
  taken on a context switch.
- `src/context/desc.rs`: sizes of the target.
- `app/`: the kernel instance, its stack, and the register moves on the core.
