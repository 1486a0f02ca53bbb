# os

Scheduling and deadlock-avoidance logic of a small teaching kernel, written
in Verus with its contracts proved.

- `src/dead_detect.rs`: the deadlock detector (banker's tables for mutexes and
  semaphores), with `src/dead_detect_model.rs` holding its abstract state, the
  safety check as a specification, and the laws its operations obey.
- `src/task.rs`, `src/task_order.rs`: stride-scheduling data, the task control
  block and its order by stride.
- `src/manager.rs`: the ready queues (smallest stride first, and first in first
  out).
- `src/syscall.rs`: the computing parts of the process system calls.
- `app/lib.rs`: the kernel-wide ready queue behind a lock.
