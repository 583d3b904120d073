# kernel_syscalls

System calls of a small teaching kernel, verified with Verus: process services
(exit, yield, sleep, clock, tracing, memory) and the mutexes, semaphores and
condition variables of a multi-threaded process, with deadlock detection.

`src/` decides and `app/` acts. A call that needs the kernel returns what it
wants done (a `Step`, or a request with a `finish` that takes the reply), so
that every decision is a function of plain values with a contract.

- `state`: the per-process state, `ProcessControlBlockInner`, and its
  mathematical value, `SyncState`.
- `mutex`, `semaphore`, `condvar`: the synchronisation calls. With detection
  on, a mutex request is refused if and only if the thread would wait for
  itself, and a semaphore request if and only if no unit is free and waiting
  for one would leave a thread stuck. With detection off none is refused.
- `process`, `bytes`: the process services and how a `TimeVal` lies in memory.
- `step`: what a call asks of the kernel.
- `mutex_laws`, `semaphore_laws`, `time_laws`, `laws`: what holds of the calls
  together. The last one shows that the tables of a process stay free of
  deadlocks in whatever order its threads make calls, on two conditions on the
  calls that are recorded. A thread that locks a mutex, or takes or gives back
  a unit of a semaphore, has no recorded wait for an object of that sort. And a
  thread that is woken by a semaphore has a recorded wait for that unit at
  most. (Switching detection off and on again can break both, as can a thread
  that got a spin mutex by trying again.)
- `app/`: the calls as a kernel dispatches them, over a trait for the rest of
  the kernel.
