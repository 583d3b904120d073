//! System calls of a small teaching kernel: process services, and the
//! mutexes, semaphores and condition variables of a multi-threaded process
//! together with their deadlock detection.
//!
//! The functions here decide; the kernel acts. A call that needs the kernel
//! (to block a thread, to wake one, to translate a user pointer) returns a
//! description of what it wants done, and takes up again from the reply.

pub mod bytes;
pub mod condvar;
pub mod effect_laws;
pub mod laws;
pub mod mutex;
pub mod mutex_laws;
pub mod number_laws;
pub mod process;
pub mod process_laws;
pub mod semaphore;
pub mod semaphore_laws;
pub mod state;
pub mod step;
pub mod sync_call_laws;
pub mod time_laws;
pub mod verdict_laws;
pub mod wait_laws;

pub use crate::bytes::ByteOrder;
pub use crate::condvar::{sys_condvar_create, sys_condvar_signal, sys_condvar_wait};
pub use crate::mutex::{
    ensure_mutex_state, mutex_deadlocked, sys_enable_deadlock_detect, sys_mutex_create,
    sys_mutex_lock, sys_mutex_unlock, MutexRelease,
};
pub use crate::process::{
    finish_trace_count, finish_trace_read, finish_trace_write, sys_exit, sys_get_time, sys_mmap,
    sys_munmap, sys_sbrk, sys_sleep, sys_trace, sys_yield, BrkRequest, BufferRequest, MapRequest,
    TimeRequest, TimeVal, TraceStep, UnmapRequest, UserWrite,
};
pub use crate::semaphore::{
    down_fits, ensure_semaphore_state, release_fits, semaphore_deadlocked, sys_semaphore_create,
    sys_semaphore_down, sys_semaphore_up, SemaphoreRelease,
};
pub use crate::state::{Condvar, MutexKind, ProcessControlBlockInner};
pub use crate::step::{KernelCall, Step, DEADLOCK, FAILURE};
