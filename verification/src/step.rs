//! What a system call asks of the kernel.

use vstd::prelude::*;

verus! {

/// What a system call returns that the kernel could not carry out.
pub const FAILURE: isize = -1;

/// What a system call returns to a thread whose request would deadlock.
pub const DEADLOCK: isize = -0xdead;

/// Something that only the kernel can do, on behalf of the calling thread.
#[derive(Clone, Copy, Debug, PartialEq, Eq, Structural)]
pub enum KernelCall {
    /// Let other threads run.
    SuspendCurrent,
    /// Set a timer for the thread and block it until the clock, in
    /// milliseconds, reaches `expire_ms`.
    SleepUntil { expire_ms: usize },
    /// Lock the mutex, waiting for it if need be.
    LockMutex { mutex_id: usize },
    /// Take a unit of the semaphore, waiting for one if need be.
    DownSemaphore { sem_id: usize },
    /// Wake a thread that waits on the condition variable.
    SignalCondvar { condvar_id: usize },
    /// Release the mutex, wait on the condition variable, and lock the mutex
    /// again.
    WaitCondvar { condvar_id: usize, mutex_id: usize },
}

/// How a system call goes on.
#[derive(Clone, Copy, Debug, PartialEq, Eq, Structural)]
pub enum Step {
    /// The call returns this value.
    Return(isize),
    /// The kernel does this, and then the call returns this value.
    CallThenReturn(KernelCall, isize),
    /// The calling task ends with this exit code; the call does not return.
    Exit(i32),
}

} // verus!
