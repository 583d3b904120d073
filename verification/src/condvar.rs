//! Condition variables.

use vstd::prelude::*;

use crate::bytes::to_signed;
use crate::state::{
    has_slot, is_next_slot, next_slot, slot_of, with_slot, Condvar, ProcessControlBlockInner,
    SyncState,
};
use crate::step::{KernelCall, Step};

verus! {

/// Makes a condition variable in the first free slot and returns the slot.
pub fn sys_condvar_create(inner: &mut ProcessControlBlockInner) -> (ret: isize)
    ensures
        is_next_slot(old(inner)@.condvar_list, slot_of(ret)),
        old(inner)@.condvar_list.len() <= isize::MAX ==> ret == slot_of(ret),
        final(inner)@ == (SyncState {
            condvar_list: with_slot(old(inner)@.condvar_list, slot_of(ret), Condvar),
            ..old(inner)@
        }),
        old(inner)@.wf() ==> final(inner)@.wf(),
{
    let id: usize = next_slot(&inner.condvar_list);
    if id < inner.condvar_list.len() {
        inner.condvar_list.set(id, Some(Condvar));
    } else {
        inner.condvar_list.push(Some(Condvar));
    }
    to_signed(id)
}

/// Signals condition variable `condvar_id`.
pub fn sys_condvar_signal(inner: &ProcessControlBlockInner, condvar_id: usize) -> (step: Step)
    requires
        has_slot(inner@.condvar_list, condvar_id as int),
    ensures
        step == Step::CallThenReturn(KernelCall::SignalCondvar { condvar_id }, 0),
{
    Step::CallThenReturn(KernelCall::SignalCondvar { condvar_id }, 0)
}

/// Waits on condition variable `condvar_id`, with mutex `mutex_id` released
/// meanwhile.
pub fn sys_condvar_wait(
    inner: &ProcessControlBlockInner,
    condvar_id: usize,
    mutex_id: usize,
) -> (step: Step)
    requires
        has_slot(inner@.condvar_list, condvar_id as int),
        has_slot(inner@.mutex_list, mutex_id as int),
    ensures
        step == Step::CallThenReturn(KernelCall::WaitCondvar { condvar_id, mutex_id }, 0),
{
    Step::CallThenReturn(KernelCall::WaitCondvar { condvar_id, mutex_id }, 0)
}

} // verus!
