use kernel_syscalls::{
    ensure_mutex_state, mutex_deadlocked, sys_condvar_create, sys_condvar_signal, sys_condvar_wait,
    sys_enable_deadlock_detect, sys_mutex_create, sys_mutex_lock, sys_mutex_unlock, Condvar,
    KernelCall, MutexKind, MutexRelease, ProcessControlBlockInner, Step, DEADLOCK,
};

/// A process with `n` blocking mutexes and detection on.
fn process(n: usize) -> ProcessControlBlockInner {
    let mut inner = ProcessControlBlockInner::new(4);
    for id in 0..n {
        assert_eq!(sys_mutex_create(&mut inner, true), id as isize);
    }
    assert_eq!(sys_enable_deadlock_detect(&mut inner, 1), 0);
    inner
}

fn locks(mutex_id: usize) -> Step {
    Step::CallThenReturn(KernelCall::LockMutex { mutex_id }, 0)
}

fn unlock(inner: &mut ProcessControlBlockInner, tid: usize, id: usize, waking: Option<usize>) {
    let release = sys_mutex_unlock(inner, tid, id);
    assert_eq!(release.finish(inner, waking), 0);
}

#[test]
fn new_process_is_empty() {
    let inner = ProcessControlBlockInner::new(3);
    assert_eq!(inner.task_slots, 3);
    assert!(!inner.deadlock_detect);
    assert!(inner.mutex_list.is_empty() && inner.semaphore_list.is_empty());
    assert!(!mutex_deadlocked(&inner, 0));
}

#[test]
fn mutexes_get_consecutive_slots() {
    let mut inner = ProcessControlBlockInner::new(1);
    assert_eq!(sys_mutex_create(&mut inner, true), 0);
    assert_eq!(sys_mutex_create(&mut inner, false), 1);
    assert_eq!(inner.mutex_list, vec![Some(MutexKind::Blocking), Some(MutexKind::Spin)]);
    assert_eq!(inner.mutex_owners, vec![None, None]);
}

#[test]
fn mutex_takes_the_first_free_slot() {
    let mut inner = ProcessControlBlockInner::new(1);
    inner.mutex_list = vec![Some(MutexKind::Spin), None, Some(MutexKind::Spin), None];
    assert_eq!(sys_mutex_create(&mut inner, true), 1);
    assert_eq!(inner.mutex_list[1], Some(MutexKind::Blocking));
    assert_eq!(inner.mutex_owners, vec![None, None]);
    assert_eq!(sys_mutex_create(&mut inner, true), 3);
    assert_eq!(inner.mutex_owners.len(), 4);
    assert_eq!(sys_mutex_create(&mut inner, true), 4);
    assert_eq!(inner.mutex_owners.len(), 5);
}

#[test]
fn tables_grow_on_demand_and_only_once() {
    let mut inner = ProcessControlBlockInner::new(1);
    ensure_mutex_state(&mut inner, 2, 1);
    assert_eq!(inner.mutex_owners, vec![None, None]);
    assert_eq!(inner.mutex_requests, vec![None, None, None]);
    ensure_mutex_state(&mut inner, 0, 0);
    assert_eq!(inner.mutex_owners.len(), 2);
    assert_eq!(inner.mutex_requests.len(), 3);
}

#[test]
fn free_mutex_is_granted() {
    let mut inner = process(1);
    assert_eq!(sys_mutex_lock(&mut inner, 2, 0), locks(0));
    assert_eq!(inner.mutex_owners[0], Some(2));
    assert_eq!(inner.mutex_requests, vec![None, None, None]);
}

#[test]
fn locked_mutex_is_waited_for() {
    let mut inner = process(1);
    assert_eq!(sys_mutex_lock(&mut inner, 0, 0), locks(0));
    assert_eq!(sys_mutex_lock(&mut inner, 1, 0), locks(0));
    assert_eq!(inner.mutex_owners[0], Some(0));
    assert_eq!(inner.mutex_requests[1], Some(0));
    assert!(!mutex_deadlocked(&inner, 0));
    assert!(!mutex_deadlocked(&inner, 1));
}

#[test]
fn relocking_is_refused() {
    let mut inner = process(1);
    assert_eq!(sys_mutex_lock(&mut inner, 0, 0), locks(0));
    assert_eq!(sys_mutex_lock(&mut inner, 0, 0), Step::Return(-0xdead));
    assert_eq!(inner.mutex_owners, vec![Some(0)]);
    assert_eq!(inner.mutex_requests, vec![None]);
}

#[test]
fn crossed_locks_are_refused() {
    let mut inner = process(2);
    assert_eq!(sys_mutex_lock(&mut inner, 0, 0), locks(0));
    assert_eq!(sys_mutex_lock(&mut inner, 1, 1), locks(1));
    assert_eq!(sys_mutex_lock(&mut inner, 0, 1), locks(1));
    assert_eq!(sys_mutex_lock(&mut inner, 1, 0), Step::Return(DEADLOCK));
    assert_eq!(inner.mutex_owners, vec![Some(0), Some(1)]);
    assert_eq!(inner.mutex_requests, vec![Some(1), None]);
}

#[test]
fn ring_of_three_is_refused() {
    let mut inner = process(3);
    for t in 0..3 {
        assert_eq!(sys_mutex_lock(&mut inner, t, t), locks(t));
    }
    assert_eq!(sys_mutex_lock(&mut inner, 0, 1), locks(1));
    assert_eq!(sys_mutex_lock(&mut inner, 1, 2), locks(2));
    assert_eq!(sys_mutex_lock(&mut inner, 2, 0), Step::Return(DEADLOCK));
    unlock(&mut inner, 2, 2, Some(1));
    assert_eq!(inner.mutex_owners, vec![Some(0), Some(1), Some(1)]);
    assert_eq!(inner.mutex_requests, vec![Some(1), None, None]);
}

#[test]
fn cycle_of_others_is_not_ones_own() {
    let mut inner = ProcessControlBlockInner::new(3);
    inner.mutex_owners = vec![Some(0), Some(1)];
    inner.mutex_requests = vec![Some(1), Some(0), Some(0)];
    assert!(mutex_deadlocked(&inner, 0));
    assert!(mutex_deadlocked(&inner, 1));
    assert!(!mutex_deadlocked(&inner, 2));
}

#[test]
fn chain_past_the_tables_ends() {
    let mut inner = ProcessControlBlockInner::new(3);
    inner.mutex_owners = vec![Some(100)];
    inner.mutex_requests = vec![Some(0), Some(7)];
    assert!(!mutex_deadlocked(&inner, 0));
    assert!(!mutex_deadlocked(&inner, 1));
    assert!(!mutex_deadlocked(&inner, 50));
}

#[test]
fn detection_off_refuses_and_records_nothing() {
    let mut inner = process(1);
    assert_eq!(sys_enable_deadlock_detect(&mut inner, 0), 0);
    assert!(!inner.deadlock_detect);
    assert_eq!(sys_mutex_lock(&mut inner, 0, 0), locks(0));
    assert_eq!(sys_mutex_lock(&mut inner, 0, 0), locks(0));
    assert_eq!(inner.mutex_owners, vec![None]);
    assert!(inner.mutex_requests.is_empty());
    unlock(&mut inner, 1, 0, Some(3));
    assert_eq!(inner.mutex_owners, vec![None]);
    assert_eq!(inner.mutex_requests, vec![None, None]);
}

#[test]
fn any_nonzero_value_switches_detection_on() {
    let mut inner = ProcessControlBlockInner::new(1);
    assert_eq!(sys_enable_deadlock_detect(&mut inner, 77), 0);
    assert!(inner.deadlock_detect);
}

#[test]
fn unlock_frees_the_mutex() {
    let mut inner = process(1);
    assert_eq!(sys_mutex_lock(&mut inner, 0, 0), locks(0));
    unlock(&mut inner, 0, 0, None);
    assert_eq!(inner.mutex_owners, vec![None]);
    assert_eq!(inner.mutex_requests, vec![None]);
    assert_eq!(sys_mutex_lock(&mut inner, 1, 0), locks(0));
    assert_eq!(inner.mutex_owners, vec![Some(1)]);
}

#[test]
fn unlock_hands_the_mutex_over() {
    let mut inner = process(1);
    assert_eq!(sys_mutex_lock(&mut inner, 0, 0), locks(0));
    assert_eq!(sys_mutex_lock(&mut inner, 3, 0), locks(0));
    let release = sys_mutex_unlock(&mut inner, 0, 0);
    assert_eq!(release, MutexRelease { tid: 0, mutex_id: 0, detect: true });
    assert_eq!(inner.mutex_owners, vec![Some(0)]);
    assert_eq!(release.finish(&mut inner, Some(3)), 0);
    assert_eq!(inner.mutex_owners, vec![Some(3)]);
    assert_eq!(inner.mutex_requests, vec![None, None, None, None]);
}

#[test]
fn unlock_by_another_thread_passes_nothing_on() {
    let mut inner = process(1);
    assert_eq!(sys_mutex_lock(&mut inner, 0, 0), locks(0));
    unlock(&mut inner, 1, 0, Some(2));
    assert_eq!(inner.mutex_owners, vec![Some(0)]);
    assert_eq!(inner.mutex_requests, vec![None, None]);
}

#[test]
fn release_passes_on_only_what_its_thread_owns() {
    let mut inner = process(1);
    assert_eq!(sys_mutex_lock(&mut inner, 0, 0), locks(0));
    assert!(sys_mutex_unlock(&mut inner, 0, 0).passes_on(&inner));
    assert!(!sys_mutex_unlock(&mut inner, 1, 0).passes_on(&inner));
    assert!(!MutexRelease { tid: 0, mutex_id: 0, detect: false }.passes_on(&inner));
    assert!(!MutexRelease { tid: 0, mutex_id: 7, detect: true }.passes_on(&inner));
}

#[test]
fn growing_the_tables_changes_no_verdict() {
    let mut inner = ProcessControlBlockInner::new(2);
    inner.mutex_owners = vec![Some(0), Some(1)];
    inner.mutex_requests = vec![Some(1), Some(0)];
    ensure_mutex_state(&mut inner, 9, 9);
    assert!(mutex_deadlocked(&inner, 0));
    assert!(!mutex_deadlocked(&inner, 9));
}

#[test]
fn unlock_goes_by_the_switch_at_its_beginning() {
    let mut inner = process(1);
    assert_eq!(sys_mutex_lock(&mut inner, 0, 0), locks(0));
    let release = sys_mutex_unlock(&mut inner, 0, 0);
    assert_eq!(sys_enable_deadlock_detect(&mut inner, 0), 0);
    assert_eq!(release.finish(&mut inner, None), 0);
    assert_eq!(inner.mutex_owners, vec![None]);
}

#[test]
fn woken_thread_may_be_new_to_the_tables() {
    let mut inner = process(1);
    assert_eq!(sys_mutex_lock(&mut inner, 0, 0), locks(0));
    unlock(&mut inner, 0, 0, Some(5));
    assert_eq!(inner.mutex_owners, vec![Some(5)]);
    assert_eq!(inner.mutex_requests.len(), 6);
}

#[test]
fn condvars_get_the_first_free_slot() {
    let mut inner = ProcessControlBlockInner::new(1);
    assert_eq!(sys_condvar_create(&mut inner), 0);
    assert_eq!(sys_condvar_create(&mut inner), 1);
    inner.condvar_list[0] = None;
    assert_eq!(sys_condvar_create(&mut inner), 0);
    assert_eq!(inner.condvar_list, vec![Some(Condvar), Some(Condvar)]);
}

#[test]
fn condvar_calls_name_their_objects() {
    let mut inner = process(2);
    assert_eq!(sys_condvar_create(&mut inner), 0);
    assert_eq!(
        sys_condvar_signal(&inner, 0),
        Step::CallThenReturn(KernelCall::SignalCondvar { condvar_id: 0 }, 0)
    );
    assert_eq!(
        sys_condvar_wait(&inner, 0, 1),
        Step::CallThenReturn(KernelCall::WaitCondvar { condvar_id: 0, mutex_id: 1 }, 0)
    );
}
