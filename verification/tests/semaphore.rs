use kernel_syscalls::{
    down_fits, ensure_semaphore_state, release_fits, semaphore_deadlocked,
    sys_enable_deadlock_detect, sys_semaphore_create, sys_semaphore_down, sys_semaphore_up,
    KernelCall, ProcessControlBlockInner, SemaphoreRelease, Step, DEADLOCK,
};

/// A process with semaphores of the given counts and detection on.
fn process(counts: &[usize]) -> ProcessControlBlockInner {
    let mut inner = ProcessControlBlockInner::new(4);
    for (id, count) in counts.iter().enumerate() {
        assert_eq!(sys_semaphore_create(&mut inner, *count), id as isize);
    }
    assert_eq!(sys_enable_deadlock_detect(&mut inner, 1), 0);
    inner
}

fn downs(sem_id: usize) -> Step {
    Step::CallThenReturn(KernelCall::DownSemaphore { sem_id }, 0)
}

fn up(inner: &mut ProcessControlBlockInner, tid: usize, id: usize, waking: Option<usize>) {
    let release = sys_semaphore_up(inner, tid, id);
    assert_eq!(release.finish(inner, waking), 0);
}

/// All units of the semaphore, held and free.
fn units(inner: &ProcessControlBlockInner, id: usize) -> usize {
    let held: usize = inner.semaphore_alloc.iter().map(|row| row.get(id).copied().unwrap_or(0)).sum();
    held + inner.semaphore_available[id]
}

#[test]
fn semaphores_start_with_all_units_free() {
    let inner = process(&[3, 0]);
    assert!(!semaphore_deadlocked(&inner));
    assert_eq!(inner.semaphore_list, vec![Some(3), Some(0)]);
    assert_eq!(inner.semaphore_available, vec![3, 0]);
    assert_eq!(inner.semaphore_alloc, vec![vec![0, 0]]);
    assert_eq!(inner.semaphore_request, vec![vec![0, 0]]);
}

#[test]
fn semaphore_takes_the_first_free_slot() {
    let mut inner = process(&[3, 5]);
    inner.semaphore_list[0] = None;
    assert_eq!(sys_semaphore_create(&mut inner, 9), 0);
    assert_eq!(inner.semaphore_list, vec![Some(9), Some(5)]);
    assert_eq!(inner.semaphore_available, vec![9, 5]);
    let mut short = ProcessControlBlockInner::new(1);
    short.semaphore_list = vec![Some(1), None];
    assert_eq!(sys_semaphore_create(&mut short, 4), 1);
    assert_eq!(short.semaphore_available, vec![0, 4]);
}

#[test]
fn tables_grow_by_rows_and_columns() {
    let mut inner = ProcessControlBlockInner::new(1);
    inner.semaphore_available = vec![1, 1, 1];
    inner.semaphore_alloc = vec![vec![7]];
    inner.semaphore_request = vec![vec![]];
    ensure_semaphore_state(&mut inner, 1, 1);
    assert_eq!(inner.semaphore_alloc, vec![vec![7, 0], vec![0, 0, 0]]);
    assert_eq!(inner.semaphore_request, vec![vec![0, 0], vec![0, 0, 0]]);
    ensure_semaphore_state(&mut inner, 0, 0);
    assert_eq!(inner.semaphore_alloc, vec![vec![7, 0], vec![0, 0, 0]]);
}

#[test]
fn free_unit_is_taken() {
    let mut inner = process(&[2]);
    assert_eq!(sys_semaphore_down(&mut inner, 1, 0), downs(0));
    assert_eq!(inner.semaphore_available, vec![1]);
    assert_eq!(inner.semaphore_alloc, vec![vec![0], vec![1]]);
    assert_eq!(inner.semaphore_request, vec![vec![0], vec![0]]);
    assert_eq!(units(&inner, 0), 2);
}

#[test]
fn unit_is_waited_for_behind_a_running_holder() {
    let mut inner = process(&[1]);
    assert_eq!(sys_semaphore_down(&mut inner, 0, 0), downs(0));
    assert_eq!(sys_semaphore_down(&mut inner, 1, 0), downs(0));
    assert_eq!(inner.semaphore_available, vec![0]);
    assert_eq!(inner.semaphore_request, vec![vec![0], vec![1]]);
    assert!(!semaphore_deadlocked(&inner));
    assert_eq!(units(&inner, 0), 1);
}

#[test]
fn asking_again_for_ones_own_unit_is_refused() {
    let mut inner = process(&[1]);
    assert_eq!(sys_semaphore_down(&mut inner, 0, 0), downs(0));
    assert_eq!(sys_semaphore_down(&mut inner, 0, 0), Step::Return(-0xdead));
    assert_eq!(inner.semaphore_alloc, vec![vec![1]]);
    assert_eq!(inner.semaphore_request, vec![vec![0]]);
}

#[test]
fn crossed_downs_are_refused() {
    let mut inner = process(&[1, 1]);
    assert_eq!(sys_semaphore_down(&mut inner, 1, 0), downs(0));
    assert_eq!(sys_semaphore_down(&mut inner, 2, 1), downs(1));
    assert_eq!(sys_semaphore_down(&mut inner, 1, 1), downs(1));
    assert_eq!(sys_semaphore_down(&mut inner, 2, 0), Step::Return(DEADLOCK));
    assert_eq!(inner.semaphore_request, vec![vec![0, 0], vec![0, 1], vec![0, 0]]);
    assert!(!semaphore_deadlocked(&inner));
}

#[test]
fn second_unit_breaks_the_deadlock() {
    let mut inner = process(&[2, 1]);
    assert_eq!(sys_semaphore_down(&mut inner, 1, 0), downs(0));
    assert_eq!(sys_semaphore_down(&mut inner, 3, 0), downs(0));
    assert_eq!(sys_semaphore_down(&mut inner, 2, 1), downs(1));
    assert_eq!(sys_semaphore_down(&mut inner, 1, 1), downs(1));
    assert_eq!(sys_semaphore_down(&mut inner, 2, 0), downs(0));
    assert!(!semaphore_deadlocked(&inner));
}

#[test]
fn waiting_without_holding_is_no_deadlock() {
    let mut inner = process(&[0]);
    assert_eq!(sys_semaphore_down(&mut inner, 0, 0), downs(0));
    assert_eq!(inner.semaphore_request, vec![vec![1]]);
    assert!(!semaphore_deadlocked(&inner));
}

#[test]
fn deadlock_is_found_in_later_threads_after_several_rounds() {
    let mut inner = ProcessControlBlockInner::new(0);
    inner.semaphore_available = vec![0, 0, 0];
    inner.semaphore_alloc = vec![vec![1], vec![0, 1], vec![0, 0, 1]];
    inner.semaphore_request = vec![vec![0, 1], vec![0, 0, 1], vec![]];
    assert!(!semaphore_deadlocked(&inner));
    inner.semaphore_request[2] = vec![0, 1];
    assert!(semaphore_deadlocked(&inner));
}

#[test]
fn totals_past_the_largest_number_cover_every_request() {
    let mut inner = ProcessControlBlockInner::new(0);
    inner.semaphore_available = vec![usize::MAX];
    inner.semaphore_alloc = vec![vec![usize::MAX], vec![1]];
    inner.semaphore_request = vec![vec![0], vec![usize::MAX]];
    assert!(!semaphore_deadlocked(&inner));
    inner.semaphore_available = vec![0];
    inner.semaphore_alloc = vec![vec![usize::MAX - 1], vec![usize::MAX]];
    assert!(semaphore_deadlocked(&inner));
}

#[test]
fn released_unit_is_free() {
    let mut inner = process(&[1]);
    assert_eq!(sys_semaphore_down(&mut inner, 1, 0), downs(0));
    up(&mut inner, 1, 0, None);
    assert_eq!(inner.semaphore_available, vec![1]);
    assert_eq!(inner.semaphore_alloc, vec![vec![0], vec![0]]);
    assert_eq!(units(&inner, 0), 1);
}

#[test]
fn released_unit_goes_to_the_woken_thread() {
    let mut inner = process(&[1]);
    assert_eq!(sys_semaphore_down(&mut inner, 0, 0), downs(0));
    assert_eq!(sys_semaphore_down(&mut inner, 2, 0), downs(0));
    let release = sys_semaphore_up(&mut inner, 0, 0);
    assert_eq!(release, SemaphoreRelease { tid: 0, sem_id: 0, detect: true });
    assert!(release_fits(&inner, 0, 0, Some(2)));
    assert_eq!(release.finish(&mut inner, Some(2)), 0);
    assert_eq!(inner.semaphore_available, vec![0]);
    assert_eq!(inner.semaphore_alloc, vec![vec![0], vec![0], vec![1]]);
    assert_eq!(inner.semaphore_request, vec![vec![0], vec![0], vec![0]]);
    assert_eq!(units(&inner, 0), 1);
}

#[test]
fn release_without_holding_adds_a_unit() {
    let mut inner = process(&[0]);
    up(&mut inner, 3, 0, None);
    assert_eq!(inner.semaphore_available, vec![1]);
    assert_eq!(inner.semaphore_alloc, vec![vec![0], vec![0], vec![0], vec![0]]);
    up(&mut inner, 3, 0, Some(5));
    assert_eq!(inner.semaphore_alloc[5], vec![1]);
    assert_eq!(units(&inner, 0), 2);
}

#[test]
fn semaphore_detection_off_refuses_and_records_nothing() {
    let mut inner = process(&[1]);
    assert_eq!(sys_enable_deadlock_detect(&mut inner, 0), 0);
    assert_eq!(sys_semaphore_down(&mut inner, 2, 0), downs(0));
    assert_eq!(sys_semaphore_down(&mut inner, 2, 0), downs(0));
    up(&mut inner, 2, 0, None);
    assert_eq!(inner.semaphore_available, vec![1]);
    assert_eq!(inner.semaphore_alloc, vec![vec![0]]);
}

#[test]
fn up_goes_by_the_switch_at_its_beginning() {
    let mut inner = process(&[0]);
    assert_eq!(sys_enable_deadlock_detect(&mut inner, 0), 0);
    let release = sys_semaphore_up(&mut inner, 0, 0);
    assert_eq!(sys_enable_deadlock_detect(&mut inner, 1), 0);
    assert_eq!(release.finish(&mut inner, None), 0);
    assert_eq!(inner.semaphore_available, vec![0]);
}

#[test]
fn requests_that_do_not_fit_are_told() {
    let mut inner = process(&[1]);
    assert!(down_fits(&inner, 0, 0));
    assert!(!down_fits(&inner, usize::MAX, 0));
    assert!(!down_fits(&inner, 0, 1));
    inner.semaphore_alloc[0][0] = usize::MAX;
    assert!(!down_fits(&inner, 0, 0));
    inner.semaphore_available[0] = 0;
    assert!(down_fits(&inner, 0, 0));
    inner.semaphore_request[0][0] = usize::MAX;
    assert!(!down_fits(&inner, 0, 0));
    inner.semaphore_request = vec![];
    assert!(!down_fits(&inner, 0, 0));
    assert!(!down_fits(&inner, 1, 0));
}

#[test]
fn releases_that_do_not_fit_are_told() {
    let mut inner = process(&[usize::MAX]);
    assert!(!release_fits(&inner, 0, 0, None));
    assert!(release_fits(&inner, 0, 0, Some(1)));
    assert!(!release_fits(&inner, usize::MAX, 0, Some(1)));
    assert!(!release_fits(&inner, 0, 0, Some(usize::MAX)));
    assert!(!release_fits(&inner, 0, 1, None));
    inner.semaphore_alloc[0][0] = usize::MAX;
    assert!(release_fits(&inner, 0, 0, Some(0)));
    assert!(!release_fits(&inner, 1, 0, Some(0)));
}

#[test]
fn philosophers_never_get_stuck() {
    let mut inner = process(&[1, 1, 1]);
    for t in 0..3 {
        assert_eq!(sys_semaphore_down(&mut inner, t, t), downs(t));
    }
    assert_eq!(sys_semaphore_down(&mut inner, 0, 1), downs(1));
    assert_eq!(sys_semaphore_down(&mut inner, 1, 2), downs(2));
    assert_eq!(sys_semaphore_down(&mut inner, 2, 0), Step::Return(DEADLOCK));
    up(&mut inner, 2, 2, Some(1));
    assert!(!semaphore_deadlocked(&inner));
    up(&mut inner, 1, 2, None);
    up(&mut inner, 1, 1, Some(0));
    assert!(!semaphore_deadlocked(&inner));
    up(&mut inner, 0, 1, None);
    up(&mut inner, 0, 0, None);
    assert_eq!(inner.semaphore_available, vec![1, 1, 1]);
    assert_eq!(inner.semaphore_alloc, vec![vec![0; 3]; 3]);
    assert_eq!(inner.semaphore_request, vec![vec![0; 3]; 3]);
}

#[test]
fn growing_the_tables_changes_no_semaphore_verdict() {
    let mut inner = ProcessControlBlockInner::new(0);
    inner.semaphore_available = vec![0, 0];
    inner.semaphore_alloc = vec![vec![1, 0], vec![0, 1]];
    inner.semaphore_request = vec![vec![0, 1], vec![1, 0]];
    assert!(semaphore_deadlocked(&inner));
    ensure_semaphore_state(&mut inner, 9, 9);
    assert!(semaphore_deadlocked(&inner));
    inner.semaphore_available = vec![1, 0];
    assert!(!semaphore_deadlocked(&inner));
}

#[test]
fn order_of_threads_changes_no_verdict() {
    let mut inner = ProcessControlBlockInner::new(0);
    inner.semaphore_available = vec![0, 0, 0];
    inner.semaphore_alloc = vec![vec![1, 0, 0], vec![0, 1, 0], vec![0, 0, 1]];
    inner.semaphore_request = vec![vec![0, 1, 0], vec![0, 0, 1], vec![0, 0, 0]];
    assert!(!semaphore_deadlocked(&inner));
    inner.semaphore_alloc.reverse();
    inner.semaphore_request.reverse();
    assert!(!semaphore_deadlocked(&inner));
    inner.semaphore_request[0] = vec![1, 0, 0];
    assert!(semaphore_deadlocked(&inner));
    inner.semaphore_alloc.reverse();
    inner.semaphore_request.reverse();
    assert!(semaphore_deadlocked(&inner));
    inner.task_slots = 20;
    assert!(semaphore_deadlocked(&inner));
}

#[test]
fn free_unit_or_smaller_request_ends_a_deadlock() {
    let mut inner = ProcessControlBlockInner::new(0);
    inner.semaphore_available = vec![0, 0];
    inner.semaphore_alloc = vec![vec![1, 0], vec![0, 1]];
    inner.semaphore_request = vec![vec![0, 1], vec![1, 0]];
    assert!(semaphore_deadlocked(&inner));
    inner.semaphore_available[1] = 1;
    assert!(!semaphore_deadlocked(&inner));
    inner.semaphore_available[1] = 0;
    inner.semaphore_request[0][1] = 0;
    assert!(!semaphore_deadlocked(&inner));
}

#[test]
fn new_semaphore_keeps_the_tables_in_step() {
    let mut inner = process(&[2]);
    assert_eq!(sys_semaphore_down(&mut inner, 1, 0), downs(0));
    assert_eq!(sys_semaphore_create(&mut inner, 5), 1);
    assert_eq!(inner.semaphore_available, vec![1, 5]);
    assert_eq!(inner.semaphore_alloc, vec![vec![0, 0], vec![1, 0]]);
    assert_eq!(inner.semaphore_request, vec![vec![0, 0], vec![0, 0]]);
}
