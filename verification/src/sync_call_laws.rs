//! What calls on mutexes, semaphores and condition variables give, one after
//! another.

use vstd::prelude::*;

use crate::condvar::{sys_condvar_create, sys_condvar_signal, sys_condvar_wait};
use crate::effect_laws::{
    law_down_effect, law_lock_effect, law_mutex_create_effect, law_mutex_growth,
    law_object_in_slot, law_request_row, law_semaphore_create_effect, law_semaphore_growth,
    law_unlock_effect, law_up_effect, law_when_down_fits, law_when_release_fits, mutex_part_only,
    semaphore_part_only,
};
use crate::mutex::{
    ensure_mutex_state, mutex_deadlocked, sys_enable_deadlock_detect, sys_mutex_create,
    sys_mutex_lock, sys_mutex_unlock, MutexRelease,
};
use crate::mutex_laws::law_covering_mutex;
use crate::semaphore::{
    down_fits, ensure_semaphore_state, lemma_covering_semaphore, release_fits,
    semaphore_deadlocked, sys_semaphore_create, sys_semaphore_down, sys_semaphore_up,
    SemaphoreRelease,
};
use crate::state::{slot_of, Condvar, MutexKind, ProcessControlBlockInner, SyncState};
use crate::step::{KernelCall, Step};
use crate::verdict_laws::{
    law_closed_group_is_stuck, law_down_admitted_by_order, law_down_closing_group_refused,
    law_order_shows_nobody_stuck, law_refused_down_shows_stuck_thread,
};
use crate::wait_laws::{
    law_chain_back_refused, law_chain_that_ends_admitted, law_path_back_is_cycle,
    law_path_that_ends_is_no_cycle, law_refused_lock_shows_chain,
};

verus! {

/// A lock is carried out or refused with `-0xdead`, and leaves the objects as
/// they are. With detection off it is carried out and recorded nowhere. With
/// detection on a mutex without an owner goes to the thread.
pub proof fn law_lock_call(
    inner: &mut ProcessControlBlockInner,
    tid: usize,
    mutex_id: usize,
    step: Step,
)
    requires
        call_ensures(sys_mutex_lock, (inner, tid, mutex_id), step),
    ensures
        step == Step::Return(-0xdeadisize) || step == Step::CallThenReturn(
            KernelCall::LockMutex { mutex_id },
            0,
        ),
        mutex_part_only(old(inner)@, final(inner)@),
        ({
            let s = old(inner)@;
            let new = final(inner)@;
            let free = s.owner_of(mutex_id as int) is None;
            &&& !s.deadlock_detect ==> new == s && !(step is Return)
            &&& s.deadlock_detect && free ==> !(step is Return) && new.owner_of(mutex_id as int)
                == Some(tid)
            &&& s.deadlock_detect && !free ==> new.owner_of(mutex_id as int) == s.owner_of(
                mutex_id as int,
            )
            &&& s.deadlock_detect && !free && step is Return ==> new.awaited_by(tid as int) is None
            &&& s.deadlock_detect && !free && !(step is Return) ==> new.awaited_by(tid as int)
                == Some(mutex_id)
        }),
        forall|m: int|
            m != mutex_id ==> #[trigger] final(inner)@.owner_of(m) == old(inner)@.owner_of(m),
        forall|t: int|
            t != tid ==> #[trigger] final(inner)@.awaited_by(t) == old(inner)@.awaited_by(t),
{
    if old(inner)@.deadlock_detect {
        law_lock_effect(old(inner)@, tid, mutex_id);
    }
}

/// With detection on a lock is refused if the owners, each waiting for a mutex
/// of the next, lead to the asking thread; and it is carried out if they lead
/// past it to a thread that waits for nothing, or for a mutex without an
/// owner. How long the chain is does not matter.
pub proof fn law_lock_call_verdict(
    inner: &mut ProcessControlBlockInner,
    tid: usize,
    mutex_id: usize,
    chain: Seq<usize>,
    step: Step,
)
    requires
        call_ensures(sys_mutex_lock, (inner, tid, mutex_id), step),
        old(inner)@.deadlock_detect,
        chain.len() >= 1,
        old(inner)@.owner_of(mutex_id as int) == Some(chain[0]),
        forall|i: int|
            0 <= i < chain.len() - 1 ==> {
                &&& old(inner)@.awaited_by(#[trigger] chain[i] as int) is Some
                &&& old(inner)@.owner_of(old(inner)@.awaited_by(chain[i] as int)->0 as int) == Some(
                    chain[i + 1],
                )
            },
    ensures
        chain[chain.len() - 1] == tid ==> step is Return,
        (old(inner)@.awaited_by(chain[chain.len() - 1] as int) is None || old(inner)@.owner_of(
            old(inner)@.awaited_by(chain[chain.len() - 1] as int)->0 as int,
        ) is None) && (forall|i: int| 0 <= i < chain.len() ==> #[trigger] chain[i] != tid) ==> !(
        step is Return),
{
    let s = old(inner)@;
    if chain[chain.len() - 1] == tid {
        law_chain_back_refused(s, tid, mutex_id, chain);
    } else if (s.awaited_by(chain[chain.len() - 1] as int) is None || s.owner_of(
        s.awaited_by(chain[chain.len() - 1] as int)->0 as int,
    ) is None) && (forall|i: int| 0 <= i < chain.len() ==> #[trigger] chain[i] != tid) {
        law_chain_that_ends_admitted(s, tid, mutex_id, chain);
    }
}

/// A refused lock shows a chain of owners that leads to the asking thread.
pub proof fn law_lock_call_refused(
    inner: &mut ProcessControlBlockInner,
    tid: usize,
    mutex_id: usize,
    step: Step,
) -> (chain: Seq<usize>)
    requires
        call_ensures(sys_mutex_lock, (inner, tid, mutex_id), step),
        step is Return,
    ensures
        old(inner)@.deadlock_detect,
        chain.len() >= 1,
        old(inner)@.owner_of(mutex_id as int) == Some(chain[0]),
        chain[chain.len() - 1] == tid,
        forall|i: int|
            0 <= i < chain.len() - 1 ==> {
                &&& old(inner)@.awaited_by(#[trigger] chain[i] as int) is Some
                &&& old(inner)@.owner_of(old(inner)@.awaited_by(chain[i] as int)->0 as int) == Some(
                    chain[i + 1],
                )
            },
{
    law_refused_lock_shows_chain(old(inner)@, tid, mutex_id)
}

/// The search for a wait cycle finds one from where a path of threads, each
/// waiting for a mutex that the next owns, comes back to its start, and none
/// from where such a path ends.
pub proof fn law_search_call(
    inner: ProcessControlBlockInner,
    path: Seq<usize>,
    deadlocked: bool,
)
    requires
        path.len() >= 1,
        call_ensures(mutex_deadlocked, (&inner, path[0]), deadlocked),
        forall|i: int|
            0 <= i < path.len() - 1 ==> {
                &&& inner@.awaited_by(#[trigger] path[i] as int) is Some
                &&& inner@.owner_of(inner@.awaited_by(path[i] as int)->0 as int) == Some(path[i + 1])
            },
    ensures
        path.len() >= 2 && path[path.len() - 1] == path[0] ==> deadlocked,
        inner@.awaited_by(path[path.len() - 1] as int) is None || inner@.owner_of(
            inner@.awaited_by(path[path.len() - 1] as int)->0 as int,
        ) is None ==> !deadlocked,
{
    if path.len() >= 2 && path[path.len() - 1] == path[0] {
        law_path_back_is_cycle(inner@, path);
    }
    if inner@.awaited_by(path[path.len() - 1] as int) is None || inner@.owner_of(
        inner@.awaited_by(path[path.len() - 1] as int)->0 as int,
    ) is None {
        law_path_that_ends_is_no_cycle(inner@, path);
    }
}

/// A mutex that its owner has released, with nobody to wake, is still there
/// with its kind and has no owner: the next lock, by whichever thread, is
/// carried out and makes that thread the owner.
pub proof fn law_released_mutex_can_be_locked(
    begin: &mut ProcessControlBlockInner,
    end: &mut ProcessControlBlockInner,
    again: &mut ProcessControlBlockInner,
    tid: usize,
    mutex_id: usize,
    release: MutexRelease,
    ret: isize,
    other: usize,
    step: Step,
)
    requires
        old(begin)@.deadlock_detect,
        old(begin)@.owner_of(mutex_id as int) == Some(tid),
        call_ensures(sys_mutex_unlock, (begin, tid, mutex_id), release),
        *old(end) == *final(begin),
        call_ensures(MutexRelease::finish, (release, end, None::<usize>), ret),
        *old(again) == *final(end),
        call_ensures(sys_mutex_lock, (again, other, mutex_id), step),
    ensures
        ret == 0,
        final(end)@.owner_of(mutex_id as int) is None,
        final(end)@.mutex_list == old(begin)@.mutex_list,
        final(again)@.mutex_list == old(begin)@.mutex_list,
        step == Step::CallThenReturn(KernelCall::LockMutex { mutex_id }, 0),
        final(again)@.owner_of(mutex_id as int) == Some(other),
{
    law_covering_mutex(old(begin)@, tid as int, mutex_id as int);
    law_unlock_effect(old(end)@, tid, mutex_id, None);
    law_lock_effect(old(again)@, other, mutex_id);
}

/// A mutex that its owner releases passes to the woken thread, which then
/// waits for nothing. A release by any other thread, and one with detection
/// off, leaves every owner and wait as it was. In each case the call returns
/// zero and every object stays as it is.
pub proof fn law_unlock_calls(
    begin: &mut ProcessControlBlockInner,
    end: &mut ProcessControlBlockInner,
    tid: usize,
    mutex_id: usize,
    release: MutexRelease,
    waking_tid: Option<usize>,
    ret: isize,
)
    requires
        call_ensures(sys_mutex_unlock, (begin, tid, mutex_id), release),
        *old(end) == *final(begin),
        call_ensures(MutexRelease::finish, (release, end, waking_tid), ret),
    ensures
        ret == 0,
        mutex_part_only(old(begin)@, final(end)@),
        forall|m: int|
            m != mutex_id ==> #[trigger] final(end)@.owner_of(m) == old(begin)@.owner_of(m),
        ({
            let passes = old(begin)@.deadlock_detect && old(begin)@.owner_of(mutex_id as int)
                == Some(tid);
            &&& passes ==> final(end)@.owner_of(mutex_id as int) == waking_tid
            &&& !passes ==> final(end)@.owner_of(mutex_id as int) == old(begin)@.owner_of(
                mutex_id as int,
            )
            &&& passes && waking_tid is Some ==> final(end)@.awaited_by(
                waking_tid->0 as int,
            ) is None
            &&& forall|t: usize|
                !passes || waking_tid != Some(t) ==> #[trigger] final(end)@.awaited_by(t as int)
                    == old(begin)@.awaited_by(t as int)
        }),
{
    law_covering_mutex(old(begin)@, tid as int, mutex_id as int);
    law_unlock_effect(old(end)@, tid, mutex_id, waking_tid);
}

/// Two mutexes made one after the other are in different slots, each with the
/// kind asked for. Neither call moves another object or takes a slot that was
/// in use, and neither gives any mutex an owner or takes one from it.
pub proof fn law_mutexes_made_apart(
    first: &mut ProcessControlBlockInner,
    second: &mut ProcessControlBlockInner,
    first_blocking: bool,
    second_blocking: bool,
    first_ret: isize,
    second_ret: isize,
)
    requires
        call_ensures(sys_mutex_create, (first, first_blocking), first_ret),
        *old(second) == *final(first),
        call_ensures(sys_mutex_create, (second, second_blocking), second_ret),
        old(first)@.mutex_list.len() < isize::MAX,
    ensures
        0 <= first_ret < final(second)@.mutex_list.len(),
        0 <= second_ret < final(second)@.mutex_list.len(),
        first_ret != second_ret,
        first_ret < old(first)@.mutex_list.len()
            ==> old(first)@.mutex_list[first_ret as int] is None,
        forall|i: int| 0 <= i < first_ret ==> (#[trigger] old(first)@.mutex_list[i]) is Some,
        final(second)@.mutex_list[first_ret as int] == Some(
            if first_blocking {
                MutexKind::Blocking
            } else {
                MutexKind::Spin
            },
        ),
        final(second)@.mutex_list[second_ret as int] == Some(
            if second_blocking {
                MutexKind::Blocking
            } else {
                MutexKind::Spin
            },
        ),
        forall|i: int|
            0 <= i < old(first)@.mutex_list.len() && i != first_ret && i != second_ret
                ==> #[trigger] final(second)@.mutex_list[i] == old(first)@.mutex_list[i],
        forall|m: int| #[trigger] final(second)@.owner_of(m) == old(first)@.owner_of(m),
        final(second)@.mutex_requests == old(first)@.mutex_requests,
        final(second)@.semaphore_list == old(first)@.semaphore_list,
        final(second)@.semaphore_available == old(first)@.semaphore_available,
        final(second)@.semaphore_alloc == old(first)@.semaphore_alloc,
        final(second)@.semaphore_request == old(first)@.semaphore_request,
        final(second)@.condvar_list == old(first)@.condvar_list,
        final(second)@.deadlock_detect == old(first)@.deadlock_detect,
{
    law_mutex_create_effect(
        old(first)@,
        slot_of(first_ret),
        if first_blocking {
            MutexKind::Blocking
        } else {
            MutexKind::Spin
        },
    );
    law_mutex_create_effect(
        old(second)@,
        slot_of(second_ret),
        if second_blocking {
            MutexKind::Blocking
        } else {
            MutexKind::Spin
        },
    );
}

/// A request for a unit is carried out or refused with `-0xdead`, and leaves
/// the objects as they are. With detection off it is carried out and recorded
/// nowhere. With detection on a free unit goes to the thread; where none is
/// free, the thread waits for one unit more if it was not refused.
pub proof fn law_down_call(
    inner: &mut ProcessControlBlockInner,
    tid: usize,
    sem_id: usize,
    step: Step,
)
    requires
        call_ensures(sys_semaphore_down, (inner, tid, sem_id), step),
        old(inner)@.deadlock_detect ==> old(inner)@.can_record_down(tid, sem_id),
    ensures
        step == Step::Return(-0xdeadisize) || step == Step::CallThenReturn(
            KernelCall::DownSemaphore { sem_id },
            0,
        ),
        semaphore_part_only(old(inner)@, final(inner)@),
        ({
            let s = old(inner)@;
            let new = final(inner)@;
            let free = s.semaphore_available[sem_id as int] > 0;
            let taken: int = if s.deadlock_detect && free {
                1
            } else {
                0
            };
            let asked: int = if s.deadlock_detect && !free && !(step is Return) {
                1
            } else {
                0
            };
            &&& !s.deadlock_detect ==> new == s
            &&& !s.deadlock_detect || free ==> !(step is Return)
            &&& new.semaphore_available.len() == s.semaphore_available.len()
            &&& forall|x: int|
                0 <= x < s.semaphore_available.len() ==> #[trigger] new.semaphore_available[x]
                    == s.semaphore_available[x] - (if x == sem_id {
                    taken
                } else {
                    0
                })
            &&& forall|t: int, x: int| #[trigger]
                new.held(t, x) == s.held(t, x) + (if t == tid && x == sem_id {
                    taken
                } else {
                    0
                })
            &&& forall|t: int, x: int| #[trigger]
                new.wanted(t, x) == s.wanted(t, x) + (if t == tid && x == sem_id {
                    asked
                } else {
                    0
                })
        }),
{
    if old(inner)@.deadlock_detect {
        law_down_effect(old(inner)@, tid, sem_id);
    }
}

/// With detection on a request for a unit is carried out where the threads
/// that hold units and wait, the asking one among them if it holds any, can be
/// served in some order: each finds enough units that are free or that those
/// before it give back.
pub proof fn law_down_call_admitted(
    inner: &mut ProcessControlBlockInner,
    tid: usize,
    sem_id: usize,
    order: Seq<int>,
    step: Step,
)
    requires
        call_ensures(sys_semaphore_down, (inner, tid, sem_id), step),
        old(inner)@.deadlock_detect,
        old(inner)@.can_record_down(tid, sem_id),
        order.no_duplicates(),
        forall|i: int| 0 <= i < order.len() ==> #[trigger] order[i] >= 0,
        forall|i: int, x: int|
            0 <= i < order.len() && 0 <= x < old(inner)@.semaphore_available.len()
                ==> #[trigger] old(inner)@.wanted(order[i], x) + (if order[i] == tid && x
                == sem_id {
                1int
            } else {
                0
            }) <= old(inner)@.semaphore_available[x] + old(inner)@.held_by_all(order.take(i), x),
        forall|t: int, x: int, y: int|
            #![trigger old(inner)@.held(t, x), old(inner)@.wanted(t, y)]
            old(inner)@.held(t, x) > 0 && (old(inner)@.wanted(t, y) > 0 || t == tid)
                ==> order.contains(t),
    ensures
        step == Step::CallThenReturn(KernelCall::DownSemaphore { sem_id }, 0),
{
    if old(inner)@.semaphore_available[sem_id as int] == 0 {
        law_down_admitted_by_order(old(inner)@, tid, sem_id, order);
    }
}

/// A refused request for a unit, of which none is free, shows a thread that
/// holds a unit and would wait for one, and that no order of running threads
/// would ever serve.
pub proof fn law_down_call_refused(
    inner: &mut ProcessControlBlockInner,
    tid: usize,
    sem_id: usize,
    step: Step,
) -> (t: int)
    requires
        call_ensures(sys_semaphore_down, (inner, tid, sem_id), step),
        old(inner)@.can_record_down(tid, sem_id),
        step is Return,
    ensures
        old(inner)@.deadlock_detect,
        old(inner)@.semaphore_available[sem_id as int] == 0,
        exists|x: int| #[trigger] old(inner)@.held(t, x) > 0,
        t == tid || exists|y: int| #[trigger] old(inner)@.wanted(t, y) > 0,
        forall|order: Seq<int>|
            order.no_duplicates() && (forall|i: int|
                0 <= i < order.len() ==> #[trigger] order[i] >= 0) && (forall|i: int, x: int|
                0 <= i < order.len() && 0 <= x < old(inner)@.semaphore_available.len()
                    ==> #[trigger] old(inner)@.wanted(order[i], x) + (if order[i] == tid && x
                    == sem_id {
                    1int
                } else {
                    0
                }) <= old(inner)@.semaphore_available[x] + old(inner)@.held_by_all(
                    order.take(i),
                    x,
                )) ==> !#[trigger] order.contains(t),
{
    law_refused_down_shows_stuck_thread(old(inner)@, tid, sem_id)
}

/// With detection on a request for a unit, where none is free, is refused if
/// it would close a group of threads, one of which holds a unit: each of them,
/// once the asking thread waits too, is short of units of some semaphore
/// whatever the threads outside the group give back.
pub proof fn law_down_call_closing_group(
    inner: &mut ProcessControlBlockInner,
    tid: usize,
    sem_id: usize,
    group: Set<int>,
    short: spec_fn(int) -> int,
    t: int,
    x: int,
    step: Step,
)
    requires
        call_ensures(sys_semaphore_down, (inner, tid, sem_id), step),
        old(inner)@.deadlock_detect,
        old(inner)@.can_record_down(tid, sem_id),
        old(inner)@.semaphore_available[sem_id as int] == 0,
        group.contains(t),
        old(inner)@.held(t, x) > 0,
        forall|u: int| #[trigger]
            group.contains(u) ==> 0 <= short(u) < old(inner)@.semaphore_available.len(),
        forall|u: int, others: Seq<int>|
            #![trigger group.contains(u), old(inner)@.held_by_all(others, short(u))]
            group.contains(u) && others.no_duplicates() && (forall|i: int|
                0 <= i < others.len() ==> !group.contains(#[trigger] others[i])) ==> old(
                inner
            )@.wanted(u, short(u)) + (if u == tid && short(u) == sem_id {
                1int
            } else {
                0
            }) > old(inner)@.semaphore_available[short(u)] + old(inner)@.held_by_all(
                others,
                short(u),
            ),
    ensures
        step == Step::Return(-0xdeadisize),
{
    law_down_closing_group_refused(old(inner)@, tid, sem_id, group, short, t, x);
}

/// The search for a stuck thread finds none where the threads that hold units
/// and wait can be served in some order.
pub proof fn law_stuck_search_call(
    inner: ProcessControlBlockInner,
    order: Seq<int>,
    deadlocked: bool,
)
    requires
        call_ensures(semaphore_deadlocked, (&inner,), deadlocked),
        order.no_duplicates(),
        forall|i: int| 0 <= i < order.len() ==> #[trigger] order[i] >= 0,
        forall|i: int, x: int|
            0 <= i < order.len() && 0 <= x < inner@.semaphore_available.len()
                ==> #[trigger] inner@.wanted(order[i], x) <= inner@.semaphore_available[x]
                + inner@.held_by_all(order.take(i), x),
        forall|t: int, x: int, y: int|
            #![trigger inner@.held(t, x), inner@.wanted(t, y)]
            inner@.held(t, x) > 0 && inner@.wanted(t, y) > 0 ==> order.contains(t),
    ensures
        !deadlocked,
{
    law_order_shows_nobody_stuck(inner@, order);
}

/// The search for a stuck thread finds one where a group of threads, one of
/// which holds a unit, is closed: each of them is short of units of some
/// semaphore whatever the threads outside the group give back.
pub proof fn law_stuck_search_call_closed_group(
    inner: ProcessControlBlockInner,
    group: Set<int>,
    short: spec_fn(int) -> int,
    t: int,
    x: int,
    deadlocked: bool,
)
    requires
        call_ensures(semaphore_deadlocked, (&inner,), deadlocked),
        group.contains(t),
        inner@.held(t, x) > 0,
        forall|u: int| #[trigger]
            group.contains(u) ==> 0 <= short(u) < inner@.semaphore_available.len(),
        forall|u: int, others: Seq<int>|
            #![trigger group.contains(u), inner@.held_by_all(others, short(u))]
            group.contains(u) && others.no_duplicates() && (forall|i: int|
                0 <= i < others.len() ==> !group.contains(#[trigger] others[i])) ==> inner@.wanted(
                u,
                short(u),
            ) > inner@.semaphore_available[short(u)] + inner@.held_by_all(others, short(u)),
    ensures
        deadlocked,
{
    law_closed_group_is_stuck(inner@, group, short, t, x);
}

/// A unit that was released with nobody to wake can be taken again: its
/// semaphore is still there, and the next request for a unit of it, by
/// whichever thread, is carried out.
pub proof fn law_released_unit_can_be_taken(
    begin: &mut ProcessControlBlockInner,
    end: &mut ProcessControlBlockInner,
    again: &mut ProcessControlBlockInner,
    tid: usize,
    sem_id: usize,
    release: SemaphoreRelease,
    ret: isize,
    other: usize,
    step: Step,
)
    requires
        old(begin)@.deadlock_detect,
        call_ensures(sys_semaphore_up, (begin, tid, sem_id), release),
        *old(end) == *final(begin),
        old(end)@.can_record_release(tid, sem_id, None),
        call_ensures(SemaphoreRelease::finish, (release, end, None::<usize>), ret),
        *old(again) == *final(end),
        old(again)@.can_record_down(other, sem_id),
        call_ensures(sys_semaphore_down, (again, other, sem_id), step),
    ensures
        ret == 0,
        final(end)@.semaphore_list == old(begin)@.semaphore_list,
        final(again)@.semaphore_list == old(begin)@.semaphore_list,
        final(end)@.semaphore_available[sem_id as int]
            == old(begin)@.semaphore_available[sem_id as int] + 1,
        step == Step::CallThenReturn(KernelCall::DownSemaphore { sem_id }, 0),
        final(again)@.semaphore_available == old(begin)@.semaphore_available,
        final(again)@.held(other as int, sem_id as int) == final(end)@.held(
            other as int,
            sem_id as int,
        ) + 1,
{
    lemma_covering_semaphore(old(begin)@, tid as int, sem_id as int);
    law_up_effect(old(end)@, tid, sem_id, None);
    law_down_effect(old(again)@, other, sem_id);
    assert(final(again)@.semaphore_available =~= old(begin)@.semaphore_available);
}

/// A released unit goes from the thread that held it to the woken one, which
/// waits for one unit less, or is free. With detection off nothing is
/// recorded. In each case the call returns zero, and every object stays as it
/// is.
pub proof fn law_up_calls(
    begin: &mut ProcessControlBlockInner,
    end: &mut ProcessControlBlockInner,
    tid: usize,
    sem_id: usize,
    release: SemaphoreRelease,
    waking_tid: Option<usize>,
    ret: isize,
)
    requires
        call_ensures(sys_semaphore_up, (begin, tid, sem_id), release),
        *old(end) == *final(begin),
        old(begin)@.deadlock_detect ==> old(end)@.can_record_release(tid, sem_id, waking_tid),
        call_ensures(SemaphoreRelease::finish, (release, end, waking_tid), ret),
    ensures
        ret == 0,
        semaphore_part_only(old(begin)@, final(end)@),
        !old(begin)@.deadlock_detect ==> final(end)@ == old(begin)@,
        old(begin)@.deadlock_detect ==> {
            let s = old(begin)@;
            let new = final(end)@;
            &&& new.semaphore_available.len() == s.semaphore_available.len()
            &&& forall|x: int|
                0 <= x < s.semaphore_available.len() ==> #[trigger] new.semaphore_available[x]
                    == s.semaphore_available[x] + (if waking_tid is None && x == sem_id {
                    1int
                } else {
                    0
                })
            &&& forall|t: int, x: int| #[trigger]
                new.held(t, x) == s.held(t, x) - (if t == tid && x == sem_id && s.held(t, x) > 0 {
                    1int
                } else {
                    0
                }) + (if waking_tid is Some && t == waking_tid->0 && x == sem_id {
                    1int
                } else {
                    0
                })
            &&& forall|t: int, x: int| #[trigger]
                new.wanted(t, x) == s.wanted(t, x) - (if waking_tid is Some && t == waking_tid->0
                    && x == sem_id && s.wanted(t, x) > 0 {
                    1int
                } else {
                    0
                })
        },
{
    if old(begin)@.deadlock_detect {
        lemma_covering_semaphore(old(begin)@, tid as int, sem_id as int);
        law_up_effect(old(end)@, tid, sem_id, waking_tid);
    }
}

/// A semaphore made in a process whose tables are in shape is in a slot that
/// was free, with as many free units as asked for: a request for one is
/// carried out at once, by whichever thread, unless none was asked for. No
/// other semaphore changes, and nobody holds or waits for other units than
/// before.
pub proof fn law_made_semaphore_has_units(
    made: &mut ProcessControlBlockInner,
    used: &mut ProcessControlBlockInner,
    res_count: usize,
    ret: isize,
    tid: usize,
    step: Step,
)
    requires
        old(made)@.wf(),
        old(made)@.semaphore_list.len() < isize::MAX,
        call_ensures(sys_semaphore_create, (made, res_count), ret),
        *old(used) == *final(made),
        old(used)@.can_record_down(tid, ret as usize),
        call_ensures(sys_semaphore_down, (used, tid, ret as usize), step),
    ensures
        0 <= ret < final(made)@.semaphore_list.len(),
        ret < old(made)@.semaphore_list.len()
            ==> old(made)@.semaphore_list[ret as int] is None,
        forall|i: int| 0 <= i < ret ==> (#[trigger] old(made)@.semaphore_list[i]) is Some,
        final(made)@.semaphore_list[ret as int] == Some(res_count),
        final(made)@.semaphore_available[ret as int] == res_count,
        forall|i: int|
            0 <= i < old(made)@.semaphore_list.len() && i != ret ==> #[trigger] final(
                made
            )@.semaphore_list[i] == old(made)@.semaphore_list[i],
        forall|i: int|
            0 <= i < old(made)@.semaphore_available.len() && i != ret ==> #[trigger] final(
                made
            )@.semaphore_available[i] == old(made)@.semaphore_available[i],
        forall|t: int, x: int| #[trigger] final(made)@.held(t, x) == old(made)@.held(t, x),
        forall|t: int, x: int| #[trigger] final(made)@.wanted(t, x) == old(made)@.wanted(t, x),
        final(made)@.mutex_list == old(made)@.mutex_list,
        final(made)@.mutex_owners == old(made)@.mutex_owners,
        final(made)@.mutex_requests == old(made)@.mutex_requests,
        final(made)@.condvar_list == old(made)@.condvar_list,
        final(made)@.deadlock_detect == old(made)@.deadlock_detect,
        res_count > 0 ==> step == Step::CallThenReturn(
            KernelCall::DownSemaphore { sem_id: ret as usize },
            0,
        ),
{
    law_semaphore_create_effect(old(made)@, slot_of(ret), res_count);
}

/// Two condition variables made one after the other are in different slots,
/// which were free. Neither call changes anything else.
pub proof fn law_condvars_made_apart(
    first: &mut ProcessControlBlockInner,
    second: &mut ProcessControlBlockInner,
    first_ret: isize,
    second_ret: isize,
)
    requires
        call_ensures(sys_condvar_create, (first,), first_ret),
        *old(second) == *final(first),
        call_ensures(sys_condvar_create, (second,), second_ret),
        old(first)@.condvar_list.len() < isize::MAX,
    ensures
        0 <= first_ret < final(second)@.condvar_list.len(),
        0 <= second_ret < final(second)@.condvar_list.len(),
        first_ret != second_ret,
        first_ret < old(first)@.condvar_list.len()
            ==> old(first)@.condvar_list[first_ret as int] is None,
        forall|i: int| 0 <= i < first_ret ==> (#[trigger] old(first)@.condvar_list[i]) is Some,
        final(second)@.condvar_list[first_ret as int] is Some,
        final(second)@.condvar_list[second_ret as int] is Some,
        forall|i: int|
            0 <= i < old(first)@.condvar_list.len() && i != first_ret && i != second_ret
                ==> #[trigger] final(second)@.condvar_list[i] == old(first)@.condvar_list[i],
        old(first)@ == (SyncState {
            condvar_list: old(first)@.condvar_list,
            ..final(second)@
        }),
{
    law_object_in_slot(old(first)@.condvar_list, slot_of(first_ret), Condvar);
    law_object_in_slot(old(second)@.condvar_list, slot_of(second_ret), Condvar);
}

/// A signal and a wait name the condition variable, and the wait the mutex,
/// that they were given, and both return zero.
pub proof fn law_condvar_calls(
    inner: ProcessControlBlockInner,
    condvar_id: usize,
    mutex_id: usize,
    signal: Step,
    wait: Step,
)
    requires
        call_ensures(sys_condvar_signal, (&inner, condvar_id), signal),
        call_ensures(sys_condvar_wait, (&inner, condvar_id, mutex_id), wait),
    ensures
        signal matches Step::CallThenReturn(KernelCall::SignalCondvar { condvar_id: c }, ret) && c
            == condvar_id && ret == 0,
        wait matches Step::CallThenReturn(
            KernelCall::WaitCondvar { condvar_id: c, mutex_id: m },
            ret,
        ) && c == condvar_id && m == mutex_id && ret == 0,
{
}

/// Detection is on after a call with a number other than zero and off after
/// one with zero, whatever it was before. The call returns zero, and nothing
/// else changes; so a second call undoes the first.
pub proof fn law_detection_switched(
    first: &mut ProcessControlBlockInner,
    second: &mut ProcessControlBlockInner,
    enabled: usize,
    restored: usize,
    ret: isize,
    second_ret: isize,
)
    requires
        call_ensures(sys_enable_deadlock_detect, (first, enabled), ret),
        *old(second) == *final(first),
        call_ensures(sys_enable_deadlock_detect, (second, restored), second_ret),
    ensures
        ret == 0,
        second_ret == 0,
        enabled == 0 <==> !final(first)@.deadlock_detect,
        (restored != 0) == old(first)@.deadlock_detect ==> final(second)@ == old(first)@,
{
}

/// Growing the mutex tables gives them an entry for the thread and one for
/// the mutex, loses none, and changes nothing else.
pub proof fn law_mutex_room_made(
    inner: &mut ProcessControlBlockInner,
    tid: usize,
    mutex_id: usize,
    done: (),
)
    requires
        call_ensures(ensure_mutex_state, (inner, tid, mutex_id), done),
    ensures
        final(inner)@.mutex_owners.len() > mutex_id,
        final(inner)@.mutex_requests.len() > tid,
        final(inner)@.mutex_owners.len() == old(inner)@.mutex_owners.len() || final(
            inner
        )@.mutex_owners.len() == mutex_id + 1,
        final(inner)@.mutex_requests.len() == old(inner)@.mutex_requests.len() || final(
            inner
        )@.mutex_requests.len() == tid + 1,
        forall|m: int| #[trigger] final(inner)@.owner_of(m) == old(inner)@.owner_of(m),
        forall|t: int| #[trigger] final(inner)@.awaited_by(t) == old(inner)@.awaited_by(t),
        mutex_part_only(old(inner)@, final(inner)@),
{
    law_mutex_growth(old(inner)@, tid as int, mutex_id as int);
}

/// Growing the semaphore tables gives the thread a row of held units, and
/// each row a place for the semaphore. Nobody holds or waits for other units
/// than before, and nothing else changes.
pub proof fn law_semaphore_room_made(
    inner: &mut ProcessControlBlockInner,
    tid: usize,
    sem_id: usize,
    done: (),
)
    requires
        call_ensures(ensure_semaphore_state, (inner, tid, sem_id), done),
    ensures
        final(inner)@.semaphore_alloc.len() > tid,
        final(inner)@.semaphore_alloc[tid as int].len() > sem_id,
        final(inner)@.semaphore_alloc.len() - old(inner)@.semaphore_alloc.len() == final(
            inner
        )@.semaphore_request.len() - old(inner)@.semaphore_request.len(),
        forall|t: int, x: int| #[trigger] final(inner)@.held(t, x) == old(inner)@.held(t, x),
        forall|t: int, x: int| #[trigger] final(inner)@.wanted(t, x) == old(inner)@.wanted(t, x),
        final(inner)@.semaphore_available == old(inner)@.semaphore_available,
        semaphore_part_only(old(inner)@, final(inner)@),
{
    law_semaphore_growth(old(inner)@, tid as int, sem_id as int);
}

/// A request for a unit fits if and only if the thread and the semaphore have
/// a place in the tables and the count that would grow is not at its limit; a
/// release to nobody, if and only if the count of free units is not.
pub proof fn law_fits_calls(
    inner: ProcessControlBlockInner,
    tid: usize,
    sem_id: usize,
    down: bool,
    release: bool,
)
    requires
        call_ensures(down_fits, (&inner, tid, sem_id), down),
        call_ensures(release_fits, (&inner, tid, sem_id, None::<usize>), release),
        inner@.wf(),
    ensures
        down == ({
            &&& tid < usize::MAX
            &&& sem_id < inner@.semaphore_available.len()
            &&& inner@.semaphore_available[sem_id as int] > 0 ==> inner@.held(
                tid as int,
                sem_id as int,
            ) < usize::MAX
            &&& inner@.semaphore_available[sem_id as int] == 0 ==> inner@.wanted(
                tid as int,
                sem_id as int,
            ) < usize::MAX
        }),
        release == ({
            &&& tid < usize::MAX
            &&& sem_id < inner@.semaphore_available.len()
            &&& inner@.semaphore_available[sem_id as int] < usize::MAX
        }),
{
    law_when_down_fits(inner@, tid, sem_id);
    law_request_row(inner@, tid as int);
    law_when_release_fits(inner@, tid, sem_id, None);
}

/// In a process whose tables are in shape, a release to a woken thread fits if
/// and only if the two threads have a place in the tables and the woken one
/// can hold a unit more.
pub proof fn law_release_to_woken_fits_call(
    inner: ProcessControlBlockInner,
    tid: usize,
    sem_id: usize,
    waking: usize,
    fits: bool,
)
    requires
        call_ensures(release_fits, (&inner, tid, sem_id, Some(waking)), fits),
        inner@.wf(),
    ensures
        fits == (tid < usize::MAX && waking < usize::MAX && (inner@.held(
            waking as int,
            sem_id as int,
        ) < usize::MAX || waking == tid)),
{
    law_when_release_fits(inner@, tid, sem_id, Some(waking));
}

/// A release passes the mutex on if and only if detection was on when it
/// began and its thread owns the mutex.
pub proof fn law_passes_on_call(
    begin: &mut ProcessControlBlockInner,
    tid: usize,
    mutex_id: usize,
    release: MutexRelease,
    inner: ProcessControlBlockInner,
    passes: bool,
)
    requires
        call_ensures(sys_mutex_unlock, (begin, tid, mutex_id), release),
        inner == *final(begin),
        call_ensures(MutexRelease::passes_on, (&release, &inner), passes),
    ensures
        passes == (old(begin)@.deadlock_detect && old(begin)@.owner_of(mutex_id as int) == Some(
            tid,
        )),
{
    law_covering_mutex(old(begin)@, tid as int, mutex_id as int);
}

} // verus!
