//! What each call changes, entry by entry, and that it changes nothing else.

use vstd::prelude::*;

use crate::laws::Change;
use crate::mutex_laws::law_covering_mutex;
use crate::semaphore::lemma_covering_semaphore;
use crate::semaphore_laws::{
    law_down_takes_free_unit, law_down_waits, law_refused_down_changes_nothing,
    law_release_entries,
};
use crate::state::{
    has_slot, is_next_slot, with_slot, MutexKind, ProcessControlBlockInner, SyncState,
};
use crate::wait_laws::law_refused_lock_shows_chain;

verus! {

/// The mathematical value of a process shows each of its fields as it is.
pub proof fn law_value_shows_fields(inner: ProcessControlBlockInner)
    ensures
        inner@.task_slots == inner.task_slots,
        inner@.deadlock_detect == inner.deadlock_detect,
        inner@.mutex_list == inner.mutex_list@,
        inner@.mutex_owners == inner.mutex_owners@,
        inner@.mutex_requests == inner.mutex_requests@,
        inner@.semaphore_list == inner.semaphore_list@,
        inner@.semaphore_available == inner.semaphore_available@,
        inner@.condvar_list == inner.condvar_list@,
        inner@.semaphore_alloc.len() == inner.semaphore_alloc@.len(),
        forall|t: int|
            0 <= t < inner.semaphore_alloc@.len() ==> #[trigger] inner@.semaphore_alloc[t]
                == inner.semaphore_alloc@[t]@,
        inner@.semaphore_request.len() == inner.semaphore_request@.len(),
        forall|t: int|
            0 <= t < inner.semaphore_request@.len() ==> #[trigger] inner@.semaphore_request[t]
                == inner.semaphore_request@[t]@,
{
}

/// An entry of a table is what stands there, and nothing or zero past its
/// end.
pub proof fn law_entries_are_what_stands_there(s: SyncState)
    ensures
        forall|m: int|
            0 <= m < s.mutex_owners.len() ==> #[trigger] s.owner_of(m) == s.mutex_owners[m],
        forall|m: int|
            !(0 <= m < s.mutex_owners.len()) ==> (#[trigger] s.owner_of(m)) is None,
        forall|t: int|
            0 <= t < s.mutex_requests.len() ==> #[trigger] s.awaited_by(t) == s.mutex_requests[t],
        forall|t: int|
            !(0 <= t < s.mutex_requests.len()) ==> (#[trigger] s.awaited_by(t)) is None,
        forall|t: int, x: int|
            0 <= t < s.semaphore_alloc.len() && 0 <= x < s.semaphore_alloc[t].len()
                ==> #[trigger] s.held(t, x) == s.semaphore_alloc[t][x],
        forall|t: int, x: int|
            !(0 <= t < s.semaphore_alloc.len() && 0 <= x < s.semaphore_alloc[t].len())
                ==> #[trigger] s.held(t, x) == 0,
        forall|t: int, x: int|
            0 <= t < s.semaphore_request.len() && 0 <= x < s.semaphore_request[t].len()
                ==> #[trigger] s.wanted(t, x) == s.semaphore_request[t][x],
        forall|t: int, x: int|
            !(0 <= t < s.semaphore_request.len() && 0 <= x < s.semaphore_request[t].len())
                ==> #[trigger] s.wanted(t, x) == 0,
{
}

/// Tables are in shape if and only if they have one owner entry for each
/// mutex, one count for each semaphore, one row of each sort for each thread
/// that has any, and nobody waits for a semaphore that does not exist.
pub proof fn law_shape(s: SyncState)
    ensures
        s.wf() ==> s.mutex_owners.len() == s.mutex_list.len(),
        s.wf() ==> s.semaphore_available.len() == s.semaphore_list.len(),
        s.wf() ==> s.semaphore_alloc.len() == s.semaphore_request.len(),
        s.wf() ==> forall|t: int, x: int| #[trigger]
            s.wanted(t, x) > 0 ==> 0 <= x < s.semaphore_list.len() && s.semaphore_list[x] is Some,
        ({
            &&& s.mutex_owners.len() == s.mutex_list.len()
            &&& s.semaphore_available.len() == s.semaphore_list.len()
            &&& s.semaphore_alloc.len() == s.semaphore_request.len()
            &&& forall|t: int, x: int| #[trigger]
                s.wanted(t, x) > 0 ==> 0 <= x < s.semaphore_list.len()
                    && s.semaphore_list[x] is Some
        }) ==> s.wf(),
{
    if s.wf() {
        assert forall|t: int, x: int| #[trigger] s.wanted(t, x) > 0 implies 0 <= x
            < s.semaphore_list.len() && s.semaphore_list[x] is Some by {
            assert(crate::state::cell(s.semaphore_request, t, x) > 0);
        }
    }
    if s.mutex_owners.len() == s.mutex_list.len() && s.semaphore_available.len()
        == s.semaphore_list.len() && s.semaphore_alloc.len() == s.semaphore_request.len() && (
    forall|t: int, x: int| #[trigger]
        s.wanted(t, x) > 0 ==> 0 <= x < s.semaphore_list.len() && s.semaphore_list[x] is Some) {
        assert forall|t: int, x: int| #[trigger] crate::state::cell(s.semaphore_request, t, x)
            > 0 implies has_slot(s.semaphore_list, x) by {
            assert(s.wanted(t, x) > 0);
        }
    }
}

/// A slot is the one for a new object if and only if every slot before it is
/// occupied and it is free or the one behind the last.
pub proof fn law_next_slot_is_first_free<T>(list: Seq<Option<T>>, id: int)
    ensures
        is_next_slot(list, id) ==> 0 <= id <= list.len(),
        is_next_slot(list, id) && id < list.len() ==> list[id] is None,
        forall|i: int|
            is_next_slot(list, id) && 0 <= i < id ==> (#[trigger] list[i]) is Some,
        ({
            &&& 0 <= id <= list.len()
            &&& id < list.len() ==> list[id] is None
            &&& forall|i: int| 0 <= i < id ==> (#[trigger] list[i]) is Some
        }) ==> is_next_slot(list, id),
        has_slot(list, id) == (0 <= id < list.len() && list[id] is Some),
{
}

/// An object put into its slot is there; the list grows by at most that slot,
/// and no other slot changes.
pub proof fn law_object_in_slot<T>(list: Seq<Option<T>>, id: int, v: T)
    requires
        is_next_slot(list, id),
    ensures
        with_slot(list, id, v).len() == if id < list.len() {
            list.len() as int
        } else {
            id + 1
        },
        with_slot(list, id, v)[id] == Some(v),
        forall|i: int|
            0 <= i < list.len() && i != id ==> #[trigger] with_slot(list, id, v)[i] == list[i],
{
}

/// The larger of two numbers.
pub open spec fn larger(a: int, b: int) -> int {
    if a >= b {
        a
    } else {
        b
    }
}

/// The larger of two numbers is one of them, and no less than either.
pub proof fn law_larger(a: int, b: int)
    ensures
        larger(a, b) == a || larger(a, b) == b,
        larger(a, b) >= a,
        larger(a, b) >= b,
{
}

/// The semaphore tables of `new` are those of `s` grown: to `count` rows of
/// held units, with as many rows added to the requests, a new row `width`
/// wide, and each row at least `columns` wide.
pub open spec fn sized(s: SyncState, new: SyncState, count: int, width: int, columns: int) -> bool {
    &&& new.semaphore_alloc.len() == larger(s.semaphore_alloc.len() as int, count)
    &&& new.semaphore_request.len() - s.semaphore_request.len() == new.semaphore_alloc.len()
        - s.semaphore_alloc.len()
    &&& forall|t: int|
        0 <= t < new.semaphore_alloc.len() ==> (#[trigger] new.semaphore_alloc[t]).len() == larger(
            if t < s.semaphore_alloc.len() {
                s.semaphore_alloc[t].len() as int
            } else {
                width
            },
            columns,
        )
    &&& forall|t: int|
        0 <= t < new.semaphore_request.len() ==> (#[trigger] new.semaphore_request[t]).len()
            == larger(
            if t < s.semaphore_request.len() {
                s.semaphore_request[t].len() as int
            } else {
                width
            },
            columns,
        )
}

/// Tables of known sizes have those sizes.
pub proof fn law_sizes(s: SyncState, new: SyncState, count: int, width: int, columns: int, t: int)
    requires
        sized(s, new, count, width, columns),
        0 <= t,
    ensures
        new.semaphore_alloc.len() >= s.semaphore_alloc.len(),
        new.semaphore_alloc.len() >= count,
        new.semaphore_alloc.len() == s.semaphore_alloc.len() || new.semaphore_alloc.len() == count,
        new.semaphore_request.len() - s.semaphore_request.len() == new.semaphore_alloc.len()
            - s.semaphore_alloc.len(),
        t < new.semaphore_alloc.len() ==> new.semaphore_alloc[t].len() >= columns,
        t < s.semaphore_alloc.len() && s.semaphore_alloc[t].len() >= columns
            ==> new.semaphore_alloc[t].len() == s.semaphore_alloc[t].len(),
        t < s.semaphore_alloc.len() && s.semaphore_alloc[t].len() < columns
            ==> new.semaphore_alloc[t].len() == columns,
        s.semaphore_alloc.len() <= t < new.semaphore_alloc.len() && width >= columns
            ==> new.semaphore_alloc[t].len() == width,
        t < new.semaphore_request.len() ==> new.semaphore_request[t].len() >= columns,
        t < s.semaphore_request.len() && s.semaphore_request[t].len() >= columns
            ==> new.semaphore_request[t].len() == s.semaphore_request[t].len(),
        t < s.semaphore_request.len() && s.semaphore_request[t].len() < columns
            ==> new.semaphore_request[t].len() == columns,
        s.semaphore_request.len() <= t < new.semaphore_request.len() && width >= columns
            ==> new.semaphore_request[t].len() == width,
{
}

/// Growing the mutex tables gives them room for the thread and the mutex, and
/// changes nothing else.
pub proof fn law_mutex_growth(s: SyncState, tid: int, mutex_id: int)
    requires
        0 <= tid,
        0 <= mutex_id,
    ensures
        ({
            let new = s.covering_mutex(tid, mutex_id);
            &&& new.mutex_owners.len() == larger(s.mutex_owners.len() as int, mutex_id + 1)
            &&& new.mutex_requests.len() == larger(s.mutex_requests.len() as int, tid + 1)
            &&& forall|m: int| #[trigger] new.owner_of(m) == s.owner_of(m)
            &&& forall|t: int| #[trigger] new.awaited_by(t) == s.awaited_by(t)
            &&& mutex_part_only(s, new)
        }),
{
    law_covering_mutex(s, tid, mutex_id);
}

/// `new` differs from `s` in nothing but the owners of mutexes and the waits
/// for them.
pub open spec fn mutex_part_only(s: SyncState, new: SyncState) -> bool {
    &&& new.task_slots == s.task_slots
    &&& new.deadlock_detect == s.deadlock_detect
    &&& new.mutex_list == s.mutex_list
    &&& new.semaphore_list == s.semaphore_list
    &&& new.semaphore_available == s.semaphore_available
    &&& new.semaphore_alloc == s.semaphore_alloc
    &&& new.semaphore_request == s.semaphore_request
    &&& new.condvar_list == s.condvar_list
}

/// `new` differs from `s` in nothing but the units of semaphores that are
/// free, held and waited for.
pub open spec fn semaphore_part_only(s: SyncState, new: SyncState) -> bool {
    &&& new.task_slots == s.task_slots
    &&& new.deadlock_detect == s.deadlock_detect
    &&& new.mutex_list == s.mutex_list
    &&& new.mutex_owners == s.mutex_owners
    &&& new.mutex_requests == s.mutex_requests
    &&& new.semaphore_list == s.semaphore_list
    &&& new.condvar_list == s.condvar_list
}

/// States that agree in part agree in each field of that part.
pub proof fn law_parts(s: SyncState, new: SyncState)
    ensures
        mutex_part_only(s, new) ==> s == (SyncState {
            mutex_owners: s.mutex_owners,
            mutex_requests: s.mutex_requests,
            ..new
        }),
        semaphore_part_only(s, new) ==> s == (SyncState {
            semaphore_available: s.semaphore_available,
            semaphore_alloc: s.semaphore_alloc,
            semaphore_request: s.semaphore_request,
            ..new
        }),
{
}

/// What a recorded lock changes. The asked mutex gets an owner if it had none.
/// The asking thread waits for the mutex if another thread owns it, and for
/// nothing if it was refused. Every mutex stays in its slot, and nobody
/// else's entries change.
pub proof fn law_lock_effect(s: SyncState, tid: usize, mutex_id: usize)
    requires
        s.deadlock_detect,
    ensures
        ({
            let new = s.after_mutex_lock(tid, mutex_id);
            let free = s.owner_of(mutex_id as int) is None;
            &&& free ==> !s.lock_refused(tid, mutex_id)
            &&& new.owner_of(mutex_id as int) == if free {
                Some(tid)
            } else {
                s.owner_of(mutex_id as int)
            }
            &&& forall|m: int| m != mutex_id ==> #[trigger] new.owner_of(m) == s.owner_of(m)
            &&& forall|t: int| t != tid ==> #[trigger] new.awaited_by(t) == s.awaited_by(t)
            &&& s.lock_refused(tid, mutex_id) ==> new.awaited_by(tid as int) is None
            &&& !s.lock_refused(tid, mutex_id) && !free ==> new.awaited_by(tid as int) == Some(
                mutex_id,
            )
            &&& free ==> new.awaited_by(tid as int) == s.awaited_by(tid as int)
            &&& new.mutex_owners.len() == larger(s.mutex_owners.len() as int, mutex_id + 1)
            &&& new.mutex_requests.len() == larger(s.mutex_requests.len() as int, tid + 1)
            &&& mutex_part_only(s, new)
        }),
{
    law_covering_mutex(s, tid as int, mutex_id as int);
    if s.owner_of(mutex_id as int) is None && s.lock_refused(tid, mutex_id) {
        let chain = law_refused_lock_shows_chain(s, tid, mutex_id);
    }
}

/// What a recorded release of a mutex changes. Where the thread owns the
/// mutex it goes to the woken thread, which then waits for nothing, or to
/// nobody; else nothing changes. Every mutex stays in its slot with its kind,
/// and can be locked again.
pub proof fn law_unlock_effect(
    s: SyncState,
    tid: usize,
    mutex_id: usize,
    waking_tid: Option<usize>,
)
    ensures
        ({
            let new = s.after_mutex_release(tid, mutex_id, waking_tid);
            let owned = s.owner_of(mutex_id as int) == Some(tid);
            &&& owned ==> new.owner_of(mutex_id as int) == waking_tid
            &&& !owned ==> new.owner_of(mutex_id as int) == s.owner_of(mutex_id as int)
            &&& forall|m: int| m != mutex_id ==> #[trigger] new.owner_of(m) == s.owner_of(m)
            &&& forall|t: usize|
                !owned || waking_tid != Some(t) ==> #[trigger] new.awaited_by(t as int)
                    == s.awaited_by(t as int)
            &&& owned && waking_tid is Some ==> new.awaited_by(waking_tid->0 as int) is None
            &&& new.mutex_owners.len() == larger(s.mutex_owners.len() as int, mutex_id + 1)
            &&& new.mutex_requests.len() == larger(
                larger(s.mutex_requests.len() as int, tid + 1),
                if owned && waking_tid is Some {
                    waking_tid->0 + 1
                } else {
                    0
                },
            )
            &&& mutex_part_only(s, new)
            &&& forall|m: int| has_slot(s.mutex_list, m) ==> #[trigger] has_slot(new.mutex_list, m)
        }),
{
    let covering = s.covering_mutex(tid as int, mutex_id as int);
    law_covering_mutex(s, tid as int, mutex_id as int);
    if waking_tid is Some {
        law_covering_mutex(covering, waking_tid->0 as int, mutex_id as int);
    }
}

/// What making a mutex changes: it is in its slot, with the kind asked for.
/// No other mutex changes, no owner entry that was there does, an added one
/// is empty, and nothing else changes.
pub proof fn law_mutex_create_effect(s: SyncState, id: int, kind: MutexKind)
    requires
        is_next_slot(s.mutex_list, id),
    ensures
        ({
            let new = s.with_mutex(id, kind);
            &&& new.mutex_list.len() == if id < s.mutex_list.len() {
                s.mutex_list.len() as int
            } else {
                id + 1
            }
            &&& new.mutex_list[id] == Some(kind)
            &&& forall|i: int|
                0 <= i < s.mutex_list.len() && i != id ==> #[trigger] new.mutex_list[i]
                    == s.mutex_list[i]
            &&& forall|m: int| #[trigger] new.owner_of(m) == s.owner_of(m)
            &&& new.mutex_owners.len() == if id < s.mutex_list.len() {
                larger(s.mutex_owners.len() as int, id + 1)
            } else {
                s.mutex_owners.len() as int + 1
            }
            &&& new == (SyncState {
                mutex_list: new.mutex_list,
                mutex_owners: new.mutex_owners,
                ..s
            })
        }),
{
}

/// The sizes of the semaphore tables once they cover a thread and a
/// semaphore: a row for the thread, as many rows added to the requests as to
/// the units held, a new row as wide as there are semaphores, and each row
/// wide enough for the semaphore.
pub proof fn law_semaphore_growth(s: SyncState, tid: int, sem_id: int)
    requires
        0 <= tid,
        0 <= sem_id,
    ensures
        ({
            let new = s.covering_semaphore(tid, sem_id);
            &&& sized(s, new, tid + 1, s.semaphore_available.len() as int, sem_id + 1)
            &&& forall|t: int, x: int| #[trigger] new.held(t, x) == s.held(t, x)
            &&& forall|t: int, x: int| #[trigger] new.wanted(t, x) == s.wanted(t, x)
            &&& new.semaphore_available == s.semaphore_available
            &&& semaphore_part_only(s, new)
        }),
{
    lemma_covering_semaphore(s, tid, sem_id);
}

/// A thread has a row among the requests, once the tables cover it, if and
/// only if it has one already or the requests do not lag behind.
pub proof fn law_request_row(s: SyncState, tid: int)
    requires
        0 <= tid,
    ensures
        s.semaphore_alloc.len() > tid ==> s.has_request_row(tid) == (s.semaphore_request.len()
            > tid),
        s.semaphore_alloc.len() <= tid ==> s.has_request_row(tid) == (s.semaphore_request.len()
            >= s.semaphore_alloc.len()),
{
}

/// A request for a unit can be recorded if and only if the thread and the
/// semaphore have a place in the tables and the count that grows is not at
/// its limit.
pub proof fn law_when_down_fits(s: SyncState, tid: usize, sem_id: usize)
    ensures
        s.can_record_down(tid, sem_id) == ({
            &&& tid < usize::MAX
            &&& sem_id < s.semaphore_available.len()
            &&& s.semaphore_available[sem_id as int] > 0 ==> s.held(tid as int, sem_id as int)
                < usize::MAX
            &&& s.semaphore_available[sem_id as int] == 0 ==> s.has_request_row(tid as int)
                && s.wanted(tid as int, sem_id as int) < usize::MAX
        }),
{
}

/// A release of a unit can be recorded if and only if the threads have a
/// place in the tables and the count that grows is not at its limit.
pub proof fn law_when_release_fits(
    s: SyncState,
    tid: usize,
    sem_id: usize,
    waking_tid: Option<usize>,
)
    ensures
        waking_tid is None ==> s.can_record_release(tid, sem_id, waking_tid) == (tid < usize::MAX
            && sem_id < s.semaphore_available.len() && s.semaphore_available[sem_id as int]
            < usize::MAX),
        waking_tid is Some ==> s.can_record_release(tid, sem_id, waking_tid) == ({
            let held_rows = larger(s.semaphore_alloc.len() as int, tid + 1);
            let request_rows = s.semaphore_request.len() + held_rows - s.semaphore_alloc.len();
            &&& tid < usize::MAX
            &&& waking_tid->0 < usize::MAX
            &&& s.held(waking_tid->0 as int, sem_id as int) < usize::MAX || waking_tid->0 == tid
            &&& waking_tid->0 < held_rows ==> waking_tid->0 < request_rows
            &&& waking_tid->0 >= held_rows ==> request_rows >= held_rows
        }),
{
    lemma_covering_semaphore(s, tid as int, sem_id as int);
}

/// What a recorded request for a unit changes. A free unit goes to the thread.
/// Where none is free the thread waits for one unit more, unless it was
/// refused. Every semaphore stays in its slot, and nothing else changes.
pub proof fn law_down_effect(s: SyncState, tid: usize, sem_id: usize)
    requires
        s.deadlock_detect,
        s.can_record_down(tid, sem_id),
    ensures
        ({
            let new = s.after_semaphore_down(tid, sem_id);
            let free = s.semaphore_available[sem_id as int] > 0;
            let taken: int = if free {
                1
            } else {
                0
            };
            let asked: int = if !free && !s.down_refused(tid, sem_id) {
                1
            } else {
                0
            };
            &&& free ==> !s.down_refused(tid, sem_id)
            &&& new.semaphore_available.len() == s.semaphore_available.len()
            &&& forall|x: int|
                0 <= x < s.semaphore_available.len() ==> #[trigger] new.semaphore_available[x]
                    == s.semaphore_available[x] - (if x == sem_id {
                    taken
                } else {
                    0
                })
            &&& forall|t: int, x: int| #[trigger]
                new.held(t, x) == s.held(t, x) + (if t == tid && x == sem_id {
                    taken
                } else {
                    0
                })
            &&& forall|t: int, x: int| #[trigger]
                new.wanted(t, x) == s.wanted(t, x) + (if t == tid && x == sem_id {
                    asked
                } else {
                    0
                })
            &&& sized(s, new, tid + 1, s.semaphore_available.len() as int, sem_id + 1)
            &&& semaphore_part_only(s, new)
        }),
{
    lemma_covering_semaphore(s, tid as int, sem_id as int);
    if s.semaphore_available[sem_id as int] > 0 {
        law_down_takes_free_unit(s, tid, sem_id);
    } else if s.down_refused(tid, sem_id) {
        law_refused_down_changes_nothing(s, tid, sem_id);
    } else {
        law_down_waits(s, tid, sem_id);
    }
}

/// What a recorded release of a unit changes. The thread holds one unit less,
/// if it held any. The unit goes to the woken thread, which waits for one
/// less, if it did for any; or it is free. Every semaphore stays in its slot
/// and can be taken again, and nothing else changes.
pub proof fn law_up_effect(s: SyncState, tid: usize, sem_id: usize, waking_tid: Option<usize>)
    requires
        s.can_record_release(tid, sem_id, waking_tid),
    ensures
        ({
            let new = s.after_semaphore_release(tid, sem_id, waking_tid);
            &&& new.semaphore_available.len() == s.semaphore_available.len()
            &&& forall|x: int|
                0 <= x < s.semaphore_available.len() ==> #[trigger] new.semaphore_available[x]
                    == s.semaphore_available[x] + (if waking_tid is None && x == sem_id {
                    1int
                } else {
                    0
                })
            &&& forall|t: int, x: int| #[trigger]
                new.held(t, x) == s.held(t, x) - (if t == tid && x == sem_id && s.held(t, x) > 0 {
                    1int
                } else {
                    0
                }) + (if waking_tid is Some && t == waking_tid->0 && x == sem_id {
                    1int
                } else {
                    0
                })
            &&& forall|t: int, x: int| #[trigger]
                new.wanted(t, x) == s.wanted(t, x) - (if waking_tid is Some && t == waking_tid->0
                    && x == sem_id && s.wanted(t, x) > 0 {
                    1int
                } else {
                    0
                })
            &&& sized(
                s,
                new,
                larger(
                    tid + 1,
                    if waking_tid is Some {
                        waking_tid->0 + 1
                    } else {
                        0
                    },
                ),
                s.semaphore_available.len() as int,
                sem_id + 1,
            )
            &&& semaphore_part_only(s, new)
            &&& forall|x: int|
                has_slot(s.semaphore_list, x) ==> #[trigger] has_slot(new.semaphore_list, x)
        }),
{
    law_release_entries(s, tid, sem_id, waking_tid);
}

/// What making a semaphore changes: it is in its slot with its count. Its
/// units are free, no other count changes, and one that had to be filled in is
/// zero. Nobody holds or waits for other units than before, and nothing
/// else changes.
pub proof fn law_semaphore_create_effect(s: SyncState, id: int, res_count: usize)
    requires
        is_next_slot(s.semaphore_list, id),
    ensures
        ({
            let new = s.with_semaphore(id, res_count);
            &&& new.semaphore_list.len() == if id < s.semaphore_list.len() {
                s.semaphore_list.len() as int
            } else {
                id + 1
            }
            &&& new.semaphore_list[id] == Some(res_count)
            &&& forall|i: int|
                0 <= i < s.semaphore_list.len() && i != id ==> #[trigger] new.semaphore_list[i]
                    == s.semaphore_list[i]
            &&& id == s.semaphore_list.len() ==> new.semaphore_available.len()
                == s.semaphore_available.len() + 1 && new.semaphore_available.last() == res_count
            &&& id < s.semaphore_list.len() ==> new.semaphore_available.len() == larger(
                s.semaphore_available.len() as int,
                id + 1,
            ) && new.semaphore_available[id] == res_count
            &&& forall|x: int|
                0 <= x < s.semaphore_available.len() && x != id
                    ==> #[trigger] new.semaphore_available[x] == s.semaphore_available[x]
            &&& forall|x: int|
                id < s.semaphore_list.len() && s.semaphore_available.len() <= x < id
                    ==> #[trigger] new.semaphore_available[x] == 0
            &&& s.semaphore_available.len() == s.semaphore_list.len()
                ==> new.semaphore_available[id] == res_count
            &&& sized(s, new, 1, new.semaphore_available.len() as int, id + 1)
            &&& forall|t: int, x: int| #[trigger] new.held(t, x) == s.held(t, x)
            &&& forall|t: int, x: int| #[trigger] new.wanted(t, x) == s.wanted(t, x)
            &&& new == (SyncState {
                semaphore_list: new.semaphore_list,
                semaphore_available: new.semaphore_available,
                semaphore_alloc: new.semaphore_alloc,
                semaphore_request: new.semaphore_request,
                ..s
            })
        }),
{
    lemma_covering_semaphore(s.with_counts(id, res_count), 0, id);
}

/// No call takes an object away or changes it: each mutex, semaphore and
/// condition variable stays in its slot as it was made.
pub proof fn law_objects_stay(s: SyncState, change: Change, i: int)
    requires
        s.allows(change),
    ensures
        0 <= i < s.mutex_list.len() && s.mutex_list[i] is Some ==> i < s.after(
            change,
        ).mutex_list.len() && s.after(change).mutex_list[i] == s.mutex_list[i],
        0 <= i < s.semaphore_list.len() && s.semaphore_list[i] is Some ==> i < s.after(
            change,
        ).semaphore_list.len() && s.after(change).semaphore_list[i] == s.semaphore_list[i],
        0 <= i < s.condvar_list.len() && s.condvar_list[i] is Some ==> i < s.after(
            change,
        ).condvar_list.len() && s.after(change).condvar_list[i] == s.condvar_list[i],
        !(change is CreateMutex) ==> s.after(change).mutex_list == s.mutex_list,
        !(change is CreateSemaphore) ==> s.after(change).semaphore_list == s.semaphore_list,
        !(change is CreateCondvar) ==> s.after(change).condvar_list == s.condvar_list,
        !(change is SwitchDetection) ==> s.after(change).deadlock_detect == s.deadlock_detect,
        s.after(change).task_slots == s.task_slots,
{
}

} // verus!
