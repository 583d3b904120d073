//! When a thread is stuck on semaphores, and when a request for a unit is
//! refused: told by an order in which the threads can finish, and by a group
//! of threads none of which can.

use vstd::prelude::*;

use crate::semaphore::lemma_extend_order;
use crate::semaphore_laws::{law_down_waits, lemma_waiting_entries};
use crate::state::{cell, SyncState};

verus! {

/// Threads hold together what each of them holds.
pub proof fn law_held_together(s: SyncState, done: Seq<int>, t: int, x: int)
    ensures
        s.held_by_all(Seq::empty(), x) == 0,
        s.held_by_all(done.push(t), x) == s.held_by_all(done, x) + s.held(t, x),
        s.held_by_first(0, x) == 0,
        t >= 0 ==> s.held_by_first((t + 1) as nat, x) == s.held_by_first(t as nat, x) + s.held(
            t,
            x,
        ),
        s.units(x) == s.semaphore_available[x] + s.held_by_first(s.semaphore_alloc.len(), x),
{
    assert(done.push(t).drop_last() =~= done);
}

/// A stuck thread holds a unit and waits for one.
pub proof fn law_stuck_holds_and_waits(s: SyncState, t: int) -> (found: (int, int))
    requires
        s.stuck(t),
    ensures
        s.held(t, found.0) > 0,
        s.wanted(t, found.1) > 0,
{
    let x = choose|x: int| #[trigger] cell(s.semaphore_alloc, t, x) > 0;
    let y = choose|y: int| #[trigger] cell(s.semaphore_request, t, y) > 0;
    assert(s.held(t, x) > 0);
    assert(s.wanted(t, y) > 0);
    (x, y)
}

/// The threads of an order in which each finds enough units free, but for
/// those without any entry, make up a completion order.
proof fn lemma_order_of_known_threads(s: SyncState, order: Seq<int>, n: int) -> (known: Seq<int>)
    requires
        order.no_duplicates(),
        forall|i: int| 0 <= i < order.len() ==> #[trigger] order[i] >= 0,
        forall|i: int, x: int|
            0 <= i < order.len() && 0 <= x < s.semaphore_available.len() ==> #[trigger] s.wanted(
                order[i],
                x,
            ) <= s.semaphore_available[x] + s.held_by_all(order.take(i), x),
        0 <= n <= order.len(),
    ensures
        s.completion_order(known),
        forall|x: int| #[trigger] s.held_by_all(known, x) == s.held_by_all(order.take(n), x),
        forall|i: int|
            0 <= i < n && order[i] < s.task_count() ==> known.contains(#[trigger] order[i]),
        forall|u: int| #[trigger] known.contains(u) ==> order.take(n).contains(u),
    decreases n,
{
    if n == 0 {
        Seq::empty()
    } else {
        let before = lemma_order_of_known_threads(s, order, n - 1);
        let t = order[n - 1];
        let done = order.take(n - 1);
        assert(order.take(n).drop_last() =~= done);
        assert(order.take(n).last() == t);
        assert forall|v: int| done.contains(v) || v == t implies #[trigger] order.take(n).contains(
            v,
        ) by {
            if v == t {
                assert(order.take(n)[n - 1] == t);
            } else {
                let k = choose|k: int| 0 <= k < done.len() && done[k] == v;
                assert(order.take(n)[k] == v);
            }
        }
        if t >= s.task_count() {
            assert forall|x: int| #[trigger]
                s.held_by_all(before, x) == s.held_by_all(order.take(n), x) by {
                assert(s.held(t, x) == 0);
            }
            before
        } else {
            assert(!before.contains(t)) by {
                if before.contains(t) {
                    let k = choose|k: int| 0 <= k < done.len() && done[k] == t;
                    assert(order[k] == order[n - 1]);
                }
            }
            assert forall|x: int|
                0 <= x < s.semaphore_available.len() implies #[trigger] s.wanted(t, x)
                <= s.semaphore_available[x] + s.held_by_all(before, x) by {
                assert(s.wanted(order[n - 1], x) <= s.semaphore_available[x] + s.held_by_all(
                    order.take(n - 1),
                    x,
                ));
                assert(s.held_by_all(before, x) == s.held_by_all(done, x));
            }
            lemma_extend_order(s, before, t);
            let known = before.push(t);
            assert(known.contains(t));
            assert forall|x: int| #[trigger]
                s.held_by_all(known, x) == s.held_by_all(order.take(n), x) by {
                assert(s.held_by_all(before, x) == s.held_by_all(done, x));
            }
            known
        }
    }
}

/// No thread is stuck where the threads that hold units and wait for more can
/// be put in an order, along with any others, in which each finds all that it
/// waits for free once those before it have given back what they hold.
pub proof fn law_order_shows_nobody_stuck(s: SyncState, order: Seq<int>)
    requires
        order.no_duplicates(),
        forall|i: int| 0 <= i < order.len() ==> #[trigger] order[i] >= 0,
        forall|i: int, x: int|
            0 <= i < order.len() && 0 <= x < s.semaphore_available.len() ==> #[trigger] s.wanted(
                order[i],
                x,
            ) <= s.semaphore_available[x] + s.held_by_all(order.take(i), x),
        forall|t: int, x: int, y: int|
            #![trigger s.held(t, x), s.wanted(t, y)]
            s.held(t, x) > 0 && s.wanted(t, y) > 0 ==> order.contains(t),
    ensures
        forall|t: int| !(#[trigger] s.stuck(t)),
        s.semaphore_deadlock_free(),
{
    let known = lemma_order_of_known_threads(s, order, order.len() as int);
    assert forall|t: int| !(#[trigger] s.stuck(t)) by {
        if s.stuck(t) {
            let found = law_stuck_holds_and_waits(s, t);
            assert(s.held(t, found.0) > 0 && s.wanted(t, found.1) > 0);
            let k = choose|k: int| 0 <= k < order.len() && order[k] == t;
            assert(known.contains(order[k]));
            assert(s.can_complete(t));
        }
    }
}

/// A thread that can run to its end shows an order in which it and those
/// before it find enough units free.
pub proof fn law_not_stuck_shows_order(s: SyncState, t: int) -> (order: Seq<int>)
    requires
        0 <= t,
        !s.stuck(t),
        exists|x: int| #[trigger] s.held(t, x) > 0,
        exists|y: int| #[trigger] s.wanted(t, y) > 0,
    ensures
        order.contains(t),
        order.no_duplicates(),
        forall|i: int| 0 <= i < order.len() ==> #[trigger] order[i] >= 0,
        forall|i: int, x: int|
            0 <= i < order.len() && 0 <= x < s.semaphore_available.len() ==> #[trigger] s.wanted(
                order[i],
                x,
            ) <= s.semaphore_available[x] + s.held_by_all(order.take(i), x),
{
    let x = choose|x: int| #[trigger] s.held(t, x) > 0;
    assert(cell(s.semaphore_alloc, t, x) > 0);
    let y = choose|y: int| #[trigger] s.wanted(t, y) > 0;
    assert(cell(s.semaphore_request, t, y) > 0);
    let order = choose|order: Seq<int>| s.completion_order(order) && order.contains(t);
    assert forall|i: int, x: int|
        0 <= i < order.len() && 0 <= x < s.semaphore_available.len() implies #[trigger] s.wanted(
        order[i],
        x,
    ) <= s.semaphore_available[x] + s.held_by_all(order.take(i), x) by {
        assert(s.can_run_after(order.take(i), order[i]));
    }
    order
}

/// A thread of a group is stuck, if it holds a unit, where each thread of the
/// group is short of some semaphore: it waits for more units than are free
/// and held by threads outside the group, whichever of these are counted.
pub proof fn law_closed_group_is_stuck(
    s: SyncState,
    group: Set<int>,
    short: spec_fn(int) -> int,
    t: int,
    x: int,
)
    requires
        group.contains(t),
        s.held(t, x) > 0,
        forall|u: int| #[trigger]
            group.contains(u) ==> 0 <= short(u) < s.semaphore_available.len(),
        forall|u: int, others: Seq<int>|
            #![trigger group.contains(u), s.held_by_all(others, short(u))]
            group.contains(u) && others.no_duplicates() && (forall|i: int|
                0 <= i < others.len() ==> !group.contains(#[trigger] others[i])) ==> s.wanted(
                u,
                short(u),
            ) > s.semaphore_available[short(u)] + s.held_by_all(others, short(u)),
    ensures
        s.stuck(t),
        !s.semaphore_deadlock_free(),
{
    assert forall|order: Seq<int>| s.completion_order(order) implies !#[trigger] order.contains(
        t,
    ) by {
        if order.contains(t) {
            let k = choose|k: int| 0 <= k < order.len() && order[k] == t;
            lemma_group_stays_out(s, group, short, order, order.len() as int);
            assert(!group.contains(order[k]));
        }
    }
    assert(!s.can_complete(t));
    assert(cell(s.semaphore_alloc, t, x) > 0);
    let none = Seq::<int>::empty();
    assert(s.held_by_all(none, short(t)) == 0);
    assert(s.wanted(t, short(t)) > 0);
    assert(cell(s.semaphore_request, t, short(t)) > 0);
}

/// The first thread of such a group to run to its end would have to be served
/// by threads outside it.
proof fn lemma_group_stays_out(
    s: SyncState,
    group: Set<int>,
    short: spec_fn(int) -> int,
    order: Seq<int>,
    n: int,
)
    requires
        forall|u: int| #[trigger]
            group.contains(u) ==> 0 <= short(u) < s.semaphore_available.len(),
        forall|u: int, others: Seq<int>|
            #![trigger group.contains(u), s.held_by_all(others, short(u))]
            group.contains(u) && others.no_duplicates() && (forall|i: int|
                0 <= i < others.len() ==> !group.contains(#[trigger] others[i])) ==> s.wanted(
                u,
                short(u),
            ) > s.semaphore_available[short(u)] + s.held_by_all(others, short(u)),
        s.completion_order(order),
        0 <= n <= order.len(),
    ensures
        forall|i: int| 0 <= i < n ==> !group.contains(#[trigger] order[i]),
    decreases n,
{
    if n > 0 {
        lemma_group_stays_out(s, group, short, order, n - 1);
        let u = order[n - 1];
        let done = order.take(n - 1);
        if group.contains(u) {
            assert forall|i: int| 0 <= i < done.len() implies !group.contains(
                #[trigger] done[i],
            ) by {
                assert(!group.contains(order[i]));
            }
            assert(s.can_run_after(done, u));
            assert(s.wanted(u, short(u)) <= s.semaphore_available[short(u)] + s.held_by_all(
                done,
                short(u),
            ));
        }
    }
}

/// A request for a unit is not refused where, once the asking thread waits
/// for it too, the threads that hold units and wait for more can be put in an
/// order, along with any others, in which each finds all that it waits for
/// free once those before it have given back what they hold. However long the
/// order, the thread is then recorded as waiting for one unit more.
pub proof fn law_down_admitted_by_order(
    s: SyncState,
    tid: usize,
    sem_id: usize,
    order: Seq<int>,
)
    requires
        s.deadlock_detect,
        s.can_record_down(tid, sem_id),
        s.semaphore_available[sem_id as int] == 0,
        order.no_duplicates(),
        forall|i: int| 0 <= i < order.len() ==> #[trigger] order[i] >= 0,
        forall|i: int, x: int|
            0 <= i < order.len() && 0 <= x < s.semaphore_available.len() ==> #[trigger] s.wanted(
                order[i],
                x,
            ) + (if order[i] == tid && x == sem_id {
                1int
            } else {
                0
            }) <= s.semaphore_available[x] + s.held_by_all(order.take(i), x),
        forall|t: int, x: int, y: int|
            #![trigger s.held(t, x), s.wanted(t, y)]
            s.held(t, x) > 0 && (s.wanted(t, y) > 0 || t == tid) ==> order.contains(t),
    ensures
        !s.down_refused(tid, sem_id),
        s.after_semaphore_down(tid, sem_id).wanted(tid as int, sem_id as int) == s.wanted(
            tid as int,
            sem_id as int,
        ) + 1,
{
    let waiting = s.waiting_for_unit(tid as int, sem_id as int);
    lemma_waiting_entries(s, tid, sem_id);
    assert forall|i: int, x: int|
        0 <= i < order.len() && 0 <= x
            < waiting.semaphore_available.len() implies #[trigger] waiting.wanted(order[i], x)
        <= waiting.semaphore_available[x] + waiting.held_by_all(order.take(i), x) by {
        lemma_held_alike(s, waiting, order.take(i), x);
        assert(s.wanted(order[i], x) + (if order[i] == tid && x == sem_id {
            1int
        } else {
            0
        }) <= s.semaphore_available[x] + s.held_by_all(order.take(i), x));
    }
    assert forall|t: int, x: int, y: int|
        #![trigger waiting.held(t, x), waiting.wanted(t, y)]
        waiting.held(t, x) > 0 && waiting.wanted(t, y) > 0 implies order.contains(t) by {
        assert(s.held(t, x) > 0);
        assert(s.wanted(t, y) > 0 || t == tid);
    }
    law_order_shows_nobody_stuck(waiting, order);
    law_down_waits(s, tid, sem_id);
}

/// What threads hold together depends on nothing but what each holds.
proof fn lemma_held_alike(s: SyncState, new: SyncState, done: Seq<int>, x: int)
    requires
        forall|t: int, x: int| #[trigger] new.held(t, x) == s.held(t, x),
    ensures
        new.held_by_all(done, x) == s.held_by_all(done, x),
    decreases done.len(),
{
    if done.len() > 0 {
        lemma_held_alike(s, new, done.drop_last(), x);
    }
}

/// With detection on a request for a unit, where none is free, is refused if
/// it would close a group: once the asking thread waits for it too, each
/// thread of the group is short of some semaphore, and one of them holds a
/// unit.
pub proof fn law_down_closing_group_refused(
    s: SyncState,
    tid: usize,
    sem_id: usize,
    group: Set<int>,
    short: spec_fn(int) -> int,
    t: int,
    x: int,
)
    requires
        s.deadlock_detect,
        s.can_record_down(tid, sem_id),
        s.semaphore_available[sem_id as int] == 0,
        group.contains(t),
        s.held(t, x) > 0,
        forall|u: int| #[trigger]
            group.contains(u) ==> 0 <= short(u) < s.semaphore_available.len(),
        forall|u: int, others: Seq<int>|
            #![trigger group.contains(u), s.held_by_all(others, short(u))]
            group.contains(u) && others.no_duplicates() && (forall|i: int|
                0 <= i < others.len() ==> !group.contains(#[trigger] others[i])) ==> s.wanted(
                u,
                short(u),
            ) + (if u == tid && short(u) == sem_id {
                1int
            } else {
                0
            }) > s.semaphore_available[short(u)] + s.held_by_all(others, short(u)),
    ensures
        s.down_refused(tid, sem_id),
{
    let waiting = s.waiting_for_unit(tid as int, sem_id as int);
    lemma_waiting_entries(s, tid, sem_id);
    assert(waiting.held(t, x) > 0);
    assert forall|u: int, others: Seq<int>|
        #![trigger group.contains(u), waiting.held_by_all(others, short(u))]
        group.contains(u) && others.no_duplicates() && (forall|i: int|
            0 <= i < others.len() ==> !group.contains(
                #[trigger] others[i],
            )) implies waiting.wanted(u, short(u)) > waiting.semaphore_available[short(u)]
        + waiting.held_by_all(others, short(u)) by {
        lemma_held_alike(s, waiting, others, short(u));
    }
    law_closed_group_is_stuck(waiting, group, short, t, x);
}

/// A refused request shows a thread that, once the asking thread waits too,
/// holds a unit and waits for one, and that no order of running threads ever
/// serves.
pub proof fn law_refused_down_shows_stuck_thread(s: SyncState, tid: usize, sem_id: usize) -> (t:
    int)
    requires
        s.can_record_down(tid, sem_id),
        s.down_refused(tid, sem_id),
    ensures
        s.deadlock_detect,
        s.semaphore_available[sem_id as int] == 0,
        exists|x: int| #[trigger] s.held(t, x) > 0,
        t == tid || exists|y: int| #[trigger] s.wanted(t, y) > 0,
        forall|order: Seq<int>|
            order.no_duplicates() && (forall|i: int|
                0 <= i < order.len() ==> #[trigger] order[i] >= 0) && (forall|i: int, x: int|
                0 <= i < order.len() && 0 <= x < s.semaphore_available.len()
                    ==> #[trigger] s.wanted(order[i], x) + (if order[i] == tid && x == sem_id {
                    1int
                } else {
                    0
                }) <= s.semaphore_available[x] + s.held_by_all(order.take(i), x))
                ==> !#[trigger] order.contains(t),
{
    let waiting = s.waiting_for_unit(tid as int, sem_id as int);
    lemma_waiting_entries(s, tid, sem_id);
    let t = choose|t: int| #[trigger] waiting.stuck(t);
    let found = law_stuck_holds_and_waits(waiting, t);
    assert(s.held(t, found.0) > 0);
    assert(t == tid || s.wanted(t, found.1) > 0);
    assert forall|order: Seq<int>|
        order.no_duplicates() && (forall|i: int|
            0 <= i < order.len() ==> #[trigger] order[i] >= 0) && (forall|i: int, x: int|
            0 <= i < order.len() && 0 <= x < s.semaphore_available.len() ==> #[trigger] s.wanted(
                order[i],
                x,
            ) + (if order[i] == tid && x == sem_id {
                1int
            } else {
                0
            }) <= s.semaphore_available[x] + s.held_by_all(
                order.take(i),
                x,
            )) implies !#[trigger] order.contains(t) by {
        if order.contains(t) {
            assert forall|i: int, x: int|
                0 <= i < order.len() && 0 <= x
                    < waiting.semaphore_available.len() implies #[trigger] waiting.wanted(
                order[i],
                x,
            ) <= waiting.semaphore_available[x] + waiting.held_by_all(order.take(i), x) by {
                lemma_held_alike(s, waiting, order.take(i), x);
                assert(s.wanted(order[i], x) + (if order[i] == tid && x == sem_id {
                    1int
                } else {
                    0
                }) <= s.semaphore_available[x] + s.held_by_all(order.take(i), x));
            }
            let known = lemma_order_of_known_threads(waiting, order, order.len() as int);
            let k = choose|k: int| 0 <= k < order.len() && order[k] == t;
            assert(known.contains(order[k]));
            assert(waiting.can_complete(t));
        }
    }
    t
}

/// No order in which each thread finds enough units free contains a stuck
/// thread.
pub proof fn law_stuck_in_no_order(s: SyncState, t: int, order: Seq<int>)
    requires
        s.stuck(t),
        order.no_duplicates(),
        forall|i: int| 0 <= i < order.len() ==> #[trigger] order[i] >= 0,
        forall|i: int, x: int|
            0 <= i < order.len() && 0 <= x < s.semaphore_available.len() ==> #[trigger] s.wanted(
                order[i],
                x,
            ) <= s.semaphore_available[x] + s.held_by_all(order.take(i), x),
    ensures
        !order.contains(t),
{
    if order.contains(t) {
        let known = lemma_order_of_known_threads(s, order, order.len() as int);
        let k = choose|k: int| 0 <= k < order.len() && order[k] == t;
        assert(known.contains(order[k]));
        assert(s.can_complete(t));
    }
}

/// A process is free of deadlocks if and only if no thread is stuck on
/// semaphores and none waits for itself through mutexes.
pub proof fn law_deadlock_free(s: SyncState)
    ensures
        s.semaphore_deadlock_free() ==> forall|t: int| !(#[trigger] s.stuck(t)),
        (forall|t: int| !(#[trigger] s.stuck(t))) ==> s.semaphore_deadlock_free(),
        s.mutex_deadlock_free() ==> forall|t: usize| !(#[trigger] s.in_wait_cycle(t)),
        (forall|t: usize| !(#[trigger] s.in_wait_cycle(t))) ==> s.mutex_deadlock_free(),
        s.deadlock_free() == (s.mutex_deadlock_free() && s.semaphore_deadlock_free()),
        forall|t: int| s.wants_nothing(t) ==> forall|x: int| #[trigger] s.wanted(t, x) == 0,
        forall|t: int|
            (forall|x: int| #[trigger] s.wanted(t, x) == 0) ==> #[trigger] s.wants_nothing(t),
{
}

} // verus!
