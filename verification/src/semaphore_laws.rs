//! What holds of the semaphore calls together.

use vstd::prelude::*;

use crate::semaphore::{
    lemma_covering_semaphore, lemma_covering_wf, lemma_extend_order, lemma_held_by_all_subset,
};
use crate::state::{cell, has_slot, is_next_slot, with_cell, SyncState};

verus! {

impl SyncState {
    /// Thread `t` waits for no unit of any semaphore.
    pub open spec fn wants_nothing(self, t: int) -> bool {
        forall|s: int| #[trigger] self.wanted(t, s) == 0
    }

    /// The units of semaphore `s` that the first `n` threads hold.
    pub open spec fn held_by_first(self, n: nat, s: int) -> int
        decreases n,
    {
        if n == 0 {
            0
        } else {
            self.held_by_first((n - 1) as nat, s) + self.held(n - 1, s)
        }
    }

    /// All units of semaphore `s`, held or free.
    pub open spec fn units(self, s: int) -> int {
        self.semaphore_available[s] + self.held_by_first(self.semaphore_alloc.len(), s)
    }
}

/// Nobody waits for semaphore `x` in `new`, or once the threads of `done`
/// have run to their end at least as many of its units are free in `new` as
/// in `s`.
pub open spec fn frees_enough(s: SyncState, new: SyncState, done: Seq<int>, x: int) -> bool {
    ||| forall|t: int| #[trigger] new.wanted(t, x) == 0
    ||| {
        &&& x < s.semaphore_available.len()
        &&& s.semaphore_available[x] + s.held_by_all(done, x) <= new.semaphore_available[x]
            + new.held_by_all(done, x)
    }
}

/// In `new` the threads of `first` can run to their end before all others, and
/// what they give back leaves enough units free. Apart from them nobody holds
/// other units than in `s` or waits for more.
pub open spec fn no_worse(s: SyncState, new: SyncState, first: Seq<int>) -> bool {
    &&& new.completion_order(first)
    &&& forall|t: int, x: int|
        !first.contains(t) ==> #[trigger] new.held(t, x) == s.held(t, x)
    &&& forall|t: int, x: int|
        !first.contains(t) ==> #[trigger] new.wanted(t, x) <= s.wanted(t, x)
    &&& forall|x: int|
        0 <= x < new.semaphore_available.len() ==> #[trigger] frees_enough(s, new, first, x)
}

/// The threads of `first`, followed by those of a completion order of `s`,
/// can run to their end in `new`.
proof fn lemma_follow_order(
    s: SyncState,
    new: SyncState,
    first: Seq<int>,
    order: Seq<int>,
    n: int,
) -> (followed: Seq<int>)
    requires
        no_worse(s, new, first),
        s.completion_order(order),
        0 <= n <= order.len(),
    ensures
        new.completion_order(followed),
        forall|i: int| 0 <= i < first.len() ==> followed.contains(#[trigger] first[i]),
        forall|i: int|
            0 <= i < n && order[i] < new.task_count() ==> followed.contains(#[trigger] order[i]),
        forall|x: int|
            0 <= x < new.semaphore_available.len() ==> #[trigger] frees_enough(
                s,
                new,
                followed,
                x,
            ),
    decreases n,
{
    if n == 0 {
        first
    } else {
        let before = lemma_follow_order(s, new, first, order, n - 1);
        let t = order[n - 1];
        if before.contains(t) || t >= new.task_count() {
            before
        } else {
            let done = order.take(n - 1);
            assert(s.can_run_after(done, t));
            assert(!first.contains(t)) by {
                if first.contains(t) {
                    let k = choose|k: int| 0 <= k < first.len() && first[k] == t;
                    assert(before.contains(first[k]));
                }
            }
            assert forall|x: int|
                0 <= x < new.semaphore_available.len() implies #[trigger] new.wanted(t, x)
                <= new.semaphore_available[x] + new.held_by_all(before, x) by {
                assert forall|i: int| 0 <= i < done.len() implies before.contains(
                    #[trigger] done[i],
                ) || s.held(done[i], x) == 0 by {
                    let u = order[i];
                    if u >= new.task_count() {
                        assert(!first.contains(u)) by {
                            if first.contains(u) {
                                let k = choose|k: int| 0 <= k < first.len() && first[k] == u;
                                assert(first[k] < new.task_count());
                            }
                        }
                        assert(new.held(u, x) == s.held(u, x));
                    } else {
                        assert(before.contains(order[i]));
                    }
                }
                lemma_held_by_all_subset(s, done, before, x);
                lemma_held_by_all_subset(new, Seq::empty(), before, x);
                assert(frees_enough(s, new, before, x));
                if exists|u: int| #[trigger] new.wanted(u, x) != 0 {
                    assert(s.wanted(t, x) <= s.semaphore_available[x] + s.held_by_all(done, x));
                }
            }
            lemma_extend_order(new, before, t);
            let followed = before.push(t);
            assert(followed.drop_last() =~= before);
            assert(followed.last() == t);
            assert(followed.contains(t));
            assert forall|x: int| 0 <= x < new.semaphore_available.len() implies #[trigger]
                frees_enough(s, new, followed, x) by {
                assert(frees_enough(s, new, before, x));
                assert(new.held(t, x) == s.held(t, x));
            }
            followed
        }
    }
}

/// A thread that is stuck in a state was so in every state than which that
/// one is no worse.
proof fn lemma_no_worse(s: SyncState, new: SyncState, first: Seq<int>)
    requires
        no_worse(s, new, first),
    ensures
        forall|t: int| #[trigger] new.stuck(t) ==> s.stuck(t),
{
    assert forall|t: int| #[trigger] new.stuck(t) implies s.stuck(t) by {
        assert(!first.contains(t));
        let x = choose|x: int| #[trigger] cell(new.semaphore_alloc, t, x) > 0;
        assert(new.held(t, x) == s.held(t, x));
        assert(cell(s.semaphore_alloc, t, x) > 0);
        let y = choose|y: int| #[trigger] cell(new.semaphore_request, t, y) > 0;
        assert(new.wanted(t, y) <= s.wanted(t, y));
        assert(cell(s.semaphore_request, t, y) > 0);
        if s.can_complete(t) {
            let order = choose|order: Seq<int>| s.completion_order(order) && order.contains(t);
            let k = choose|k: int| 0 <= k < order.len() && order[k] == t;
            let followed = lemma_follow_order(s, new, first, order, order.len() as int);
            assert(followed.contains(order[k]));
            assert(new.can_complete(t));
        }
    }
}

/// Threads that wait for nothing can run to their end at once.
proof fn lemma_idle_first(new: SyncState, first: Seq<int>)
    requires
        first.no_duplicates(),
        forall|i: int|
            0 <= i < first.len() ==> 0 <= #[trigger] first[i] < new.task_count()
                && new.wants_nothing(first[i]),
    ensures
        new.completion_order(first),
{
    assert forall|i: int| 0 <= i < first.len() implies 0 <= #[trigger] first[i] < new.task_count()
        && new.can_run_after(first.take(i), first[i]) by {
        assert forall|x: int|
            0 <= x < new.semaphore_available.len() implies #[trigger] new.wanted(first[i], x)
            <= new.semaphore_available[x] + new.held_by_all(first.take(i), x) by {
            lemma_held_by_all_subset(new, Seq::empty(), first.take(i), x);
            assert(new.wants_nothing(first[i]));
        }
    }
}

/// Growing the semaphore tables changes no entry, and nothing about who is
/// stuck; growing them once more for the same thread and semaphore changes
/// nothing.
pub proof fn law_covering_semaphore(s: SyncState, tid: int, sem_id: int)
    requires
        0 <= tid,
        0 <= sem_id,
    ensures
        forall|t: int, x: int| #[trigger]
            s.covering_semaphore(tid, sem_id).held(t, x) == s.held(t, x),
        forall|t: int, x: int| #[trigger]
            s.covering_semaphore(tid, sem_id).wanted(t, x) == s.wanted(t, x),
        forall|t: int| #[trigger] s.covering_semaphore(tid, sem_id).stuck(t) == s.stuck(t),
        s.covering_semaphore(tid, sem_id).semaphore_deadlock_free() == s.semaphore_deadlock_free(),
        s.covering_semaphore(tid, sem_id).covering_semaphore(tid, sem_id) == s.covering_semaphore(
            tid,
            sem_id,
        ),
{
    let covering = s.covering_semaphore(tid, sem_id);
    assert(covering.covering_semaphore(tid, sem_id) =~~= covering);
    lemma_covering_semaphore(s, tid, sem_id);
    law_semaphore_frame(s, s.covering_semaphore(tid, sem_id));
}

/// Tables in shape have room for every thread and every semaphore of the list.
pub proof fn law_room_in_tables(s: SyncState, tid: int, sem_id: int)
    requires
        s.wf(),
        0 <= tid,
        has_slot(s.semaphore_list, sem_id),
    ensures
        s.has_request_row(tid),
        sem_id < s.semaphore_available.len(),
{
}

/// Setting an entry changes that entry and no other.
proof fn lemma_with_cell(table: Seq<Seq<usize>>, t: int, s: int, v: int)
    requires
        0 <= t < table.len(),
        0 <= s < table[t].len(),
        0 <= v <= usize::MAX,
    ensures
        forall|a: int, b: int| #[trigger]
            cell(with_cell(table, t, s, v), a, b) == if a == t && b == s {
                v
            } else {
                cell(table, a, b)
            },
{
}

/// The entries after a request that found a unit free.
pub proof fn law_down_takes_free_unit(s: SyncState, tid: usize, sem_id: usize)
    requires
        s.deadlock_detect,
        s.can_record_down(tid, sem_id),
        s.semaphore_available[sem_id as int] > 0,
    ensures
        !s.down_refused(tid, sem_id),
        s.after_semaphore_down(tid, sem_id).semaphore_available == s.semaphore_available.update(
            sem_id as int,
            (s.semaphore_available[sem_id as int] - 1) as usize,
        ),
        forall|t: int, x: int| #[trigger]
            s.after_semaphore_down(tid, sem_id).wanted(t, x) == s.wanted(t, x),
        forall|t: int, x: int| #[trigger]
            s.after_semaphore_down(tid, sem_id).held(t, x) == s.held(t, x) + (if t == tid && x
                == sem_id {
                1int
            } else {
                0
            }),
{
    let covering = s.covering_semaphore(tid as int, sem_id as int);
    lemma_covering_semaphore(s, tid as int, sem_id as int);
    lemma_with_cell(
        covering.semaphore_alloc,
        tid as int,
        sem_id as int,
        covering.held(tid as int, sem_id as int) + 1,
    );
}

/// The entries after a request that waits: the thread waits for one unit
/// more, and nothing else changes.
pub proof fn law_down_waits(s: SyncState, tid: usize, sem_id: usize)
    requires
        s.deadlock_detect,
        s.can_record_down(tid, sem_id),
        s.semaphore_available[sem_id as int] == 0,
        !s.down_refused(tid, sem_id),
    ensures
        s.after_semaphore_down(tid, sem_id).semaphore_available == s.semaphore_available,
        forall|t: int, x: int| #[trigger]
            s.after_semaphore_down(tid, sem_id).held(t, x) == s.held(t, x),
        forall|t: int, x: int| #[trigger]
            s.after_semaphore_down(tid, sem_id).wanted(t, x) == s.wanted(t, x) + (if t == tid && x
                == sem_id {
                1int
            } else {
                0
            }),
{
    let covering = s.covering_semaphore(tid as int, sem_id as int);
    lemma_covering_semaphore(s, tid as int, sem_id as int);
    lemma_with_cell(
        covering.semaphore_request,
        tid as int,
        sem_id as int,
        covering.wanted(tid as int, sem_id as int) + 1,
    );
}

/// A refused request changes no entry.
pub proof fn law_refused_down_changes_nothing(s: SyncState, tid: usize, sem_id: usize)
    requires
        s.down_refused(tid, sem_id),
    ensures
        s.after_semaphore_down(tid, sem_id) == s.covering_semaphore(tid as int, sem_id as int),
        s.after_semaphore_down(tid, sem_id).semaphore_available == s.semaphore_available,
        forall|t: int, x: int| #[trigger]
            s.after_semaphore_down(tid, sem_id).held(t, x) == s.held(t, x),
        forall|t: int, x: int| #[trigger]
            s.after_semaphore_down(tid, sem_id).wanted(t, x) == s.wanted(t, x),
{
    lemma_covering_semaphore(s, tid as int, sem_id as int);
}

/// A request never leaves a thread stuck: where none is, and the asking
/// thread, if its request is recorded, waits for nothing, none is afterwards,
/// whether the unit was granted, is waited for, or was refused.
pub proof fn law_down_keeps_deadlock_free(s: SyncState, tid: usize, sem_id: usize)
    requires
        s.semaphore_deadlock_free(),
        s.deadlock_detect ==> {
            &&& s.can_record_down(tid, sem_id)
            &&& s.wants_nothing(tid as int)
        },
    ensures
        s.after_semaphore_down(tid, sem_id).semaphore_deadlock_free(),
{
    let new = s.after_semaphore_down(tid, sem_id);
    law_covering_semaphore(s, tid as int, sem_id as int);
    if s.deadlock_detect && s.semaphore_available[sem_id as int] > 0 {
        law_down_takes_free_unit(s, tid, sem_id);
        let first = seq![tid as int];
        lemma_idle_first(new, first);
        lemma_held_by_one(s, first);
        lemma_held_by_one(new, first);
        assert(first.contains(tid as int)) by {
            assert(first[0] == tid);
        }
        lemma_no_worse(s, new, first);
    }
}

/// One thread holds what it holds.
proof fn lemma_held_by_one(s: SyncState, first: Seq<int>)
    requires
        first.len() == 1,
    ensures
        forall|x: int| #[trigger] s.held_by_all(first, x) == s.held(first[0], x),
{
    assert forall|x: int| #[trigger] s.held_by_all(first, x) == s.held(first[0], x) by {
        assert(s.held_by_all(first.drop_last(), x) == 0);
    }
}

/// Two threads hold what each of them holds.
proof fn lemma_held_by_two(s: SyncState, first: Seq<int>)
    requires
        first.len() == 2,
    ensures
        forall|x: int| #[trigger]
            s.held_by_all(first, x) == s.held(first[0], x) + s.held(first[1], x),
{
    lemma_held_by_one(s, first.drop_last());
    assert forall|x: int| #[trigger]
        s.held_by_all(first, x) == s.held(first[0], x) + s.held(first[1], x) by {
        assert(s.held_by_all(first.drop_last(), x) == s.held(first[0], x));
    }
}

/// The entries after a release: the releasing thread holds one unit less, if
/// it held any. The unit goes to the woken thread, which waits for one less,
/// if it did for any; or it is free.
pub proof fn law_release_entries(
    s: SyncState,
    tid: usize,
    sem_id: usize,
    waking_tid: Option<usize>,
)
    requires
        s.can_record_release(tid, sem_id, waking_tid),
    ensures
        s.after_semaphore_release(tid, sem_id, waking_tid).semaphore_available
            == if waking_tid is None {
            s.semaphore_available.update(
                sem_id as int,
                (s.semaphore_available[sem_id as int] + 1) as usize,
            )
        } else {
            s.semaphore_available
        },
        forall|t: int, x: int| #[trigger]
            s.after_semaphore_release(tid, sem_id, waking_tid).held(t, x) == s.held(t, x) - (if t
                == tid && x == sem_id && s.held(t, x) > 0 {
                1int
            } else {
                0
            }) + (if waking_tid is Some && t == waking_tid->0 && x == sem_id {
                1int
            } else {
                0
            }),
        forall|t: int, x: int| #[trigger]
            s.after_semaphore_release(tid, sem_id, waking_tid).wanted(t, x) == s.wanted(t, x) - (
            if waking_tid is Some && t == waking_tid->0 && x == sem_id && s.wanted(t, x) > 0 {
                1int
            } else {
                0
            }),
{
    let covering = s.covering_semaphore(tid as int, sem_id as int);
    let given = s.giving_back_unit(tid as int, sem_id as int);
    lemma_covering_semaphore(s, tid as int, sem_id as int);
    if covering.held(tid as int, sem_id as int) > 0 {
        lemma_with_cell(
            covering.semaphore_alloc,
            tid as int,
            sem_id as int,
            covering.held(tid as int, sem_id as int) - 1,
        );
    }
    if let Some(waking) = waking_tid {
        let (w, x) = (waking as int, sem_id as int);
        let grown = given.covering_semaphore(w, x);
        lemma_covering_semaphore(given, w, x);
        if grown.wanted(w, x) > 0 {
            lemma_with_cell(grown.semaphore_request, w, x, grown.wanted(w, x) - 1);
        }
        lemma_with_cell(grown.semaphore_alloc, w, x, grown.held(w, x) + 1);
    }
}

/// A release never leaves a thread stuck: where none is, the releasing thread
/// waits for nothing and the woken one for nothing but that unit, none is
/// afterwards.
pub proof fn law_up_keeps_deadlock_free(
    s: SyncState,
    tid: usize,
    sem_id: usize,
    waking_tid: Option<usize>,
)
    requires
        s.can_record_release(tid, sem_id, waking_tid),
        s.semaphore_deadlock_free(),
        s.wants_nothing(tid as int),
        waking_tid matches Some(waking) ==> forall|x: int| #[trigger]
            s.wanted(waking as int, x) <= if x == sem_id {
                1int
            } else {
                0
            },
    ensures
        s.after_semaphore_release(tid, sem_id, waking_tid).semaphore_deadlock_free(),
{
    let new = s.after_semaphore_release(tid, sem_id, waking_tid);
    law_release_entries(s, tid, sem_id, waking_tid);
    let t = tid as int;
    if waking_tid is Some && waking_tid->0 != tid {
        let w = waking_tid->0 as int;
        let first = seq![t, w];
        lemma_idle_first(new, first);
        lemma_held_by_two(s, first);
        lemma_held_by_two(new, first);
        assert(first[0] == t && first[1] == w);
        assert(first.contains(t) && first.contains(w));
        lemma_no_worse(s, new, first);
    } else {
        let first = seq![t];
        lemma_idle_first(new, first);
        lemma_held_by_one(s, first);
        lemma_held_by_one(new, first);
        assert(first[0] == t);
        assert(first.contains(t));
        lemma_no_worse(s, new, first);
    }
}

/// Threads past the end of the table hold nothing.
proof fn lemma_held_by_first_past_end(s: SyncState, n: nat, x: int)
    requires
        n >= s.semaphore_alloc.len(),
    ensures
        s.held_by_first(n, x) == s.held_by_first(s.semaphore_alloc.len(), x),
    decreases n,
{
    if n > s.semaphore_alloc.len() {
        lemma_held_by_first_past_end(s, (n - 1) as nat, x);
    }
}

/// The total changes by as much as what two threads hold of it.
proof fn lemma_held_by_first_change(
    s: SyncState,
    new: SyncState,
    n: nat,
    x: int,
    a: int,
    da: int,
    b: int,
    db: int,
)
    requires
        0 <= a,
        0 <= b,
        forall|t: int| #[trigger]
            new.held(t, x) == s.held(t, x) + (if t == a {
                da
            } else {
                0
            }) + (if t == b {
                db
            } else {
                0
            }),
    ensures
        new.held_by_first(n, x) == s.held_by_first(n, x) + (if a < n {
            da
        } else {
            0
        }) + (if b < n {
            db
        } else {
            0
        }),
    decreases n,
{
    if n > 0 {
        lemma_held_by_first_change(s, new, (n - 1) as nat, x, a, da, b, db);
    }
}

/// A request neither makes nor loses units: of each semaphore there are as
/// many, held and free together, as before.
pub proof fn law_down_keeps_units(s: SyncState, tid: usize, sem_id: usize, x: int)
    requires
        s.deadlock_detect ==> s.can_record_down(tid, sem_id),
        0 <= x < s.semaphore_available.len(),
    ensures
        s.after_semaphore_down(tid, sem_id).units(x) == s.units(x),
{
    if s.deadlock_detect {
        let new = s.after_semaphore_down(tid, sem_id);
        let n = new.semaphore_alloc.len();
        let taken: int = if s.semaphore_available[sem_id as int] > 0 && x == sem_id {
            1
        } else {
            0
        };
        lemma_covering_semaphore(s, tid as int, sem_id as int);
        if s.semaphore_available[sem_id as int] > 0 {
            law_down_takes_free_unit(s, tid, sem_id);
        } else if s.down_refused(tid, sem_id) {
            law_refused_down_changes_nothing(s, tid, sem_id);
        } else {
            law_down_waits(s, tid, sem_id);
        }
        lemma_held_by_first_past_end(s, n, x);
        lemma_held_by_first_change(s, new, n, x, tid as int, taken, tid as int, 0);
    }
}

/// A thread that releases a unit that it holds neither makes nor loses
/// units; one that holds none adds one.
pub proof fn law_up_keeps_units(
    s: SyncState,
    tid: usize,
    sem_id: usize,
    waking_tid: Option<usize>,
    x: int,
)
    requires
        s.can_record_release(tid, sem_id, waking_tid),
        0 <= x < s.semaphore_available.len(),
    ensures
        s.after_semaphore_release(tid, sem_id, waking_tid).units(x) == s.units(x) + (if x == sem_id
            && s.held(tid as int, sem_id as int) == 0 {
            1int
        } else {
            0
        }),
{
    let new = s.after_semaphore_release(tid, sem_id, waking_tid);
    let n = new.semaphore_alloc.len();
    let given: int = if x == sem_id && s.held(tid as int, x) > 0 {
        -1
    } else {
        0
    };
    let received: int = if x == sem_id && waking_tid is Some {
        1
    } else {
        0
    };
    let waking = if waking_tid is Some {
        waking_tid->0
    } else {
        tid
    };
    lemma_covering_semaphore(s, tid as int, sem_id as int);
    lemma_covering_semaphore(
        s.giving_back_unit(tid as int, sem_id as int),
        waking as int,
        sem_id as int,
    );
    law_release_entries(s, tid, sem_id, waking_tid);
    lemma_held_by_first_past_end(s, n, x);
    lemma_held_by_first_change(s, new, n, x, tid as int, given, waking as int, received);
}

/// A free unit that is taken and released again, with nobody waiting for it,
/// leaves every entry as it was.
pub proof fn law_down_then_up(s: SyncState, tid: usize, sem_id: usize)
    requires
        s.deadlock_detect,
        s.can_record_down(tid, sem_id),
        s.semaphore_available[sem_id as int] > 0,
    ensures
        s.after_semaphore_down(tid, sem_id).after_semaphore_release(
            tid,
            sem_id,
            None,
        ).semaphore_available == s.semaphore_available,
        forall|t: int, x: int| #[trigger]
            s.after_semaphore_down(tid, sem_id).after_semaphore_release(tid, sem_id, None).held(
                t,
                x,
            ) == s.held(t, x),
        forall|t: int, x: int| #[trigger]
            s.after_semaphore_down(tid, sem_id).after_semaphore_release(tid, sem_id, None).wanted(
                t,
                x,
            ) == s.wanted(t, x),
{
    let taken = s.after_semaphore_down(tid, sem_id);
    law_down_takes_free_unit(s, tid, sem_id);
    law_release_entries(taken, tid, sem_id, None);
    assert(taken.after_semaphore_release(tid, sem_id, None).semaphore_available
        =~= s.semaphore_available);
}

/// A thread that waits for a unit and is then woken by another thread's
/// release holds one unit more and waits for as many as before it asked.
pub proof fn law_down_then_woken(s: SyncState, tid: usize, sem_id: usize, other: usize)
    requires
        s.deadlock_detect,
        s.can_record_down(tid, sem_id),
        s.semaphore_available[sem_id as int] == 0,
        !s.down_refused(tid, sem_id),
        other != tid,
        s.after_semaphore_down(tid, sem_id).can_record_release(other, sem_id, Some(tid)),
    ensures
        s.after_semaphore_down(tid, sem_id).after_semaphore_release(other, sem_id, Some(tid)).held(
            tid as int,
            sem_id as int,
        ) == s.held(tid as int, sem_id as int) + 1,
        forall|t: int, x: int| #[trigger]
            s.after_semaphore_down(tid, sem_id).after_semaphore_release(
                other,
                sem_id,
                Some(tid),
            ).wanted(t, x) == s.wanted(t, x),
{
    law_down_waits(s, tid, sem_id);
    law_release_entries(s.after_semaphore_down(tid, sem_id), other, sem_id, Some(tid));
}

/// A release that ends from the state in which it began comes to the same
/// whether or not the tables were grown in between.
pub proof fn law_up_in_two_parts(
    s: SyncState,
    tid: usize,
    sem_id: usize,
    waking_tid: Option<usize>,
)
    ensures
        s.covering_semaphore(tid as int, sem_id as int).after_semaphore_release(
            tid,
            sem_id,
            waking_tid,
        ) == s.after_semaphore_release(tid, sem_id, waking_tid),
{
    law_covering_semaphore(s, tid as int, sem_id as int);
}

/// A new semaphore has all its units free; nobody's holdings or waits
/// change, and no other semaphore's free units.
pub proof fn law_create_semaphore_entries(s: SyncState, id: int, res_count: usize)
    requires
        s.wf(),
        0 <= id <= s.semaphore_list.len(),
    ensures
        s.with_semaphore(id, res_count).semaphore_available[id] == res_count,
        forall|x: int|
            0 <= x < s.semaphore_available.len() && x != id ==> #[trigger] s.with_semaphore(
                id,
                res_count,
            ).semaphore_available[x] == s.semaphore_available[x],
        forall|t: int, x: int| #[trigger]
            s.with_semaphore(id, res_count).held(t, x) == s.held(t, x),
        forall|t: int, x: int| #[trigger]
            s.with_semaphore(id, res_count).wanted(t, x) == s.wanted(t, x),
{
    lemma_covering_semaphore(s.with_counts(id, res_count), 0, id);
}

/// Each row of `table` has at least `n` entries.
pub open spec fn rows_cover(table: Seq<Seq<usize>>, n: int) -> bool {
    forall|t: int| 0 <= t < table.len() ==> (#[trigger] table[t]).len() >= n
}

/// Making a semaphore keeps the tables in step with the list: there is a count
/// for each semaphore, both tables have the same rows, at least one, and each
/// row has an entry for each semaphore. The old entries stay, and the added
/// ones are zero.
pub proof fn law_create_semaphore_tables(s: SyncState, id: int, res_count: usize)
    requires
        s.semaphore_available.len() == s.semaphore_list.len(),
        s.semaphore_alloc.len() == s.semaphore_request.len(),
        rows_cover(s.semaphore_alloc, s.semaphore_list.len() as int),
        rows_cover(s.semaphore_request, s.semaphore_list.len() as int),
        is_next_slot(s.semaphore_list, id),
    ensures
        ({
            let new = s.with_semaphore(id, res_count);
            &&& new.semaphore_available.len() == new.semaphore_list.len()
            &&& new.semaphore_alloc.len() == new.semaphore_request.len()
            &&& rows_cover(new.semaphore_alloc, new.semaphore_list.len() as int)
            &&& rows_cover(new.semaphore_request, new.semaphore_list.len() as int)
            &&& new.semaphore_alloc.len() >= 1
            &&& new.semaphore_alloc.len() >= s.semaphore_alloc.len()
            &&& forall|t: int|
                0 <= t < s.semaphore_alloc.len() ==> s.semaphore_alloc[t].is_prefix_of(
                    #[trigger] new.semaphore_alloc[t],
                )
            &&& forall|t: int|
                0 <= t < s.semaphore_request.len() ==> s.semaphore_request[t].is_prefix_of(
                    #[trigger] new.semaphore_request[t],
                )
            &&& forall|t: int, x: int| #[trigger] new.held(t, x) == s.held(t, x)
            &&& forall|t: int, x: int| #[trigger] new.wanted(t, x) == s.wanted(t, x)
        }),
{
    lemma_covering_semaphore(s.with_counts(id, res_count), 0, id);
}

/// Making a semaphore in a free slot leaves nobody stuck who was not.
pub proof fn law_create_keeps_semaphore_deadlock_free(s: SyncState, id: int, res_count: usize)
    requires
        s.wf(),
        is_next_slot(s.semaphore_list, id),
        s.semaphore_deadlock_free(),
    ensures
        s.with_semaphore(id, res_count).semaphore_deadlock_free(),
{
    let made = s.with_counts(id, res_count);
    lemma_idle_first(made, Seq::empty());
    assert forall|x: int| 0 <= x < made.semaphore_available.len() implies #[trigger] frees_enough(
        s,
        made,
        Seq::empty(),
        x,
    ) by {
        if x == id {
            assert forall|t: int| #[trigger] made.wanted(t, x) == 0 by {
                assert(cell(s.semaphore_request, t, id) == 0);
            }
        }
    }
    lemma_no_worse(s, made, Seq::empty());
    law_covering_semaphore(made, 0, id);
}

/// Where no thread waits for a unit, none is stuck.
pub proof fn law_no_requests_no_deadlock(s: SyncState)
    requires
        forall|t: int| #[trigger] s.wants_nothing(t),
    ensures
        s.semaphore_deadlock_free(),
{
    assert forall|t: int| !(#[trigger] s.stuck(t)) by {
        if s.wants_units(t) {
            let x = choose|x: int| #[trigger] cell(s.semaphore_request, t, x) > 0;
            assert(s.wants_nothing(t));
            assert(s.wanted(t, x) == 0);
        }
    }
}

/// Whether a thread is stuck depends on nothing but who holds and who waits
/// for how many units, and how many are free.
pub proof fn law_semaphore_frame(s: SyncState, new: SyncState)
    requires
        new.semaphore_available == s.semaphore_available,
        forall|t: int, x: int| #[trigger] new.held(t, x) == s.held(t, x),
        forall|t: int, x: int| #[trigger] new.wanted(t, x) == s.wanted(t, x),
    ensures
        forall|t: int| #[trigger] new.stuck(t) == s.stuck(t),
        new.semaphore_deadlock_free() == s.semaphore_deadlock_free(),
{
    let none = Seq::<int>::empty();
    lemma_idle_first(s, none);
    lemma_idle_first(new, none);
    lemma_no_worse(s, new, none);
    lemma_no_worse(new, s, none);
    assert forall|t: int| #[trigger] new.stuck(t) == s.stuck(t) by {
        assert(s.stuck(t) ==> new.stuck(t));
    }
    if new.semaphore_deadlock_free() {
        assert forall|t: int| !(#[trigger] s.stuck(t)) by {
            assert(!new.stuck(t));
        }
    }
}

/// With detection off no request is refused, and none is recorded.
pub proof fn law_detection_off_down(s: SyncState, tid: usize, sem_id: usize)
    requires
        !s.deadlock_detect,
    ensures
        !s.down_refused(tid, sem_id),
        s.after_semaphore_down(tid, sem_id) == s,
{
}

/// Threads that none of `group` is among hold nothing that only threads of
/// `group` hold.
proof fn lemma_outsiders_hold_none(s: SyncState, group: Set<int>, done: Seq<int>, x: int)
    requires
        forall|i: int| 0 <= i < done.len() ==> !group.contains(#[trigger] done[i]),
        forall|t: int| !group.contains(t) ==> #[trigger] s.held(t, x) == 0,
    ensures
        s.held_by_all(done, x) == 0,
    decreases done.len(),
{
    if done.len() > 0 {
        assert forall|i: int| 0 <= i < done.drop_last().len() implies !group.contains(
            #[trigger] done.drop_last()[i],
        ) by {
            assert(!group.contains(done[i]));
        }
        lemma_outsiders_hold_none(s, group, done.drop_last(), x);
        assert(!group.contains(done[done.len() - 1]));
    }
}

/// Thread `t` waits for semaphore `x`, of which no unit is free and none is
/// held outside `group`.
pub open spec fn waits_within(s: SyncState, group: Set<int>, t: int, x: int) -> bool {
    &&& 0 <= x < s.semaphore_available.len()
    &&& s.semaphore_available[x] == 0
    &&& s.wanted(t, x) > 0
    &&& forall|u: int| !group.contains(u) ==> #[trigger] s.held(u, x) == 0
}

/// No thread of a group can run to its end where each of them waits for a
/// semaphore whose units are all held within the group.
pub proof fn law_closed_group_never_completes(s: SyncState, group: Set<int>)
    requires
        forall|t: int| #[trigger]
            group.contains(t) ==> exists|x: int| #[trigger] waits_within(s, group, t, x),
    ensures
        forall|t: int| #[trigger] group.contains(t) ==> !s.can_complete(t),
{
    assert forall|t: int| #[trigger] group.contains(t) implies !s.can_complete(t) by {
        if s.can_complete(t) {
            let order = choose|order: Seq<int>| s.completion_order(order) && order.contains(t);
            let k = choose|k: int| 0 <= k < order.len() && order[k] == t;
            lemma_group_not_in_order(s, group, order, order.len() as int);
            assert(!group.contains(order[k]));
        }
    }
}

/// The first thread of such a group to run to its end would have to be served
/// by threads outside it.
proof fn lemma_group_not_in_order(s: SyncState, group: Set<int>, order: Seq<int>, n: int)
    requires
        forall|t: int| #[trigger]
            group.contains(t) ==> exists|x: int| #[trigger] waits_within(s, group, t, x),
        s.completion_order(order),
        0 <= n <= order.len(),
    ensures
        forall|i: int| 0 <= i < n ==> !group.contains(#[trigger] order[i]),
    decreases n,
{
    if n > 0 {
        lemma_group_not_in_order(s, group, order, n - 1);
        let t = order[n - 1];
        let done = order.take(n - 1);
        if group.contains(t) {
            let x = choose|x: int| #[trigger] waits_within(s, group, t, x);
            assert forall|i: int| 0 <= i < done.len() implies !group.contains(
                #[trigger] done[i],
            ) by {
                assert(!group.contains(order[i]));
            }
            lemma_outsiders_hold_none(s, group, done, x);
            assert(s.can_run_after(done, t));
            assert(s.wanted(t, x) <= 0);
        }
    }
}

/// With detection on, a thread that asks for another unit of a semaphore all
/// of whose units it holds itself is refused.
pub proof fn law_own_units_refused(s: SyncState, tid: usize, sem_id: usize)
    requires
        s.deadlock_detect,
        s.can_record_down(tid, sem_id),
        s.semaphore_available[sem_id as int] == 0,
        s.held(tid as int, sem_id as int) > 0,
        forall|t: int| t != tid ==> #[trigger] s.held(t, sem_id as int) == 0,
    ensures
        s.down_refused(tid, sem_id),
{
    let (t, x) = (tid as int, sem_id as int);
    let waiting = s.waiting_for_unit(t, x);
    let group = set![t];
    lemma_waiting_entries(s, tid, sem_id);
    assert(waits_within(waiting, group, t, x));
    law_closed_group_never_completes(waiting, group);
    assert(group.contains(t));
    assert(cell(waiting.semaphore_alloc, t, x) > 0) by {
        assert(waiting.held(t, x) > 0);
    }
    assert(cell(waiting.semaphore_request, t, x) > 0) by {
        assert(waiting.wanted(t, x) > 0);
    }
    assert(waiting.stuck(t));
}

/// The entries once a thread waits for one unit more.
pub(crate) proof fn lemma_waiting_entries(s: SyncState, tid: usize, sem_id: usize)
    requires
        s.can_record_down(tid, sem_id),
        s.semaphore_available[sem_id as int] == 0,
    ensures
        ({
            let waiting = s.waiting_for_unit(tid as int, sem_id as int);
            &&& waiting.semaphore_available == s.semaphore_available
            &&& tid < waiting.task_count()
            &&& s.task_count() <= waiting.task_count()
            &&& forall|t: int, x: int| #[trigger] waiting.held(t, x) == s.held(t, x)
            &&& forall|t: int, x: int| #[trigger]
                waiting.wanted(t, x) == s.wanted(t, x) + (if t == tid && x == sem_id {
                    1int
                } else {
                    0
                })
        }),
{
    let covering = s.covering_semaphore(tid as int, sem_id as int);
    lemma_covering_semaphore(s, tid as int, sem_id as int);
    lemma_with_cell(
        covering.semaphore_request,
        tid as int,
        sem_id as int,
        covering.wanted(tid as int, sem_id as int) + 1,
    );
}

/// With detection on, two threads that each hold all the units that the other
/// asks for: the first to ask may wait, the second is refused.
pub proof fn law_crossed_downs(s: SyncState, a: usize, b: usize, x: usize, y: usize)
    requires
        s.deadlock_detect,
        s.can_record_down(b, x),
        a != b,
        y < s.semaphore_available.len(),
        s.semaphore_available[x as int] == 0,
        s.semaphore_available[y as int] == 0,
        s.held(a as int, x as int) > 0,
        s.held(b as int, y as int) > 0,
        forall|t: int| t != a ==> #[trigger] s.held(t, x as int) == 0,
        forall|t: int| t != b ==> #[trigger] s.held(t, y as int) == 0,
        s.wanted(a as int, y as int) > 0,
    ensures
        s.down_refused(b, x),
{
    let waiting = s.waiting_for_unit(b as int, x as int);
    let group = set![a as int, b as int];
    lemma_waiting_entries(s, b, x);
    assert(waits_within(waiting, group, a as int, y as int));
    assert(waits_within(waiting, group, b as int, x as int));
    law_closed_group_never_completes(waiting, group);
    assert(group.contains(b as int));
    assert(cell(waiting.semaphore_alloc, b as int, y as int) > 0) by {
        assert(waiting.held(b as int, y as int) > 0);
    }
    assert(cell(waiting.semaphore_request, b as int, x as int) > 0) by {
        assert(waiting.wanted(b as int, x as int) > 0);
    }
    assert(waiting.stuck(b as int));
}

/// Where no thread is stuck, a request of a thread that waits for nothing is
/// not refused while another thread that waits for nothing holds a unit.
pub proof fn law_down_behind_running_holder(s: SyncState, tid: usize, sem_id: usize, holder: int)
    requires
        s.can_record_down(tid, sem_id),
        s.semaphore_deadlock_free(),
        s.wants_nothing(tid as int),
        holder != tid,
        s.wants_nothing(holder),
        s.held(holder, sem_id as int) > 0,
    ensures
        !s.down_refused(tid, sem_id),
{
    if s.semaphore_available[sem_id as int] == 0 {
        let t = tid as int;
        let new = s.waiting_for_unit(t, sem_id as int);
        lemma_waiting_entries(s, tid, sem_id);
        let first = seq![holder];
        lemma_idle_first(new, first);
        lemma_held_by_one(new, first);
        lemma_held_by_one(s, first);
        assert forall|x: int| 0 <= x < new.semaphore_available.len() implies #[trigger] new.wanted(
            t,
            x,
        ) <= new.semaphore_available[x] + new.held_by_all(first, x) by {
            assert(s.wanted(t, x) == 0);
            assert(new.held_by_all(first, x) == new.held(holder, x));
        }
        assert(!first.contains(t));
        lemma_extend_order(new, first, t);
        let both = first.push(t);
        lemma_held_by_two(s, both);
        lemma_held_by_two(new, both);
        assert(both.contains(t));
        lemma_no_worse(s, new, both);
    }
}

/// A request for a unit of an existing semaphore keeps the tables in shape.
pub proof fn law_down_keeps_wf(s: SyncState, tid: usize, sem_id: usize)
    requires
        s.wf(),
        s.deadlock_detect ==> {
            &&& s.can_record_down(tid, sem_id)
            &&& has_slot(s.semaphore_list, sem_id as int)
        },
    ensures
        s.after_semaphore_down(tid, sem_id).wf(),
{
    if s.deadlock_detect {
        let new = s.after_semaphore_down(tid, sem_id);
        lemma_covering_semaphore(s, tid as int, sem_id as int);
        lemma_covering_wf(s, tid as int, sem_id as int);
        if s.semaphore_available[sem_id as int] == 0 && !s.down_refused(tid, sem_id) {
            law_down_waits(s, tid, sem_id);
            assert forall|t: int, x: int| #[trigger] cell(new.semaphore_request, t, x)
                > 0 implies has_slot(new.semaphore_list, x) by {
                assert(new.wanted(t, x) > 0);
                if x != sem_id {
                    assert(cell(s.semaphore_request, t, x) > 0);
                }
            }
        }
    }
}

/// A release keeps the tables in shape.
pub proof fn law_up_keeps_wf(s: SyncState, tid: usize, sem_id: usize, waking_tid: Option<usize>)
    requires
        s.wf(),
        s.can_record_release(tid, sem_id, waking_tid),
    ensures
        s.after_semaphore_release(tid, sem_id, waking_tid).wf(),
{
    let new = s.after_semaphore_release(tid, sem_id, waking_tid);
    law_release_entries(s, tid, sem_id, waking_tid);
    assert forall|t: int, x: int| #[trigger] cell(new.semaphore_request, t, x)
        > 0 implies has_slot(new.semaphore_list, x) by {
        assert(new.wanted(t, x) <= s.wanted(t, x));
        assert(cell(s.semaphore_request, t, x) > 0);
    }
}

/// Making a semaphore keeps the tables in shape.
pub proof fn law_create_semaphore_keeps_wf(s: SyncState, id: int, res_count: usize)
    requires
        s.wf(),
        0 <= id <= s.semaphore_list.len(),
    ensures
        s.with_semaphore(id, res_count).wf(),
{
    let made = s.with_counts(id, res_count);
    assert forall|t: int, x: int| #[trigger] cell(made.semaphore_request, t, x)
        > 0 implies has_slot(made.semaphore_list, x) by {
        assert(cell(s.semaphore_request, t, x) > 0);
    }
    lemma_covering_wf(made, 0, id);
}

/// More free units or smaller requests never leave a thread stuck that was
/// not.
pub proof fn law_fewer_demands(s: SyncState, new: SyncState)
    requires
        new.semaphore_available.len() == s.semaphore_available.len(),
        forall|x: int|
            0 <= x < s.semaphore_available.len() ==> s.semaphore_available[x]
                <= #[trigger] new.semaphore_available[x],
        forall|t: int, x: int| #[trigger] new.held(t, x) == s.held(t, x),
        forall|t: int, x: int| #[trigger] new.wanted(t, x) <= s.wanted(t, x),
    ensures
        forall|t: int| #[trigger] new.stuck(t) ==> s.stuck(t),
        s.semaphore_deadlock_free() ==> new.semaphore_deadlock_free(),
{
    let none = Seq::<int>::empty();
    lemma_idle_first(new, none);
    assert forall|x: int| 0 <= x < new.semaphore_available.len() implies #[trigger] frees_enough(
        s,
        new,
        none,
        x,
    ) by {
        assert(s.semaphore_available[x] <= new.semaphore_available[x]);
    }
    lemma_no_worse(s, new, none);
}

/// The number of thread slots has no bearing on who is stuck.
pub proof fn law_task_slots_do_not_matter(s: SyncState, task_slots: nat)
    ensures
        forall|t: int| #[trigger] (SyncState { task_slots, ..s }).stuck(t) == s.stuck(t),
        (SyncState { task_slots, ..s }).semaphore_deadlock_free() == s.semaphore_deadlock_free(),
{
    law_semaphore_frame(s, SyncState { task_slots, ..s });
}

/// In `new` thread `to(t)` holds and waits for what thread `t` does in `s`,
/// and `from` undoes `to`.
pub open spec fn renamed(
    s: SyncState,
    new: SyncState,
    to: spec_fn(int) -> int,
    from: spec_fn(int) -> int,
) -> bool {
    &&& new.semaphore_available == s.semaphore_available
    &&& forall|t: int| t >= 0 ==> #[trigger] to(t) >= 0 && from(to(t)) == t
    &&& forall|t: int| t >= 0 ==> #[trigger] from(t) >= 0 && to(from(t)) == t
    &&& forall|t: int, x: int| t >= 0 ==> #[trigger] s.held(t, x) == new.held(to(t), x)
    &&& forall|t: int, x: int| t >= 0 ==> #[trigger] s.wanted(t, x) == new.wanted(to(t), x)
}

/// The threads of a completion order can run to their end in the same order
/// under their new names.
proof fn lemma_renamed_order(
    s: SyncState,
    new: SyncState,
    to: spec_fn(int) -> int,
    from: spec_fn(int) -> int,
    order: Seq<int>,
    n: int,
) -> (followed: Seq<int>)
    requires
        renamed(s, new, to, from),
        s.completion_order(order),
        0 <= n <= order.len(),
    ensures
        new.completion_order(followed),
        forall|x: int| #[trigger]
            new.held_by_all(followed, x) == s.held_by_all(order.take(n), x),
        forall|i: int|
            0 <= i < n && to(order[i]) < new.task_count() ==> followed.contains(
                to(#[trigger] order[i]),
            ),
        forall|u: int| #[trigger]
            followed.contains(u) ==> u >= 0 && order.take(n).contains(from(u)),
    decreases n,
{
    if n == 0 {
        Seq::empty()
    } else {
        let before = lemma_renamed_order(s, new, to, from, order, n - 1);
        let t = order[n - 1];
        let done = order.take(n - 1);
        let u = to(t);
        assert(order.take(n).drop_last() =~= done);
        assert(order.take(n).last() == t);
        assert forall|v: int| done.contains(v) || v == t implies #[trigger] order.take(n).contains(
            v,
        ) by {
            if v == t {
                assert(order.take(n)[n - 1] == t);
            } else {
                let k = choose|k: int| 0 <= k < done.len() && done[k] == v;
                assert(order.take(n)[k] == v);
            }
        }
        assert(from(u) == t);
        assert forall|x: int| #[trigger] s.held_by_all(order.take(n), x) == s.held_by_all(done, x)
            + new.held(u, x) by {
            assert(s.held(t, x) == new.held(u, x));
        }
        if u >= new.task_count() {
            assert forall|x: int| #[trigger]
                new.held_by_all(before, x) == s.held_by_all(order.take(n), x) by {
                assert(new.held(u, x) == 0);
            }
            before
        } else {
            assert(!before.contains(u)) by {
                if before.contains(u) {
                    assert(done.contains(t));
                    let k = choose|k: int| 0 <= k < done.len() && done[k] == t;
                    assert(order[k] == order[n - 1]);
                }
            }
            assert(s.can_run_after(done, t));
            assert forall|x: int|
                0 <= x < new.semaphore_available.len() implies #[trigger] new.wanted(u, x)
                <= new.semaphore_available[x] + new.held_by_all(before, x) by {
                assert(s.wanted(t, x) == new.wanted(u, x));
                assert(new.held_by_all(before, x) == s.held_by_all(done, x));
            }
            lemma_extend_order(new, before, u);
            let followed = before.push(u);
            assert(followed.contains(u));
            assert forall|x: int| #[trigger]
                new.held_by_all(followed, x) == s.held_by_all(order.take(n), x) by {
                assert(new.held_by_all(before, x) == s.held_by_all(done, x));
            }
            followed
        }
    }
}

/// A thread that is stuck under its new name was stuck under its old one.
proof fn lemma_renamed_stuck(
    s: SyncState,
    new: SyncState,
    to: spec_fn(int) -> int,
    from: spec_fn(int) -> int,
    t: int,
)
    requires
        renamed(s, new, to, from),
        t >= 0,
        new.stuck(to(t)),
    ensures
        s.stuck(t),
{
    let u = to(t);
    let x = choose|x: int| #[trigger] cell(new.semaphore_alloc, u, x) > 0;
    assert(s.held(t, x) == new.held(u, x));
    assert(cell(s.semaphore_alloc, t, x) > 0);
    let y = choose|y: int| #[trigger] cell(new.semaphore_request, u, y) > 0;
    assert(s.wanted(t, y) == new.wanted(u, y));
    assert(cell(s.semaphore_request, t, y) > 0);
    if s.can_complete(t) {
        let order = choose|order: Seq<int>| s.completion_order(order) && order.contains(t);
        let k = choose|k: int| 0 <= k < order.len() && order[k] == t;
        let followed = lemma_renamed_order(s, new, to, from, order, order.len() as int);
        assert(followed.contains(to(order[k])));
        assert(new.can_complete(u));
    }
}

/// Who is stuck does not depend on the order of the threads: where threads
/// change their numbers, and keep what they hold and wait for, each is stuck
/// under its new number if and only if it was under its old one.
pub proof fn law_thread_order_does_not_matter(
    s: SyncState,
    new: SyncState,
    to: spec_fn(int) -> int,
    from: spec_fn(int) -> int,
)
    requires
        renamed(s, new, to, from),
    ensures
        forall|t: int| t >= 0 ==> #[trigger] s.stuck(t) == new.stuck(to(t)),
        new.semaphore_deadlock_free() == s.semaphore_deadlock_free(),
{
    assert forall|t: int, x: int| t >= 0 implies #[trigger] new.held(t, x) == s.held(
        from(t),
        x,
    ) by {
        assert(s.held(from(t), x) == new.held(to(from(t)), x));
    }
    assert forall|t: int, x: int| t >= 0 implies #[trigger] new.wanted(t, x) == s.wanted(
        from(t),
        x,
    ) by {
        assert(s.wanted(from(t), x) == new.wanted(to(from(t)), x));
    }
    assert(renamed(new, s, from, to));
    assert forall|t: int| t >= 0 implies #[trigger] s.stuck(t) == new.stuck(to(t)) by {
        if new.stuck(to(t)) {
            lemma_renamed_stuck(s, new, to, from, t);
        }
        if s.stuck(t) {
            assert(from(to(t)) == t);
            lemma_renamed_stuck(new, s, from, to, to(t));
        }
    }
    if s.semaphore_deadlock_free() {
        assert forall|t: int| !(#[trigger] new.stuck(t)) by {
            if new.stuck(t) {
                assert(to(from(t)) == t);
                assert(s.stuck(from(t)) == new.stuck(to(from(t))));
            }
        }
    }
    if new.semaphore_deadlock_free() {
        assert forall|t: int| !(#[trigger] s.stuck(t)) by {
            if s.stuck(t) {
                assert(new.stuck(to(t)));
            }
        }
    }
}

} // verus!
