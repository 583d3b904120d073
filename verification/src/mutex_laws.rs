//! What holds of the mutex calls together.

use vstd::prelude::*;

use crate::mutex::law_ended_chain_no_cycle;
use crate::state::{has_slot, is_next_slot, padded, with_slot, MutexKind, SyncState};

verus! {

/// Growing the mutex tables changes no entry, and nothing about who waits for
/// itself; growing them once more for the same thread and mutex changes
/// nothing.
pub proof fn law_covering_mutex(s: SyncState, tid: int, mutex_id: int)
    requires
        0 <= tid,
        0 <= mutex_id,
    ensures
        forall|m: int| #[trigger]
            s.covering_mutex(tid, mutex_id).owner_of(m) == s.owner_of(m),
        forall|t: int| #[trigger]
            s.covering_mutex(tid, mutex_id).awaited_by(t) == s.awaited_by(t),
        forall|t: usize| #[trigger]
            s.covering_mutex(tid, mutex_id).in_wait_cycle(t) == s.in_wait_cycle(t),
        s.covering_mutex(tid, mutex_id).mutex_deadlock_free() == s.mutex_deadlock_free(),
        s.covering_mutex(tid, mutex_id).covering_mutex(tid, mutex_id) == s.covering_mutex(
            tid,
            mutex_id,
        ),
{
    law_mutex_frame(s, s.covering_mutex(tid, mutex_id));
    assert(s.covering_mutex(tid, mutex_id).covering_mutex(tid, mutex_id) =~= s.covering_mutex(
        tid,
        mutex_id,
    ));
}

/// Each thread of a cycle has a successor, and all its waits are among
/// those of `s` if they are between threads other than `changed`.
proof fn lemma_cycle_avoids(s: SyncState, new: SyncState, changed: usize)
    requires
        s.mutex_deadlock_free(),
        !new.in_wait_cycle(changed),
        forall|a: usize, b: usize|
            a != changed && b != changed && #[trigger] new.waits_for(a, b) ==> s.waits_for(a, b),
    ensures
        new.mutex_deadlock_free(),
{
    assert forall|t: usize| !(#[trigger] new.in_wait_cycle(t)) by {
        if new.in_wait_cycle(t) {
            let path = choose|path: Seq<usize>| new.wait_cycle(t, path);
            let n = path.len() as int;
            if exists|k: int| 0 <= k < n && path[k] == changed {
                let k = choose|k: int| 0 <= k < n && path[k] == changed;
                let turned = path.subrange(k, n) + path.subrange(1, k + 1);
                assert forall|i: int| 0 <= i < turned.len() - 1 implies #[trigger] new.linked(
                    turned,
                    i,
                ) by {
                    if i < n - 1 - k {
                        assert(new.linked(path, k + i));
                    } else {
                        assert(new.linked(path, i - (n - 1 - k)));
                    }
                }
                assert(turned.last() == changed);
                assert(new.wait_cycle(changed, turned));
            } else {
                assert forall|i: int| 0 <= i < n - 1 implies #[trigger] s.linked(path, i) by {
                    assert(new.linked(path, i));
                    assert(path[i] != changed);
                    assert(path[i + 1] != changed);
                }
                assert(s.wait_cycle(t, path));
                assert(s.in_wait_cycle(t));
            }
        }
    }
}

/// A request never brings about a deadlock: where no thread waits for itself,
/// and the asking thread, if its request is recorded, waits for nothing, no
/// thread waits for itself afterwards, whether the mutex was granted, is
/// waited for, or was refused.
pub proof fn law_lock_keeps_deadlock_free(s: SyncState, tid: usize, mutex_id: usize)
    requires
        s.mutex_deadlock_free(),
        s.deadlock_detect ==> s.awaited_by(tid as int) is None,
    ensures
        s.after_mutex_lock(tid, mutex_id).mutex_deadlock_free(),
{
    if s.deadlock_detect {
        let new = s.after_mutex_lock(tid, mutex_id);
        law_covering_mutex(s, tid as int, mutex_id as int);
        if s.lock_would_deadlock(tid, mutex_id) || s.owner_of(mutex_id as int) is None {
            law_ended_chain_no_cycle(new, seq![tid]);
        }
        lemma_cycle_avoids(s, new, tid);
    }
}

/// Releasing a mutex never brings about a deadlock.
pub proof fn law_release_keeps_deadlock_free(
    s: SyncState,
    tid: usize,
    mutex_id: usize,
    waking_tid: Option<usize>,
)
    requires
        s.mutex_deadlock_free(),
    ensures
        s.after_mutex_release(tid, mutex_id, waking_tid).mutex_deadlock_free(),
{
    let new = s.after_mutex_release(tid, mutex_id, waking_tid);
    let covering = s.covering_mutex(tid as int, mutex_id as int);
    law_covering_mutex(s, tid as int, mutex_id as int);
    if s.owner_of(mutex_id as int) == Some(tid) && waking_tid is Some {
        let waking = waking_tid->0;
        law_covering_mutex(covering, waking as int, mutex_id as int);
        law_ended_chain_no_cycle(new, seq![waking]);
        lemma_cycle_avoids(s, new, waking);
    } else {
        lemma_fewer_waits(s, new);
    }
}

/// Dropping waits does not bring about a deadlock.
proof fn lemma_fewer_waits(s: SyncState, new: SyncState)
    requires
        s.mutex_deadlock_free(),
        forall|a: usize, b: usize| #[trigger] new.waits_for(a, b) ==> s.waits_for(a, b),
    ensures
        new.mutex_deadlock_free(),
{
    assert forall|t: usize| !(#[trigger] new.in_wait_cycle(t)) by {
        if new.in_wait_cycle(t) {
            lemma_cycle_kept(new, s, t);
        }
    }
}

/// A cycle stays one where no wait of its state is dropped.
proof fn lemma_cycle_kept(s: SyncState, new: SyncState, t: usize)
    requires
        s.in_wait_cycle(t),
        forall|a: usize, b: usize| #[trigger] s.waits_for(a, b) ==> new.waits_for(a, b),
    ensures
        new.in_wait_cycle(t),
{
    let path = choose|path: Seq<usize>| s.wait_cycle(t, path);
    assert forall|i: int| 0 <= i < path.len() - 1 implies #[trigger] new.linked(path, i) by {
        assert(s.linked(path, i));
    }
    assert(new.wait_cycle(t, path));
}

/// Where no thread waits for a mutex, none waits for itself.
pub proof fn law_no_waits_no_deadlock(s: SyncState)
    requires
        forall|t: int| (#[trigger] s.awaited_by(t)) is None,
    ensures
        s.mutex_deadlock_free(),
{
    assert forall|t: usize| !(#[trigger] s.in_wait_cycle(t)) by {
        law_ended_chain_no_cycle(s, seq![t]);
    }
}

/// Making a mutex never brings about a deadlock.
pub proof fn law_create_keeps_mutex_deadlock_free(s: SyncState, id: int, kind: MutexKind)
    requires
        s.mutex_deadlock_free(),
        0 <= id <= s.mutex_list.len(),
    ensures
        s.with_mutex(id, kind).mutex_deadlock_free(),
{
    lemma_fewer_waits(s, s.with_mutex(id, kind));
}

/// Making a mutex keeps the owners in step with the list: nobody owns a mutex
/// in a slot behind the old ones, and nothing else changes.
pub proof fn law_create_mutex_entries(s: SyncState, id: int, kind: MutexKind)
    requires
        s.mutex_owners.len() == s.mutex_list.len(),
        is_next_slot(s.mutex_list, id),
    ensures
        s.with_mutex(id, kind).mutex_owners.len() == s.with_mutex(id, kind).mutex_list.len(),
        forall|m: int|
            0 <= m < s.mutex_owners.len() ==> #[trigger] s.with_mutex(id, kind).mutex_owners[m]
                == s.mutex_owners[m],
        id == s.mutex_list.len() ==> s.with_mutex(id, kind).mutex_owners[id] is None,
        has_slot(s.with_mutex(id, kind).mutex_list, id),
        s.with_mutex(id, kind) == (SyncState {
            mutex_list: with_slot(s.mutex_list, id, kind),
            mutex_owners: s.with_mutex(id, kind).mutex_owners,
            ..s
        }),
{
}

/// A refused request changes nobody's ownership and nobody else's wait, and
/// leaves the asking thread waiting for nothing.
pub proof fn law_refused_lock_changes_nothing(s: SyncState, tid: usize, mutex_id: usize)
    requires
        s.lock_refused(tid, mutex_id),
    ensures
        forall|m: int| #[trigger]
            s.after_mutex_lock(tid, mutex_id).owner_of(m) == s.owner_of(m),
        forall|t: int|
            t != tid ==> #[trigger] s.after_mutex_lock(tid, mutex_id).awaited_by(t)
                == s.awaited_by(t),
        s.after_mutex_lock(tid, mutex_id).awaited_by(tid as int) is None,
        s.after_mutex_lock(tid, mutex_id) == (SyncState {
            mutex_owners: padded(s.mutex_owners, mutex_id + 1, None),
            mutex_requests: padded(s.mutex_requests, tid + 1, None).update(tid as int, None),
            ..s
        }),
{
    law_covering_mutex(s, tid as int, mutex_id as int);
}

/// With detection on, a thread that asks for a mutex that it owns is
/// refused.
pub proof fn law_relock_refused(s: SyncState, tid: usize, mutex_id: usize)
    requires
        s.deadlock_detect,
        s.owner_of(mutex_id as int) == Some(tid),
    ensures
        s.lock_refused(tid, mutex_id),
{
    let waiting = s.covering_mutex(tid as int, mutex_id as int).with_mutex_request(
        tid as int,
        Some(mutex_id),
    );
    let path = seq![tid, tid];
    law_covering_mutex(s, tid as int, mutex_id as int);
    assert(waiting.linked(path, 0));
    assert(waiting.wait_cycle(tid, path));
}

/// With detection on, two threads that each own what the other asks for: the
/// first to ask may wait, the second is refused.
pub proof fn law_crossed_locks(s: SyncState, a: usize, b: usize, m: usize, n: usize)
    requires
        s.deadlock_detect,
        a != b,
        s.owner_of(m as int) == Some(a),
        s.owner_of(n as int) == Some(b),
        s.awaited_by(a as int) == Some(n),
    ensures
        s.lock_refused(b, m),
{
    let waiting = s.covering_mutex(b as int, m as int).with_mutex_request(b as int, Some(m));
    let path = seq![b, a, b];
    law_covering_mutex(s, b as int, m as int);
    assert(waiting.linked(path, 0));
    assert(waiting.linked(path, 1));
    assert(waiting.wait_cycle(b, path));
}

/// A mutex that nobody owns is granted: the request is not refused, the
/// thread owns it, and nobody starts to wait.
pub proof fn law_free_mutex_granted(s: SyncState, tid: usize, mutex_id: usize)
    requires
        s.deadlock_detect,
        s.owner_of(mutex_id as int) is None,
    ensures
        !s.lock_refused(tid, mutex_id),
        s.after_mutex_lock(tid, mutex_id).owner_of(mutex_id as int) == Some(tid),
        forall|t: int| #[trigger]
            s.after_mutex_lock(tid, mutex_id).awaited_by(t) == s.awaited_by(t),
{
    law_covering_mutex(s, tid as int, mutex_id as int);
    let waiting = s.covering_mutex(tid as int, mutex_id as int).with_mutex_request(
        tid as int,
        Some(mutex_id),
    );
    law_ended_chain_no_cycle(waiting, seq![tid]);
}

/// A request for a mutex whose owner is another thread, and one that waits for
/// nothing, is not refused.
pub proof fn law_lock_behind_running_owner(
    s: SyncState,
    tid: usize,
    mutex_id: usize,
    owner: usize,
)
    requires
        s.owner_of(mutex_id as int) == Some(owner),
        owner != tid,
        s.awaited_by(owner as int) is None,
    ensures
        !s.lock_refused(tid, mutex_id),
{
    let waiting = s.covering_mutex(tid as int, mutex_id as int).with_mutex_request(
        tid as int,
        Some(mutex_id),
    );
    let chain = seq![tid, owner];
    law_covering_mutex(s, tid as int, mutex_id as int);
    assert(waiting.linked(chain, 0));
    law_ended_chain_no_cycle(waiting, chain);
}

/// Mutual exclusion: a request takes no mutex away from its owner, and grants
/// none but the one that is asked for.
pub proof fn law_lock_keeps_owners(s: SyncState, tid: usize, mutex_id: usize, m: int)
    requires
        s.owner_of(m) is Some || m != mutex_id,
    ensures
        s.after_mutex_lock(tid, mutex_id).owner_of(m) == s.owner_of(m),
{
    law_covering_mutex(s, tid as int, mutex_id as int);
}

/// Only the owner passes a mutex on: no other mutex changes hands, and none
/// does where the releasing thread does not own it.
pub proof fn law_release_by_owner_only(
    s: SyncState,
    tid: usize,
    mutex_id: usize,
    waking_tid: Option<usize>,
    m: int,
)
    requires
        s.owner_of(mutex_id as int) != Some(tid) || m != mutex_id,
    ensures
        s.after_mutex_release(tid, mutex_id, waking_tid).owner_of(m) == s.owner_of(m),
{
    let covering = s.covering_mutex(tid as int, mutex_id as int);
    law_covering_mutex(s, tid as int, mutex_id as int);
    if waking_tid is Some {
        law_covering_mutex(covering, waking_tid->0 as int, mutex_id as int);
    }
}

/// The owner's release hands the mutex to the thread that was woken, which
/// then waits for nothing, or to nobody. No other thread's wait changes.
pub proof fn law_release_hands_over(
    s: SyncState,
    tid: usize,
    mutex_id: usize,
    waking_tid: Option<usize>,
)
    requires
        s.owner_of(mutex_id as int) == Some(tid),
    ensures
        s.after_mutex_release(tid, mutex_id, waking_tid).owner_of(mutex_id as int) == waking_tid,
        waking_tid matches Some(waking) ==> s.after_mutex_release(
            tid,
            mutex_id,
            waking_tid,
        ).awaited_by(waking as int) is None,
        forall|t: usize|
            waking_tid != Some(t) ==> #[trigger] s.after_mutex_release(
                tid,
                mutex_id,
                waking_tid,
            ).awaited_by(t as int) == s.awaited_by(t as int),
{
    let covering = s.covering_mutex(tid as int, mutex_id as int);
    law_covering_mutex(s, tid as int, mutex_id as int);
    if waking_tid is Some {
        law_covering_mutex(covering, waking_tid->0 as int, mutex_id as int);
    }
}

/// A free mutex that is locked and released again, with nobody waiting for
/// it, leaves every ownership and every wait as it was.
pub proof fn law_lock_then_release(s: SyncState, tid: usize, mutex_id: usize)
    requires
        s.deadlock_detect,
        s.owner_of(mutex_id as int) is None,
    ensures
        forall|m: int| #[trigger]
            s.after_mutex_lock(tid, mutex_id).after_mutex_release(tid, mutex_id, None).owner_of(m)
                == s.owner_of(m),
        forall|t: int| #[trigger]
            s.after_mutex_lock(tid, mutex_id).after_mutex_release(tid, mutex_id, None).awaited_by(t)
                == s.awaited_by(t),
{
    let locked = s.after_mutex_lock(tid, mutex_id);
    law_free_mutex_granted(s, tid, mutex_id);
    law_covering_mutex(s, tid as int, mutex_id as int);
    law_covering_mutex(locked, tid as int, mutex_id as int);
}

/// A release that ends from the state in which it began comes to the same
/// whether or not the tables were grown in between.
pub proof fn law_release_in_two_parts(
    s: SyncState,
    tid: usize,
    mutex_id: usize,
    waking_tid: Option<usize>,
)
    ensures
        s.covering_mutex(tid as int, mutex_id as int).after_mutex_release(tid, mutex_id, waking_tid)
            == s.after_mutex_release(tid, mutex_id, waking_tid),
{
    law_covering_mutex(s, tid as int, mutex_id as int);
}

/// A deadlock takes in every thread along its cycle.
pub proof fn law_cycle_takes_in_successor(s: SyncState, a: usize, b: usize)
    requires
        s.in_wait_cycle(a),
        s.waits_for(a, b),
    ensures
        s.in_wait_cycle(b),
{
    let path = choose|path: Seq<usize>| s.wait_cycle(a, path);
    let turned = path.subrange(1, path.len() as int).push(b);
    assert(s.linked(path, 0));
    assert forall|i: int| 0 <= i < turned.len() - 1 implies #[trigger] s.linked(turned, i) by {
        if i < path.len() - 2 {
            assert(s.linked(path, i + 1));
        }
    }
    assert(s.wait_cycle(b, turned));
}

/// Whether a thread waits for itself depends on nothing but who owns and who
/// waits for which mutex.
pub proof fn law_mutex_frame(s: SyncState, new: SyncState)
    requires
        forall|m: int| #[trigger] new.owner_of(m) == s.owner_of(m),
        forall|t: int| #[trigger] new.awaited_by(t) == s.awaited_by(t),
    ensures
        forall|t: usize| #[trigger] new.in_wait_cycle(t) == s.in_wait_cycle(t),
        new.mutex_deadlock_free() == s.mutex_deadlock_free(),
{
    assert forall|t: usize| #[trigger] new.in_wait_cycle(t) == s.in_wait_cycle(t) by {
        if new.in_wait_cycle(t) {
            lemma_cycle_kept(new, s, t);
        }
        if s.in_wait_cycle(t) {
            lemma_cycle_kept(s, new, t);
        }
    }
    if new.mutex_deadlock_free() {
        assert forall|t: usize| !(#[trigger] s.in_wait_cycle(t)) by {
            assert(!new.in_wait_cycle(t));
        }
    }
}

/// With detection off no request is refused, and none is recorded.
pub proof fn law_detection_off_lock(s: SyncState, tid: usize, mutex_id: usize)
    requires
        !s.deadlock_detect,
    ensures
        !s.lock_refused(tid, mutex_id),
        s.after_mutex_lock(tid, mutex_id) == s,
{
}

} // verus!
