//! Mutexes: who owns which, who waits for which, and whether a wait can end.

use vstd::prelude::*;

use crate::bytes::to_signed;
use crate::state::{
    has_slot, is_next_slot, lemma_unset_update, next_slot, padded, slot_of, unset, with_slot,
    MutexKind, ProcessControlBlockInner, SyncState,
};
use crate::step::{KernelCall, Step, DEADLOCK};

verus! {

impl SyncState {
    /// The mutex tables grown to cover thread `tid` and mutex `mutex_id`.
    pub open spec fn covering_mutex(self, tid: int, mutex_id: int) -> SyncState {
        SyncState {
            mutex_owners: padded(self.mutex_owners, mutex_id + 1, None),
            mutex_requests: padded(self.mutex_requests, tid + 1, None),
            ..self
        }
    }

    /// The thread that owns the mutex that thread `t` waits for.
    pub open spec fn awaited_owner(self, t: usize) -> Option<usize> {
        match self.awaited_by(t as int) {
            Some(m) => self.owner_of(m as int),
            None => None,
        }
    }

    /// Thread `a` waits for a mutex that thread `b` owns.
    pub open spec fn waits_for(self, a: usize, b: usize) -> bool {
        self.awaited_owner(a) == Some(b)
    }

    /// The thread at place `i` of `path` waits for the one behind it.
    pub open spec fn linked(self, path: Seq<usize>, i: int) -> bool {
        self.waits_for(path[i], path[i + 1])
    }

    /// Along `path` each thread waits for the next.
    pub open spec fn wait_chain(self, path: Seq<usize>) -> bool {
        &&& path.len() > 0
        &&& forall|i: int| 0 <= i < path.len() - 1 ==> #[trigger] self.linked(path, i)
    }

    /// `path` leads from thread `t` over at least one wait back to `t`.
    pub open spec fn wait_cycle(self, t: usize, path: Seq<usize>) -> bool {
        &&& self.wait_chain(path)
        &&& path.len() >= 2
        &&& path[0] == t
        &&& path.last() == t
    }

    /// Thread `t` waits, directly or through other threads, for itself.
    pub open spec fn in_wait_cycle(self, t: usize) -> bool {
        exists|path: Seq<usize>| self.wait_cycle(t, path)
    }

    /// No thread waits for itself.
    pub open spec fn mutex_deadlock_free(self) -> bool {
        forall|t: usize| !(#[trigger] self.in_wait_cycle(t))
    }

    /// Thread `tid` recorded as waiting for `mutex`.
    pub open spec fn with_mutex_request(self, tid: int, mutex: Option<usize>) -> SyncState {
        SyncState { mutex_requests: self.mutex_requests.update(tid, mutex), ..self }
    }

    /// `owner` recorded as the owner of mutex `mutex_id`.
    pub open spec fn with_mutex_owner(self, mutex_id: int, owner: Option<usize>) -> SyncState {
        SyncState { mutex_owners: self.mutex_owners.update(mutex_id, owner), ..self }
    }

    /// A mutex of the given kind made in slot `id`.
    pub open spec fn with_mutex(self, id: int, kind: MutexKind) -> SyncState {
        SyncState {
            mutex_list: with_slot(self.mutex_list, id, kind),
            mutex_owners: if id < self.mutex_list.len() {
                padded(self.mutex_owners, id + 1, None)
            } else {
                self.mutex_owners.push(None)
            },
            ..self
        }
    }

    /// Thread `tid`, once it waited for mutex `mutex_id`, would wait for
    /// itself.
    pub open spec fn lock_would_deadlock(self, tid: usize, mutex_id: usize) -> bool {
        self.covering_mutex(tid as int, mutex_id as int).with_mutex_request(
            tid as int,
            Some(mutex_id),
        ).in_wait_cycle(tid)
    }

    /// Whether a request of thread `tid` for mutex `mutex_id` is refused.
    pub open spec fn lock_refused(self, tid: usize, mutex_id: usize) -> bool {
        self.deadlock_detect && self.lock_would_deadlock(tid, mutex_id)
    }

    /// The state once thread `tid` has asked for mutex `mutex_id`: the thread
    /// owns the mutex if nobody did, and else waits for it, unless it was
    /// refused.
    pub open spec fn after_mutex_lock(self, tid: usize, mutex_id: usize) -> SyncState {
        let covering = self.covering_mutex(tid as int, mutex_id as int);
        if !self.deadlock_detect {
            self
        } else if self.lock_would_deadlock(tid, mutex_id) {
            covering.with_mutex_request(tid as int, None)
        } else if self.owner_of(mutex_id as int) is None {
            covering.with_mutex_owner(mutex_id as int, Some(tid))
        } else {
            covering.with_mutex_request(tid as int, Some(mutex_id))
        }
    }

    /// The state once mutex `mutex_id` has passed from thread `tid` to the
    /// woken thread, or to nobody. It does not pass on where `tid` is not
    /// recorded as its owner.
    pub open spec fn after_mutex_release(
        self,
        tid: usize,
        mutex_id: usize,
        waking_tid: Option<usize>,
    ) -> SyncState {
        let covering = self.covering_mutex(tid as int, mutex_id as int);
        if self.owner_of(mutex_id as int) != Some(tid) {
            covering
        } else {
            match waking_tid {
                Some(waking) => covering.covering_mutex(
                    waking as int,
                    mutex_id as int,
                ).with_mutex_owner(mutex_id as int, Some(waking)).with_mutex_request(
                    waking as int,
                    None,
                ),
                None => covering.with_mutex_owner(mutex_id as int, None),
            }
        }
    }
}

/// A thread waits for at most one other, so two chains from one thread agree
/// as far as both go.
proof fn lemma_chains_agree(s: SyncState, a: Seq<usize>, b: Seq<usize>, i: int)
    requires
        s.wait_chain(a),
        s.wait_chain(b),
        a[0] == b[0],
        0 <= i < a.len(),
        i < b.len(),
    ensures
        a[i] == b[i],
    decreases i,
{
    if i > 0 {
        lemma_chains_agree(s, a, b, i - 1);
        assert(s.linked(a, i - 1));
        assert(s.linked(b, i - 1));
    }
}

/// A chain whose last thread waits for nobody does not come back to its first
/// thread.
pub proof fn law_ended_chain_no_cycle(s: SyncState, walk: Seq<usize>)
    requires
        s.wait_chain(walk),
        walk.drop_last().no_duplicates(),
        walk.len() == 1 || walk.last() != walk[0],
        s.awaited_owner(walk.last()) is None,
    ensures
        !s.in_wait_cycle(walk[0]),
{
    assert forall|path: Seq<usize>| !s.wait_cycle(walk[0], path) by {
        if s.wait_cycle(walk[0], path) {
            let last = walk.len() - 1;
            if path.len() - 1 <= last {
                let end = path.len() - 1;
                lemma_chains_agree(s, walk, path, end);
                assert(walk.drop_last()[end] == walk.drop_last()[0]);
            } else {
                lemma_chains_agree(s, walk, path, last);
                assert(s.linked(path, last));
            }
        }
    }
}

/// A chain that runs into a loop past its first thread never comes back to
/// that thread.
proof fn lemma_no_return(s: SyncState, walk: Seq<usize>, k: int, path: Seq<usize>)
    requires
        s.wait_chain(walk),
        walk.drop_last().no_duplicates(),
        0 < k < walk.len() - 1,
        walk[k] == walk.last(),
    ensures
        !s.wait_cycle(walk[0], path),
    decreases path.len(),
{
    if s.wait_cycle(walk[0], path) {
        let last = walk.len() - 1;
        if path.len() - 1 <= last {
            let end = path.len() - 1;
            lemma_chains_agree(s, walk, path, end);
            assert(walk[end] == walk[0]);
            let place = if end == last {
                k
            } else {
                end
            };
            assert(walk.drop_last()[place] == walk.drop_last()[0]);
        } else {
            lemma_chains_agree(s, walk, path, k);
            lemma_chains_agree(s, walk, path, last);
            let shorter = path.subrange(0, k + 1) + path.subrange(last + 1, path.len() as int);
            assert forall|i: int| 0 <= i < shorter.len() - 1 implies #[trigger] s.linked(
                shorter,
                i,
            ) by {
                if i < k {
                    assert(s.linked(path, i));
                } else {
                    assert(s.linked(path, i - k + last));
                }
            }
            lemma_no_return(s, walk, k, shorter);
        }
    }
}

/// Grows the mutex tables until they cover thread `tid` and mutex
/// `mutex_id`.
pub fn ensure_mutex_state(inner: &mut ProcessControlBlockInner, tid: usize, mutex_id: usize)
    requires
        tid < usize::MAX,
        mutex_id < usize::MAX,
    ensures
        final(inner)@ == old(inner)@.covering_mutex(tid as int, mutex_id as int),
        old(inner)@.wf() && mutex_id < old(inner)@.mutex_list.len() ==> final(inner)@.wf(),
{
    if inner.mutex_owners.len() <= mutex_id {
        inner.mutex_owners.resize(mutex_id + 1, None);
    }
    if inner.mutex_requests.len() <= tid {
        inner.mutex_requests.resize(tid + 1, None);
    }
}

/// The thread that owns the mutex that `tid` waits for.
fn awaited_owner(inner: &ProcessControlBlockInner, tid: usize) -> (owner: Option<usize>)
    ensures
        owner == inner@.awaited_owner(tid),
{
    if tid < inner.mutex_requests.len() {
        if let Some(mutex_id) = inner.mutex_requests[tid] {
            if mutex_id < inner.mutex_owners.len() {
                return inner.mutex_owners[mutex_id];
            }
        }
    }
    None
}

/// Whether thread `start_tid` waits for itself through a chain of mutexes,
/// each owned by the thread that waits for the next.
pub fn mutex_deadlocked(inner: &ProcessControlBlockInner, start_tid: usize) -> (deadlocked: bool)
    requires
        start_tid < usize::MAX,
    ensures
        deadlocked == inner@.in_wait_cycle(start_tid),
{
    let n: usize = if inner.mutex_requests.len() > start_tid + 1 {
        inner.mutex_requests.len()
    } else {
        start_tid + 1
    };
    let mut seen: Vec<bool> = vec![false; n];
    let mut tid: usize = start_tid;
    let ghost mut walk: Seq<usize> = seq![start_tid];
    loop
        invariant
            n >= inner.mutex_requests.len(),
            seen.len() == n,
            start_tid < n,
            inner@.wait_chain(walk),
            walk[0] == start_tid,
            walk.last() == tid,
            walk.drop_last().no_duplicates(),
            forall|i: int|
                0 <= i < walk.len() - 1 ==> (#[trigger] walk[i]) < n && seen[walk[i] as int],
            forall|t: usize| t < n && #[trigger] seen[t as int] ==> walk.drop_last().contains(t),
        decreases unset(seen@),
    {
        if tid >= seen.len() {
            proof {
                law_ended_chain_no_cycle(inner@, walk);
            }
            return false;
        }
        if seen[tid] {
            proof {
                if tid == start_tid {
                    assert(inner@.wait_cycle(start_tid, walk));
                } else {
                    let k = choose|k: int|
                        0 <= k < walk.drop_last().len() && walk.drop_last()[k] == tid;
                    assert forall|path: Seq<usize>| !inner@.wait_cycle(start_tid, path) by {
                        lemma_no_return(inner@, walk, k, path);
                    }
                }
            }
            return tid == start_tid;
        }
        proof {
            lemma_unset_update(seen@, tid as int);
            assert forall|i: int, j: int| 0 <= i < j < walk.len() implies walk[i] != walk[j] by {
                if j < walk.len() - 1 {
                    assert(walk.drop_last()[i] != walk.drop_last()[j]);
                }
            }
        }
        seen.set(tid, true);
        let ghost before = walk;
        tid = match awaited_owner(inner, tid) {
            Some(owner) => owner,
            None => {
                proof {
                    law_ended_chain_no_cycle(inner@, walk);
                }
                return false;
            },
        };
        proof {
            walk = before.push(tid);
            assert(walk.drop_last() =~= before);
            assert forall|i: int| 0 <= i < walk.len() - 1 implies #[trigger] inner@.linked(
                walk,
                i,
            ) by {
                if i < before.len() - 1 {
                    assert(inner@.linked(before, i));
                }
            }
        }
    }
}

/// Makes a mutex, blocking or spinning, in the first free slot and returns
/// the slot.
pub fn sys_mutex_create(inner: &mut ProcessControlBlockInner, blocking: bool) -> (ret: isize)
    ensures
        is_next_slot(old(inner)@.mutex_list, slot_of(ret)),
        old(inner)@.mutex_list.len() <= isize::MAX ==> ret == slot_of(ret),
        final(inner)@ == old(inner)@.with_mutex(
            slot_of(ret),
            if blocking {
                MutexKind::Blocking
            } else {
                MutexKind::Spin
            },
        ),
        old(inner)@.wf() ==> final(inner)@.wf(),
{
    let kind: MutexKind = if !blocking {
        MutexKind::Spin
    } else {
        MutexKind::Blocking
    };
    let id: usize = next_slot(&inner.mutex_list);
    if id < inner.mutex_list.len() {
        inner.mutex_list.set(id, Some(kind));
        if inner.mutex_owners.len() <= id {
            inner.mutex_owners.resize(id + 1, None);
        }
    } else {
        inner.mutex_list.push(Some(kind));
        inner.mutex_owners.push(None);
    }
    to_signed(id)
}

/// Asks for mutex `mutex_id` on behalf of thread `tid`.
///
/// With detection on, a request after which the thread would wait for itself
/// is refused with [`DEADLOCK`].
pub fn sys_mutex_lock(inner: &mut ProcessControlBlockInner, tid: usize, mutex_id: usize) -> (step:
    Step)
    requires
        has_slot(old(inner)@.mutex_list, mutex_id as int),
        old(inner)@.deadlock_detect ==> tid < usize::MAX,
    ensures
        step == (if old(inner)@.lock_refused(tid, mutex_id) {
            Step::Return(DEADLOCK)
        } else {
            Step::CallThenReturn(KernelCall::LockMutex { mutex_id }, 0)
        }),
        final(inner)@ == old(inner)@.after_mutex_lock(tid, mutex_id),
        old(inner)@.wf() ==> final(inner)@.wf(),
{
    if inner.deadlock_detect {
        assert(mutex_id < inner.mutex_list.len());
        ensure_mutex_state(inner, tid, mutex_id);
        let ghost waiting = inner@.with_mutex_request(tid as int, Some(mutex_id));
        if let Some(owner) = inner.mutex_owners[mutex_id] {
            inner.mutex_requests.set(tid, Some(mutex_id));
            assert(inner@ =~= waiting);
            if owner == tid || mutex_deadlocked(inner, tid) {
                proof {
                    if owner == tid {
                        let path = seq![tid, tid];
                        assert(waiting.linked(path, 0));
                        assert(waiting.wait_cycle(tid, path));
                    }
                }
                inner.mutex_requests.set(tid, None);
                return Step::Return(DEADLOCK);
            }
        } else {
            proof {
                law_ended_chain_no_cycle(waiting, seq![tid]);
            }
            inner.mutex_owners.set(mutex_id, Some(tid));
        }
    }
    Step::CallThenReturn(KernelCall::LockMutex { mutex_id }, 0)
}

/// A release of mutex `mutex_id` by thread `tid` that the kernel is to carry
/// out: it unlocks the mutex and replies with the thread that it woke, if any.
#[derive(Clone, Copy, Debug, PartialEq, Eq, Structural)]
pub struct MutexRelease {
    pub tid: usize,
    pub mutex_id: usize,
    /// Whether detection was on when the release began.
    pub detect: bool,
}

/// Begins to release mutex `mutex_id` on behalf of thread `tid`.
pub fn sys_mutex_unlock(
    inner: &mut ProcessControlBlockInner,
    tid: usize,
    mutex_id: usize,
) -> (release: MutexRelease)
    requires
        has_slot(old(inner)@.mutex_list, mutex_id as int),
        tid < usize::MAX,
    ensures
        release == (MutexRelease { tid, mutex_id, detect: old(inner)@.deadlock_detect }),
        final(inner)@ == old(inner)@.covering_mutex(tid as int, mutex_id as int),
        old(inner)@.wf() ==> final(inner)@.wf(),
{
    let detect: bool = inner.deadlock_detect;
    assert(mutex_id < inner.mutex_list.len());
    ensure_mutex_state(inner, tid, mutex_id);
    MutexRelease { tid, mutex_id, detect }
}

impl MutexRelease {
    /// Whether the release passes the mutex on: it is recorded, and its
    /// thread is recorded as the owner.
    pub fn passes_on(&self, inner: &ProcessControlBlockInner) -> (passes: bool)
        ensures
            passes == (self.detect && inner@.owner_of(self.mutex_id as int) == Some(self.tid)),
    {
        if self.detect && self.mutex_id < inner.mutex_owners.len() {
            match inner.mutex_owners[self.mutex_id] {
                Some(owner) => owner == self.tid,
                None => false,
            }
        } else {
            false
        }
    }

    /// Records the release once the kernel has unlocked the mutex and woken
    /// `waking_tid`, and returns the value of the system call.
    pub fn finish(self, inner: &mut ProcessControlBlockInner, waking_tid: Option<usize>) -> (ret:
        isize)
        requires
            self.detect ==> self.tid < usize::MAX && self.mutex_id < usize::MAX,
            self.detect && old(inner)@.owner_of(self.mutex_id as int) == Some(self.tid)
                && waking_tid is Some ==> waking_tid->0 < usize::MAX,
        ensures
            ret == 0,
            final(inner)@ == if self.detect {
                old(inner)@.after_mutex_release(self.tid, self.mutex_id, waking_tid)
            } else {
                old(inner)@
            },
            old(inner)@.wf() && self.mutex_id < old(inner)@.mutex_list.len()
                ==> final(inner)@.wf(),
    {
        if self.detect {
            ensure_mutex_state(inner, self.tid, self.mutex_id);
            if self.passes_on(inner) {
                if let Some(waking) = waking_tid {
                    ensure_mutex_state(inner, waking, self.mutex_id);
                    inner.mutex_owners.set(self.mutex_id, Some(waking));
                    inner.mutex_requests.set(waking, None);
                } else {
                    inner.mutex_owners.set(self.mutex_id, None);
                }
            }
        }
        0
    }
}

/// Switches deadlock detection on, or off where `enabled` is zero.
pub fn sys_enable_deadlock_detect(inner: &mut ProcessControlBlockInner, enabled: usize) -> (ret:
    isize)
    ensures
        ret == 0,
        final(inner)@ == (SyncState { deadlock_detect: enabled != 0, ..old(inner)@ }),
        old(inner)@.wf() ==> final(inner)@.wf(),
{
    inner.deadlock_detect = enabled != 0;
    0
}

} // verus!
