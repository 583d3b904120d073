//! When a thread waits for itself, and when a lock is refused: told by the
//! chain of owners, of any length, that the asking thread would wait for.

use vstd::prelude::*;

use crate::mutex_laws::{law_covering_mutex, law_cycle_takes_in_successor};
use crate::state::SyncState;

verus! {

/// A path of threads that leads back to its first thread, each thread waiting
/// for a mutex that the next one owns, puts that thread in a cycle.
pub proof fn law_path_back_is_cycle(s: SyncState, path: Seq<usize>)
    requires
        path.len() >= 2,
        path[0] == path[path.len() - 1],
        forall|i: int|
            0 <= i < path.len() - 1 ==> {
                &&& s.awaited_by(#[trigger] path[i] as int) is Some
                &&& s.owner_of(s.awaited_by(path[i] as int)->0 as int) == Some(path[i + 1])
            },
    ensures
        s.in_wait_cycle(path[0]),
{
    assert forall|i: int| 0 <= i < path.len() - 1 implies #[trigger] s.linked(path, i) by {
        assert(s.awaited_by(path[i] as int) is Some);
    }
    assert(s.wait_cycle(path[0], path));
}

/// A thread in a cycle has a path of waits back to itself.
pub proof fn law_cycle_has_path_back(s: SyncState, t: usize) -> (path: Seq<usize>)
    requires
        s.in_wait_cycle(t),
    ensures
        path.len() >= 2,
        path[0] == t,
        path[path.len() - 1] == t,
        forall|i: int|
            0 <= i < path.len() - 1 ==> {
                &&& s.awaited_by(#[trigger] path[i] as int) is Some
                &&& s.owner_of(s.awaited_by(path[i] as int)->0 as int) == Some(path[i + 1])
            },
{
    let path = choose|path: Seq<usize>| s.wait_cycle(t, path);
    assert forall|i: int| 0 <= i < path.len() - 1 implies {
        &&& s.awaited_by(#[trigger] path[i] as int) is Some
        &&& s.owner_of(s.awaited_by(path[i] as int)->0 as int) == Some(path[i + 1])
    } by {
        assert(s.linked(path, i));
    }
    path
}

/// All threads along a path of waits are in a cycle if the first one is.
proof fn lemma_cycle_takes_in_path(s: SyncState, path: Seq<usize>, n: int)
    requires
        0 <= n < path.len(),
        s.in_wait_cycle(path[0]),
        forall|i: int|
            0 <= i < path.len() - 1 ==> {
                &&& s.awaited_by(#[trigger] path[i] as int) is Some
                &&& s.owner_of(s.awaited_by(path[i] as int)->0 as int) == Some(path[i + 1])
            },
    ensures
        s.in_wait_cycle(path[n]),
    decreases n,
{
    if n > 0 {
        lemma_cycle_takes_in_path(s, path, n - 1);
        assert(s.awaited_by(path[n - 1] as int) is Some);
        law_cycle_takes_in_successor(s, path[n - 1], path[n]);
    }
}

/// A path of waits, of any length, that ends at a thread which waits for
/// nothing, or for a mutex that nobody owns, starts at a thread that is in no
/// cycle.
pub proof fn law_path_that_ends_is_no_cycle(s: SyncState, path: Seq<usize>)
    requires
        path.len() >= 1,
        forall|i: int|
            0 <= i < path.len() - 1 ==> {
                &&& s.awaited_by(#[trigger] path[i] as int) is Some
                &&& s.owner_of(s.awaited_by(path[i] as int)->0 as int) == Some(path[i + 1])
            },
        s.awaited_by(path[path.len() - 1] as int) is None || s.owner_of(
            s.awaited_by(path[path.len() - 1] as int)->0 as int,
        ) is None,
    ensures
        !s.in_wait_cycle(path[0]),
{
    if s.in_wait_cycle(path[0]) {
        let last = path[path.len() - 1];
        lemma_cycle_takes_in_path(s, path, path.len() - 1);
        let back = law_cycle_has_path_back(s, last);
        assert(s.awaited_by(back[0] as int) is Some);
    }
}

/// The threads of a path that starts where `path` does stay among the threads
/// of `path` past its first one, where the last of these is one of them.
proof fn lemma_stays_on_path(s: SyncState, path: Seq<usize>, k: int, other: Seq<usize>, n: int)
    requires
        0 < k < path.len() - 1,
        path[k] == path[path.len() - 1],
        forall|i: int|
            0 <= i < path.len() - 1 ==> {
                &&& s.awaited_by(#[trigger] path[i] as int) is Some
                &&& s.owner_of(s.awaited_by(path[i] as int)->0 as int) == Some(path[i + 1])
            },
        other[0] == path[0],
        forall|i: int|
            0 <= i < other.len() - 1 ==> {
                &&& s.awaited_by(#[trigger] other[i] as int) is Some
                &&& s.owner_of(s.awaited_by(other[i] as int)->0 as int) == Some(other[i + 1])
            },
        0 < n < other.len(),
    ensures
        exists|j: int| 0 < j < path.len() && #[trigger] path[j] == other[n],
    decreases n,
{
    assert(s.owner_of(s.awaited_by(other[n - 1] as int)->0 as int) == Some(other[n]));
    if n == 1 {
        assert(s.owner_of(s.awaited_by(path[0] as int)->0 as int) == Some(path[1]));
        assert(path[1] == other[n]);
    } else {
        lemma_stays_on_path(s, path, k, other, n - 1);
        let j = choose|j: int| 0 < j < path.len() && #[trigger] path[j] == other[n - 1];
        let at = if j == path.len() - 1 {
            k
        } else {
            j
        };
        assert(path[at] == other[n - 1]);
        assert(s.owner_of(s.awaited_by(path[at] as int)->0 as int) == Some(path[at + 1]));
        assert(path[at + 1] == other[n]);
    }
}

/// A path of waits that runs into a cycle of other threads starts at a thread
/// that is in no cycle.
pub proof fn law_path_into_others_cycle_is_no_cycle(s: SyncState, path: Seq<usize>, k: int)
    requires
        0 < k < path.len() - 1,
        path[k] == path[path.len() - 1],
        forall|i: int|
            0 <= i < path.len() - 1 ==> {
                &&& s.awaited_by(#[trigger] path[i] as int) is Some
                &&& s.owner_of(s.awaited_by(path[i] as int)->0 as int) == Some(path[i + 1])
            },
        forall|i: int| 0 < i < path.len() ==> #[trigger] path[i] != path[0],
    ensures
        !s.in_wait_cycle(path[0]),
{
    if s.in_wait_cycle(path[0]) {
        let back = law_cycle_has_path_back(s, path[0]);
        lemma_stays_on_path(s, path, k, back, back.len() - 1);
    }
}

/// The path of a thread that asks for a mutex: the thread itself, and then the
/// chain of owners that it would wait for.
proof fn lemma_asking_path(s: SyncState, tid: usize, mutex_id: usize, chain: Seq<usize>, i: int)
    requires
        chain.len() >= 1,
        s.owner_of(mutex_id as int) == Some(chain[0]),
        forall|j: int|
            0 <= j < chain.len() - 1 ==> {
                &&& s.awaited_by(#[trigger] chain[j] as int) is Some
                &&& s.owner_of(s.awaited_by(chain[j] as int)->0 as int) == Some(chain[j + 1])
            },
        forall|j: int| 0 <= j < chain.len() - 1 ==> #[trigger] chain[j] != tid,
        0 <= i < chain.len(),
    ensures
        ({
            let waiting = s.covering_mutex(tid as int, mutex_id as int).with_mutex_request(
                tid as int,
                Some(mutex_id),
            );
            let path = seq![tid] + chain;
            &&& waiting.awaited_by(path[i] as int) is Some
            &&& waiting.owner_of(waiting.awaited_by(path[i] as int)->0 as int) == Some(path[i + 1])
        }),
{
    law_covering_mutex(s, tid as int, mutex_id as int);
    let path = seq![tid] + chain;
    if i > 0 {
        assert(path[i] == chain[i - 1]);
        assert(s.awaited_by(chain[i - 1] as int) is Some);
    }
    assert(path[i + 1] == chain[i]);
}

/// With detection on a lock is refused where the chain of owners, from the one
/// of the mutex that is asked for, leads to the asking thread: each thread of
/// the chain waits for a mutex that the next one owns.
pub proof fn law_chain_back_refused(s: SyncState, tid: usize, mutex_id: usize, chain: Seq<usize>)
    requires
        s.deadlock_detect,
        chain.len() >= 1,
        s.owner_of(mutex_id as int) == Some(chain[0]),
        forall|i: int|
            0 <= i < chain.len() - 1 ==> {
                &&& s.awaited_by(#[trigger] chain[i] as int) is Some
                &&& s.owner_of(s.awaited_by(chain[i] as int)->0 as int) == Some(chain[i + 1])
            },
        chain[chain.len() - 1] == tid,
    ensures
        s.lock_refused(tid, mutex_id),
    decreases chain.len(),
{
    if exists|k: int| 0 <= k < chain.len() - 1 && #[trigger] chain[k] == tid {
        let k = choose|k: int| 0 <= k < chain.len() - 1 && #[trigger] chain[k] == tid;
        let shorter = chain.take(k + 1);
        assert forall|i: int| 0 <= i < shorter.len() - 1 implies {
            &&& s.awaited_by(#[trigger] shorter[i] as int) is Some
            &&& s.owner_of(s.awaited_by(shorter[i] as int)->0 as int) == Some(shorter[i + 1])
        } by {
            assert(s.awaited_by(chain[i] as int) is Some);
        }
        law_chain_back_refused(s, tid, mutex_id, shorter);
    } else {
        let waiting = s.covering_mutex(tid as int, mutex_id as int).with_mutex_request(
            tid as int,
            Some(mutex_id),
        );
        let path = seq![tid] + chain;
        assert forall|i: int| 0 <= i < path.len() - 1 implies {
            &&& waiting.awaited_by(#[trigger] path[i] as int) is Some
            &&& waiting.owner_of(waiting.awaited_by(path[i] as int)->0 as int) == Some(path[i + 1])
        } by {
            lemma_asking_path(s, tid, mutex_id, chain, i);
        }
        assert(path[path.len() - 1] == chain[chain.len() - 1]);
        law_path_back_is_cycle(waiting, path);
    }
}

/// A lock is not refused where the chain of owners, however long, ends at a
/// thread that waits for nothing, or for a mutex that nobody owns, without
/// passing through the asking thread. With detection on the thread is then
/// recorded as waiting, and the owner stays.
pub proof fn law_chain_that_ends_admitted(
    s: SyncState,
    tid: usize,
    mutex_id: usize,
    chain: Seq<usize>,
)
    requires
        chain.len() >= 1,
        s.owner_of(mutex_id as int) == Some(chain[0]),
        forall|i: int|
            0 <= i < chain.len() - 1 ==> {
                &&& s.awaited_by(#[trigger] chain[i] as int) is Some
                &&& s.owner_of(s.awaited_by(chain[i] as int)->0 as int) == Some(chain[i + 1])
            },
        s.awaited_by(chain[chain.len() - 1] as int) is None || s.owner_of(
            s.awaited_by(chain[chain.len() - 1] as int)->0 as int,
        ) is None,
        forall|i: int| 0 <= i < chain.len() ==> #[trigger] chain[i] != tid,
    ensures
        !s.lock_refused(tid, mutex_id),
        s.deadlock_detect ==> s.after_mutex_lock(tid, mutex_id).awaited_by(tid as int) == Some(
            mutex_id,
        ),
        s.after_mutex_lock(tid, mutex_id).owner_of(mutex_id as int) == Some(chain[0]),
{
    let waiting = s.covering_mutex(tid as int, mutex_id as int).with_mutex_request(
        tid as int,
        Some(mutex_id),
    );
    let path = seq![tid] + chain;
    law_covering_mutex(s, tid as int, mutex_id as int);
    assert forall|i: int| 0 <= i < path.len() - 1 implies {
        &&& waiting.awaited_by(#[trigger] path[i] as int) is Some
        &&& waiting.owner_of(waiting.awaited_by(path[i] as int)->0 as int) == Some(path[i + 1])
    } by {
        lemma_asking_path(s, tid, mutex_id, chain, i);
    }
    assert(path[path.len() - 1] == chain[chain.len() - 1]);
    assert(chain[chain.len() - 1] != tid);
    law_path_that_ends_is_no_cycle(waiting, path);
}

/// A lock is not refused where the chain of owners runs into a cycle of other
/// threads. With detection on the thread is then recorded as waiting.
pub proof fn law_chain_into_others_cycle_admitted(
    s: SyncState,
    tid: usize,
    mutex_id: usize,
    chain: Seq<usize>,
    k: int,
)
    requires
        0 <= k < chain.len() - 1,
        chain[k] == chain[chain.len() - 1],
        s.owner_of(mutex_id as int) == Some(chain[0]),
        forall|i: int|
            0 <= i < chain.len() - 1 ==> {
                &&& s.awaited_by(#[trigger] chain[i] as int) is Some
                &&& s.owner_of(s.awaited_by(chain[i] as int)->0 as int) == Some(chain[i + 1])
            },
        forall|i: int| 0 <= i < chain.len() ==> #[trigger] chain[i] != tid,
    ensures
        !s.lock_refused(tid, mutex_id),
        s.deadlock_detect ==> s.after_mutex_lock(tid, mutex_id).awaited_by(tid as int) == Some(
            mutex_id,
        ),
        s.after_mutex_lock(tid, mutex_id).owner_of(mutex_id as int) == Some(chain[0]),
{
    let waiting = s.covering_mutex(tid as int, mutex_id as int).with_mutex_request(
        tid as int,
        Some(mutex_id),
    );
    let path = seq![tid] + chain;
    law_covering_mutex(s, tid as int, mutex_id as int);
    assert forall|i: int| 0 <= i < path.len() - 1 implies {
        &&& waiting.awaited_by(#[trigger] path[i] as int) is Some
        &&& waiting.owner_of(waiting.awaited_by(path[i] as int)->0 as int) == Some(path[i + 1])
    } by {
        lemma_asking_path(s, tid, mutex_id, chain, i);
    }
    assert(path[k + 1] == chain[k]);
    assert(path[path.len() - 1] == chain[chain.len() - 1]);
    assert forall|i: int| 0 < i < path.len() implies #[trigger] path[i] != path[0] by {
        assert(path[i] == chain[i - 1]);
    }
    law_path_into_others_cycle_is_no_cycle(waiting, path, k + 1);
}

/// A refused lock shows a chain of owners from the mutex that was asked for
/// to the asking thread.
pub proof fn law_refused_lock_shows_chain(s: SyncState, tid: usize, mutex_id: usize) -> (chain: Seq<
    usize,
>)
    requires
        s.lock_refused(tid, mutex_id),
    ensures
        s.deadlock_detect,
        chain.len() >= 1,
        s.owner_of(mutex_id as int) == Some(chain[0]),
        chain[chain.len() - 1] == tid,
        forall|i: int|
            0 <= i < chain.len() - 1 ==> {
                &&& s.awaited_by(#[trigger] chain[i] as int) is Some
                &&& s.owner_of(s.awaited_by(chain[i] as int)->0 as int) == Some(chain[i + 1])
            },
{
    let waiting = s.covering_mutex(tid as int, mutex_id as int).with_mutex_request(
        tid as int,
        Some(mutex_id),
    );
    law_covering_mutex(s, tid as int, mutex_id as int);
    let path = law_cycle_has_path_back(waiting, tid);
    lemma_chain_to_asker(s, tid, mutex_id, path)
}

/// The part of a path up to its first return to the asking thread does not
/// rest on the request of that thread.
proof fn lemma_chain_to_asker(s: SyncState, tid: usize, mutex_id: usize, path: Seq<usize>) -> (chain:
    Seq<usize>)
    requires
        ({
            let waiting = s.covering_mutex(tid as int, mutex_id as int).with_mutex_request(
                tid as int,
                Some(mutex_id),
            );
            &&& path.len() >= 2
            &&& path[0] == tid
            &&& path[path.len() - 1] == tid
            &&& forall|i: int|
                0 <= i < path.len() - 1 ==> {
                    &&& waiting.awaited_by(#[trigger] path[i] as int) is Some
                    &&& waiting.owner_of(waiting.awaited_by(path[i] as int)->0 as int) == Some(
                        path[i + 1],
                    )
                }
        }),
    ensures
        chain.len() >= 1,
        s.owner_of(mutex_id as int) == Some(chain[0]),
        chain[chain.len() - 1] == tid,
        forall|i: int|
            0 <= i < chain.len() - 1 ==> {
                &&& s.awaited_by(#[trigger] chain[i] as int) is Some
                &&& s.owner_of(s.awaited_by(chain[i] as int)->0 as int) == Some(chain[i + 1])
            },
    decreases path.len(),
{
    let waiting = s.covering_mutex(tid as int, mutex_id as int).with_mutex_request(
        tid as int,
        Some(mutex_id),
    );
    law_covering_mutex(s, tid as int, mutex_id as int);
    if exists|k: int| 0 < k < path.len() - 1 && #[trigger] path[k] == tid {
        let k = choose|k: int| 0 < k < path.len() - 1 && #[trigger] path[k] == tid;
        let shorter = path.take(k + 1);
        assert forall|i: int| 0 <= i < shorter.len() - 1 implies {
            &&& waiting.awaited_by(#[trigger] shorter[i] as int) is Some
            &&& waiting.owner_of(waiting.awaited_by(shorter[i] as int)->0 as int) == Some(
                shorter[i + 1],
            )
        } by {
            assert(waiting.awaited_by(path[i] as int) is Some);
        }
        lemma_chain_to_asker(s, tid, mutex_id, shorter)
    } else {
        let chain = path.skip(1);
        assert(waiting.awaited_by(path[0] as int) is Some);
        assert forall|i: int| 0 <= i < chain.len() - 1 implies {
            &&& s.awaited_by(#[trigger] chain[i] as int) is Some
            &&& s.owner_of(s.awaited_by(chain[i] as int)->0 as int) == Some(chain[i + 1])
        } by {
            assert(path[i + 1] != tid);
            assert(waiting.awaited_by(path[i + 1] as int) is Some);
        }
        chain
    }
}

} // verus!
