//! What every call keeps.

use vstd::prelude::*;

use crate::mutex_laws::{
    law_covering_mutex, law_create_keeps_mutex_deadlock_free, law_lock_keeps_deadlock_free,
    law_mutex_frame, law_release_keeps_deadlock_free,
};
use crate::semaphore::lemma_covering_wf;
use crate::semaphore_laws::{
    law_covering_semaphore, law_create_keeps_semaphore_deadlock_free,
    law_create_semaphore_keeps_wf, law_down_keeps_deadlock_free, law_down_keeps_wf,
    law_semaphore_frame, law_up_keeps_deadlock_free, law_up_keeps_wf,
};
use crate::state::{has_slot, is_next_slot, with_slot, Condvar, MutexKind, SyncState};

verus! {

/// A change that a system call makes to the synchronisation state.
pub enum Change {
    SwitchDetection { on: bool },
    CreateMutex { id: int, kind: MutexKind },
    Lock { tid: usize, mutex_id: usize },
    BeginUnlock { tid: usize, mutex_id: usize },
    FinishUnlock { tid: usize, mutex_id: usize, detect: bool, waking_tid: Option<usize> },
    CreateSemaphore { id: int, res_count: usize },
    Down { tid: usize, sem_id: usize },
    BeginUp { tid: usize, sem_id: usize },
    FinishUp { tid: usize, sem_id: usize, detect: bool, waking_tid: Option<usize> },
    CreateCondvar { id: int },
}

impl SyncState {
    /// No thread waits for itself through mutexes, and none is stuck on
    /// semaphores.
    pub open spec fn deadlock_free(self) -> bool {
        self.mutex_deadlock_free() && self.semaphore_deadlock_free()
    }

    /// The state after a change.
    pub open spec fn after(self, change: Change) -> SyncState {
        match change {
            Change::SwitchDetection { on } => SyncState { deadlock_detect: on, ..self },
            Change::CreateMutex { id, kind } => self.with_mutex(id, kind),
            Change::Lock { tid, mutex_id } => self.after_mutex_lock(tid, mutex_id),
            Change::BeginUnlock { tid, mutex_id } => self.covering_mutex(
                tid as int,
                mutex_id as int,
            ),
            Change::FinishUnlock { tid, mutex_id, detect, waking_tid } => if detect {
                self.after_mutex_release(tid, mutex_id, waking_tid)
            } else {
                self
            },
            Change::CreateSemaphore { id, res_count } => self.with_semaphore(id, res_count),
            Change::Down { tid, sem_id } => self.after_semaphore_down(tid, sem_id),
            Change::BeginUp { tid, sem_id } => if self.deadlock_detect {
                self.covering_semaphore(tid as int, sem_id as int)
            } else {
                self
            },
            Change::FinishUp { tid, sem_id, detect, waking_tid } => if detect {
                self.after_semaphore_release(tid, sem_id, waking_tid)
            } else {
                self
            },
            Change::CreateCondvar { id } => SyncState {
                condvar_list: with_slot(self.condvar_list, id, Condvar),
                ..self
            },
        }
    }

    /// The change is one that the tables are made for: it names objects that
    /// exist, and where it is recorded its counts fit, the calling thread has
    /// no recorded wait, and a thread that is woken by a semaphore waited for
    /// that unit alone.
    pub open spec fn allows(self, change: Change) -> bool {
        match change {
            Change::SwitchDetection { on } => true,
            Change::CreateMutex { id, kind } => is_next_slot(self.mutex_list, id),
            Change::Lock { tid, mutex_id } => {
                &&& mutex_id < self.mutex_list.len()
                &&& self.deadlock_detect ==> self.awaited_by(tid as int) is None
            },
            Change::BeginUnlock { tid, mutex_id } => mutex_id < self.mutex_list.len(),
            Change::FinishUnlock { tid, mutex_id, detect, waking_tid } => mutex_id
                < self.mutex_list.len(),
            Change::CreateSemaphore { id, res_count } => is_next_slot(self.semaphore_list, id),
            Change::Down { tid, sem_id } => self.deadlock_detect ==> {
                &&& has_slot(self.semaphore_list, sem_id as int)
                &&& self.can_record_down(tid, sem_id)
                &&& self.wants_nothing(tid as int)
            },
            Change::BeginUp { tid, sem_id } => true,
            Change::FinishUp { tid, sem_id, detect, waking_tid } => detect ==> {
                &&& self.can_record_release(tid, sem_id, waking_tid)
                &&& self.wants_nothing(tid as int)
                &&& waking_tid matches Some(waking) ==> forall|x: int| #[trigger]
                    self.wanted(waking as int, x) <= if x == sem_id {
                        1int
                    } else {
                        0
                    }
            },
            Change::CreateCondvar { id } => is_next_slot(self.condvar_list, id),
        }
    }

    /// The state after the changes, one after another.
    pub open spec fn after_all(self, changes: Seq<Change>) -> SyncState
        decreases changes.len(),
    {
        if changes.len() == 0 {
            self
        } else {
            self.after_all(changes.drop_last()).after(changes.last())
        }
    }
}

/// Every change that the tables are made for keeps them in shape and free of
/// deadlocks.
pub proof fn law_change_keeps_deadlock_free(s: SyncState, change: Change)
    requires
        s.wf(),
        s.deadlock_free(),
        s.allows(change),
    ensures
        s.after(change).wf(),
        s.after(change).deadlock_free(),
{
    let new = s.after(change);
    match change {
        Change::SwitchDetection { on } => {
            law_mutex_frame(s, new);
            law_semaphore_frame(s, new);
        },
        Change::CreateMutex { id, kind } => {
            law_create_keeps_mutex_deadlock_free(s, id, kind);
            law_semaphore_frame(s, new);
        },
        Change::Lock { tid, mutex_id } => {
            law_lock_keeps_deadlock_free(s, tid, mutex_id);
            law_semaphore_frame(s, new);
        },
        Change::BeginUnlock { tid, mutex_id } => {
            law_covering_mutex(s, tid as int, mutex_id as int);
            law_mutex_frame(s, new);
            law_semaphore_frame(s, new);
        },
        Change::FinishUnlock { tid, mutex_id, detect, waking_tid } => {
            law_release_keeps_deadlock_free(s, tid, mutex_id, waking_tid);
            law_semaphore_frame(s, new);
        },
        Change::CreateSemaphore { id, res_count } => {
            law_create_semaphore_keeps_wf(s, id, res_count);
            law_create_keeps_semaphore_deadlock_free(s, id, res_count);
            law_mutex_frame(s, new);
        },
        Change::Down { tid, sem_id } => {
            law_down_keeps_wf(s, tid, sem_id);
            law_down_keeps_deadlock_free(s, tid, sem_id);
            law_mutex_frame(s, new);
        },
        Change::BeginUp { tid, sem_id } => {
            lemma_covering_wf(s, tid as int, sem_id as int);
            law_covering_semaphore(s, tid as int, sem_id as int);
            law_mutex_frame(s, new);
        },
        Change::FinishUp { tid, sem_id, detect, waking_tid } => {
            if detect {
                law_up_keeps_wf(s, tid, sem_id, waking_tid);
                law_up_keeps_deadlock_free(s, tid, sem_id, waking_tid);
                law_mutex_frame(s, new);
            }
        },
        Change::CreateCondvar { id } => {
            law_mutex_frame(s, new);
            law_semaphore_frame(s, new);
        },
    }
}

/// A process whose tables are free of deadlocks stays so, in whatever order
/// its threads make calls for objects that exist, as long as counts do not
/// overflow and two things hold of the calls that are recorded: the thread
/// that locks a mutex, or takes or gives back a unit of a semaphore, has no
/// recorded wait for an object of that sort; and a thread that is woken by a
/// semaphore has a recorded wait for that unit at most.
pub proof fn law_process_stays_deadlock_free(s: SyncState, changes: Seq<Change>)
    requires
        s.wf(),
        s.deadlock_free(),
        forall|i: int|
            0 <= i < changes.len() ==> s.after_all(changes.take(i)).allows(#[trigger] changes[i]),
    ensures
        s.after_all(changes).wf(),
        s.after_all(changes).deadlock_free(),
    decreases changes.len(),
{
    if changes.len() > 0 {
        let before = changes.drop_last();
        assert forall|i: int| 0 <= i < before.len() implies s.after_all(before.take(i)).allows(
            #[trigger] before[i],
        ) by {
            assert(before.take(i) =~= changes.take(i));
            assert(s.after_all(changes.take(i)).allows(changes[i]));
        }
        law_process_stays_deadlock_free(s, before);
        assert(changes.take(changes.len() - 1) =~= before);
        assert(s.after_all(before).allows(changes[changes.len() - 1]));
        law_change_keeps_deadlock_free(s.after_all(before), changes.last());
    }
}

} // verus!
