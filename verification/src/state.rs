//! The part of a process that its synchronisation calls read and write.

use vstd::prelude::*;

use crate::mutex_laws::law_no_waits_no_deadlock;
use crate::semaphore_laws::law_no_requests_no_deadlock;

verus! {

/// How a mutex lets a thread wait for it.
#[derive(Clone, Copy, Debug, PartialEq, Eq, Structural)]
pub enum MutexKind {
    /// The waiting thread gives up the processor and tries again.
    Spin,
    /// The waiting thread sleeps in the queue of the mutex.
    Blocking,
}

/// An occupied slot of the condition variable list.
#[derive(Clone, Copy, Debug, PartialEq, Eq, Structural)]
pub struct Condvar;

/// The synchronisation objects of a process and the tables from which
/// deadlocks are detected.
///
/// Threads are known by their `tid` and objects by their index in the list
/// of their sort. The tables grow on demand: an entry past the end of a table
/// means that nothing is owned, held or asked for.
#[derive(Debug, PartialEq, Eq)]
pub struct ProcessControlBlockInner {
    /// Number of thread slots of the process.
    pub task_slots: usize,
    /// Whether requests that would deadlock are refused.
    pub deadlock_detect: bool,
    /// The mutexes; a free slot is `None`.
    pub mutex_list: Vec<Option<MutexKind>>,
    /// By mutex: the thread that owns it.
    pub mutex_owners: Vec<Option<usize>>,
    /// By thread: the mutex that it waits for.
    pub mutex_requests: Vec<Option<usize>>,
    /// The semaphores, each with the count it was made with; a free slot is
    /// `None`.
    pub semaphore_list: Vec<Option<usize>>,
    /// By semaphore: the units that no thread holds.
    pub semaphore_available: Vec<usize>,
    /// By thread and semaphore: the units that the thread holds.
    pub semaphore_alloc: Vec<Vec<usize>>,
    /// By thread and semaphore: the units that the thread waits for.
    pub semaphore_request: Vec<Vec<usize>>,
    /// The condition variables; a free slot is `None`.
    pub condvar_list: Vec<Option<Condvar>>,
}

/// The mathematical value of a [`ProcessControlBlockInner`].
#[verifier::ext_equal]
pub struct SyncState {
    pub task_slots: nat,
    pub deadlock_detect: bool,
    pub mutex_list: Seq<Option<MutexKind>>,
    pub mutex_owners: Seq<Option<usize>>,
    pub mutex_requests: Seq<Option<usize>>,
    pub semaphore_list: Seq<Option<usize>>,
    pub semaphore_available: Seq<usize>,
    pub semaphore_alloc: Seq<Seq<usize>>,
    pub semaphore_request: Seq<Seq<usize>>,
    pub condvar_list: Seq<Option<Condvar>>,
}

/// `s`, extended with copies of `v` until it has at least `n` elements.
pub open spec fn padded<T>(s: Seq<T>, n: int, v: T) -> Seq<T> {
    Seq::new(
        if s.len() >= n {
            s.len()
        } else {
            n as nat
        },
        |i: int|
            if i < s.len() {
                s[i]
            } else {
                v
            },
    )
}

/// The rows of a table, each as a sequence.
pub open spec fn rows(table: Seq<Vec<usize>>) -> Seq<Seq<usize>> {
    Seq::new(table.len(), |i: int| table[i]@)
}

/// The entry at row `t` and column `s`; zero where the table has none.
pub open spec fn cell(table: Seq<Seq<usize>>, t: int, s: int) -> int {
    if 0 <= t < table.len() && 0 <= s < table[t].len() {
        table[t][s] as int
    } else {
        0
    }
}

/// `table` with the entry at row `t` and column `s` set to `v`.
pub open spec fn with_cell(table: Seq<Seq<usize>>, t: int, s: int, v: int) -> Seq<Seq<usize>> {
    table.update(t, table[t].update(s, v as usize))
}

/// `list` with slot `id` occupied by `v`; `id` is a slot of the list or the
/// one that comes next.
pub open spec fn with_slot<T>(list: Seq<Option<T>>, id: int, v: T) -> Seq<Option<T>> {
    if id < list.len() {
        list.update(id, Some(v))
    } else {
        list.push(Some(v))
    }
}

/// `id` is the slot that a new object gets: the first free one, and where
/// none is free the one behind the last.
pub open spec fn is_next_slot<T>(list: Seq<Option<T>>, id: int) -> bool {
    &&& 0 <= id <= list.len()
    &&& id < list.len() ==> list[id] is None
    &&& forall|i: int| 0 <= i < id ==> (#[trigger] list[i]) is Some
}

/// The slot that a create call names by returning `ret`: the number that the
/// bits of `ret` have without a sign. No list that fits in memory is so long
/// that the two differ.
pub open spec fn slot_of(ret: isize) -> int {
    if ret >= 0 {
        ret as int
    } else {
        ret + usize::MAX + 1
    }
}

/// Slot `id` of `list` holds an object.
pub open spec fn has_slot<T>(list: Seq<Option<T>>, id: int) -> bool {
    0 <= id < list.len() && list[id] is Some
}

/// Whatever a thread waits for in `request` is in `list`.
pub open spec fn waits_exist(request: Seq<Seq<usize>>, list: Seq<Option<usize>>) -> bool {
    forall|t: int, x: int| #[trigger] cell(request, t, x) > 0 ==> has_slot(list, x)
}

impl SyncState {
    /// The thread that owns mutex `m`.
    pub open spec fn owner_of(self, m: int) -> Option<usize> {
        if 0 <= m < self.mutex_owners.len() {
            self.mutex_owners[m]
        } else {
            None
        }
    }

    /// The mutex that thread `t` waits for.
    pub open spec fn awaited_by(self, t: int) -> Option<usize> {
        if 0 <= t < self.mutex_requests.len() {
            self.mutex_requests[t]
        } else {
            None
        }
    }

    /// The units of semaphore `s` that thread `t` holds.
    pub open spec fn held(self, t: int, s: int) -> int {
        cell(self.semaphore_alloc, t, s)
    }

    /// The units of semaphore `s` that thread `t` waits for.
    pub open spec fn wanted(self, t: int, s: int) -> int {
        cell(self.semaphore_request, t, s)
    }

    /// The tables match the object lists and one another, and the semaphores
    /// that threads wait for exist.
    pub open spec fn wf(self) -> bool {
        &&& self.mutex_owners.len() == self.mutex_list.len()
        &&& self.semaphore_available.len() == self.semaphore_list.len()
        &&& self.semaphore_alloc.len() == self.semaphore_request.len()
        &&& waits_exist(self.semaphore_request, self.semaphore_list)
    }
}

impl View for ProcessControlBlockInner {
    type V = SyncState;

    open spec fn view(&self) -> SyncState {
        SyncState {
            task_slots: self.task_slots as nat,
            deadlock_detect: self.deadlock_detect,
            mutex_list: self.mutex_list@,
            mutex_owners: self.mutex_owners@,
            mutex_requests: self.mutex_requests@,
            semaphore_list: self.semaphore_list@,
            semaphore_available: self.semaphore_available@,
            semaphore_alloc: rows(self.semaphore_alloc@),
            semaphore_request: rows(self.semaphore_request@),
            condvar_list: self.condvar_list@,
        }
    }
}

impl ProcessControlBlockInner {
    /// A process with `task_slots` thread slots, no synchronisation objects
    /// and detection switched off.
    pub fn new(task_slots: usize) -> (inner: Self)
        ensures
            inner@.wf(),
            inner@.mutex_deadlock_free(),
            inner@.semaphore_deadlock_free(),
            inner@ == (SyncState {
                task_slots: task_slots as nat,
                deadlock_detect: false,
                mutex_list: Seq::empty(),
                mutex_owners: Seq::empty(),
                mutex_requests: Seq::empty(),
                semaphore_list: Seq::empty(),
                semaphore_available: Seq::empty(),
                semaphore_alloc: Seq::empty(),
                semaphore_request: Seq::empty(),
                condvar_list: Seq::empty(),
            }),
    {
        let inner = ProcessControlBlockInner {
            task_slots,
            deadlock_detect: false,
            mutex_list: Vec::new(),
            mutex_owners: Vec::new(),
            mutex_requests: Vec::new(),
            semaphore_list: Vec::new(),
            semaphore_available: Vec::new(),
            semaphore_alloc: Vec::new(),
            semaphore_request: Vec::new(),
            condvar_list: Vec::new(),
        };
        proof {
            law_no_waits_no_deadlock(inner@);
            law_no_requests_no_deadlock(inner@);
        }
        inner
    }
}

/// The slot for a new object of `list`.
pub(crate) fn next_slot<T>(list: &Vec<Option<T>>) -> (id: usize)
    ensures
        is_next_slot(list@, id as int),
{
    let mut id: usize = 0;
    while id < list.len() && list[id].is_some()
        invariant
            id <= list.len(),
            forall|i: int| 0 <= i < id ==> (#[trigger] list@[i]) is Some,
        decreases list.len() - id,
    {
        id += 1;
    }
    id
}

/// A list has one slot for a new object.
pub proof fn law_next_slot_unique<T>(list: Seq<Option<T>>, a: int, b: int)
    requires
        is_next_slot(list, a),
        is_next_slot(list, b),
    ensures
        a == b,
{
    if a < b {
        assert(list[a] is Some);
    } else if b < a {
        assert(list[b] is Some);
    }
}

/// An object stays where it was made: the slot is occupied, every other slot
/// is as it was, and the next object gets another slot.
pub proof fn law_slots_distinct<T>(list: Seq<Option<T>>, a: int, v: T, b: int)
    requires
        is_next_slot(list, a),
        is_next_slot(with_slot(list, a, v), b),
    ensures
        has_slot(with_slot(list, a, v), a),
        with_slot(list, a, v)[a] == Some(v),
        forall|i: int|
            0 <= i < list.len() && i != a ==> #[trigger] with_slot(list, a, v)[i] == list[i],
        a < b,
{
    if b < a {
        assert(list[b] is Some);
    }
}

/// Number of entries of `flags` that are not set.
pub(crate) open spec fn unset(flags: Seq<bool>) -> nat
    decreases flags.len(),
{
    if flags.len() == 0 {
        0
    } else {
        unset(flags.drop_last()) + (if flags.last() {
            0nat
        } else {
            1nat
        })
    }
}

/// Setting a flag that was not set leaves one fewer unset.
pub(crate) proof fn lemma_unset_update(flags: Seq<bool>, i: int)
    requires
        0 <= i < flags.len(),
        !flags[i],
    ensures
        unset(flags.update(i, true)) == unset(flags) - 1,
    decreases flags.len(),
{
    if i == flags.len() - 1 {
        assert(flags.update(i, true).drop_last() =~= flags.drop_last());
    } else {
        lemma_unset_update(flags.drop_last(), i);
        assert(flags.update(i, true).drop_last() =~= flags.drop_last().update(i, true));
    }
}

} // verus!
