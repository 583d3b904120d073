//! Semaphores: who holds and who wants how many units, and whether every
//! thread that wants some can get them.

use vstd::prelude::*;

use crate::bytes::to_signed;
use crate::semaphore_laws::{law_down_keeps_wf, law_up_keeps_wf};
use crate::state::{
    cell, has_slot, is_next_slot, lemma_unset_update, next_slot, padded, rows, slot_of, unset,
    with_cell, with_slot, ProcessControlBlockInner, SyncState,
};
use crate::step::{KernelCall, Step, DEADLOCK};

verus! {

/// `table` grown to `count` rows, a new row being `width` zeros wide, and
/// then each row to at least `columns` entries.
pub open spec fn grown(table: Seq<Seq<usize>>, count: int, width: nat, columns: int) -> Seq<
    Seq<usize>,
> {
    Seq::new(
        count as nat,
        |t: int|
            padded(
                if t < table.len() {
                    table[t]
                } else {
                    Seq::new(width, |s: int| 0usize)
                },
                columns,
                0usize,
            ),
    )
}

/// Row `t` of `table` has an entry above zero.
pub open spec fn has_units(table: Seq<Seq<usize>>, t: int) -> bool {
    exists|s: int| #[trigger] cell(table, t, s) > 0
}

impl SyncState {
    /// Number of rows that the semaphore tables lack for thread `tid`.
    pub open spec fn missing_rows(self, tid: int) -> int {
        if self.semaphore_alloc.len() <= tid {
            tid + 1 - self.semaphore_alloc.len()
        } else {
            0
        }
    }

    /// The semaphore tables grown to cover thread `tid` and semaphore
    /// `sem_id`.
    pub open spec fn covering_semaphore(self, tid: int, sem_id: int) -> SyncState {
        SyncState {
            semaphore_alloc: grown(
                self.semaphore_alloc,
                self.semaphore_alloc.len() + self.missing_rows(tid),
                self.semaphore_available.len(),
                sem_id + 1,
            ),
            semaphore_request: grown(
                self.semaphore_request,
                self.semaphore_request.len() + self.missing_rows(tid),
                self.semaphore_available.len(),
                sem_id + 1,
            ),
            ..self
        }
    }

    /// Number of threads that detection looks at.
    pub open spec fn task_count(self) -> int {
        let a = self.semaphore_alloc.len() as int;
        let r = self.semaphore_request.len() as int;
        let rows = if a >= r {
            a
        } else {
            r
        };
        if self.task_slots >= rows {
            self.task_slots as int
        } else {
            rows
        }
    }

    /// The units of semaphore `s` that the threads of `done` hold together.
    pub open spec fn held_by_all(self, done: Seq<int>, s: int) -> int
        decreases done.len(),
    {
        if done.len() == 0 {
            0
        } else {
            self.held_by_all(done.drop_last(), s) + self.held(done.last(), s)
        }
    }

    /// Once the threads of `done` have run to their end and given back what
    /// they hold, thread `t` can get all that it waits for.
    pub open spec fn can_run_after(self, done: Seq<int>, t: int) -> bool {
        forall|s: int|
            0 <= s < self.semaphore_available.len() ==> #[trigger] self.wanted(t, s)
                <= self.semaphore_available[s] + self.held_by_all(done, s)
    }

    /// The threads of `order` can run to their end one after another.
    pub open spec fn completion_order(self, order: Seq<int>) -> bool {
        &&& order.no_duplicates()
        &&& forall|i: int|
            0 <= i < order.len() ==> 0 <= #[trigger] order[i] < self.task_count()
                && self.can_run_after(order.take(i), order[i])
    }

    /// Some order of running threads lets thread `t` run to its end.
    pub open spec fn can_complete(self, t: int) -> bool {
        exists|order: Seq<int>| self.completion_order(order) && order.contains(t)
    }

    /// Thread `t` holds a unit of some semaphore.
    pub open spec fn holds_units(self, t: int) -> bool {
        has_units(self.semaphore_alloc, t)
    }

    /// Thread `t` waits for a unit of some semaphore.
    pub open spec fn wants_units(self, t: int) -> bool {
        has_units(self.semaphore_request, t)
    }

    /// Thread `t` holds units, waits for more, and no order of running
    /// threads ever gives it what it waits for.
    pub open spec fn stuck(self, t: int) -> bool {
        &&& 0 <= t < self.task_count()
        &&& !self.can_complete(t)
        &&& self.holds_units(t)
        &&& self.wants_units(t)
    }

    /// No thread is stuck on semaphores.
    pub open spec fn semaphore_deadlock_free(self) -> bool {
        forall|t: int| !(#[trigger] self.stuck(t))
    }

    /// Thread `tid` has a row among the requests once the tables cover it.
    pub open spec fn has_request_row(self, tid: int) -> bool {
        tid < self.semaphore_request.len() + self.missing_rows(tid)
    }

    /// Thread `tid` holds `units` of semaphore `sem_id`.
    pub open spec fn with_held(self, tid: int, sem_id: int, units: int) -> SyncState {
        SyncState {
            semaphore_alloc: with_cell(self.semaphore_alloc, tid, sem_id, units),
            ..self
        }
    }

    /// Thread `tid` waits for `units` of semaphore `sem_id`.
    pub open spec fn with_wanted(self, tid: int, sem_id: int, units: int) -> SyncState {
        SyncState {
            semaphore_request: with_cell(self.semaphore_request, tid, sem_id, units),
            ..self
        }
    }

    /// `units` of semaphore `sem_id` are free.
    pub open spec fn with_available(self, sem_id: int, units: int) -> SyncState {
        SyncState {
            semaphore_available: self.semaphore_available.update(sem_id, units as usize),
            ..self
        }
    }

    /// Slot `id` given to a semaphore of `res_count` units, all of them free.
    pub open spec fn with_counts(self, id: int, res_count: usize) -> SyncState {
        SyncState {
            semaphore_list: with_slot(self.semaphore_list, id, res_count),
            semaphore_available: if id < self.semaphore_list.len() {
                padded(self.semaphore_available, id + 1, 0).update(id, res_count)
            } else {
                self.semaphore_available.push(res_count)
            },
            ..self
        }
    }

    /// A semaphore of `res_count` units made in slot `id`, with the tables
    /// covering it.
    pub open spec fn with_semaphore(self, id: int, res_count: usize) -> SyncState {
        self.with_counts(id, res_count).covering_semaphore(0, id)
    }

    /// Thread `tid` recorded as waiting for one more unit of semaphore
    /// `sem_id`.
    pub open spec fn waiting_for_unit(self, tid: int, sem_id: int) -> SyncState {
        let covering = self.covering_semaphore(tid, sem_id);
        covering.with_wanted(tid, sem_id, covering.wanted(tid, sem_id) + 1)
    }

    /// Whether a request of thread `tid` for a unit of semaphore `sem_id` is
    /// refused: no unit is free, and some thread would be stuck if `tid`
    /// waited for one.
    pub open spec fn down_refused(self, tid: usize, sem_id: usize) -> bool {
        &&& self.deadlock_detect
        &&& self.semaphore_available[sem_id as int] == 0
        &&& !self.waiting_for_unit(tid as int, sem_id as int).semaphore_deadlock_free()
    }

    /// The tables have room for a request of thread `tid` for a unit of
    /// semaphore `sem_id`, and no count overflows.
    pub open spec fn can_record_down(self, tid: usize, sem_id: usize) -> bool {
        &&& tid < usize::MAX
        &&& sem_id < self.semaphore_available.len()
        &&& if self.semaphore_available[sem_id as int] > 0 {
            self.held(tid as int, sem_id as int) < usize::MAX
        } else {
            &&& self.has_request_row(tid as int)
            &&& self.wanted(tid as int, sem_id as int) < usize::MAX
        }
    }

    /// The tables have room for a unit of semaphore `sem_id` that thread
    /// `tid` releases to the woken thread, or to nobody, and no count
    /// overflows.
    pub open spec fn can_record_release(
        self,
        tid: usize,
        sem_id: usize,
        waking_tid: Option<usize>,
    ) -> bool {
        let given = self.giving_back_unit(tid as int, sem_id as int);
        &&& tid < usize::MAX
        &&& match waking_tid {
            Some(waking) => {
                &&& waking < usize::MAX
                &&& given.has_request_row(waking as int)
                &&& given.held(waking as int, sem_id as int) < usize::MAX
            },
            None => {
                &&& sem_id < self.semaphore_available.len()
                &&& self.semaphore_available[sem_id as int] < usize::MAX
            },
        }
    }

    /// The state once thread `tid` has asked for a unit of semaphore
    /// `sem_id`: it holds a unit that was free, or else waits for one, unless
    /// it was refused.
    pub open spec fn after_semaphore_down(self, tid: usize, sem_id: usize) -> SyncState {
        let (t, s) = (tid as int, sem_id as int);
        let covering = self.covering_semaphore(t, s);
        if !self.deadlock_detect {
            self
        } else if self.semaphore_available[s] > 0 {
            covering.with_available(s, self.semaphore_available[s] - 1).with_held(
                t,
                s,
                covering.held(t, s) + 1,
            )
        } else if self.down_refused(tid, sem_id) {
            covering
        } else {
            self.waiting_for_unit(t, s)
        }
    }

    /// The state once thread `tid` has given back a unit of semaphore
    /// `sem_id`, if it held any.
    pub open spec fn giving_back_unit(self, tid: int, sem_id: int) -> SyncState {
        let covering = self.covering_semaphore(tid, sem_id);
        if covering.held(tid, sem_id) > 0 {
            covering.with_held(tid, sem_id, covering.held(tid, sem_id) - 1)
        } else {
            covering
        }
    }

    /// The state once thread `tid` holds a unit of semaphore `sem_id` that it
    /// waited for.
    pub open spec fn receiving_unit(self, tid: int, sem_id: int) -> SyncState {
        let covering = self.covering_semaphore(tid, sem_id);
        let served = if covering.wanted(tid, sem_id) > 0 {
            covering.with_wanted(tid, sem_id, covering.wanted(tid, sem_id) - 1)
        } else {
            covering
        };
        served.with_held(tid, sem_id, served.held(tid, sem_id) + 1)
    }

    /// The state once a unit of semaphore `sem_id` has passed from thread
    /// `tid` to the woken thread, or to nobody.
    pub open spec fn after_semaphore_release(
        self,
        tid: usize,
        sem_id: usize,
        waking_tid: Option<usize>,
    ) -> SyncState {
        let given = self.giving_back_unit(tid as int, sem_id as int);
        match waking_tid {
            Some(waking) => given.receiving_unit(waking as int, sem_id as int),
            None => given.with_available(
                sem_id as int,
                given.semaphore_available[sem_id as int] + 1,
            ),
        }
    }
}

/// Growing the semaphore tables changes no entry and gives thread `tid` an
/// entry for semaphore `sem_id`.
pub(crate) proof fn lemma_covering_semaphore(s: SyncState, tid: int, sem_id: int)
    requires
        0 <= tid,
        0 <= sem_id,
    ensures
        forall|t: int, x: int| #[trigger]
            s.covering_semaphore(tid, sem_id).held(t, x) == s.held(t, x),
        forall|t: int, x: int| #[trigger]
            s.covering_semaphore(tid, sem_id).wanted(t, x) == s.wanted(t, x),
        tid < s.covering_semaphore(tid, sem_id).semaphore_alloc.len(),
        sem_id < s.covering_semaphore(tid, sem_id).semaphore_alloc[tid].len(),
        s.has_request_row(tid) ==> {
            &&& tid < s.covering_semaphore(tid, sem_id).semaphore_request.len()
            &&& sem_id < s.covering_semaphore(tid, sem_id).semaphore_request[tid].len()
        },
{
}

/// Growing the semaphore tables keeps them in shape.
pub(crate) proof fn lemma_covering_wf(s: SyncState, tid: int, sem_id: int)
    requires
        0 <= tid,
        0 <= sem_id,
        s.wf(),
    ensures
        s.covering_semaphore(tid, sem_id).wf(),
{
    let covering = s.covering_semaphore(tid, sem_id);
    lemma_covering_semaphore(s, tid, sem_id);
    assert forall|t: int, x: int| #[trigger] cell(covering.semaphore_request, t, x)
        > 0 implies has_slot(covering.semaphore_list, x) by {
        assert(covering.wanted(t, x) == s.wanted(t, x));
        assert(cell(s.semaphore_request, t, x) > 0);
    }
}

/// The total over a sequence does not depend on where an element stands.
pub(crate) proof fn lemma_held_by_all_remove(s: SyncState, done: Seq<int>, k: int, sem: int)
    requires
        0 <= k < done.len(),
    ensures
        s.held_by_all(done, sem) == s.held_by_all(done.remove(k), sem) + s.held(done[k], sem),
    decreases done.len(),
{
    if k == done.len() - 1 {
        assert(done.remove(k) =~= done.drop_last());
    } else {
        lemma_held_by_all_remove(s, done.drop_last(), k, sem);
        assert(done.remove(k).drop_last() =~= done.drop_last().remove(k));
    }
}

/// Threads that are among others, or hold nothing, hold together no more than
/// those others.
pub(crate) proof fn lemma_held_by_all_subset(s: SyncState, a: Seq<int>, b: Seq<int>, sem: int)
    requires
        a.no_duplicates(),
        forall|i: int|
            0 <= i < a.len() ==> b.contains(#[trigger] a[i]) || s.held(a[i], sem) == 0,
    ensures
        s.held_by_all(a, sem) <= s.held_by_all(b, sem),
        s.held_by_all(b, sem) >= 0,
    decreases a.len() + b.len(),
{
    if a.len() > 0 && !b.contains(a.last()) {
        assert(s.held(a[a.len() - 1], sem) == 0);
        assert forall|i: int| 0 <= i < a.drop_last().len() implies b.contains(
            #[trigger] a.drop_last()[i],
        ) || s.held(a.drop_last()[i], sem) == 0 by {
            assert(b.contains(a[i]) || s.held(a[i], sem) == 0);
        }
        lemma_held_by_all_subset(s, a.drop_last(), b, sem);
    } else if a.len() > 0 {
        let rest = a.drop_last();
        let k = choose|k: int| 0 <= k < b.len() && b[k] == a.last();
        lemma_held_by_all_remove(s, b, k, sem);
        assert forall|i: int| 0 <= i < rest.len() implies b.remove(k).contains(
            #[trigger] rest[i],
        ) || s.held(rest[i], sem) == 0 by {
            assert(b.contains(a[i]) || s.held(a[i], sem) == 0);
            if b.contains(a[i]) {
                let j = choose|j: int| 0 <= j < b.len() && b[j] == a[i];
                if j < k {
                    assert(b.remove(k)[j] == a[i]);
                } else {
                    assert(b.remove(k)[j - 1] == a[i]);
                }
            }
        }
        lemma_held_by_all_subset(s, rest, b.remove(k), sem);
    } else if b.len() > 0 {
        lemma_held_by_all_subset(s, a, b.drop_last(), sem);
    }
}

/// A thread that can run after all of `order` extends it.
pub(crate) proof fn lemma_extend_order(s: SyncState, order: Seq<int>, t: int)
    requires
        s.completion_order(order),
        !order.contains(t),
        0 <= t < s.task_count(),
        s.can_run_after(order, t),
    ensures
        s.completion_order(order.push(t)),
        forall|u: int| #[trigger] order.push(t).contains(u) == (order.contains(u) || u == t),
        forall|sem: int| #[trigger]
            s.held_by_all(order.push(t), sem) == s.held_by_all(order, sem) + s.held(t, sem),
{
    let longer = order.push(t);
    assert(longer.drop_last() =~= order);
    assert forall|i: int| 0 <= i < longer.len() implies 0 <= #[trigger] longer[i] < s.task_count()
        && s.can_run_after(longer.take(i), longer[i]) by {
        assert(longer.take(i) =~= order.take(i));
        if i == order.len() {
            assert(order.take(i) =~= order);
        }
    }
    assert forall|u: int| #[trigger] longer.contains(u) == (order.contains(u) || u == t) by {
        assert(longer[order.len() as int] == t);
        if order.contains(u) {
            let k = choose|k: int| 0 <= k < order.len() && order[k] == u;
            assert(longer[k] == u);
        }
    }
}

/// Where no thread outside `order` can run after it, no thread outside it
/// can ever run to its end.
proof fn lemma_maximal_order(s: SyncState, order: Seq<int>, other: Seq<int>, n: int)
    requires
        forall|t: int|
            0 <= t < s.task_count() && !order.contains(t) ==> !(#[trigger] s.can_run_after(
                order,
                t,
            )),
        s.completion_order(other),
        0 <= n <= other.len(),
    ensures
        forall|i: int| 0 <= i < n ==> order.contains(#[trigger] other[i]),
    decreases n,
{
    if n > 0 {
        lemma_maximal_order(s, order, other, n - 1);
        let before = other.take(n - 1);
        let t = other[n - 1];
        assert(s.can_run_after(before, t));
        assert forall|sem: int|
            0 <= sem < s.semaphore_available.len() implies #[trigger] s.wanted(t, sem)
            <= s.semaphore_available[sem] + s.held_by_all(order, sem) by {
            lemma_held_by_all_subset(s, before, order, sem);
        }
        assert(s.can_run_after(order, t));
    }
}

/// Appends a row of `width` zeros.
fn add_row(table: &mut Vec<Vec<usize>>, width: usize)
    ensures
        final(table)@.len() == old(table)@.len() + 1,
        rows(final(table)@) == rows(old(table)@).push(Seq::new(width as nat, |s: int| 0usize)),
{
    let row: Vec<usize> = vec![0; width];
    assert(row@ =~= Seq::new(width as nat, |s: int| 0usize));
    table.push(row);
    assert(rows(table@) =~= rows(old(table)@).push(row@));
}

/// Pads each row with zeros up to column `sem_id`.
fn widen_rows(table: &mut Vec<Vec<usize>>, sem_id: usize)
    requires
        sem_id < usize::MAX,
    ensures
        rows(final(table)@) == grown(
            rows(old(table)@),
            old(table)@.len() as int,
            0,
            sem_id + 1,
        ),
{
    let ghost before = rows(table@);
    let mut t: usize = 0;
    while t < table.len()
        invariant
            t <= table.len(),
            sem_id < usize::MAX,
            table.len() == before.len(),
            forall|i: int|
                0 <= i < table.len() ==> #[trigger] table@[i]@ == if i < t {
                    padded(before[i], sem_id + 1, 0usize)
                } else {
                    before[i]
                },
        decreases table.len() - t,
    {
        if table[t].len() <= sem_id {
            table[t].resize(sem_id + 1, 0);
        }
        assert(table@[t as int]@ =~= padded(before[t as int], sem_id + 1, 0usize));
        t += 1;
    }
    assert(rows(table@) =~= grown(before, before.len() as int, 0, sem_id + 1));
}

/// Grows the semaphore tables until they cover thread `tid` and semaphore
/// `sem_id`.
pub fn ensure_semaphore_state(inner: &mut ProcessControlBlockInner, tid: usize, sem_id: usize)
    requires
        tid < usize::MAX,
        sem_id < usize::MAX,
    ensures
        final(inner)@ == old(inner)@.covering_semaphore(tid as int, sem_id as int),
        old(inner)@.wf() ==> final(inner)@.wf(),
{
    let ghost start = inner@;
    let ghost zeros = Seq::new(start.semaphore_available.len(), |s: int| 0usize);
    while inner.semaphore_alloc.len() <= tid
        invariant
            tid < usize::MAX,
            zeros == Seq::new(start.semaphore_available.len(), |s: int| 0usize),
            start.semaphore_alloc.len() <= inner.semaphore_alloc.len(),
            inner.semaphore_alloc.len() <= start.semaphore_alloc.len() + start.missing_rows(
                tid as int,
            ),
            inner@ == (SyncState {
                semaphore_alloc: start.semaphore_alloc + Seq::new(
                    (inner.semaphore_alloc.len() - start.semaphore_alloc.len()) as nat,
                    |i: int| zeros,
                ),
                semaphore_request: start.semaphore_request + Seq::new(
                    (inner.semaphore_alloc.len() - start.semaphore_alloc.len()) as nat,
                    |i: int| zeros,
                ),
                ..start
            }),
        decreases tid + 1 - inner.semaphore_alloc.len(),
    {
        let width: usize = inner.semaphore_available.len();
        add_row(&mut inner.semaphore_alloc, width);
        add_row(&mut inner.semaphore_request, width);
    }
    widen_rows(&mut inner.semaphore_alloc, sem_id);
    widen_rows(&mut inner.semaphore_request, sem_id);
    assert(inner@ =~~= start.covering_semaphore(tid as int, sem_id as int));
    proof {
        if start.wf() {
            lemma_covering_wf(start, tid as int, sem_id as int);
        }
    }
}

/// `v`, or the largest `usize` where `v` is larger.
pub open spec fn capped(v: int) -> int {
    if v <= usize::MAX {
        v
    } else {
        usize::MAX as int
    }
}

/// The entry at row `t` and column `s`; zero where the table has none.
fn entry(table: &Vec<Vec<usize>>, t: usize, s: usize) -> (v: usize)
    ensures
        v == cell(rows(table@), t as int, s as int),
{
    if t < table.len() && s < table[t].len() {
        table[t][s]
    } else {
        0
    }
}

/// Whether row `t` has an entry above zero.
fn any_units(table: &Vec<Vec<usize>>, t: usize) -> (any: bool)
    ensures
        any == has_units(rows(table@), t as int),
{
    if t >= table.len() {
        return false;
    }
    let mut s: usize = 0;
    while s < table[t].len()
        invariant
            t < table.len(),
            s <= table@[t as int]@.len(),
            forall|i: int| 0 <= i < s ==> #[trigger] cell(rows(table@), t as int, i) == 0,
        decreases table@[t as int]@.len() - s,
    {
        if entry(table, t, s) > 0 {
            return true;
        }
        s += 1;
    }
    false
}

/// Whether the free units in `work` cover all that thread `tid` waits for.
fn can_finish(inner: &ProcessControlBlockInner, tid: usize, work: &Vec<usize>) -> (can: bool)
    requires
        work.len() == inner.semaphore_available.len(),
    ensures
        can == forall|s: int|
            0 <= s < work.len() ==> #[trigger] inner@.wanted(tid as int, s) <= work[s],
{
    let mut s: usize = 0;
    while s < work.len()
        invariant
            s <= work.len(),
            forall|i: int| 0 <= i < s ==> #[trigger] inner@.wanted(tid as int, i) <= work[i],
        decreases work.len() - s,
    {
        if entry(&inner.semaphore_request, tid, s) > work[s] {
            assert(inner@.wanted(tid as int, s as int) > work[s as int]);
            return false;
        }
        s += 1;
    }
    true
}

/// Adds the units that thread `tid` holds to the free units in `work`.
fn give_back(inner: &ProcessControlBlockInner, tid: usize, work: &mut Vec<usize>)
    requires
        old(work).len() == inner.semaphore_available.len(),
    ensures
        final(work).len() == old(work).len(),
        forall|s: int|
            0 <= s < final(work).len() ==> #[trigger] final(work)[s] == capped(
                old(work)[s] + inner@.held(tid as int, s),
            ),
{
    let ghost before = work@;
    let mut s: usize = 0;
    while s < work.len()
        invariant
            s <= work.len(),
            work.len() == before.len(),
            forall|i: int|
                0 <= i < work.len() ==> #[trigger] work[i] == if i < s {
                    capped(before[i] + inner@.held(tid as int, i))
                } else {
                    before[i] as int
                },
        decreases work.len() - s,
    {
        let sum: usize = work[s].saturating_add(entry(&inner.semaphore_alloc, tid, s));
        work.set(s, sum);
        s += 1;
    }
}

/// Whether some thread is stuck: it holds semaphore units, waits for more,
/// and cannot get them however the other threads run on.
///
/// The running totals stop at the largest `usize`. That loses nothing: such a
/// total covers whatever a thread can wait for.
pub fn semaphore_deadlocked(inner: &ProcessControlBlockInner) -> (deadlocked: bool)
    ensures
        deadlocked == exists|t: int| #[trigger] inner@.stuck(t),
        deadlocked == !inner@.semaphore_deadlock_free(),
{
    let mut task_count: usize = inner.task_slots;
    if task_count < inner.semaphore_alloc.len() {
        task_count = inner.semaphore_alloc.len();
    }
    if task_count < inner.semaphore_request.len() {
        task_count = inner.semaphore_request.len();
    }
    let mut work: Vec<usize> = inner.semaphore_available.clone();
    let mut finish: Vec<bool> = vec![false; task_count];
    let ghost mut order: Seq<int> = seq![];
    let mut progress: bool = true;
    while progress
        invariant
            task_count == inner@.task_count(),
            finish.len() == task_count,
            work.len() == inner.semaphore_available.len(),
            inner@.completion_order(order),
            forall|t: int| 0 <= t < task_count ==> #[trigger] finish[t] == order.contains(t),
            forall|s: int|
                0 <= s < work.len() ==> #[trigger] work[s] == capped(
                    inner.semaphore_available[s] + inner@.held_by_all(order, s),
                ),
            !progress ==> forall|t: int|
                0 <= t < task_count && !order.contains(t) ==> !(#[trigger] inner@.can_run_after(
                    order,
                    t,
                )),
        decreases unset(finish@) + (if progress {
            1int
        } else {
            0int
        }),
    {
        progress = false;
        let ghost open = unset(finish@);
        let mut tid: usize = 0;
        while tid < task_count
            invariant
                tid <= task_count,
                task_count == inner@.task_count(),
                finish.len() == task_count,
                work.len() == inner.semaphore_available.len(),
                inner@.completion_order(order),
                forall|t: int| 0 <= t < task_count ==> #[trigger] finish[t] == order.contains(t),
                forall|s: int|
                    0 <= s < work.len() ==> #[trigger] work[s] == capped(
                        inner.semaphore_available[s] + inner@.held_by_all(order, s),
                    ),
                unset(finish@) + (if progress {
                    1int
                } else {
                    0int
                }) <= open,
                !progress ==> forall|t: int|
                    0 <= t < tid && !order.contains(t) ==> !(#[trigger] inner@.can_run_after(
                        order,
                        t,
                    )),
            decreases task_count - tid,
        {
            if !finish[tid] {
                let can: bool = can_finish(inner, tid, &work);
                assert(can == inner@.can_run_after(order, tid as int));
                if can {
                    give_back(inner, tid, &mut work);
                    proof {
                        lemma_unset_update(finish@, tid as int);
                        lemma_extend_order(inner@, order, tid as int);
                        order = order.push(tid as int);
                    }
                    finish.set(tid, true);
                    progress = true;
                }
            }
            tid += 1;
        }
    }
    proof {
        assert forall|t: int| 0 <= t < task_count implies #[trigger] finish[t]
            == inner@.can_complete(t) by {
            if inner@.can_complete(t) {
                let other = choose|other: Seq<int>|
                    inner@.completion_order(other) && other.contains(t);
                lemma_maximal_order(inner@, order, other, other.len() as int);
            }
        }
    }
    let mut tid: usize = 0;
    while tid < task_count
        invariant
            tid <= task_count,
            task_count == inner@.task_count(),
            finish.len() == task_count,
            forall|t: int| 0 <= t < task_count ==> #[trigger] finish[t] == inner@.can_complete(t),
            forall|t: int| 0 <= t < tid ==> !(#[trigger] inner@.stuck(t)),
        decreases task_count - tid,
    {
        if !finish[tid] && any_units(&inner.semaphore_alloc, tid) && any_units(
            &inner.semaphore_request,
            tid,
        ) {
            assert(inner@.stuck(tid as int));
            return true;
        }
        tid += 1;
    }
    false
}

/// Sets the entry at row `t` and column `s`.
fn set_entry(table: &mut Vec<Vec<usize>>, t: usize, s: usize, v: usize)
    requires
        t < rows(old(table)@).len(),
        s < rows(old(table)@)[t as int].len(),
    ensures
        final(table)@.len() == old(table)@.len(),
        rows(final(table)@) == with_cell(rows(old(table)@), t as int, s as int, v as int),
{
    table[t].set(s, v);
    assert(rows(table@) =~= with_cell(rows(old(table)@), t as int, s as int, v as int));
}

/// Whether the tables have room for a request of thread `tid` for a unit of
/// semaphore `sem_id` and no count overflows.
pub fn down_fits(inner: &ProcessControlBlockInner, tid: usize, sem_id: usize) -> (fits: bool)
    ensures
        fits == inner@.can_record_down(tid, sem_id),
{
    if tid == usize::MAX || sem_id >= inner.semaphore_available.len() {
        return false;
    }
    if inner.semaphore_available[sem_id] > 0 {
        entry(&inner.semaphore_alloc, tid, sem_id) < usize::MAX
    } else {
        let row: bool = if inner.semaphore_alloc.len() <= tid {
            inner.semaphore_request.len() >= inner.semaphore_alloc.len()
        } else {
            inner.semaphore_request.len() > tid
        };
        row && entry(&inner.semaphore_request, tid, sem_id) < usize::MAX
    }
}

/// Whether the tables have room for a unit of semaphore `sem_id` that thread
/// `tid` releases to the woken thread, or to nobody, and no count overflows.
pub fn release_fits(
    inner: &ProcessControlBlockInner,
    tid: usize,
    sem_id: usize,
    waking_tid: Option<usize>,
) -> (fits: bool)
    ensures
        fits == inner@.can_record_release(tid, sem_id, waking_tid),
{
    if tid == usize::MAX {
        return false;
    }
    proof {
        lemma_covering_semaphore(inner@, tid as int, sem_id as int);
    }
    match waking_tid {
        Some(waking) => {
            if waking == usize::MAX {
                return false;
            }
            let alloc: usize = inner.semaphore_alloc.len();
            let request: usize = inner.semaphore_request.len();
            // Rows are added to both tables by what the first one lacks.
            let row: bool = if alloc > tid && alloc > waking {
                request > waking
            } else if alloc > tid || waking > tid {
                request >= alloc
            } else {
                request >= alloc || request + (tid + 1 - alloc) > waking
            };
            let held: usize = entry(&inner.semaphore_alloc, waking, sem_id);
            row && (held < usize::MAX || waking == tid)
        },
        None => sem_id < inner.semaphore_available.len() && inner.semaphore_available[sem_id]
            < usize::MAX,
    }
}

/// Makes a semaphore of `res_count` units in the first free slot and returns
/// the slot.
pub fn sys_semaphore_create(inner: &mut ProcessControlBlockInner, res_count: usize) -> (ret: isize)
    ensures
        is_next_slot(old(inner)@.semaphore_list, slot_of(ret)),
        old(inner)@.semaphore_list.len() <= isize::MAX ==> ret == slot_of(ret),
        final(inner)@ == old(inner)@.with_semaphore(slot_of(ret), res_count),
        old(inner)@.wf() ==> final(inner)@.wf(),
{
    let id: usize = next_slot(&inner.semaphore_list);
    if id < inner.semaphore_list.len() {
        inner.semaphore_list.set(id, Some(res_count));
        if inner.semaphore_available.len() <= id {
            inner.semaphore_available.resize(id + 1, 0);
        }
        inner.semaphore_available.set(id, res_count);
    } else {
        inner.semaphore_list.push(Some(res_count));
        inner.semaphore_available.push(res_count);
    }
    assert(id < inner.semaphore_list.len());
    ensure_semaphore_state(inner, 0, id);
    to_signed(id)
}

/// Asks for a unit of semaphore `sem_id` on behalf of thread `tid`.
///
/// With detection on, a request for which the thread would have to wait and
/// which would leave a thread stuck is refused with [`DEADLOCK`].
pub fn sys_semaphore_down(inner: &mut ProcessControlBlockInner, tid: usize, sem_id: usize) -> (step:
    Step)
    requires
        has_slot(old(inner)@.semaphore_list, sem_id as int),
        old(inner)@.deadlock_detect ==> old(inner)@.can_record_down(tid, sem_id),
    ensures
        step == (if old(inner)@.down_refused(tid, sem_id) {
            Step::Return(DEADLOCK)
        } else {
            Step::CallThenReturn(KernelCall::DownSemaphore { sem_id }, 0)
        }),
        final(inner)@ == old(inner)@.after_semaphore_down(tid, sem_id),
        old(inner)@.wf() ==> final(inner)@.wf(),
{
    let ghost start = inner@;
    proof {
        if start.wf() {
            law_down_keeps_wf(start, tid, sem_id);
        }
    }
    if inner.deadlock_detect {
        assert(sem_id < inner.semaphore_list.len());
        ensure_semaphore_state(inner, tid, sem_id);
        proof {
            lemma_covering_semaphore(start, tid as int, sem_id as int);
        }
        let free: usize = inner.semaphore_available[sem_id];
        if free > 0 {
            inner.semaphore_available.set(sem_id, free - 1);
            let held: usize = entry(&inner.semaphore_alloc, tid, sem_id);
            set_entry(&mut inner.semaphore_alloc, tid, sem_id, held + 1);
            assert(inner@ =~~= start.after_semaphore_down(tid, sem_id));
        } else {
            let wanted: usize = entry(&inner.semaphore_request, tid, sem_id);
            set_entry(&mut inner.semaphore_request, tid, sem_id, wanted + 1);
            assert(inner@ =~~= start.waiting_for_unit(tid as int, sem_id as int));
            if semaphore_deadlocked(inner) {
                set_entry(&mut inner.semaphore_request, tid, sem_id, wanted);
                assert(inner@ =~~= start.covering_semaphore(tid as int, sem_id as int));
                return Step::Return(DEADLOCK);
            }
        }
    }
    Step::CallThenReturn(KernelCall::DownSemaphore { sem_id }, 0)
}

/// A release of a unit of semaphore `sem_id` by thread `tid` that the kernel
/// is to carry out: it puts the unit back and replies with the thread that it
/// woke, if any.
#[derive(Clone, Copy, Debug, PartialEq, Eq, Structural)]
pub struct SemaphoreRelease {
    pub tid: usize,
    pub sem_id: usize,
    /// Whether detection was on when the release began.
    pub detect: bool,
}

/// Begins to release a unit of semaphore `sem_id` on behalf of thread `tid`.
pub fn sys_semaphore_up(
    inner: &mut ProcessControlBlockInner,
    tid: usize,
    sem_id: usize,
) -> (release: SemaphoreRelease)
    requires
        has_slot(old(inner)@.semaphore_list, sem_id as int),
        old(inner)@.deadlock_detect ==> tid < usize::MAX,
    ensures
        release == (SemaphoreRelease { tid, sem_id, detect: old(inner)@.deadlock_detect }),
        final(inner)@ == if old(inner)@.deadlock_detect {
            old(inner)@.covering_semaphore(tid as int, sem_id as int)
        } else {
            old(inner)@
        },
        old(inner)@.wf() ==> final(inner)@.wf(),
{
    let detect: bool = inner.deadlock_detect;
    if detect {
        assert(sem_id < inner.semaphore_list.len());
        ensure_semaphore_state(inner, tid, sem_id);
    }
    SemaphoreRelease { tid, sem_id, detect }
}

impl SemaphoreRelease {
    /// Records the release once the kernel has put the unit back and woken
    /// `waking_tid`, and returns the value of the system call.
    pub fn finish(self, inner: &mut ProcessControlBlockInner, waking_tid: Option<usize>) -> (ret:
        isize)
        requires
            self.detect ==> self.sem_id < usize::MAX && old(inner)@.can_record_release(
                self.tid,
                self.sem_id,
                waking_tid,
            ),
        ensures
            ret == 0,
            final(inner)@ == if self.detect {
                old(inner)@.after_semaphore_release(self.tid, self.sem_id, waking_tid)
            } else {
                old(inner)@
            },
            old(inner)@.wf() ==> final(inner)@.wf(),
    {
        if self.detect {
            let ghost start = inner@;
            proof {
                if start.wf() {
                    law_up_keeps_wf(start, self.tid, self.sem_id, waking_tid);
                }
            }
            ensure_semaphore_state(inner, self.tid, self.sem_id);
            proof {
                lemma_covering_semaphore(start, self.tid as int, self.sem_id as int);
            }
            let held: usize = entry(&inner.semaphore_alloc, self.tid, self.sem_id);
            if held > 0 {
                set_entry(&mut inner.semaphore_alloc, self.tid, self.sem_id, held - 1);
            }
            let ghost given = inner@;
            assert(given =~~= start.giving_back_unit(self.tid as int, self.sem_id as int));
            if let Some(waking) = waking_tid {
                ensure_semaphore_state(inner, waking, self.sem_id);
                proof {
                    lemma_covering_semaphore(given, waking as int, self.sem_id as int);
                }
                let wanted: usize = entry(&inner.semaphore_request, waking, self.sem_id);
                if wanted > 0 {
                    set_entry(&mut inner.semaphore_request, waking, self.sem_id, wanted - 1);
                }
                let held: usize = entry(&inner.semaphore_alloc, waking, self.sem_id);
                set_entry(&mut inner.semaphore_alloc, waking, self.sem_id, held + 1);
            } else {
                let free: usize = inner.semaphore_available[self.sem_id];
                inner.semaphore_available.set(self.sem_id, free + 1);
            }
        }
        0
    }
}

} // verus!
