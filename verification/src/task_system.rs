//! Tasks scheduled for a game time, run in order of time and then of scheduling, unless
//! cancelled.
//!
//! The system keeps the ids and times; the work of each task is kept by its caller under the
//! task's id, and run when `next_due_task` hands that id out.

use std::collections::HashSet;
use vstd::prelude::*;

verus! {

broadcast use vstd::std_specs::hash::group_hash_axioms;

/// A handle to a scheduled task, or an empty handle.
#[derive(Copy, Clone, Debug, PartialEq, Eq, Structural)]
pub struct Task(Option<u64>);

/// Whether the task `a` (time, id) runs before `b`: earlier time first, then lower id.
pub open spec fn runs_before(a: (u64, u64), b: (u64, u64)) -> bool {
    a.0 < b.0 || (a.0 == b.0 && a.1 < b.1)
}

/// Whether a task is due at `game_time`.
pub open spec fn is_due(a: (u64, u64), game_time: u64) -> bool {
    a.0 <= game_time
}

/// The time at which a task scheduled at `game_time` with `time_delay` runs: at least one
/// unit later.
pub open spec fn execution_time(game_time: u64, time_delay: u64) -> int {
    if time_delay == 0 {
        game_time + 1
    } else {
        game_time + time_delay
    }
}

/// The due tasks of `pending` that run no later than `last`.
pub open spec fn due_through(pending: Set<(u64, u64)>, game_time: u64, last: (u64, u64)) -> Set<(u64, u64)> {
    pending.filter(|x: (u64, u64)| is_due(x, game_time) && !runs_before(last, x))
}

/// The due tasks of `pending`.
pub open spec fn due_in(pending: Set<(u64, u64)>, game_time: u64) -> Set<(u64, u64)> {
    pending.filter(|x: (u64, u64)| is_due(x, game_time))
}

/// The time of the task with id `id` in `s`.
pub open spec fn time_of(s: Set<(u64, u64)>, id: u64) -> u64 {
    choose|t: u64| s.contains((t, id))
}

/// The ids of a set of tasks.
pub open spec fn ids_of(s: Set<(u64, u64)>) -> Set<u64> {
    Set::new(|id: u64| exists|t: u64| s.contains((t, id)))
}

/// No two tasks of `s` share an id.
pub open spec fn ids_unique(s: Set<(u64, u64)>) -> bool {
    forall|a: (u64, u64), b: (u64, u64)| #[trigger] s.contains(a) && #[trigger] s.contains(b) && a.1 == b.1 ==> a == b
}

impl Task {
    /// The id of the task, if any.
    pub closed spec fn id(&self) -> Option<u64> {
        self.0
    }

    /// A handle to no task.
    pub fn empty() -> (r: Self)
        ensures
            r.id() is None,
    {
        Task(None)
    }

    /// The id of the task, if any.
    pub fn task_id(&self) -> (r: Option<u64>)
        ensures
            r == self.id(),
    {
        self.0
    }

    /// Cancels the task: it will not run. The handle becomes empty. `requires` rules out an
    /// empty handle.
    pub fn cancel(&mut self, tasks: &mut TaskSystem)
        requires
            old(self).id() is Some,
            old(tasks).wf(),
        ensures
            final(self).id() is None,
            final(tasks).wf(),
            final(tasks).next_id() == old(tasks).next_id(),
            final(tasks).pending() == old(tasks).pending(),
            final(tasks).cancelled() == old(tasks).cancelled().insert(old(self).id()->Some_0),
    {
        let id = self.0.unwrap();
        self.0 = None;
        tasks.cancel_id(id);
    }
}

/// The scheduled tasks and the cancelled ids.
pub struct TaskSystem {
    next_id: u64,
    scheduled: Vec<(u64, u64)>,
    cancelled: HashSet<u64>,
}

impl TaskSystem {
    /// The id the next task gets.
    pub closed spec fn next_id(&self) -> u64 {
        self.next_id
    }

    /// The tasks not yet run, as (time, id).
    pub closed spec fn pending(&self) -> Set<(u64, u64)> {
        Set::new(|x: (u64, u64)| self.scheduled@.contains(x))
    }

    /// The ids of cancelled tasks.
    pub closed spec fn cancelled(&self) -> Set<u64> {
        self.cancelled@
    }

    /// The system's invariant: ids are positive, below the next id, and each names one task.
    pub closed spec fn wf(&self) -> bool {
        &&& self.next_id >= 1
        &&& forall|i: int| 0 <= i < self.scheduled@.len() ==> 1 <= (#[trigger] self.scheduled@[i]).1 < self.next_id
        &&& forall|i: int, j: int| 0 <= i < j < self.scheduled@.len() ==> (#[trigger] self.scheduled@[i]).1 != (#[trigger] self.scheduled@[j]).1
    }

    /// No task; the first id is 1.
    pub fn new() -> (r: Self)
        ensures
            r.wf(),
            r.next_id() == 1,
            r.pending() == Set::<(u64, u64)>::empty(),
            r.cancelled() == Set::<u64>::empty(),
    {
        let r = TaskSystem { next_id: 1, scheduled: Vec::new(), cancelled: HashSet::new() };
        proof {
            assert(r.pending() =~= Set::<(u64, u64)>::empty());
        }
        r
    }

    /// The id the next task gets.
    pub fn upcoming_id(&self) -> (r: u64)
        ensures
            r == self.next_id(),
    {
        self.next_id
    }

    /// Marks an id cancelled.
    fn cancel_id(&mut self, id: u64)
        requires
            old(self).wf(),
        ensures
            final(self).wf(),
            final(self).next_id() == old(self).next_id(),
            final(self).pending() == old(self).pending(),
            final(self).cancelled() == old(self).cancelled().insert(id),
    {
        self.cancelled.insert(id);
    }

    /// Schedules a task at `game_time` to run `time_delay` later (one unit later for a delay of
    /// zero), and gives its handle. `requires` rules out overflow on an id or a time past
    /// `u64::MAX`.
    pub fn schedule_task(&mut self, game_time: u64, time_delay: u64) -> (r: Task)
        requires
            old(self).wf(),
            old(self).next_id() < u64::MAX,
            execution_time(game_time, time_delay) <= u64::MAX,
        ensures
            final(self).wf(),
            r.id() == Some(old(self).next_id()),
            final(self).next_id() == old(self).next_id() + 1,
            final(self).pending() == old(self).pending().insert(
                (execution_time(game_time, time_delay) as u64, old(self).next_id()),
            ),
            final(self).cancelled() == old(self).cancelled(),
    {
        let id = self.next_id;
        self.next_id = id + 1;
        let time = if time_delay == 0 { game_time + 1 } else { game_time + time_delay };
        let ghost before = self.scheduled@;
        self.scheduled.push((time, id));
        proof {
            assert forall|x: (u64, u64)| #[trigger] self.pending().contains(x) == old(self).pending().insert((time, id)).contains(x) by {
                if x == (time, id) {
                    assert(self.scheduled@[before.len() as int] == x);
                } else if self.scheduled@.contains(x) {
                    let k = choose|k: int| 0 <= k < self.scheduled@.len() && self.scheduled@[k] == x;
                    assert(before[k] == x);
                } else if before.contains(x) {
                    let k = choose|k: int| 0 <= k < before.len() && before[k] == x;
                    assert(self.scheduled@[k] == x);
                }
            }
            assert(self.pending() =~= old(self).pending().insert((time, id)));
        }
        Task(Some(id))
    }

    /// Where the earliest due task (by time, then id) stands, if any is due.
    fn earliest_due(&self, game_time: u64) -> (r: Option<usize>)
        ensures
            match r {
                Some(i) => {
                    &&& i < self.scheduled@.len()
                    &&& is_due(self.scheduled@[i as int], game_time)
                    &&& forall|j: int| 0 <= j < self.scheduled@.len() && is_due(#[trigger] self.scheduled@[j], game_time)
                        ==> !runs_before(self.scheduled@[j], self.scheduled@[i as int])
                },
                None => forall|j: int| 0 <= j < self.scheduled@.len() ==> !is_due(#[trigger] self.scheduled@[j], game_time),
            },
    {
        let mut best: Option<usize> = None;
        let mut k: usize = 0;
        while k < self.scheduled.len()
            invariant
                k <= self.scheduled@.len(),
                match best {
                    Some(i) => {
                        &&& i < k
                        &&& is_due(self.scheduled@[i as int], game_time)
                        &&& forall|j: int| 0 <= j < k && is_due(#[trigger] self.scheduled@[j], game_time)
                            ==> !runs_before(self.scheduled@[j], self.scheduled@[i as int])
                    },
                    None => forall|j: int| 0 <= j < k ==> !is_due(#[trigger] self.scheduled@[j], game_time),
                },
            decreases self.scheduled@.len() - k,
        {
            let (t, id) = self.scheduled[k];
            if t <= game_time {
                match best {
                    None => {
                        best = Some(k);
                    },
                    Some(i) => {
                        let (bt, bid) = self.scheduled[i];
                        if t < bt || (t == bt && id < bid) {
                            best = Some(k);
                        }
                    },
                }
            }
            k = k + 1;
        }
        best
    }

    /// Takes out the task at `i`.
    fn take_at(&mut self, i: usize) -> (x: (u64, u64))
        requires
            old(self).wf(),
            i < old(self).scheduled@.len(),
        ensures
            final(self).wf(),
            x == old(self).scheduled@[i as int],
            old(self).pending().contains(x),
            final(self).pending() == old(self).pending().remove(x),
            final(self).next_id() == old(self).next_id(),
            final(self).cancelled() == old(self).cancelled(),
            final(self).scheduled@.len() + 1 == old(self).scheduled@.len(),
    {
        let ghost before = self.scheduled@;
        let x = self.scheduled.remove(i);
        proof {
            assert(before[i as int] == x);
            assert forall|y: (u64, u64)| #[trigger] self.pending().contains(y) == old(self).pending().remove(x).contains(y) by {
                if self.scheduled@.contains(y) {
                    let k = choose|k: int| 0 <= k < self.scheduled@.len() && self.scheduled@[k] == y;
                    let kk = if k < i { k } else { k + 1 };
                    assert(before[kk] == y);
                    assert(kk != i);
                    assert(y.1 != x.1);
                }
                if before.contains(y) && y != x {
                    let k = choose|k: int| 0 <= k < before.len() && before[k] == y;
                    assert(k != i);
                    if k < i {
                        assert(self.scheduled@[k] == y);
                    } else {
                        assert(self.scheduled@[k - 1] == y);
                    }
                }
            }
            assert(self.pending() =~= old(self).pending().remove(x));
            assert forall|a: int, c: int| 0 <= a < c < self.scheduled@.len() implies (#[trigger] self.scheduled@[a]).1 != (#[trigger] self.scheduled@[c]).1 by {
                let aa = if a < i { a } else { a + 1 };
                let cc = if c < i { c } else { c + 1 };
                assert(self.scheduled@[a] == before[aa]);
                assert(self.scheduled@[c] == before[cc]);
            }
            assert forall|a: int| 0 <= a < self.scheduled@.len() implies 1 <= (#[trigger] self.scheduled@[a]).1 < self.next_id by {
                let aa = if a < i { a } else { a + 1 };
                assert(self.scheduled@[a] == before[aa]);
            }
        }
        x
    }

    /// Hands out the next task to run at `game_time`: the earliest due task (by time, then id)
    /// that is not cancelled. The due tasks before it, all cancelled, are dropped together with
    /// their cancellation; with no such task, every due task is dropped so.
    pub fn next_due_task(&mut self, game_time: u64) -> (r: Option<u64>)
        requires
            old(self).wf(),
        ensures
            final(self).wf(),
            final(self).next_id() == old(self).next_id(),
            match r {
                Some(id) => {
                    let x = (time_of(old(self).pending(), id), id);
                    &&& old(self).pending().contains(x)
                    &&& is_due(x, game_time)
                    &&& !old(self).cancelled().contains(id)
                    &&& forall|y: (u64, u64)| #[trigger] old(self).pending().contains(y) && is_due(y, game_time)
                        && runs_before(y, x) ==> old(self).cancelled().contains(y.1)
                    &&& final(self).pending() == old(self).pending().difference(due_through(old(self).pending(), game_time, x))
                    &&& final(self).cancelled() == old(self).cancelled().difference(
                        ids_of(due_through(old(self).pending(), game_time, x)),
                    )
                },
                None => {
                    &&& forall|y: (u64, u64)| #[trigger] old(self).pending().contains(y) && is_due(y, game_time)
                        ==> old(self).cancelled().contains(y.1)
                    &&& final(self).pending() == old(self).pending().difference(due_in(old(self).pending(), game_time))
                    &&& final(self).cancelled() == old(self).cancelled().difference(ids_of(due_in(old(self).pending(), game_time)))
                },
            },
    {
        let ghost p0 = self.pending();
        let ghost c0 = self.cancelled();
        let ghost mut removed: Set<(u64, u64)> = Set::empty();
        proof {
            assert(p0.difference(removed) =~= p0);
            assert(ids_of(removed) =~= Set::<u64>::empty());
            assert(c0.difference(ids_of(removed)) =~= c0);
        }
        loop
            invariant
                self.wf(),
                self.next_id() == old(self).next_id(),
                p0 == old(self).pending(),
                c0 == old(self).cancelled(),
                ids_unique(p0),
                self.pending() == p0.difference(removed),
                self.cancelled() == c0.difference(ids_of(removed)),
                forall|y: (u64, u64)| #[trigger] removed.contains(y) ==> p0.contains(y) && is_due(y, game_time)
                    && c0.contains(y.1),
                forall|y: (u64, u64), z: (u64, u64)| #[trigger] removed.contains(z) && #[trigger] p0.contains(y)
                    && is_due(y, game_time) && !removed.contains(y) ==> runs_before(z, y),
            decreases self.scheduled@.len(),
        {
            proof {
                self.lemma_pending_ids();
            }
            match self.earliest_due(game_time) {
                None => {
                    proof {
                        assert forall|y: (u64, u64)| p0.contains(y) && is_due(y, game_time) implies #[trigger] removed.contains(y) by {
                            if !removed.contains(y) {
                                assert(self.pending().contains(y));
                                let k = choose|k: int| 0 <= k < self.scheduled@.len() && self.scheduled@[k] == y;
                                assert(!is_due(self.scheduled@[k], game_time));
                            }
                        }
                        assert(removed =~= due_in(p0, game_time));
                        assert forall|y: (u64, u64)| #[trigger] old(self).pending().contains(y) && is_due(y, game_time)
                            implies old(self).cancelled().contains(y.1) by {
                            assert(removed.contains(y));
                        }
                    }
                    return None;
                },
                Some(i) => {
                    let ghost pre = self.scheduled@;
                    let ghost pre_pending = self.pending();
                    let x = self.take_at(i);
                    let was_cancelled = self.cancelled.remove(&x.1);
                    proof {
                        assert(!removed.contains(x));
                        assert(!ids_of(removed).contains(x.1)) by {
                            if ids_of(removed).contains(x.1) {
                                let t = choose|t: u64| removed.contains((t, x.1));
                                assert(p0.contains((t, x.1)));
                            }
                        }
                        assert forall|id: u64| #[trigger] ids_of(removed.insert(x)).contains(id) == ids_of(removed).insert(x.1).contains(id) by {
                            if ids_of(removed.insert(x)).contains(id) && id != x.1 {
                                let t = choose|t: u64| removed.insert(x).contains((t, id));
                                assert(removed.contains((t, id)));
                            }
                            if id == x.1 {
                                assert(removed.insert(x).contains((x.0, id)));
                            }
                            if ids_of(removed).contains(id) {
                                let t = choose|t: u64| removed.contains((t, id));
                                assert(removed.insert(x).contains((t, id)));
                            }
                        }
                        assert(ids_of(removed.insert(x)) =~= ids_of(removed).insert(x.1));
                    }
                    if was_cancelled {
                        proof {
                            let old_removed = removed;
                            removed = removed.insert(x);
                            assert(self.pending() =~= p0.difference(removed));
                            assert(self.cancelled() =~= c0.difference(ids_of(removed)));
                            assert forall|y: (u64, u64), z: (u64, u64)| #[trigger] removed.contains(z) && #[trigger] p0.contains(y)
                                && is_due(y, game_time) && !removed.contains(y) implies runs_before(z, y) by {
                                if z == x {
                                    assert(old(self).pending().contains(y));
                                    assert(self.pending().contains(y));
                                }
                            }
                        }
                        continue;
                    } else {
                        proof {
                            let d = due_through(p0, game_time, x);
                            assert forall|y: (u64, u64)| #[trigger] d.contains(y) == removed.insert(x).contains(y) by {
                                if removed.contains(y) {
                                    assert(runs_before(y, x));
                                }
                                if d.contains(y) && !removed.contains(y) && y != x {
                                    assert(pre_pending.contains(y));
                                    let k = choose|k: int| 0 <= k < pre.len() && pre[k] == y;
                                    assert(is_due(pre[k], game_time));
                                    assert(!runs_before(pre[k], pre[i as int]));
                                    assert(y.1 != x.1);
                                }
                            }
                            assert(d =~= removed.insert(x));
                            assert(self.pending() =~= p0.difference(d));
                            assert(self.cancelled() =~= c0.difference(ids_of(d)));
                            assert(old(self).pending().contains((x.0, x.1)));
                            let t = time_of(old(self).pending(), x.1);
                            assert(old(self).pending().contains((t, x.1)));
                            assert(t == x.0);
                            assert(!old(self).cancelled().contains(x.1));
                            assert forall|y: (u64, u64)| #[trigger] old(self).pending().contains(y) && is_due(y, game_time)
                                && runs_before(y, (x.0, x.1)) implies old(self).cancelled().contains(y.1) by {
                                if !removed.contains(y) {
                                    assert(pre_pending.contains(y));
                                    let k = choose|k: int| 0 <= k < pre.len() && pre[k] == y;
                                    assert(!runs_before(pre[k], pre[i as int]));
                                }
                            }
                        }
                        return Some(x.1);
                    }
                },
            }
        }
    }

    /// No two pending tasks share an id.
    proof fn lemma_pending_ids(&self)
        requires
            self.wf(),
        ensures
            ids_unique(self.pending()),
    {
        assert forall|a: (u64, u64), b: (u64, u64)| #[trigger] self.pending().contains(a) && #[trigger] self.pending().contains(b)
            && a.1 == b.1 implies a == b by {
            let i = choose|i: int| 0 <= i < self.scheduled@.len() && self.scheduled@[i] == a;
            let j = choose|j: int| 0 <= j < self.scheduled@.len() && self.scheduled@[j] == b;
            if i < j {
                assert(self.scheduled@[i].1 != self.scheduled@[j].1);
            } else if j < i {
                assert(self.scheduled@[j].1 != self.scheduled@[i].1);
            }
        }
    }
}

} // verus!
