//! The scheduler: two tables of tasks, a clock, and the poll that calls what
//! is due.

use vstd::prelude::*;
use core::time::Duration;
use crate::tables::{Tables, MAX_ONE_OFF_TASKS, MAX_PERIODIC_TASKS};
use crate::task::{
    find_free, fired, fired_before, fires_at, last_fired, lemma_fired_before_grows,
    lemma_pass_ignores_later_reads, one_off_after, periodic_after, ScheduledTask,
};
use crate::ticks::{advance, ticks_after};

verus! {

/// Whether every reading in `reads` is a value that `clock` may return.
pub open spec fn clock_gave<N: Fn() -> u32>(clock: N, reads: Seq<u32>) -> bool {
    forall|k: int| 0 <= k < reads.len() ==> call_ensures(clock, (), #[trigger] reads[k])
}

/// A scheduler whose clock, converter and tasks are plain functions.
pub type PlainTaskHandler = TaskHandler<fn(), fn() -> u32, fn(Duration) -> u32>;

/// A cooperative scheduler of fixed capacity.
///
/// It holds up to [`MAX_PERIODIC_TASKS`] repeating tasks and up to
/// [`MAX_ONE_OFF_TASKS`] one-off tasks in two tables of slots, and allocates
/// nothing. Nothing runs by itself: the host calls [`TaskHandler::update`]
/// from its main loop, and each call runs the tasks that are due.
///
/// Time is what the clock `N` returns, a tick counter that may wrap; the
/// converter `D` turns the durations given at registration into ticks. `F`
/// is the type of the tasks: a function to call, copied into a slot.
pub struct TaskHandler<F: Fn() + Copy, N: Fn() -> u32, D: Fn(Duration) -> u32> {
    periodic_tasks: [Option<ScheduledTask<F>>; MAX_PERIODIC_TASKS],
    one_off_tasks: [Option<ScheduledTask<F>>; MAX_ONE_OFF_TASKS],
    one_off_index: usize,
    now: N,
    duration_to_count: D,
}

impl<F: Fn() + Copy, N: Fn() -> u32, D: Fn(Duration) -> u32> View for TaskHandler<F, N, D> {
    type V = Tables<F>;

    closed spec fn view(&self) -> Tables<F> {
        Tables {
            periodic: self.periodic_tasks@,
            one_off: self.one_off_tasks@,
            cursor: self.one_off_index as int,
        }
    }
}

impl<F: Fn() + Copy, N: Fn() -> u32, D: Fn(Duration) -> u32> TaskHandler<F, N, D> {
    /// The cursor points at a slot, and the clock, the converter and every
    /// task held may be called.
    #[verifier::type_invariant]
    spec fn inv(self) -> bool {
        &&& self.one_off_index < MAX_ONE_OFF_TASKS
        &&& call_requires(self.now, ())
        &&& forall|d: Duration| call_requires(self.duration_to_count, (d,))
        &&& forall|i: int|
            0 <= i < MAX_PERIODIC_TASKS ==> (#[trigger] self.periodic_tasks@[i] matches Some(t)
                ==> call_requires(t.callback, ()))
        &&& forall|i: int|
            0 <= i < MAX_ONE_OFF_TASKS ==> (#[trigger] self.one_off_tasks@[i] matches Some(t)
                ==> call_requires(t.callback, ()))
    }

    /// The clock that the scheduler reads.
    pub closed spec fn clock(&self) -> N {
        self.now
    }

    /// The function by which the scheduler turns a duration into ticks.
    pub closed spec fn converter(&self) -> D {
        self.duration_to_count
    }

    /// Makes a scheduler that reads the time from `now` and turns durations
    /// into ticks with `duration_to_count`. It holds no task, and its cursor
    /// is on the first one-off slot.
    pub fn new(now: N, duration_to_count: D) -> (handler: Self)
        requires
            call_requires(now, ()),
            forall|d: Duration| call_requires(duration_to_count, (d,)),
        ensures
            handler.clock() == now,
            handler.converter() == duration_to_count,
            handler@ == Tables::<F>::empty(),
            handler@.wf(),
    {
        let handler = Self {
            periodic_tasks: [None; MAX_PERIODIC_TASKS],
            one_off_tasks: [None; MAX_ONE_OFF_TASKS],
            one_off_index: 0,
            now,
            duration_to_count,
        };
        proof {
            assert(handler.periodic_tasks@ =~= Tables::<F>::empty().periodic);
            assert(handler.one_off_tasks@ =~= Tables::<F>::empty().one_off);
        }
        handler
    }

    /// The task that waits in slot `slot` of the periodic table, if `slot`
    /// is one of its slots and holds a task.
    pub fn periodic_task(&self, slot: usize) -> (task: Option<ScheduledTask<F>>)
        ensures
            self@.wf(),
            slot < MAX_PERIODIC_TASKS ==> task == self@.periodic[slot as int],
            slot >= MAX_PERIODIC_TASKS ==> task is None,
    {
        proof {
            use_type_invariant(self);
        }
        if slot < MAX_PERIODIC_TASKS {
            self.periodic_tasks[slot]
        } else {
            None
        }
    }

    /// The task that waits in slot `slot` of the one-off table, if `slot` is
    /// one of its slots and holds a task.
    pub fn one_off_task(&self, slot: usize) -> (task: Option<ScheduledTask<F>>)
        ensures
            self@.wf(),
            slot < MAX_ONE_OFF_TASKS ==> task == self@.one_off[slot as int],
            slot >= MAX_ONE_OFF_TASKS ==> task is None,
    {
        proof {
            use_type_invariant(self);
        }
        if slot < MAX_ONE_OFF_TASKS {
            self.one_off_tasks[slot]
        } else {
            None
        }
    }

    /// The one-off slot that the next one-off task is offered first.
    pub fn one_off_cursor(&self) -> (slot: usize)
        ensures
            self@.wf(),
            slot == self@.cursor,
    {
        proof {
            use_type_invariant(self);
        }
        self.one_off_index
    }

    /// Registers `task` to be called every `period`, first one period from
    /// now. It goes to the lowest free slot of the periodic table. When the
    /// table is full the call changes nothing.
    pub fn schedule_periodic(&mut self, task: F, period: Duration)
        requires
            call_requires(task, ()),
        ensures
            final(self).clock() == old(self).clock(),
            final(self).converter() == old(self).converter(),
            old(self)@.wf(),
            final(self)@.wf(),
            old(self)@.periodic_target() is None ==> final(self)@ == old(self)@,
            old(self)@.periodic_target() is Some ==> exists|start: u32, ticks: u32|
                {
                    &&& call_ensures(old(self).clock(), (), start)
                    &&& call_ensures(old(self).converter(), (period,), ticks)
                    &&& final(self)@ == #[trigger] old(self)@.add_periodic(
                        ScheduledTask { callback: task, start, interval: ticks },
                    )
                },
    {
        proof {
            use_type_invariant(&*self);
        }
        let ticks: u32 = (self.duration_to_count)(period);
        match find_free(&self.periodic_tasks) {
            Some(i) => {
                let start: u32 = (self.now)();
                let entry = ScheduledTask { callback: task, start, interval: ticks };
                self.periodic_tasks[i] = Some(entry);
                proof {
                    assert(self.periodic_tasks@ =~= old(self)@.periodic.update(i as int, Some(entry)));
                    assert(self@ == old(self)@.add_periodic(entry));
                }
            },
            None => {},
        }
    }

    /// Registers `task` to be called every `period`, with a first wait that
    /// is taken to begin `delay` from now: left alone until then, the task is
    /// first called `delay` plus `period` from now. A poll that comes before
    /// the wait has begun measures it modulo the counter's range, finds it
    /// long over and calls the task at once.
    ///
    /// The task goes to the lowest free slot of the periodic table. When the
    /// table is full the call changes nothing.
    pub fn schedule_periodic_delayed(&mut self, task: F, period: Duration, delay: Duration)
        requires
            call_requires(task, ()),
        ensures
            final(self).clock() == old(self).clock(),
            final(self).converter() == old(self).converter(),
            old(self)@.wf(),
            final(self)@.wf(),
            old(self)@.periodic_target() is None ==> final(self)@ == old(self)@,
            old(self)@.periodic_target() is Some ==> exists|now: u32, wait: u32, ticks: u32|
                {
                    &&& call_ensures(old(self).clock(), (), now)
                    &&& call_ensures(old(self).converter(), (delay,), wait)
                    &&& call_ensures(old(self).converter(), (period,), ticks)
                    &&& final(self)@ == #[trigger] old(self)@.add_periodic(
                        ScheduledTask {
                            callback: task,
                            start: ticks_after(now, wait as int),
                            interval: ticks,
                        },
                    )
                },
    {
        proof {
            use_type_invariant(&*self);
        }
        let ticks: u32 = (self.duration_to_count)(period);
        match find_free(&self.periodic_tasks) {
            Some(i) => {
                let now: u32 = (self.now)();
                let wait: u32 = (self.duration_to_count)(delay);
                let entry = ScheduledTask { callback: task, start: advance(now, wait), interval: ticks };
                self.periodic_tasks[i] = Some(entry);
                proof {
                    assert(self.periodic_tasks@ =~= old(self)@.periodic.update(i as int, Some(entry)));
                    assert(self@ == old(self)@.add_periodic(entry));
                }
            },
            None => {},
        }
    }

    /// Registers `task` to be called once, `wait` from now. It goes to the
    /// slot under the cursor when that is free, else to the lowest free slot
    /// of the one-off table. When the table is full the call changes nothing.
    pub fn schedule_one_off(&mut self, task: F, wait: Duration)
        requires
            call_requires(task, ()),
        ensures
            final(self).clock() == old(self).clock(),
            final(self).converter() == old(self).converter(),
            old(self)@.wf(),
            final(self)@.wf(),
            old(self)@.one_off_target() is None ==> final(self)@ == old(self)@,
            old(self)@.one_off_target() is Some ==> exists|start: u32, ticks: u32|
                {
                    &&& call_ensures(old(self).clock(), (), start)
                    &&& call_ensures(old(self).converter(), (wait,), ticks)
                    &&& final(self)@ == #[trigger] old(self)@.add_one_off(
                        ScheduledTask { callback: task, start, interval: ticks },
                    )
                },
    {
        proof {
            use_type_invariant(&*self);
        }
        let ticks: u32 = (self.duration_to_count)(wait);
        let target: Option<usize> = if self.one_off_tasks[self.one_off_index].is_none() {
            Some(self.one_off_index)
        } else {
            find_free(&self.one_off_tasks)
        };
        match target {
            Some(i) => {
                let start: u32 = (self.now)();
                let entry = ScheduledTask { callback: task, start, interval: ticks };
                self.one_off_tasks[i] = Some(entry);
                proof {
                    assert(self.one_off_tasks@ =~= old(self)@.one_off.update(i as int, Some(entry)));
                    assert(self@ == old(self)@.add_one_off(entry));
                }
            },
            None => {},
        }
    }

    /// Polls the scheduler: reads the clock, then passes over the periodic
    /// table and the one-off table in slot order and calls every task that is
    /// due by the latest reading, reading the clock again after each call. A
    /// repeating task that was called waits anew from that fresh reading; a
    /// one-off task that was called leaves its slot, and the cursor moves to
    /// that slot.
    pub fn update(&mut self)
        ensures
            final(self).clock() == old(self).clock(),
            final(self).converter() == old(self).converter(),
            old(self)@.wf(),
            final(self)@.wf(),
            exists|reads: Seq<u32>|
                {
                    &&& clock_gave(old(self).clock(), reads)
                    &&& reads.len() == old(self)@.readings_taken(reads)
                    &&& final(self)@ == #[trigger] old(self)@.poll(reads)
                },
    {
        let ghost before = self@;
        proof {
            use_type_invariant(&*self);
        }
        let mut now: u32 = (self.now)();
        let ghost mut reads: Seq<u32> = seq![now];
        let mut i: usize = 0;
        while i < MAX_PERIODIC_TASKS
            invariant
                0 <= i <= MAX_PERIODIC_TASKS,
                before == old(self)@,
                before.periodic.len() == MAX_PERIODIC_TASKS,
                before.one_off.len() == MAX_ONE_OFF_TASKS,
                self.now == old(self).now,
                self.duration_to_count == old(self).duration_to_count,
                self.one_off_tasks@ == before.one_off,
                self.one_off_index == before.cursor,
                reads.len() == 1 + fired_before(before.periodic, i as int, reads),
                reads.len() >= 1,
                now == reads[reads.len() - 1],
                forall|k: int| 0 <= k < reads.len() ==> call_ensures(self.now, (), #[trigger] reads[k]),
                forall|j: int|
                    0 <= j < i ==> self.periodic_tasks@[j] == #[trigger] periodic_after(
                        before.periodic,
                        reads,
                    )[j],
                forall|j: int|
                    i <= j < MAX_PERIODIC_TASKS ==> #[trigger] self.periodic_tasks@[j]
                        == before.periodic[j],
            decreases MAX_PERIODIC_TASKS - i,
        {
            proof {
                use_type_invariant(&*self);
                lemma_fired_before_grows(before.periodic, 0, i as int, reads);
            }
            let firing: Option<ScheduledTask<F>> = match &self.periodic_tasks[i] {
                Some(task) => if task.is_due_at(now) {
                    Some(*task)
                } else {
                    None
                },
                None => None,
            };
            if let Some(task) = firing {
                assert(fires_at(before.periodic, i as int, reads));
                (task.callback)();
                now = (self.now)();
                let ghost seen = reads;
                proof {
                    reads = reads.push(now);
                    lemma_pass_ignores_later_reads(before.periodic, i as int, seen, reads);
                    assert(fired_before(before.periodic, i as int, reads) == seen.len() - 1);
                    assert(reads[seen.len() - 1] == seen[seen.len() - 1]);
                    assert(fires_at(before.periodic, i as int, reads));
                }
                self.periodic_tasks[i] = Some(
                    ScheduledTask { callback: task.callback, start: now, interval: task.interval },
                );
            } else {
                assert(!fires_at(before.periodic, i as int, reads));
            }
            i += 1;
        }
        let ghost first = fired(before.periodic, reads);
        proof {
            lemma_fired_before_grows(before.periodic, 0, MAX_PERIODIC_TASKS as int, reads);
            assert(self.periodic_tasks@ =~= periodic_after(before.periodic, reads));
            assert(reads.skip(first).len() == reads.len() - first);
        }
        let mut i: usize = 0;
        while i < MAX_ONE_OFF_TASKS
            invariant
                0 <= i <= MAX_ONE_OFF_TASKS,
                before == old(self)@,
                before.periodic.len() == MAX_PERIODIC_TASKS,
                before.one_off.len() == MAX_ONE_OFF_TASKS,
                self.now == old(self).now,
                self.duration_to_count == old(self).duration_to_count,
                self.periodic_tasks@ == periodic_after(before.periodic, reads),
                0 <= first == fired(before.periodic, reads),
                reads.len() == 1 + first + fired_before(before.one_off, i as int, reads.skip(first)),
                reads.len() >= 1,
                now == reads[reads.len() - 1],
                forall|k: int| 0 <= k < reads.len() ==> call_ensures(self.now, (), #[trigger] reads[k]),
                forall|j: int|
                    0 <= j < i ==> self.one_off_tasks@[j] == #[trigger] one_off_after(
                        before.one_off,
                        reads.skip(first),
                    )[j],
                forall|j: int|
                    i <= j < MAX_ONE_OFF_TASKS ==> #[trigger] self.one_off_tasks@[j]
                        == before.one_off[j],
                self.one_off_index as int == match last_fired(
                    before.one_off,
                    i as int,
                    reads.skip(first),
                ) {
                    Some(slot) => slot,
                    None => before.cursor,
                },
            decreases MAX_ONE_OFF_TASKS - i,
        {
            proof {
                use_type_invariant(&*self);
                lemma_fired_before_grows(before.one_off, 0, i as int, reads.skip(first));
                assert(reads.skip(first)[reads.len() - 1 - first] == now);
            }
            let firing: Option<F> = match &self.one_off_tasks[i] {
                Some(task) => if task.is_due_at(now) {
                    Some(task.callback)
                } else {
                    None
                },
                None => None,
            };
            if let Some(callback) = firing {
                assert(fires_at(before.one_off, i as int, reads.skip(first)));
                callback();
                self.one_off_tasks[i] = None;
                self.one_off_index = i;
                now = (self.now)();
                let ghost seen = reads;
                proof {
                    reads = reads.push(now);
                    lemma_pass_ignores_later_reads(
                        before.periodic,
                        MAX_PERIODIC_TASKS as int,
                        seen,
                        reads,
                    );
                    assert(self.periodic_tasks@ =~= periodic_after(before.periodic, reads));
                    assert(reads.skip(first) =~= seen.skip(first).push(now));
                    lemma_pass_ignores_later_reads(
                        before.one_off,
                        i as int,
                        seen.skip(first),
                        reads.skip(first),
                    );
                    assert(fired_before(before.one_off, i as int, reads.skip(first)) == seen.len()
                        - first - 1);
                    assert(reads.skip(first)[seen.len() - first - 1] == seen.skip(first)[seen.len()
                        - first - 1]);
                    assert(fires_at(before.one_off, i as int, reads.skip(first)));
                }
            } else {
                assert(!fires_at(before.one_off, i as int, reads.skip(first)));
            }
            i += 1;
        }
        proof {
            use_type_invariant(&*self);
            assert(self.one_off_tasks@ =~= one_off_after(before.one_off, reads.skip(first)));
            assert(self@ == before.poll(reads));
            assert(clock_gave(old(self).clock(), reads));
            assert(reads.len() == before.readings_taken(reads));
        }
    }
}

} // verus!
