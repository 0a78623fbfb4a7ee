//! The scheduler's state as a mathematical value.

use vstd::prelude::*;
use crate::task::{
    fired, first_free, last_fired, one_off_after, periodic_after, ScheduledTask,
};

verus! {

/// The number of repeating tasks a scheduler can hold.
pub const MAX_PERIODIC_TASKS: usize = 32;

/// The number of one-off tasks a scheduler can hold at one time.
pub const MAX_ONE_OFF_TASKS: usize = 64;

/// The two tables of a scheduler and the slot that the next one-off task is
/// offered first.
pub struct Tables<F> {
    pub periodic: Seq<Option<ScheduledTask<F>>>,
    pub one_off: Seq<Option<ScheduledTask<F>>>,
    pub cursor: int,
}

impl<F> Tables<F> {
    /// The shape that the tables of a scheduler always have: each table has
    /// its full number of slots, and the cursor points at a one-off slot.
    pub open spec fn wf(self) -> bool {
        &&& self.periodic.len() == MAX_PERIODIC_TASKS
        &&& self.one_off.len() == MAX_ONE_OFF_TASKS
        &&& 0 <= self.cursor < MAX_ONE_OFF_TASKS
    }

    /// The tables of a scheduler that holds no task, the cursor on the first
    /// slot.
    pub open spec fn empty() -> Self {
        Tables {
            periodic: Seq::new(MAX_PERIODIC_TASKS as nat, |i: int| None),
            one_off: Seq::new(MAX_ONE_OFF_TASKS as nat, |i: int| None),
            cursor: 0,
        }
    }

    /// The slot that a new repeating task goes to: the lowest free one.
    /// `None` when the table is full.
    pub open spec fn periodic_target(self) -> Option<int> {
        first_free(self.periodic)
    }

    /// The slot that a new one-off task goes to: the one under the cursor
    /// when that is free, else the lowest free one. `None` when the table is
    /// full.
    pub open spec fn one_off_target(self) -> Option<int> {
        if 0 <= self.cursor < self.one_off.len() && self.one_off[self.cursor] is None {
            Some(self.cursor)
        } else {
            first_free(self.one_off)
        }
    }

    /// The tables after `task` was offered as a repeating task: it stands in
    /// its target slot, or, with the table full, nothing has changed.
    pub open spec fn add_periodic(self, task: ScheduledTask<F>) -> Self {
        match self.periodic_target() {
            Some(i) => Tables {
                periodic: self.periodic.update(i, Some(task)),
                one_off: self.one_off,
                cursor: self.cursor,
            },
            None => self,
        }
    }

    /// The tables after `task` was offered as a one-off task: it stands in
    /// its target slot, or, with the table full, nothing has changed. The
    /// cursor stays where it was.
    pub open spec fn add_one_off(self, task: ScheduledTask<F>) -> Self {
        match self.one_off_target() {
            Some(i) => Tables {
                periodic: self.periodic,
                one_off: self.one_off.update(i, Some(task)),
                cursor: self.cursor,
            },
            None => self,
        }
    }

    /// The clock's readings that the one-off table's pass works with, when
    /// `reads` are the readings of a whole poll: the periodic table's pass
    /// has used up one reading for each task it fired.
    pub open spec fn one_off_reads(self, reads: Seq<u32>) -> Seq<u32> {
        reads.skip(fired(self.periodic, reads))
    }

    /// The number of times a poll reads the clock, when `reads` are its
    /// readings: once at the start and once after each firing.
    pub open spec fn readings_taken(self, reads: Seq<u32>) -> int {
        1 + fired(self.periodic, reads) + fired(self.one_off, self.one_off_reads(reads))
    }

    /// The tables after one poll during which the clock gave the readings
    /// `reads`, in this order. The periodic table is passed over first, then
    /// the one-off table. The cursor ends on the last one-off slot that
    /// fired, and stays where it was when none did.
    pub open spec fn poll(self, reads: Seq<u32>) -> Self {
        let rest = self.one_off_reads(reads);
        Tables {
            periodic: periodic_after(self.periodic, reads),
            one_off: one_off_after(self.one_off, rest),
            cursor: match last_fired(self.one_off, self.one_off.len() as int, rest) {
                Some(i) => i,
                None => self.cursor,
            },
        }
    }

    /// The tables after the tasks of `tasks` were offered as repeating
    /// tasks, one after the other.
    pub open spec fn add_all_periodic(self, tasks: Seq<ScheduledTask<F>>) -> Self
        decreases tasks.len(),
    {
        if tasks.len() == 0 {
            self
        } else {
            self.add_all_periodic(tasks.drop_last()).add_periodic(tasks.last())
        }
    }

    /// The tables after the tasks of `tasks` were offered as one-off tasks,
    /// one after the other.
    pub open spec fn add_all_one_off(self, tasks: Seq<ScheduledTask<F>>) -> Self
        decreases tasks.len(),
    {
        if tasks.len() == 0 {
            self
        } else {
            self.add_all_one_off(tasks.drop_last()).add_one_off(tasks.last())
        }
    }

    /// The tables after one poll for each entry of `runs`, in order, each
    /// entry holding the clock's readings during its poll.
    pub open spec fn poll_all(self, runs: Seq<Seq<u32>>) -> Self
        decreases runs.len(),
    {
        if runs.len() == 0 {
            self
        } else {
            self.poll_all(runs.drop_last()).poll(runs.last())
        }
    }
}

} // verus!
