//! Scheduled tasks and the tables of slots that hold them.
//!
//! A table is a fixed row of slots, each empty or holding one task. The
//! functions here describe, on sequences of slots, where a new task goes and
//! what one pass over a table does to it.

use vstd::prelude::*;
use crate::ticks::{due, is_due};

verus! {

/// A task waiting in a slot: what to call, when its present wait began, and
/// how many ticks the wait lasts.
#[derive(Clone, Copy)]
pub struct ScheduledTask<F> {
    pub callback: F,
    pub start: u32,
    pub interval: u32,
}

impl<F> ScheduledTask<F> {
    /// Whether the task's wait is over when the clock reads `now`.
    pub open spec fn due_at(self, now: u32) -> bool {
        due(now, self.start, self.interval)
    }

    /// The same task with a wait that begins at `now`.
    pub open spec fn restarted(self, now: u32) -> Self {
        ScheduledTask { callback: self.callback, start: now, interval: self.interval }
    }

    /// Decides whether the task's wait is over when the clock reads `now`.
    pub fn is_due_at(&self, now: u32) -> (d: bool)
        ensures
            d == self.due_at(now),
    {
        is_due(now, self.start, self.interval)
    }
}

/// Whether `i` is a slot of `slots` that holds no task.
pub open spec fn is_free<F>(slots: Seq<Option<ScheduledTask<F>>>, i: int) -> bool {
    0 <= i < slots.len() && slots[i] is None
}

/// The lowest free slot of `slots` at or after `from`, if there is one.
pub open spec fn first_free_from<F>(slots: Seq<Option<ScheduledTask<F>>>, from: int) -> Option<int>
    decreases slots.len() - from,
{
    if from < 0 || from >= slots.len() {
        None
    } else if slots[from] is None {
        Some(from)
    } else {
        first_free_from(slots, from + 1)
    }
}

/// The lowest free slot of `slots`, if there is one.
pub open spec fn first_free<F>(slots: Seq<Option<ScheduledTask<F>>>) -> Option<int> {
    first_free_from(slots, 0)
}

/// Finds the lowest free slot of a table.
pub fn find_free<F, const N: usize>(slots: &[Option<ScheduledTask<F>>; N]) -> (found: Option<usize>)
    ensures
        found matches Some(i) ==> i < N && first_free(slots@) == Some(i as int),
        found is None ==> first_free(slots@) is None,
{
    let mut i: usize = 0;
    while i < N
        invariant
            0 <= i <= N,
            slots@.len() == N,
            first_free(slots@) == first_free_from(slots@, i as int),
        decreases N - i,
    {
        if slots[i].is_none() {
            return Some(i);
        }
        i += 1;
    }
    None
}

/// The number of tasks held in the first `upto` slots of `slots`.
pub open spec fn occupied<F>(slots: Seq<Option<ScheduledTask<F>>>, upto: int) -> int
    decreases upto,
{
    if upto <= 0 {
        0
    } else {
        occupied(slots, upto - 1) + if slots[upto - 1] is Some { 1int } else { 0int }
    }
}

/// The number of tasks, among the first `upto` slots, that fire in one pass
/// over `slots`. `reads` holds the clock's readings during the pass: the one
/// the pass begins with, then one taken after each firing. A slot is judged
/// by the latest reading taken before the pass reaches it.
pub open spec fn fired_before<F>(
    slots: Seq<Option<ScheduledTask<F>>>,
    upto: int,
    reads: Seq<u32>,
) -> int
    decreases upto,
{
    if upto <= 0 {
        0
    } else {
        let k = fired_before(slots, upto - 1, reads);
        if slots[upto - 1] matches Some(t) && t.due_at(reads[k]) {
            k + 1
        } else {
            k
        }
    }
}

/// Whether the task in slot `i` fires in one pass over `slots` with the
/// clock's readings `reads`: the slot holds a task, and the task is due at
/// the latest reading taken before the pass reaches the slot.
pub open spec fn fires_at<F>(slots: Seq<Option<ScheduledTask<F>>>, i: int, reads: Seq<u32>) -> bool {
    &&& 0 <= i < slots.len()
    &&& slots[i] matches Some(t)
    &&& t.due_at(reads[fired_before(slots, i, reads)])
}

/// The number of tasks that fire in one pass over all of `slots`.
pub open spec fn fired<F>(slots: Seq<Option<ScheduledTask<F>>>, reads: Seq<u32>) -> int {
    fired_before(slots, slots.len() as int, reads)
}

/// A table of repeating tasks after one pass: a task that fired waits anew
/// from the reading taken after its callback returned, all else is as it was.
pub open spec fn periodic_after<F>(
    slots: Seq<Option<ScheduledTask<F>>>,
    reads: Seq<u32>,
) -> Seq<Option<ScheduledTask<F>>> {
    Seq::new(
        slots.len(),
        |i: int|
            if fires_at(slots, i, reads) {
                Some(slots[i]->0.restarted(reads[fired_before(slots, i, reads) + 1]))
            } else {
                slots[i]
            },
    )
}

/// A table of one-off tasks after one pass: the slot of a task that fired is
/// empty, all else is as it was.
pub open spec fn one_off_after<F>(
    slots: Seq<Option<ScheduledTask<F>>>,
    reads: Seq<u32>,
) -> Seq<Option<ScheduledTask<F>>> {
    Seq::new(
        slots.len(),
        |i: int|
            if fires_at(slots, i, reads) {
                None
            } else {
                slots[i]
            },
    )
}

/// The highest slot among the first `upto` whose task fires in one pass over
/// `slots`, if any does.
pub open spec fn last_fired<F>(
    slots: Seq<Option<ScheduledTask<F>>>,
    upto: int,
    reads: Seq<u32>,
) -> Option<int>
    decreases upto,
{
    if upto <= 0 {
        None
    } else if fires_at(slots, upto - 1, reads) {
        Some(upto - 1)
    } else {
        last_fired(slots, upto - 1, reads)
    }
}

/// Whether `a` is the beginning of `b`.
pub open spec fn begins<A>(a: Seq<A>, b: Seq<A>) -> bool {
    &&& a.len() <= b.len()
    &&& forall|k: int| 0 <= k < a.len() ==> a[k] == b[k]
}

/// No more tasks fire among the first slots than there are slots, and the
/// count does not fall as more slots are taken in.
pub proof fn lemma_fired_before_grows<F>(
    slots: Seq<Option<ScheduledTask<F>>>,
    j: int,
    upto: int,
    reads: Seq<u32>,
)
    requires
        0 <= j <= upto,
    ensures
        0 <= fired_before(slots, j, reads) <= j,
        fired_before(slots, j, reads) <= fired_before(slots, upto, reads),
        fired_before(slots, upto, reads) <= upto,
    decreases upto,
{
    if upto > 0 {
        if j < upto {
            lemma_fired_before_grows(slots, j, upto - 1, reads);
        } else {
            lemma_fired_before_grows(slots, j - 1, upto - 1, reads);
        }
    }
}

/// A pass reads the clock in order and never looks ahead: what it does to
/// the first `upto` slots depends only on the readings taken until it has
/// dealt with them. So if `a` holds all of those, any longer run of readings
/// `b` that begins with `a` gives the same outcome on these slots.
pub proof fn lemma_pass_ignores_later_reads<F>(
    slots: Seq<Option<ScheduledTask<F>>>,
    upto: int,
    a: Seq<u32>,
    b: Seq<u32>,
)
    requires
        0 <= upto <= slots.len(),
        begins(a, b),
        fired_before(slots, upto, a) < a.len(),
    ensures
        forall|j: int|
            0 <= j <= upto ==> #[trigger] fired_before(slots, j, b) == fired_before(slots, j, a),
        forall|j: int| 0 <= j < upto ==> #[trigger] fires_at(slots, j, b) == fires_at(slots, j, a),
        forall|j: int|
            0 <= j < upto ==> #[trigger] periodic_after(slots, b)[j] == periodic_after(slots, a)[j],
        forall|j: int|
            0 <= j < upto ==> #[trigger] one_off_after(slots, b)[j] == one_off_after(slots, a)[j],
        forall|j: int|
            0 <= j <= upto ==> #[trigger] last_fired(slots, j, b) == last_fired(slots, j, a),
    decreases upto,
{
    if upto > 0 {
        lemma_fired_before_grows(slots, upto - 1, upto, a);
        lemma_pass_ignores_later_reads(slots, upto - 1, a, b);
        let k = fired_before(slots, upto - 1, a);
        assert(fired_before(slots, upto - 1, b) == k);
        assert(a[k] == b[k]);
        assert(fires_at(slots, upto - 1, b) == fires_at(slots, upto - 1, a));
        assert(fired_before(slots, upto, b) == fired_before(slots, upto, a));
        if fires_at(slots, upto - 1, a) {
            assert(a[k + 1] == b[k + 1]);
        }
        assert(periodic_after(slots, b)[upto - 1] == periodic_after(slots, a)[upto - 1]);
        assert(one_off_after(slots, b)[upto - 1] == one_off_after(slots, a)[upto - 1]);
        assert(last_fired(slots, upto - 1, b) == last_fired(slots, upto - 1, a));
        assert(last_fired(slots, upto, b) == last_fired(slots, upto, a));
    }
}

} // verus!
