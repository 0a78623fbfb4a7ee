//! What holds of the scheduler's tables, whatever tasks they hold.
//!
//! The statements here are about the mathematical values that the contracts
//! of [`crate::handler::TaskHandler`] speak of: the tables before and after a
//! registration or a poll, and the readings of the clock during a poll.

use vstd::prelude::*;
use crate::tables::{Tables, MAX_ONE_OFF_TASKS, MAX_PERIODIC_TASKS};
use crate::task::{
    fired_before, fires_at, first_free, first_free_from, is_free, last_fired, occupied,
    one_off_after, periodic_after, ScheduledTask,
};
use crate::ticks::{lemma_due_after, lemma_due_after_delay, tick_range, ticks_after};

verus! {

/// From `from` on, the slot found is free and no slot below it is; when none
/// is found, none is free.
pub proof fn lemma_first_free_from<F>(slots: Seq<Option<ScheduledTask<F>>>, from: int)
    requires
        0 <= from <= slots.len(),
    ensures
        first_free_from(slots, from) matches Some(i) ==> from <= i && is_free(slots, i) && forall|
            j: int,
        | from <= j < i ==> !is_free(slots, j),
        first_free_from(slots, from) is None ==> forall|j: int| from <= j ==> !is_free(slots, j),
    decreases slots.len() - from,
{
    if from < slots.len() && slots[from] is Some {
        lemma_first_free_from(slots, from + 1);
    }
}

/// A new task goes to the lowest free slot: the slot found is free and no
/// slot below it is. None is found only when the table is full.
pub proof fn law_first_free_is_lowest<F>(slots: Seq<Option<ScheduledTask<F>>>)
    ensures
        first_free(slots) matches Some(i) ==> is_free(slots, i) && forall|j: int|
            0 <= j < i ==> !is_free(slots, j),
        first_free(slots) is None <==> forall|j: int| !is_free(slots, j),
{
    lemma_first_free_from(slots, 0);
}

/// In a table whose first `k` slots are taken and whose slot `k` is free,
/// the lowest free slot is `k`.
pub proof fn lemma_first_free_after_taken<F>(slots: Seq<Option<ScheduledTask<F>>>, k: int)
    requires
        is_free(slots, k),
        forall|j: int| 0 <= j < k ==> !is_free(slots, j),
    ensures
        first_free(slots) == Some(k),
{
    law_first_free_is_lowest(slots);
    if first_free(slots) is Some {
        let i = first_free(slots)->0;
        if i < k {
            assert(!is_free(slots, i));
        }
    }
}

/// Among the first `upto` slots there are at most `upto` tasks, and exactly
/// `upto` when none of these slots is free.
pub proof fn lemma_occupied_bounds<F>(slots: Seq<Option<ScheduledTask<F>>>, upto: int)
    requires
        0 <= upto <= slots.len(),
    ensures
        0 <= occupied(slots, upto) <= upto,
        occupied(slots, upto) == upto <==> forall|j: int| 0 <= j < upto ==> !is_free(slots, j),
    decreases upto,
{
    if upto > 0 {
        lemma_occupied_bounds(slots, upto - 1);
        if occupied(slots, upto) == upto {
            assert forall|j: int| 0 <= j < upto implies !is_free(slots, j) by {
                if j < upto - 1 {
                } else {
                    assert(slots[upto - 1] is Some);
                }
            }
        }
        if forall|j: int| 0 <= j < upto ==> !is_free(slots, j) {
            assert(!is_free(slots, upto - 1));
            assert forall|j: int| 0 <= j < upto - 1 implies !is_free(slots, j) by {
                assert(!is_free(slots, j));
            }
        }
    }
}

/// Putting a task into a free slot raises the count of tasks by one.
pub proof fn lemma_occupied_after_insert<F>(
    slots: Seq<Option<ScheduledTask<F>>>,
    i: int,
    task: ScheduledTask<F>,
    upto: int,
)
    requires
        is_free(slots, i),
        0 <= upto <= slots.len(),
    ensures
        occupied(slots.update(i, Some(task)), upto) == occupied(slots, upto) + if i < upto {
            1int
        } else {
            0int
        },
    decreases upto,
{
    if upto > 0 {
        lemma_occupied_after_insert(slots, i, task, upto - 1);
    }
}

/// A periodic table that is not full takes a new task: the task stands in
/// the lowest free slot, the table holds one task more, and nothing else has
/// changed.
pub proof fn law_periodic_registration_succeeds<F>(tables: Tables<F>, task: ScheduledTask<F>)
    requires
        tables.wf(),
        occupied(tables.periodic, MAX_PERIODIC_TASKS as int) < MAX_PERIODIC_TASKS,
    ensures
        tables.periodic_target() matches Some(i) && is_free(tables.periodic, i)
            && tables.add_periodic(task).periodic == tables.periodic.update(i, Some(task)),
        occupied(tables.add_periodic(task).periodic, MAX_PERIODIC_TASKS as int) == occupied(
            tables.periodic,
            MAX_PERIODIC_TASKS as int,
        ) + 1,
        tables.add_periodic(task).one_off == tables.one_off,
        tables.add_periodic(task).cursor == tables.cursor,
        tables.add_periodic(task).wf(),
{
    law_first_free_is_lowest(tables.periodic);
    lemma_occupied_bounds(tables.periodic, MAX_PERIODIC_TASKS as int);
    let i = first_free(tables.periodic)->0;
    lemma_occupied_after_insert(tables.periodic, i, task, MAX_PERIODIC_TASKS as int);
}

/// A full periodic table refuses a new task: the tables stay as they are.
pub proof fn law_periodic_registration_refused<F>(tables: Tables<F>, task: ScheduledTask<F>)
    requires
        tables.wf(),
        occupied(tables.periodic, MAX_PERIODIC_TASKS as int) == MAX_PERIODIC_TASKS,
    ensures
        tables.add_periodic(task) == tables,
{
    law_first_free_is_lowest(tables.periodic);
    lemma_occupied_bounds(tables.periodic, MAX_PERIODIC_TASKS as int);
}

/// An empty scheduler takes repeating tasks up to its capacity and refuses
/// the rest. After any run of registrations the periodic table holds the
/// tasks offered in the order they came, from the first slot on, as many as
/// there are slots; tasks offered beyond that have changed nothing.
pub proof fn law_periodic_table_fills_in_order<F>(tasks: Seq<ScheduledTask<F>>)
    ensures
        Tables::<F>::empty().add_all_periodic(tasks).wf(),
        Tables::<F>::empty().add_all_periodic(tasks).one_off == Tables::<F>::empty().one_off,
        Tables::<F>::empty().add_all_periodic(tasks).cursor == 0,
        forall|i: int|
            0 <= i < MAX_PERIODIC_TASKS ==> #[trigger] Tables::<F>::empty().add_all_periodic(
                tasks,
            ).periodic[i] == if i < tasks.len() {
                Some(tasks[i])
            } else {
                None
            },
    decreases tasks.len(),
{
    if tasks.len() > 0 {
        let earlier = tasks.drop_last();
        let before = Tables::<F>::empty().add_all_periodic(earlier);
        law_periodic_table_fills_in_order(earlier);
        law_first_free_is_lowest(before.periodic);
        if earlier.len() < MAX_PERIODIC_TASKS {
            assert forall|j: int| 0 <= j < earlier.len() implies !is_free(before.periodic, j) by {
                assert(before.periodic[j] == Some(earlier[j]));
            }
            assert(before.periodic[earlier.len() as int] is None);
            lemma_first_free_after_taken(before.periodic, earlier.len() as int);
        } else {
            assert forall|j: int| !is_free(before.periodic, j) by {
                if 0 <= j < MAX_PERIODIC_TASKS {
                    assert(before.periodic[j] == Some(earlier[j]));
                }
            }
        }
    }
}

/// A one-off table that is not full takes a new task: the task stands in a
/// slot that was free, the table holds one task more, and nothing else has
/// changed.
pub proof fn law_one_off_registration_succeeds<F>(tables: Tables<F>, task: ScheduledTask<F>)
    requires
        tables.wf(),
        occupied(tables.one_off, MAX_ONE_OFF_TASKS as int) < MAX_ONE_OFF_TASKS,
    ensures
        tables.one_off_target() matches Some(i) && is_free(tables.one_off, i)
            && tables.add_one_off(task).one_off == tables.one_off.update(i, Some(task)),
        occupied(tables.add_one_off(task).one_off, MAX_ONE_OFF_TASKS as int) == occupied(
            tables.one_off,
            MAX_ONE_OFF_TASKS as int,
        ) + 1,
        tables.add_one_off(task).periodic == tables.periodic,
        tables.add_one_off(task).cursor == tables.cursor,
        tables.add_one_off(task).wf(),
{
    law_first_free_is_lowest(tables.one_off);
    lemma_occupied_bounds(tables.one_off, MAX_ONE_OFF_TASKS as int);
    let i = tables.one_off_target()->0;
    lemma_occupied_after_insert(tables.one_off, i, task, MAX_ONE_OFF_TASKS as int);
}

/// A full one-off table refuses a new task: the tables stay as they are.
pub proof fn law_one_off_registration_refused<F>(tables: Tables<F>, task: ScheduledTask<F>)
    requires
        tables.wf(),
        occupied(tables.one_off, MAX_ONE_OFF_TASKS as int) == MAX_ONE_OFF_TASKS,
    ensures
        tables.add_one_off(task) == tables,
{
    law_first_free_is_lowest(tables.one_off);
    lemma_occupied_bounds(tables.one_off, MAX_ONE_OFF_TASKS as int);
    assert(!is_free(tables.one_off, tables.cursor));
}

/// An empty scheduler takes one-off tasks up to its capacity and refuses the
/// rest. After any run of registrations with no poll in between, the one-off
/// table holds the tasks offered in the order they came, from the first slot
/// on, as many as there are slots; tasks offered beyond that have changed
/// nothing.
pub proof fn law_one_off_table_fills_in_order<F>(tasks: Seq<ScheduledTask<F>>)
    ensures
        Tables::<F>::empty().add_all_one_off(tasks).wf(),
        Tables::<F>::empty().add_all_one_off(tasks).periodic == Tables::<F>::empty().periodic,
        Tables::<F>::empty().add_all_one_off(tasks).cursor == 0,
        forall|i: int|
            0 <= i < MAX_ONE_OFF_TASKS ==> #[trigger] Tables::<F>::empty().add_all_one_off(
                tasks,
            ).one_off[i] == if i < tasks.len() {
                Some(tasks[i])
            } else {
                None
            },
    decreases tasks.len(),
{
    if tasks.len() > 0 {
        let earlier = tasks.drop_last();
        let before = Tables::<F>::empty().add_all_one_off(earlier);
        law_one_off_table_fills_in_order(earlier);
        law_first_free_is_lowest(before.one_off);
        if earlier.len() < MAX_ONE_OFF_TASKS {
            assert forall|j: int| 0 <= j < earlier.len() implies !is_free(before.one_off, j) by {
                assert(before.one_off[j] == Some(earlier[j]));
            }
            assert(before.one_off[earlier.len() as int] is None);
            lemma_first_free_after_taken(before.one_off, earlier.len() as int);
            assert(before.one_off_target() == Some(earlier.len() as int));
        } else {
            assert forall|j: int| !is_free(before.one_off, j) by {
                if 0 <= j < MAX_ONE_OFF_TASKS {
                    assert(before.one_off[j] == Some(earlier[j]));
                }
            }
            assert(before.one_off[0] == Some(earlier[0]));
            assert(before.one_off_target() is None);
        }
    }
}

/// As long as no task is due at the reading a pass begins with, none fires:
/// the reading stays the latest one.
pub proof fn lemma_nothing_fires_before<F>(
    slots: Seq<Option<ScheduledTask<F>>>,
    upto: int,
    reads: Seq<u32>,
)
    requires
        0 <= upto <= slots.len(),
        forall|j: int| 0 <= j < upto ==> (#[trigger] slots[j] matches Some(t) ==> !t.due_at(reads[0])),
    ensures
        fired_before(slots, upto, reads) == 0,
        forall|j: int| 0 <= j < upto ==> !fires_at(slots, j, reads),
        last_fired(slots, upto, reads) is None,
    decreases upto,
{
    if upto > 0 {
        lemma_nothing_fires_before(slots, upto - 1, reads);
        assert(slots[upto - 1] matches Some(t) ==> !t.due_at(reads[0]));
        assert(!fires_at(slots, upto - 1, reads));
    }
}

/// Over slots that hold no task the count of firings stands still, and the
/// last slot that fired stays the last.
pub proof fn lemma_fired_stays<F>(
    slots: Seq<Option<ScheduledTask<F>>>,
    from: int,
    upto: int,
    reads: Seq<u32>,
)
    requires
        0 <= from <= upto <= slots.len(),
        forall|j: int| from <= j < upto ==> is_free(slots, j),
    ensures
        fired_before(slots, upto, reads) == fired_before(slots, from, reads),
        last_fired(slots, upto, reads) == last_fired(slots, from, reads),
    decreases upto - from,
{
    if from < upto {
        lemma_fired_stays(slots, from, upto - 1, reads);
        assert(is_free(slots, upto - 1));
    }
}

/// The slot that `last_fired` names did fire, and no slot after it did; when
/// it names none, none fired.
pub proof fn lemma_last_fired<F>(slots: Seq<Option<ScheduledTask<F>>>, upto: int, reads: Seq<u32>)
    requires
        0 <= upto <= slots.len(),
    ensures
        last_fired(slots, upto, reads) matches Some(i) ==> 0 <= i < upto && fires_at(slots, i, reads)
            && forall|j: int| i < j < upto ==> !fires_at(slots, j, reads),
        last_fired(slots, upto, reads) is None ==> forall|j: int|
            0 <= j < upto ==> !fires_at(slots, j, reads),
    decreases upto,
{
    if upto > 0 && !fires_at(slots, upto - 1, reads) {
        lemma_last_fired(slots, upto - 1, reads);
    }
}

/// A poll leaves the tables in their full shape.
pub proof fn law_poll_keeps_shape<F>(tables: Tables<F>, reads: Seq<u32>)
    requires
        tables.wf(),
    ensures
        tables.poll(reads).wf(),
{
    lemma_last_fired(tables.one_off, MAX_ONE_OFF_TASKS as int, tables.one_off_reads(reads));
}

/// A poll at which no task is due changes nothing and reads the clock once.
pub proof fn law_poll_with_nothing_due<F>(tables: Tables<F>, reads: Seq<u32>)
    requires
        tables.wf(),
        forall|j: int|
            0 <= j < MAX_PERIODIC_TASKS ==> (#[trigger] tables.periodic[j] matches Some(t)
                ==> !t.due_at(reads[0])),
        forall|j: int|
            0 <= j < MAX_ONE_OFF_TASKS ==> (#[trigger] tables.one_off[j] matches Some(t)
                ==> !t.due_at(reads[0])),
    ensures
        tables.poll(reads) == tables,
        tables.readings_taken(reads) == 1,
{
    lemma_nothing_fires_before(tables.periodic, MAX_PERIODIC_TASKS as int, reads);
    assert(tables.one_off_reads(reads) =~= reads);
    lemma_nothing_fires_before(tables.one_off, MAX_ONE_OFF_TASKS as int, reads);
    assert(tables.poll(reads).periodic =~= tables.periodic);
    assert(tables.poll(reads).one_off =~= tables.one_off);
}

/// A task fires exactly when its interval has elapsed. If the latest
/// reading when a pass reaches the task lies `e` ticks after the beginning
/// of the task's wait, the task fires if and only if `e` has reached its
/// interval: not one tick earlier, and at that very tick.
pub proof fn law_fires_when_interval_elapsed<F>(
    slots: Seq<Option<ScheduledTask<F>>>,
    i: int,
    reads: Seq<u32>,
    e: int,
)
    requires
        0 <= i < slots.len(),
        slots[i] is Some,
        0 <= e < tick_range(),
        reads[fired_before(slots, i, reads)] == ticks_after(slots[i]->0.start, e),
    ensures
        fires_at(slots, i, reads) <==> e >= slots[i]->0.interval,
{
    lemma_due_after(slots[i]->0.start, slots[i]->0.interval, e);
}

/// A repeating task alone in a scheduler is called at the first poll that
/// finds its period passed, and at none before. Let the poll begin `e` ticks
/// after the beginning of the task's wait. If `e` is short of the interval,
/// the poll changes nothing and reads the clock once. If `e` has reached the
/// interval, the poll reads the clock twice and leaves the task waiting anew
/// from the second reading.
pub proof fn law_lone_periodic_task<F>(task: ScheduledTask<F>, reads: Seq<u32>, e: int)
    requires
        0 <= e < tick_range(),
        reads.len() >= 1,
        reads[0] == ticks_after(task.start, e),
    ensures
        Tables::<F>::empty().periodic_target() == Some(0int),
        e < task.interval ==> Tables::<F>::empty().add_periodic(task).poll(reads)
            == Tables::<F>::empty().add_periodic(task) && Tables::<F>::empty().add_periodic(
            task,
        ).readings_taken(reads) == 1,
        e >= task.interval ==> Tables::<F>::empty().add_periodic(task).poll(reads)
            == Tables::<F>::empty().add_periodic(task.restarted(reads[1]))
            && Tables::<F>::empty().add_periodic(task).readings_taken(reads) == 2,
{
    let empty = Tables::<F>::empty();
    lemma_first_free_after_taken(empty.periodic, 0);
    let tables = empty.add_periodic(task);
    lemma_due_after(task.start, task.interval, e);
    assert(fired_before(tables.periodic, 0, reads) == 0);
    if e < task.interval {
        law_poll_with_nothing_due(tables, reads);
    } else {
        assert(fires_at(tables.periodic, 0, reads));
        assert(fired_before(tables.periodic, 1, reads) == 1);
        lemma_fired_stays(tables.periodic, 1, MAX_PERIODIC_TASKS as int, reads);
        let rest = tables.one_off_reads(reads);
        lemma_nothing_fires_before(tables.one_off, MAX_ONE_OFF_TASKS as int, rest);
        assert(tables.poll(reads).periodic =~= empty.add_periodic(
            task.restarted(reads[1]),
        ).periodic);
        assert(tables.poll(reads).one_off =~= tables.one_off);
    }
}

/// A poll never removes a repeating task nor changes what it calls or how
/// long it waits. A task that fired waits anew from the reading taken after
/// its callback returned; any other slot is as it was.
pub proof fn law_periodic_tasks_stay<F>(slots: Seq<Option<ScheduledTask<F>>>, reads: Seq<u32>, i: int)
    requires
        0 <= i < slots.len(),
    ensures
        periodic_after(slots, reads).len() == slots.len(),
        slots[i] is None ==> periodic_after(slots, reads)[i] is None,
        slots[i] matches Some(t) ==> periodic_after(slots, reads)[i] == Some(
            if fires_at(slots, i, reads) {
                t.restarted(reads[fired_before(slots, i, reads) + 1])
            } else {
                t
            },
        ),
{
}

/// Polling alone never loses a repeating task. A periodic slot that holds a
/// task holds it through any number of polls, with the same callback and the
/// same interval.
pub proof fn law_periodic_task_lives_on<F>(tables: Tables<F>, runs: Seq<Seq<u32>>, i: int)
    requires
        0 <= i < tables.periodic.len(),
        tables.periodic[i] is Some,
    ensures
        tables.poll_all(runs).periodic.len() == tables.periodic.len(),
        tables.poll_all(runs).periodic[i] matches Some(task) && task.callback
            == tables.periodic[i]->0.callback && task.interval == tables.periodic[i]->0.interval,
    decreases runs.len(),
{
    if runs.len() > 0 {
        law_periodic_task_lives_on(tables, runs.drop_last(), i);
    }
}

/// The period of a repeating task runs from the end of its callback. If the
/// task fires at a reading `at`, and the clock has moved on by `spent` ticks
/// when its callback returns, then the task is due again `more` ticks after
/// that if and only if `more` has reached its interval: the next firing
/// comes `spent` plus the interval after this one, however long ago the
/// wait that has just ended began.
pub proof fn law_period_runs_from_end_of_callback<F>(
    slots: Seq<Option<ScheduledTask<F>>>,
    reads: Seq<u32>,
    i: int,
    spent: int,
    more: int,
)
    requires
        fires_at(slots, i, reads),
        0 <= spent,
        0 <= more < tick_range(),
        reads[fired_before(slots, i, reads) + 1] == ticks_after(
            reads[fired_before(slots, i, reads)],
            spent,
        ),
    ensures
        periodic_after(slots, reads)[i] matches Some(next) && next.start == ticks_after(
            reads[fired_before(slots, i, reads)],
            spent,
        ) && next.interval == slots[i]->0.interval && (next.due_at(
            ticks_after(reads[fired_before(slots, i, reads)], spent + more),
        ) <==> more >= next.interval),
{
    let at = reads[fired_before(slots, i, reads)];
    lemma_due_after_delay(at, spent, slots[i]->0.interval, more);
}

/// A one-off task alone in a scheduler is called at the first poll that
/// finds its wait over, and at none before. Let the poll begin `e` ticks
/// after the beginning of the task's wait. If `e` is short of the interval,
/// the poll changes nothing and reads the clock once. If `e` has reached the
/// interval, the poll reads the clock twice and leaves the scheduler empty.
pub proof fn law_lone_one_off_task<F>(task: ScheduledTask<F>, reads: Seq<u32>, e: int)
    requires
        0 <= e < tick_range(),
        reads.len() >= 1,
        reads[0] == ticks_after(task.start, e),
    ensures
        Tables::<F>::empty().one_off_target() == Some(0int),
        e < task.interval ==> Tables::<F>::empty().add_one_off(task).poll(reads)
            == Tables::<F>::empty().add_one_off(task) && Tables::<F>::empty().add_one_off(
            task,
        ).readings_taken(reads) == 1,
        e >= task.interval ==> Tables::<F>::empty().add_one_off(task).poll(reads)
            == Tables::<F>::empty() && Tables::<F>::empty().add_one_off(task).readings_taken(reads)
            == 2,
{
    let empty = Tables::<F>::empty();
    let tables = empty.add_one_off(task);
    lemma_due_after(task.start, task.interval, e);
    lemma_nothing_fires_before(tables.periodic, MAX_PERIODIC_TASKS as int, reads);
    let rest = tables.one_off_reads(reads);
    assert(rest =~= reads);
    assert(fired_before(tables.one_off, 0, rest) == 0);
    if e < task.interval {
        law_poll_with_nothing_due(tables, reads);
    } else {
        assert(fires_at(tables.one_off, 0, rest));
        assert(fired_before(tables.one_off, 1, rest) == 1);
        assert(last_fired(tables.one_off, 1, rest) == Some(0int));
        lemma_fired_stays(tables.one_off, 1, MAX_ONE_OFF_TASKS as int, rest);
        assert(tables.poll(reads).periodic =~= empty.periodic);
        assert(tables.poll(reads).one_off =~= empty.one_off);
    }
}

/// A one-off task fires once. The slot of a task that fired is empty after
/// the poll, so it is free for a new task; and a poll never fills a slot, so
/// an empty slot does not fire and is empty afterwards too.
pub proof fn law_one_off_fires_once<F>(slots: Seq<Option<ScheduledTask<F>>>, reads: Seq<u32>, i: int)
    requires
        0 <= i < slots.len(),
    ensures
        one_off_after(slots, reads).len() == slots.len(),
        fires_at(slots, i, reads) ==> is_free(one_off_after(slots, reads), i),
        is_free(slots, i) ==> !fires_at(slots, i, reads) && is_free(one_off_after(slots, reads), i),
        !fires_at(slots, i, reads) ==> one_off_after(slots, reads)[i] == slots[i],
{
}

/// Polling alone never brings a one-off task back. A one-off slot that is
/// free stays free through any number of polls, whatever the clock reads.
pub proof fn law_free_slot_stays_free<F>(tables: Tables<F>, runs: Seq<Seq<u32>>, i: int)
    requires
        is_free(tables.one_off, i),
    ensures
        is_free(tables.poll_all(runs).one_off, i),
        runs.len() > 0 ==> !fires_at(
            tables.poll_all(runs.drop_last()).one_off,
            i,
            tables.poll_all(runs.drop_last()).one_off_reads(runs.last()),
        ),
    decreases runs.len(),
{
    if runs.len() > 0 {
        law_free_slot_stays_free(tables, runs.drop_last(), i);
    }
}

/// A slot freed by a firing is the next to be filled. If any one-off task
/// fires during a poll, the cursor then points at the last slot that fired,
/// and the next one-off task registered goes to exactly that slot.
pub proof fn law_freed_slot_is_reused<F>(
    tables: Tables<F>,
    reads: Seq<u32>,
    i: int,
    task: ScheduledTask<F>,
)
    requires
        tables.wf(),
        last_fired(tables.one_off, MAX_ONE_OFF_TASKS as int, tables.one_off_reads(reads)) == Some(i),
    ensures
        fires_at(tables.one_off, i, tables.one_off_reads(reads)),
        tables.poll(reads).cursor == i,
        tables.poll(reads).one_off_target() == Some(i),
        tables.poll(reads).add_one_off(task).one_off == tables.poll(reads).one_off.update(
            i,
            Some(task),
        ),
{
    lemma_last_fired(tables.one_off, MAX_ONE_OFF_TASKS as int, tables.one_off_reads(reads));
}

} // verus!
