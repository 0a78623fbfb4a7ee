use std::cell::Cell;
use std::time::Duration;
use task_scheduler::task::ScheduledTask;
use task_scheduler::{TaskHandler, MAX_ONE_OFF_TASKS, MAX_PERIODIC_TASKS};

fn millis(d: Duration) -> u32 {
    d.as_millis() as u32
}

fn idle() {}

fn times(task: Option<ScheduledTask<fn()>>) -> Option<(u32, u32)> {
    task.map(|t| (t.start, t.interval))
}

#[test]
fn capacities_are_thirty_two_and_sixty_four() {
    assert_eq!(MAX_PERIODIC_TASKS, 32);
    assert_eq!(MAX_ONE_OFF_TASKS, 64);
}

#[test]
fn a_new_handler_holds_no_task() {
    let handler: TaskHandler<fn(), _, _> = TaskHandler::new(|| 0u32, millis);
    for slot in 0..MAX_PERIODIC_TASKS {
        assert!(handler.periodic_task(slot).is_none());
    }
    for slot in 0..MAX_ONE_OFF_TASKS {
        assert!(handler.one_off_task(slot).is_none());
    }
    assert_eq!(handler.one_off_cursor(), 0);
}

#[test]
fn slots_outside_the_tables_hold_nothing() {
    let mut handler: TaskHandler<fn(), _, _> = TaskHandler::new(|| 0u32, millis);
    handler.schedule_periodic(idle, Duration::from_millis(1));
    handler.schedule_one_off(idle, Duration::from_millis(1));
    assert!(handler.periodic_task(MAX_PERIODIC_TASKS).is_none());
    assert!(handler.one_off_task(MAX_ONE_OFF_TASKS).is_none());
    assert!(handler.periodic_task(usize::MAX).is_none());
    assert!(handler.one_off_task(usize::MAX).is_none());
}

#[test]
fn a_periodic_task_takes_the_lowest_free_slot() {
    let clock = Cell::new(40u32);
    let mut handler: TaskHandler<fn(), _, _> = TaskHandler::new(|| clock.get(), millis);
    handler.schedule_periodic(idle, Duration::from_millis(10));
    clock.set(41);
    handler.schedule_periodic(idle, Duration::from_millis(20));
    assert_eq!(times(handler.periodic_task(0)), Some((40, 10)));
    assert_eq!(times(handler.periodic_task(1)), Some((41, 20)));
    assert_eq!(times(handler.periodic_task(2)), None);
    for slot in 0..MAX_ONE_OFF_TASKS {
        assert!(handler.one_off_task(slot).is_none());
    }
}

#[test]
fn the_interval_is_what_the_converter_returns() {
    let mut handler: TaskHandler<fn(), _, _> =
        TaskHandler::new(|| 7u32, |d: Duration| (d.as_micros() / 100) as u32);
    handler.schedule_periodic(idle, Duration::from_millis(3));
    handler.schedule_one_off(idle, Duration::from_micros(250));
    assert_eq!(times(handler.periodic_task(0)), Some((7, 30)));
    assert_eq!(times(handler.one_off_task(0)), Some((7, 2)));
}

#[test]
fn the_periodic_table_takes_thirty_two_tasks_and_no_more() {
    let clock = Cell::new(0u32);
    let mut handler: TaskHandler<fn(), _, _> = TaskHandler::new(|| clock.get(), millis);
    for n in 0..MAX_PERIODIC_TASKS {
        clock.set(1000 + n as u32);
        handler.schedule_periodic(idle, Duration::from_millis(n as u64 + 1));
        assert_eq!(times(handler.periodic_task(n)), Some((1000 + n as u32, n as u32 + 1)));
        if n + 1 < MAX_PERIODIC_TASKS {
            assert!(handler.periodic_task(n + 1).is_none());
        }
    }
    clock.set(5000);
    handler.schedule_periodic(idle, Duration::from_millis(777));
    handler.schedule_periodic_delayed(idle, Duration::from_millis(778), Duration::from_millis(1));
    for n in 0..MAX_PERIODIC_TASKS {
        assert_eq!(times(handler.periodic_task(n)), Some((1000 + n as u32, n as u32 + 1)));
    }
    for slot in 0..MAX_ONE_OFF_TASKS {
        assert!(handler.one_off_task(slot).is_none());
    }
    assert_eq!(handler.one_off_cursor(), 0);
}

#[test]
fn the_one_off_table_takes_sixty_four_tasks_and_no_more() {
    let clock = Cell::new(0u32);
    let mut handler: TaskHandler<fn(), _, _> = TaskHandler::new(|| clock.get(), millis);
    for n in 0..MAX_ONE_OFF_TASKS {
        clock.set(2000 + n as u32);
        handler.schedule_one_off(idle, Duration::from_millis(n as u64 + 1));
        assert_eq!(times(handler.one_off_task(n)), Some((2000 + n as u32, n as u32 + 1)));
        if n + 1 < MAX_ONE_OFF_TASKS {
            assert!(handler.one_off_task(n + 1).is_none());
        }
    }
    clock.set(9000);
    handler.schedule_one_off(idle, Duration::from_millis(999));
    for n in 0..MAX_ONE_OFF_TASKS {
        assert_eq!(times(handler.one_off_task(n)), Some((2000 + n as u32, n as u32 + 1)));
    }
    for slot in 0..MAX_PERIODIC_TASKS {
        assert!(handler.periodic_task(slot).is_none());
    }
    assert_eq!(handler.one_off_cursor(), 0);
}

#[test]
fn a_delayed_task_starts_its_wait_ahead_of_the_clock() {
    let clock = Cell::new(100u32);
    let mut handler: TaskHandler<fn(), _, _> = TaskHandler::new(|| clock.get(), millis);
    handler.schedule_periodic_delayed(idle, Duration::from_millis(10), Duration::from_millis(5));
    assert_eq!(times(handler.periodic_task(0)), Some((105, 10)));
    clock.set(200);
    handler.schedule_periodic_delayed(idle, Duration::from_millis(3), Duration::from_millis(0));
    assert_eq!(times(handler.periodic_task(1)), Some((200, 3)));
}

#[test]
fn a_delayed_start_wraps_with_the_counter() {
    let clock = Cell::new(u32::MAX - 2);
    let mut handler: TaskHandler<fn(), _, _> = TaskHandler::new(|| clock.get(), millis);
    handler.schedule_periodic_delayed(idle, Duration::from_millis(10), Duration::from_millis(5));
    assert_eq!(times(handler.periodic_task(0)), Some((2, 10)));
}

#[test]
fn a_one_off_task_goes_under_the_cursor_when_that_slot_is_free() {
    let clock = Cell::new(0u32);
    let mut handler: TaskHandler<fn(), _, _> = TaskHandler::new(|| clock.get(), millis);
    // Slots 0, 1, 2 wait 50, 5 and 50 ticks.
    handler.schedule_one_off(idle, Duration::from_millis(50));
    handler.schedule_one_off(idle, Duration::from_millis(5));
    handler.schedule_one_off(idle, Duration::from_millis(50));
    clock.set(5);
    handler.update();
    assert!(handler.one_off_task(1).is_none());
    assert_eq!(handler.one_off_cursor(), 1);
    clock.set(6);
    handler.schedule_one_off(idle, Duration::from_millis(70));
    assert_eq!(times(handler.one_off_task(0)), Some((0, 50)));
    assert_eq!(times(handler.one_off_task(1)), Some((6, 70)));
    assert_eq!(times(handler.one_off_task(2)), Some((0, 50)));
    assert_eq!(handler.one_off_cursor(), 1);
}

#[test]
fn a_one_off_task_goes_to_the_lowest_free_slot_when_the_cursor_slot_is_taken() {
    let clock = Cell::new(0u32);
    let mut handler: TaskHandler<fn(), _, _> = TaskHandler::new(|| clock.get(), millis);
    // Slots 0 to 3 wait 5, 50, 6 and 50 ticks.
    handler.schedule_one_off(idle, Duration::from_millis(5));
    handler.schedule_one_off(idle, Duration::from_millis(50));
    handler.schedule_one_off(idle, Duration::from_millis(6));
    handler.schedule_one_off(idle, Duration::from_millis(50));
    clock.set(6);
    handler.update();
    // Slots 0 and 2 fired; the cursor rests on the later one.
    assert!(handler.one_off_task(0).is_none());
    assert!(handler.one_off_task(2).is_none());
    assert_eq!(handler.one_off_cursor(), 2);
    handler.schedule_one_off(idle, Duration::from_millis(71));
    assert_eq!(times(handler.one_off_task(2)), Some((6, 71)));
    assert!(handler.one_off_task(0).is_none());
    // The cursor's slot is taken now: the scan starts from the first slot.
    handler.schedule_one_off(idle, Duration::from_millis(72));
    assert_eq!(times(handler.one_off_task(0)), Some((6, 72)));
    handler.schedule_one_off(idle, Duration::from_millis(73));
    assert_eq!(times(handler.one_off_task(4)), Some((6, 73)));
    assert_eq!(handler.one_off_cursor(), 2);
}

#[test]
fn a_full_one_off_table_takes_a_task_again_once_a_slot_was_freed() {
    let clock = Cell::new(0u32);
    let mut handler: TaskHandler<fn(), _, _> = TaskHandler::new(|| clock.get(), millis);
    for n in 0..MAX_ONE_OFF_TASKS {
        let wait = if n == 37 { 5 } else { 500 };
        handler.schedule_one_off(idle, Duration::from_millis(wait));
    }
    handler.schedule_one_off(idle, Duration::from_millis(1));
    for n in 0..MAX_ONE_OFF_TASKS {
        let wait = if n == 37 { 5 } else { 500 };
        assert_eq!(times(handler.one_off_task(n)), Some((0, wait)));
    }
    clock.set(5);
    handler.update();
    assert!(handler.one_off_task(37).is_none());
    assert_eq!(handler.one_off_cursor(), 37);
    clock.set(8);
    handler.schedule_one_off(idle, Duration::from_millis(9));
    assert_eq!(times(handler.one_off_task(37)), Some((8, 9)));
    for n in 0..MAX_ONE_OFF_TASKS {
        if n != 37 {
            assert_eq!(times(handler.one_off_task(n)), Some((0, 500)));
        }
    }
}
