use std::sync::atomic::{AtomicU32, Ordering};
use std::time::Duration;
use task_scheduler::handler::PlainTaskHandler;

static TICKS: AtomicU32 = AtomicU32::new(0);
static CALLS: AtomicU32 = AtomicU32::new(0);

fn now() -> u32 {
    TICKS.load(Ordering::SeqCst)
}

fn tenths_of_a_second(d: Duration) -> u32 {
    (d.as_millis() / 100) as u32
}

fn count() {
    CALLS.fetch_add(1, Ordering::SeqCst);
}

fn count_slowly() {
    CALLS.fetch_add(100, Ordering::SeqCst);
    TICKS.fetch_add(2, Ordering::SeqCst);
}

#[test]
fn plain_functions_serve_as_clock_converter_and_tasks() {
    let mut handler: PlainTaskHandler = PlainTaskHandler::new(now, tenths_of_a_second);
    TICKS.store(250, Ordering::SeqCst);
    handler.schedule_periodic(count, Duration::from_secs(1));
    handler.schedule_one_off(count_slowly, Duration::from_millis(1500));
    assert_eq!(handler.periodic_task(0).map(|t| (t.start, t.interval)), Some((250, 10)));
    assert_eq!(handler.one_off_task(0).map(|t| (t.start, t.interval)), Some((250, 15)));
    handler.update();
    assert_eq!(CALLS.load(Ordering::SeqCst), 0);
    TICKS.store(259, Ordering::SeqCst);
    handler.update();
    assert_eq!(CALLS.load(Ordering::SeqCst), 0);
    TICKS.store(260, Ordering::SeqCst);
    handler.update();
    assert_eq!(CALLS.load(Ordering::SeqCst), 1);
    TICKS.store(265, Ordering::SeqCst);
    handler.update();
    assert_eq!(CALLS.load(Ordering::SeqCst), 101);
    assert_eq!(TICKS.load(Ordering::SeqCst), 267);
    assert!(handler.one_off_task(0).is_none());
    TICKS.store(270, Ordering::SeqCst);
    handler.update();
    assert_eq!(CALLS.load(Ordering::SeqCst), 102);
    assert_eq!(handler.periodic_task(0).map(|t| t.start), Some(270));
}
