use task_scheduler::ticks::{advance, is_due, ticks_between};

#[test]
fn ticks_between_plain_readings() {
    assert_eq!(ticks_between(10, 3), 7);
    assert_eq!(ticks_between(3, 3), 0);
    assert_eq!(ticks_between(1_000_000, 999_990), 10);
}

#[test]
fn ticks_between_readings_across_a_wrap() {
    assert_eq!(ticks_between(4, u32::MAX - 5), 10);
    assert_eq!(ticks_between(0, u32::MAX), 1);
    assert_eq!(ticks_between(3, 4), u32::MAX);
}

#[test]
fn advance_wraps_at_the_end_of_the_range() {
    assert_eq!(advance(5, 7), 12);
    assert_eq!(advance(u32::MAX, 1), 0);
    assert_eq!(advance(u32::MAX - 5, 10), 4);
    assert_eq!(advance(17, 0), 17);
}

#[test]
fn a_wait_is_over_exactly_when_the_interval_has_passed() {
    assert!(!is_due(100, 100, 10));
    assert!(!is_due(109, 100, 10));
    assert!(is_due(110, 100, 10));
    assert!(is_due(111, 100, 10));
}

#[test]
fn a_wait_of_no_ticks_is_over_at_once() {
    assert!(is_due(100, 100, 0));
    assert!(is_due(0, 0, 0));
}

#[test]
fn a_wait_that_spans_a_wrap_ends_at_the_right_tick() {
    // The counter stood six ticks before its end when the wait of ten began.
    let start = u32::MAX - 5;
    assert!(!is_due(u32::MAX, start, 10));
    assert!(!is_due(0, start, 10));
    assert!(!is_due(3, start, 10));
    assert!(is_due(4, start, 10));
    assert!(is_due(5, start, 10));
}

#[test]
fn elapsed_ticks_after_an_advance_are_the_ticks_advanced() {
    let starts = [0u32, 1, 250, 0x7fff_ffff, 0x8000_0000, u32::MAX - 5, u32::MAX];
    let steps = [0u32, 1, 9, 10, 11, 0x7fff_ffff, 0x8000_0000, u32::MAX];
    for start in starts {
        for step in steps {
            assert_eq!(ticks_between(advance(start, step), start), step);
            assert_eq!(is_due(advance(start, step), start, 10), step >= 10);
        }
    }
}

#[test]
fn a_start_set_ahead_of_the_clock_counts_as_long_past() {
    // Five ticks ahead of the reading 100: the counter seems to have gone
    // round all but five ticks.
    let start = advance(100, 5);
    assert_eq!(ticks_between(100, start), u32::MAX - 4);
    assert!(is_due(100, start, 10));
    assert!(!is_due(start, start, 10));
    assert!(is_due(advance(start, 10), start, 10));
}
