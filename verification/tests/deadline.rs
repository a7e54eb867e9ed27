use by_blocks::deadline::{DeadlineSchedule, FAST_BLOCK_NANOS, MAX_BLOCKS};

#[test]
fn first_block_is_doubled_and_parallel() {
    let mut d = DeadlineSchedule::new(10_000, 1_000);
    let b = d.next_block(0);
    assert_eq!(b.size, 22);
    assert!(b.parallel);
    assert_eq!(d.processed(), 22);
}

#[test]
fn slow_block_keeps_the_size_and_fast_block_doubles_it() {
    let mut d = DeadlineSchedule::new(10_000, 1_000);
    assert_eq!(d.next_block(0).size, 22);
    d.record_block_time(FAST_BLOCK_NANOS + 1);
    assert_eq!(d.next_block(100).size, 22);
    d.record_block_time(FAST_BLOCK_NANOS);
    assert_eq!(d.next_block(200).size, 44);
}

#[test]
fn parallel_when_extrapolated_time_exceeds_the_deadline() {
    let mut d = DeadlineSchedule::new(10_000, 1_000);
    d.next_block(0);
    d.record_block_time(10_000_000);
    // 500 * 10_000 / 22 = 227_272 > 1_000
    assert!(d.next_block(500).parallel);
    d.record_block_time(10_000_000);
    // 2 * 10_000 / 44 = 454, not above 1_000
    assert!(!d.next_block(2).parallel);
}

#[test]
fn extrapolation_equal_to_the_deadline_runs_sequentially() {
    let mut d = DeadlineSchedule::new(1_000, 10_000);
    let first = d.next_block(0);
    assert_eq!(first.size, 4);
    d.record_block_time(10_000_000);
    // 40 * 1_000 / 4 = 10_000, not above 10_000
    assert!(!d.next_block(40).parallel);
    d.record_block_time(10_000_000);
    // 81 * 1_000 / 8 = 10_125 > 10_000
    assert!(d.next_block(81).parallel);
}

#[test]
fn last_block_takes_what_is_left() {
    let mut d = DeadlineSchedule::new(5, 1_000);
    let b = d.next_block(0);
    assert_eq!(b.size, 2);
    let b = d.next_block(0);
    assert_eq!(b.size, 3);
    assert!(!d.goes_on(false));
}

#[test]
fn empty_input_runs_no_block() {
    let d = DeadlineSchedule::new(0, 1_000);
    assert!(!d.goes_on(false));
}

#[test]
fn slow_blocks_stay_within_the_block_bound() {
    let len = 1_000_000usize;
    let mut d = DeadlineSchedule::new(len, 1_000);
    let mut blocks = 0usize;
    let mut covered = 0usize;
    while d.goes_on(false) {
        let b = d.next_block(0);
        d.record_block_time(u128::MAX);
        covered += b.size;
        blocks += 1;
    }
    assert_eq!(covered, len);
    assert_eq!(blocks, 500);
    assert!(blocks <= MAX_BLOCKS);
}

#[test]
fn fast_blocks_over_the_largest_input_do_not_overflow() {
    let len = usize::MAX;
    let mut d = DeadlineSchedule::new(len, 1_000);
    let mut blocks = 0usize;
    let mut covered = 0usize;
    while d.goes_on(false) {
        let b = d.next_block(0);
        d.record_block_time(0);
        covered += b.size;
        blocks += 1;
    }
    assert_eq!(covered, len);
    assert_eq!(blocks, 9);
}

#[test]
fn consumer_full_stops_the_schedule() {
    let d = DeadlineSchedule::new(10, 1_000);
    assert!(d.goes_on(false));
    assert!(!d.goes_on(true));
    assert_eq!(d.len(), 10);
}

#[test]
fn first_block_doubles_whatever_time_was_recorded_before_it() {
    let mut d = DeadlineSchedule::new(10_000, 1_000);
    d.record_block_time(u128::MAX);
    assert_eq!(d.next_block(0).size, 22);
}
