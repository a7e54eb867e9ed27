use by_blocks::schedule::BlockSchedule;

#[test]
fn blocks_take_requested_sizes_then_the_rest() {
    let mut s = BlockSchedule::new(10);
    assert_eq!(s.take(4), 4);
    assert_eq!(s.take(4), 4);
    assert_eq!(s.take(4), 2);
    assert_eq!(s.remaining(), 0);
    assert_eq!(s.take(4), 0);
    assert_eq!(s.len(), 10);
}

#[test]
fn blocks_add_up_to_the_requests_when_they_fall_short() {
    let mut s = BlockSchedule::new(10);
    let a = s.take(3);
    let b = s.take(3);
    assert_eq!(a + b, 6);
    assert_eq!(s.remaining(), 4);
    assert!(s.goes_on(false));
    assert!(!s.goes_on(true));
}

#[test]
fn exhausted_size_stream_takes_all_that_is_left() {
    let mut s = BlockSchedule::new(1000);
    assert_eq!(s.take_next(Some(300)), 300);
    assert_eq!(s.take_next(None), 700);
    assert_eq!(s.remaining(), 0);
    assert!(!s.goes_on(false));
}

#[test]
fn zero_request_makes_no_progress() {
    let mut s = BlockSchedule::new(5);
    assert_eq!(s.take_next(Some(0)), 0);
    assert_eq!(s.remaining(), 5);
}

#[test]
fn empty_input_cuts_no_block() {
    let mut s = BlockSchedule::new(0);
    assert!(!s.goes_on(false));
    assert_eq!(s.take_scanned(10, false), None);
}

#[test]
fn scanned_blocks_stop_when_consumer_is_full_or_input_is_done() {
    let mut s = BlockSchedule::new(7);
    assert_eq!(s.take_scanned(5, true), None);
    assert_eq!(s.remaining(), 7);
    assert_eq!(s.take_scanned(5, false), Some(5));
    assert_eq!(s.take_scanned(5, false), Some(2));
    assert_eq!(s.take_scanned(5, false), None);
    assert_eq!(s.remaining(), 0);
}

#[test]
fn doubling_sizes_cover_the_input() {
    let mut s = BlockSchedule::new(100);
    let mut size = 1usize;
    let mut blocks = Vec::new();
    while s.goes_on(false) {
        blocks.push(s.take_next(Some(size)));
        size *= 2;
    }
    assert_eq!(blocks, vec![1, 2, 4, 8, 16, 32, 37]);
    assert_eq!(blocks.iter().sum::<usize>(), 100);
}
