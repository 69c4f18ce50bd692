use pr0dl::rate_limit::{RateState, NANOS_PER_SEC};

#[test]
fn nothing_blocks_at_first() {
    let rate = RateState::default();
    assert_eq!(rate.blocked_until, None);
    assert!(rate.pause(0).is_none());
}

#[test]
fn a_block_is_honoured_up_to_its_end() {
    let mut rate = RateState::default();
    rate.block_for(4 * NANOS_PER_SEC, 6);
    assert_eq!(rate.blocked_until, Some(10 * NANOS_PER_SEC));
    let pause = rate.pause(7 * NANOS_PER_SEC + 1).unwrap();
    assert_eq!(pause.nanos, 3 * NANOS_PER_SEC - 1);
    assert_eq!(pause.shown_secs, 3);
    assert_eq!(rate.pause(7 * NANOS_PER_SEC).unwrap().shown_secs, 4);
    assert_eq!(rate.pause(10 * NANOS_PER_SEC - 1).unwrap().shown_secs, 1);
    assert!(rate.pause(10 * NANOS_PER_SEC).is_none());
    assert!(rate.pause(11 * NANOS_PER_SEC).is_none());
}

#[test]
fn a_shorter_block_does_not_end_a_longer_one() {
    let mut rate = RateState::default();
    rate.block_for(7, 50);
    rate.block_for(8, 30);
    assert_eq!(rate.blocked_until, Some(50 * NANOS_PER_SEC + 7));
    rate.block_for(7, 50);
    assert_eq!(rate.blocked_until, Some(50 * NANOS_PER_SEC + 7));
    rate.block_for(8, 50);
    assert_eq!(rate.blocked_until, Some(50 * NANOS_PER_SEC + 8));
}

#[test]
fn a_block_of_no_length_holds_nobody_back() {
    let mut rate = RateState::default();
    rate.block_for(9, 0);
    assert_eq!(rate.blocked_until, Some(9));
    assert!(rate.pause(9).is_none());
}

#[test]
fn the_longest_wait_is_no_overflow() {
    let mut rate = RateState::default();
    rate.block_for(1, u64::MAX);
    assert_eq!(rate.blocked_until, Some(u64::MAX as u128 * NANOS_PER_SEC + 1));
}

#[test]
fn the_order_of_blocks_does_not_matter() {
    let mut a = RateState::default();
    a.block_for(3, 1);
    a.block_for(8, 2);
    let mut b = RateState::default();
    b.block_for(8, 2);
    b.block_for(3, 1);
    assert_eq!(a.blocked_until, b.blocked_until);
}
