use prisma_crdt::clock::Clock;
use prisma_crdt::clock::ClockError;

#[test]
fn readings_increase_when_time_stands_still() {
    let mut clock = Clock::new(100);
    assert_eq!(clock.now(50), Ok(50));
    assert_eq!(clock.now(50), Ok(51));
    assert_eq!(clock.now(40), Ok(52));
    assert_eq!(clock.now(60), Ok(60));
    assert_eq!(clock.last, 60);
}

#[test]
fn first_reading_at_time_zero() {
    let mut clock = Clock::new(0);
    assert_eq!(clock.now(0), Ok(1));
}

#[test]
fn reading_follows_what_was_seen() {
    let mut clock = Clock::new(100);
    assert_eq!(clock.observe(120, 50), Ok(()));
    assert_eq!(clock.now(50), Ok(121));
    assert_eq!(clock.observe(30, 50), Ok(()));
    assert_eq!(clock.now(50), Ok(122));
}

#[test]
fn timestamp_too_far_ahead_is_reported_and_limited() {
    let mut clock = Clock::new(100);
    assert_eq!(clock.observe(151, 50), Err(ClockError::Anomaly { remote: 151, limit: 150 }));
    assert_eq!(clock.last, 150);
    assert_eq!(clock.observe(150, 50), Ok(()));
    assert_eq!(clock.now(50), Ok(151));
    // the limit does not turn the clock back
    assert_eq!(clock.observe(500, 10), Err(ClockError::Anomaly { remote: 500, limit: 110 }));
    assert_eq!(clock.last, 151);
}

#[test]
fn limit_stops_at_the_greatest_timestamp() {
    let mut clock = Clock::new(u64::MAX);
    assert_eq!(clock.observe(u64::MAX, 5), Ok(()));
    assert_eq!(clock.last, u64::MAX);
    assert_eq!(clock.now(7), Err(ClockError::Exhausted));
    assert_eq!(clock.last, u64::MAX);
}
