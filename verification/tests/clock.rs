use meister::clock::{now, HOUR};

#[test]
fn an_hour_is_counted_in_milliseconds() {
    assert_eq!(HOUR, 60 * 60 * 1000);
}

#[test]
fn the_clock_shows_a_time_after_the_epoch() {
    let first = now();
    assert!(first > 0);
    let second = now();
    assert!(second >= first - HOUR);
}
