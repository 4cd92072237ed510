//! The max-on-time safeguard.

use relay6::safeguard::Safeguard;
use relay6::CHANNELS;

#[test]
fn trips_after_limit() {
    let mut s = Safeguard::new([0; CHANNELS]);
    s.set_max_on_min(2, 10);
    s.relay_changed(2, true, 1_000);
    s.relay_changed(3, true, 1_000); // no limit on ch4
    assert!(s.expired(1_000 + 9 * 60_000).is_empty());
    assert_eq!(s.expired(1_000 + 10 * 60_000), vec![2]);
    s.relay_changed(2, false, 1_000 + 10 * 60_000);
    assert!(s.expired(1_000 + 60 * 60_000).is_empty());
}

#[test]
fn re_on_restarts_timer_and_zero_disables() {
    let mut s = Safeguard::new([5; CHANNELS]);
    s.relay_changed(0, true, 0);
    s.relay_changed(0, true, 4 * 60_000); // e.g. repeated ON command: restart
    assert!(s.expired(5 * 60_000).is_empty());
    assert_eq!(s.expired(9 * 60_000), vec![0]);
    s.set_max_on_min(0, 0);
    assert!(s.expired(999 * 60_000).is_empty());
    assert_eq!(s.max_on_min(1), 5);
}

#[test]
fn on_time_is_counted_from_the_last_on() {
    let mut s = Safeguard::new([0; CHANNELS]);
    assert_eq!(s.on_for_ms(1, 500), None);
    s.relay_changed(1, true, 400);
    assert_eq!(s.on_for_ms(1, 500), Some(100));
    assert_eq!(s.on_for_ms(1, 300), Some(0));
    s.relay_changed(1, false, 600);
    assert_eq!(s.on_for_ms(1, 700), None);
}

#[test]
fn what_has_expired_stays_expired() {
    let mut s = Safeguard::new([1, 2, 0, 0, 0, 65535]);
    for ch in 0..6 {
        s.relay_changed(ch, true, 0);
    }
    assert_eq!(s.expired(59_999), Vec::<usize>::new());
    assert_eq!(s.expired(60_000), vec![0]);
    assert_eq!(s.expired(120_000), vec![0, 1]);
    assert_eq!(s.expired(65535 * 60_000), vec![0, 1, 5]);
    assert_eq!((s.max_on_min(5), s.max_on_min(2)), (65535, 0));
    let copy = s.clone();
    assert_eq!(copy.expired(120_000), s.expired(120_000));
}
