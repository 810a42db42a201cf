use pcplayerpicker::read_only::{
    next_read_only_poll_interval_ms, read_only_event_cache_key, READ_ONLY_MAX_POLL_INTERVAL_MS,
    READ_ONLY_POLL_INTERVAL_MS,
};

#[test]
fn quiet_sessions_back_off_until_the_cap() {
    assert_eq!(
        next_read_only_poll_interval_ms(READ_ONLY_POLL_INTERVAL_MS, false),
        120_000
    );
    assert_eq!(
        next_read_only_poll_interval_ms(300_000, false),
        READ_ONLY_MAX_POLL_INTERVAL_MS
    );
    assert_eq!(
        next_read_only_poll_interval_ms(READ_ONLY_MAX_POLL_INTERVAL_MS, false),
        READ_ONLY_MAX_POLL_INTERVAL_MS
    );
}

#[test]
fn new_events_reset_polling_to_the_fast_interval() {
    assert_eq!(
        next_read_only_poll_interval_ms(READ_ONLY_MAX_POLL_INTERVAL_MS, true),
        READ_ONLY_POLL_INTERVAL_MS
    );
}

#[test]
fn quiet_polls_stay_within_bounds_and_never_speed_up() {
    let mut interval = READ_ONLY_POLL_INTERVAL_MS;
    for _ in 0..10 {
        let next = next_read_only_poll_interval_ms(interval, false);
        assert!(next >= interval);
        assert!(next <= READ_ONLY_MAX_POLL_INTERVAL_MS);
        interval = next;
    }
    assert_eq!(interval, READ_ONLY_MAX_POLL_INTERVAL_MS);
}

#[test]
fn read_only_cache_key_is_prefixed() {
    assert_eq!(read_only_event_cache_key("abc"), "pcpp_read_only_events_abc");
}
