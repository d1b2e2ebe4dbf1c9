use simple_bot::clock::{
    current_5m_window_ts, current_ts, next_window_start, next_window_ts, next_window_ts_at,
    remaining_secs, secs_until, slug_ts, window_slug, window_start, window_ts_at,
    Moment,
};

fn at(secs: i64, nanos: u32) -> Moment {
    Moment { secs, nanos }
}

#[test]
fn windows_begin_at_multiples_of_five_minutes() {
    assert_eq!(window_start(0), 0);
    assert_eq!(window_start(299), 0);
    assert_eq!(window_start(300), 300);
    assert_eq!(window_start(1_770_978_437), 1_770_978_300);
    assert_eq!(next_window_start(1_770_978_437), 1_770_978_600);
    assert_eq!(next_window_start(300), 600);
    assert_eq!(window_start(u64::MAX), u64::MAX - u64::MAX % 300);
}

#[test]
fn windows_follow_each_other() {
    for now in [0u64, 1, 299, 300, 12_345, 1_770_978_437] {
        assert_eq!(window_start(window_start(now)), window_start(now));
        assert_eq!(window_start(now + 300), window_start(now) + 300);
        assert!(window_start(now) <= now && now < window_start(now) + 300);
    }
}

#[test]
fn every_reading_lies_in_a_window() {
    let last = u64::MAX - u64::MAX % 300;
    assert_eq!(window_ts_at(Some(1_770_978_437)), Some(1_770_978_300));
    assert_eq!(window_ts_at(Some(u64::MAX)), Some(last));
    assert_eq!(window_ts_at(None), None);
    assert_eq!(next_window_ts_at(Some(1_770_978_437)), Some(1_770_978_600));
    assert_eq!(next_window_ts_at(Some(last - 1)), Some(last));
    assert_eq!(next_window_ts_at(Some(last)), None);
    assert_eq!(next_window_ts_at(None), None);
}

#[test]
fn the_clock_is_in_its_window() {
    let before = current_ts().unwrap();
    let window = current_5m_window_ts().unwrap();
    let next = next_window_ts().unwrap();
    let after = current_ts().unwrap();
    assert!(before > 1_700_000_000);
    assert!(window <= after && before < window + 300);
    assert!(next > before && next <= after + 300);
    assert_eq!(window % 300, 0);
    assert_eq!(next % 300, 0);
}

#[test]
fn seconds_until_a_time() {
    assert_eq!(secs_until(100, 40), 60);
    assert_eq!(secs_until(40, 100), 0);
    assert_eq!(secs_until(40, 40), 0);
}

#[test]
fn remaining_seconds_are_cut_off_towards_zero() {
    assert_eq!(remaining_secs(at(100, 0), at(40, 0)), 60);
    assert_eq!(remaining_secs(at(100, 0), at(98, 1)), 1);
    assert_eq!(remaining_secs(at(100, 0), at(99, 1)), 0);
    assert_eq!(remaining_secs(at(100, 0), at(100, 999_999_999)), 0);
    assert_eq!(remaining_secs(at(100, 0), at(101, 0)), -1);
    assert_eq!(remaining_secs(at(100, 500), at(102, 400)), -1);
}

#[test]
fn remaining_seconds_agree_with_chrono() {
    for (a, b) in [
        ((1_771_291_800i64, 0u32), (1_771_291_799i64, 500_000_000u32)),
        ((5, 999_999_999), (7, 1)),
        ((-3, 10), (2, 9)),
        ((0, 0), (0, 0)),
    ] {
        let end = chrono::DateTime::from_timestamp(a.0, a.1).unwrap();
        let now = chrono::DateTime::from_timestamp(b.0, b.1).unwrap();
        assert_eq!(remaining_secs(at(a.0, a.1), at(b.0, b.1)), (end - now).num_seconds());
    }
}

#[test]
fn slugs_name_their_window() {
    assert_eq!(window_slug("btc-updown-5m", 1_770_978_300), "btc-updown-5m-1770978300");
    assert_eq!(slug_ts("btc-updown-5m-1770978300"), 1_770_978_300);
}

#[test]
fn slugs_read_back() {
    for ts in [0u64, 1, 300, 1_771_291_800, i64::MAX as u64] {
        assert_eq!(slug_ts(&window_slug("btc-updown-15m", ts)), ts as i64);
    }
}

#[test]
fn slugs_without_a_time_count_as_zero() {
    assert_eq!(slug_ts(""), 0);
    assert_eq!(slug_ts("bitcoin"), 0);
    assert_eq!(slug_ts("btc-updown-5m-"), 0);
    assert_eq!(slug_ts("btc-updown-5m-12x"), 0);
    assert_eq!(slug_ts("17"), 17);
    assert_eq!(slug_ts("a--17"), 17);
}
