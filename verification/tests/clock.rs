use chrono::{DateTime, TimeZone, Utc};
use yt_dlp_ui::clock::{
    format_next_run, format_optional_timestamp, format_timestamp, Timestamp, FIRST_SECOND,
    LAST_SECOND,
};

#[test]
fn calendar_ends_where_dates_do() {
    assert_eq!(DateTime::<Utc>::MIN_UTC.timestamp(), FIRST_SECOND);
    assert_eq!(DateTime::<Utc>::MAX_UTC.timestamp(), LAST_SECOND);
    assert!(Utc.timestamp_opt(FIRST_SECOND, 0).single().is_some());
    assert!(Utc.timestamp_opt(FIRST_SECOND - 1, 0).single().is_none());
    assert!(Utc.timestamp_opt(LAST_SECOND, 0).single().is_some());
    assert!(Utc.timestamp_opt(LAST_SECOND + 1, 0).single().is_none());
}

#[test]
fn timestamps_within_the_calendar() {
    for seconds in vec![FIRST_SECOND, -1, 0, 1_700_000_000, LAST_SECOND] {
        let t = Timestamp::new(seconds, 999_999_999).unwrap();
        assert_eq!(t.seconds(), seconds);
        assert_eq!(t.nanos(), 999_999_999);
    }
    for seconds in vec![i64::MIN, FIRST_SECOND - 1, LAST_SECOND + 1, i64::MAX] {
        assert!(Timestamp::new(seconds, 0).is_none());
    }
    assert!(Timestamp::new(0, 1_000_000_000).is_none());
}

#[test]
fn timestamps_are_ordered() {
    let a = Timestamp::new(10, 5).unwrap();
    let b = Timestamp::new(10, 6).unwrap();
    let c = Timestamp::new(11, 0).unwrap();
    assert!(a.not_after(&a));
    assert!(a.not_after(&b) && !b.not_after(&a));
    assert!(b.not_after(&c) && !c.not_after(&b));
}

#[test]
fn timestamps_move() {
    let t = Timestamp::new(1_700_000_000, 7).unwrap();
    assert_eq!(t.plus(3_600), Timestamp::new(1_700_003_600, 7).unwrap());
    assert_eq!(t.minus(3_600), Timestamp::new(1_699_996_400, 7).unwrap());
    assert_eq!(t.minus(86_400).plus(86_400), t);
}

#[test]
fn timestamps_as_text() {
    let t = Timestamp::new(1_700_000_000, 500).unwrap();
    assert_eq!(format_timestamp(t), "2023-11-14 22:13:20");
    assert_eq!(format_optional_timestamp(Some(t)), "2023-11-14 22:13:20");
    assert_eq!(format_optional_timestamp(None), "-");
    assert_eq!(format_next_run(t), "2023-11-14 22:13 UTC");
    assert_eq!(format_timestamp(Timestamp::new(0, 0).unwrap()), "1970-01-01 00:00:00");
}

#[test]
fn text_is_the_same_as_that_of_the_date() {
    for seconds in vec![FIRST_SECOND, -62_135_596_800, -1, 951_782_400, LAST_SECOND] {
        let date = Utc.timestamp_opt(seconds, 0).unwrap();
        let t = Timestamp::new(seconds, 0).unwrap();
        assert_eq!(format_timestamp(t), date.format("%Y-%m-%d %H:%M:%S").to_string());
        assert_eq!(format_next_run(t), date.format("%Y-%m-%d %H:%M UTC").to_string());
    }
}

#[test]
fn texts_are_never_a_dash() {
    for seconds in vec![FIRST_SECOND, -62_167_219_201, -62_167_219_200, -1, 0, LAST_SECOND] {
        let t = Timestamp::new(seconds, 0).unwrap();
        assert!(format_timestamp(t).chars().count() >= 19);
        assert_ne!(format_optional_timestamp(Some(t)), "-");
    }
    assert_eq!(format_timestamp(Timestamp::new(-62_167_219_200, 0).unwrap()), "0000-01-01 00:00:00");
    assert_eq!(format_timestamp(Timestamp::new(-62_167_219_201, 0).unwrap()), "-0001-12-31 23:59:59");
}
