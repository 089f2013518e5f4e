use xmtv_cast::store::{should_update, should_update_on, today_stamp, CalendarDate};

fn day(year: i32, month: u32, d: u32) -> CalendarDate {
    CalendarDate { year, month, day: d }
}

#[test]
fn same_day_stamp_is_fresh() {
    assert!(!should_update_on("2024-01-05", day(2024, 1, 5)));
}

#[test]
fn earlier_day_is_stale() {
    assert!(should_update_on("2024-01-04", day(2024, 1, 5)));
    assert!(should_update_on("2023-12-31", day(2024, 1, 1)));
    assert!(should_update_on("2024-02-28", day(2024, 3, 1)));
}

#[test]
fn later_day_is_fresh() {
    assert!(!should_update_on("2024-01-06", day(2024, 1, 5)));
}

#[test]
fn unreadable_stamp_is_stale() {
    assert!(should_update_on("yesterday", day(2024, 1, 5)));
    assert!(should_update_on("", day(2024, 1, 5)));
}

#[test]
fn todays_stamp_is_fresh_now() {
    let s = today_stamp();
    assert_eq!(s.len(), 10);
    assert_eq!(&s[4..5], "-");
    assert!(!should_update(&s));
}

#[test]
fn old_stamp_is_stale_now() {
    assert!(should_update("2000-01-01"));
}

#[test]
fn stamp_of_an_earlier_day_is_stale() {
    assert!(should_update_on("2024-01-01", day(2024, 1, 2)));
    assert!(!should_update_on("2024-01-02", day(2024, 1, 2)));
    assert!(should_update_on("0999-12-31", day(1000, 1, 1)));
}
