use tradebook::date::Date;

#[test]
fn dates_of_the_calendar() {
    assert!(Date::from_ymd_opt(2024, 2, 29).is_some());
    assert!(Date::from_ymd_opt(2023, 2, 29).is_none());
    assert!(Date::from_ymd_opt(1900, 2, 29).is_none());
    assert!(Date::from_ymd_opt(2000, 2, 29).is_some());
    assert!(Date::from_ymd_opt(2015, 3, 14).is_some());
    assert!(Date::from_ymd_opt(2015, 0, 14).is_none());
    assert!(Date::from_ymd_opt(2015, 13, 14).is_none());
    assert!(Date::from_ymd_opt(2015, 4, 31).is_none());
    assert!(Date::from_ymd_opt(2015, 4, 30).is_some());
    assert!(Date::from_ymd_opt(2015, 12, 31).is_some());
    assert!(Date::from_ymd_opt(2015, 12, 32).is_none());
    assert!(Date::from_ymd_opt(2015, 1, 0).is_none());
    assert!(Date::from_ymd_opt(-4, 2, 29).is_some());
    assert!(Date::from_ymd_opt(262142, 12, 31).is_some());
    assert!(Date::from_ymd_opt(262143, 1, 1).is_none());
    assert!(Date::from_ymd_opt(-262143, 1, 1).is_some());
    assert!(Date::from_ymd_opt(-262144, 12, 31).is_none());
    assert!(Date::from_ymd_opt(400000, 1, 1).is_none());
}

#[test]
fn date_parts_and_key() {
    let d = Date::from_ymd_opt(2026, 1, 27).unwrap();
    assert_eq!(d.year(), 2026);
    assert_eq!(d.month(), 1);
    assert_eq!(d.day(), 27);
    assert_eq!(d.sort_key(), 20260127);
    let earlier = Date::from_ymd_opt(2025, 12, 31).unwrap();
    assert!(earlier.sort_key() < d.sort_key());
    let bce = Date::from_ymd_opt(-5, 12, 31).unwrap();
    let next = Date::from_ymd_opt(-4, 1, 1).unwrap();
    assert!(bce.sort_key() < next.sort_key());
    assert_eq!(d, Date::from_ymd_opt(2026, 1, 27).unwrap());
    assert_ne!(d, earlier);
}

#[test]
fn date_as_iso_text() {
    let iso = |y, m, d| Date::from_ymd_opt(y, m, d).unwrap().to_iso_string();
    assert_eq!(iso(2026, 1, 27), "2026-01-27");
    assert_eq!(iso(1970, 1, 1), "1970-01-01");
    assert_eq!(iso(2025, 12, 5), "2025-12-05");
    assert_eq!(iso(987, 10, 31), "0987-10-31");
    assert_eq!(iso(0, 1, 1), "0000-01-01");
    assert_eq!(iso(9999, 12, 31), "9999-12-31");
    assert_eq!(iso(10000, 1, 1), "+10000-01-01");
    assert_eq!(iso(262142, 12, 31), "+262142-12-31");
    assert_eq!(iso(-1, 6, 15), "-0001-06-15");
    assert_eq!(iso(-12345, 6, 15), "-12345-06-15");
}
