use std::cmp::Ordering;
use tort_todo::serde_date::{add_days, today_parts, DateParseError, Ymd};
use tort_todo::SerdeDate;

fn parse(s: &str) -> Result<SerdeDate, DateParseError> {
    SerdeDate::try_from(Some(s.to_string()), today_parts())
}

#[test]
fn test_parse_none_is_unset() {
    let d = SerdeDate::try_from(None, today_parts()).unwrap();
    assert!(!d.is_some());
    assert_eq!(d.date, None);
}

#[test]
fn test_parse_today_keywords() {
    let today = today_parts();
    for k in ["today", "tod"] {
        let d = parse(k).unwrap();
        assert_eq!(d.date, Some(today));
    }
}

#[test]
fn test_parse_tomorrow_keywords() {
    let today = today_parts();
    let tomorrow = add_days(today, 1);
    for k in ["tomorrow", "tom"] {
        let d = parse(k).unwrap();
        assert_eq!(d.date, Some(tomorrow));
    }
}

#[test]
fn test_parse_weekday_is_within_week() {
    let today = today_parts();
    let d = parse("Sat").unwrap().date.unwrap();
    // the next saturday falls within the coming seven days
    let mut found = false;
    for off in 0..7u8 {
        if add_days(today, off) == d {
            found = true;
        }
    }
    assert!(found);
    // a weekday name resolves the same regardless of letter case
    assert_eq!(parse("sat").unwrap().date, Some(d));
}

#[test]
fn test_parse_month_day_rolls_year() {
    let today = today_parts();
    let d = parse("nov28").unwrap().date.unwrap();
    assert_eq!(d.month, 11);
    assert_eq!(d.day, 28);
    let expected_year = if u32::from(today.month) * 31 + u32::from(today.day) < 11 * 31 + 28 {
        today.year
    } else {
        today.year + 1
    };
    assert_eq!(d.year, expected_year);
    assert_eq!(parse("Nov28").unwrap().date, Some(d));
}

#[test]
fn test_parse_literal_date() {
    let d = parse("2026-01-05").unwrap();
    assert_eq!(d.date, Some(Ymd { year: 2026, month: 1, day: 5 }));
}

#[test]
fn test_parse_rejects_nonsense() {
    for bad in ["xyz", "may", "Feb30", "2026-13-01", "2026-02-30", "Nov0", "november28", ""] {
        let r = parse(bad);
        assert_eq!(r, Err(DateParseError { input: bad.to_string() }));
    }
}

#[test]
fn test_compare_dates() {
    let a = SerdeDate { date: Some(Ymd { year: 2026, month: 1, day: 5 }) };
    let b = SerdeDate { date: Some(Ymd { year: 2026, month: 2, day: 1 }) };
    let unset = SerdeDate { date: None };

    assert_eq!(a.cmp(&b), Ordering::Less);
    assert_eq!(b.cmp(&a), Ordering::Greater);
    assert_eq!(a.cmp(&a), Ordering::Equal);
    assert_eq!(unset.cmp(&unset), Ordering::Equal);
    assert_eq!(unset.cmp(&a), Ordering::Greater);
    assert_eq!(a.cmp(&unset), Ordering::Less);
}

#[test]
fn test_serialized_form() {
    let d = SerdeDate { date: Some(Ymd { year: 2026, month: 1, day: 5 }) };
    assert_eq!(d.to_serialized(), "2026-01-05");
    assert_eq!(SerdeDate { date: None }.to_serialized(), "");

    assert_eq!(SerdeDate::from_serialized("2026-01-05"), Ok(d));
    assert_eq!(SerdeDate::from_serialized(""), Ok(SerdeDate { date: None }));
    assert_eq!(
        SerdeDate::from_serialized("2026-1-5"),
        Err(DateParseError { input: "2026-1-5".to_string() })
    );
}

#[test]
fn test_serialization_round_trip() {
    // every parsed date survives serialize-then-deserialize
    for expr in ["today", "tom", "Sat", "nov28", "2026-01-05", "2020-02-29"] {
        let d = parse(expr).unwrap();
        assert_eq!(SerdeDate::from_serialized(&d.to_serialized()), Ok(d));
    }
    let unset = SerdeDate::try_from(None, today_parts()).unwrap();
    assert_eq!(SerdeDate::from_serialized(&unset.to_serialized()), Ok(unset));
}

#[test]
fn test_display_form() {
    // 2026-01-05 falls on a Monday
    let d = SerdeDate { date: Some(Ymd { year: 2026, month: 1, day: 5 }) };
    assert_eq!(d.display_text(), "Mon Jan 05");
    // 2020-02-29 exists (leap year) and falls on a Saturday
    let leap = SerdeDate::from_serialized("2020-02-29").unwrap();
    assert_eq!(leap.display_text(), "Sat Feb 29");
    assert_eq!(SerdeDate { date: None }.display_text(), "");
}

#[test]
fn test_add_days_crosses_boundaries() {
    assert_eq!(
        add_days(Ymd { year: 2023, month: 12, day: 31 }, 1),
        Ymd { year: 2024, month: 1, day: 1 }
    );
    assert_eq!(
        add_days(Ymd { year: 2024, month: 2, day: 28 }, 1),
        Ymd { year: 2024, month: 2, day: 29 }
    );
    assert_eq!(
        add_days(Ymd { year: 2023, month: 2, day: 28 }, 1),
        Ymd { year: 2023, month: 3, day: 1 }
    );
}
