use holiday_notifier::date::{parse_date, Date};

#[test]
fn parses_a_plain_date() {
    let d = parse_date("2024-01-01").expect("a valid date must parse");
    assert_eq!(d, Date { year: 2024, month: 1, day: 1 });
}

#[test]
fn parses_a_leap_day_in_a_leap_year() {
    assert!(parse_date("2024-02-29").is_some());
    assert!(parse_date("2000-02-29").is_some());
}

#[test]
fn rejects_impossible_days() {
    assert!(parse_date("2023-02-29").is_none());
    assert!(parse_date("1900-02-29").is_none());
    assert!(parse_date("2024-02-30").is_none());
    assert!(parse_date("2024-04-31").is_none());
    assert!(parse_date("2024-13-01").is_none());
    assert!(parse_date("2024-00-10").is_none());
    assert!(parse_date("2024-01-00").is_none());
}

#[test]
fn rejects_malformed_strings() {
    assert!(parse_date("").is_none());
    assert!(parse_date("20240101").is_none());
    assert!(parse_date("2024/01/01").is_none());
    assert!(parse_date("2024-1-01x").is_none());
    assert!(parse_date("abcd-ef-gh").is_none());
}

#[test]
fn prints_the_canonical_padded_form() {
    let d = Date { year: 7, month: 3, day: 9 };
    assert_eq!(d.to_iso_string(), "0007-03-09");
    let d2 = Date { year: 2024, month: 12, day: 31 };
    assert_eq!(d2.to_iso_string(), "2024-12-31");
}

#[test]
fn parse_and_print_round_trip() {
    let d = parse_date("2024-02-29").expect("leap day parses");
    assert_eq!(d.to_iso_string(), "2024-02-29");
}
