use holiday_notifier::model::Holiday;
use holiday_notifier::pipeline::select_holidays;

fn record(date: &str, name: &str, local_name: &str, types: &[&str], country: &str) -> Holiday {
    Holiday {
        date: String::from(date),
        name: String::from(name),
        local_name: String::from(local_name),
        types: types.iter().map(|t| String::from(*t)).collect(),
        counties: None,
        country_code: String::from(country),
    }
}

#[test]
fn keeps_public_holiday_on_requested_date() {
    let records = vec![record(
        "2024-01-01",
        "New Year's Day",
        "New Year's Day",
        &["Public"],
        "US",
    )];
    let kept = select_holidays(records, "2024-01-01");
    assert_eq!(kept.len(), 1);
    assert_eq!(kept[0].name, "New Year's Day");
}

#[test]
fn keeps_optional_holiday() {
    let records = vec![record("2024-03-08", "Women's Day", "Frauentag", &["Optional"], "DE")];
    let kept = select_holidays(records, "2024-03-08");
    assert_eq!(kept.len(), 1);
}

#[test]
fn drops_holiday_on_other_date() {
    let records = vec![record(
        "2024-01-02",
        "New Year's Day",
        "New Year's Day",
        &["Public"],
        "US",
    )];
    let kept = select_holidays(records, "2024-01-01");
    assert_eq!(kept.len(), 0);
}

#[test]
fn drops_bank_only_holiday() {
    let records = vec![record(
        "2024-01-01",
        "New Year's Day",
        "New Year's Day",
        &["Bank"],
        "UK",
    )];
    let kept = select_holidays(records, "2024-01-01");
    assert_eq!(kept.len(), 0);
}

#[test]
fn keeps_holiday_with_mixed_types() {
    let records = vec![record(
        "2024-01-01",
        "New Year's Day",
        "New Year's Day",
        &["Bank", "Public"],
        "UK",
    )];
    let kept = select_holidays(records, "2024-01-01");
    assert_eq!(kept.len(), 1);
}

#[test]
fn drops_holiday_with_no_types() {
    let records = vec![record("2024-01-01", "Quiet Day", "Quiet Day", &[], "US")];
    let kept = select_holidays(records, "2024-01-01");
    assert_eq!(kept.len(), 0);
}

#[test]
fn keeps_input_order_of_kept_records() {
    let records = vec![
        record("2024-01-01", "First", "First", &["Public"], "US"),
        record("2024-01-01", "Skipped", "Skipped", &["Bank"], "US"),
        record("2024-01-01", "Second", "Second", &["Optional"], "US"),
    ];
    let kept = select_holidays(records, "2024-01-01");
    assert_eq!(kept.len(), 2);
    assert_eq!(kept[0].name, "First");
    assert_eq!(kept[1].name, "Second");
}
