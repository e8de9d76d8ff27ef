use holiday_notifier::location::display_location;
use holiday_notifier::message::{build_blocks, Block, Line};
use holiday_notifier::model::{Group, Holiday};
use holiday_notifier::notify::notification_payload;
use holiday_notifier::pipeline::select_holidays;
use holiday_notifier::render::render_message;

fn record(date: &str, name: &str, local_name: &str, types: &[&str], country: &str) -> Holiday {
    Holiday {
        date: String::from(date),
        name: String::from(name),
        local_name: String::from(local_name),
        types: types.iter().map(|t| String::from(*t)).collect(),
        counties: None,
        country_code: String::from(country),
    }
}

#[test]
fn empty_holiday_list_sends_nothing() {
    assert!(notification_payload(Vec::new()).is_none());
}

#[test]
fn nonempty_holiday_list_builds_a_payload() {
    let holidays = vec![record(
        "2024-01-01",
        "New Year's Day",
        "New Year's Day",
        &["Public"],
        "US",
    )];
    assert!(notification_payload(holidays).is_some());
}

#[test]
fn resolves_known_country_codes() {
    assert_eq!(display_location("US"), "United States of America");
    assert_eq!(display_location("us"), "United States of America");
    assert_eq!(display_location("AT"), "Austria");
}

#[test]
fn falls_back_to_the_raw_code_for_unknown_codes() {
    assert_eq!(display_location("UK"), "UK");
    assert_eq!(display_location("ZZ"), "ZZ");
    assert_eq!(display_location("GB"), "United Kingdom of Great Britain and Northern Ireland");
    assert_eq!(display_location(""), "");
}

#[test]
fn end_to_end_single_us_holiday() {
    // One country answers with a public holiday, the other only with a bank
    // holiday, which the selection drops.
    let us_records = vec![record(
        "2024-01-01",
        "New Year's Day",
        "New Year's Day",
        &["Public"],
        "US",
    )];
    let uk_records = vec![record(
        "2024-01-01",
        "New Year's Day",
        "New Year's Day",
        &["Bank"],
        "GB",
    )];
    let mut holidays = select_holidays(us_records, "2024-01-01");
    holidays.extend(select_holidays(uk_records, "2024-01-01"));
    assert_eq!(holidays.len(), 1);
    let payload = notification_payload(holidays).expect("one holiday must yield a message");
    let mut expected = String::new();
    expected.push_str("{\"blocks\":[");
    expected.push_str("{\"type\":\"header\",\"text\":{\"type\":\"plain_text\",\"text\":\":calendar: Holidays\",\"emoji\":true}},");
    expected.push_str("{\"type\":\"section\",\"text\":{\"type\":\"mrkdwn\",\"text\":\"_United States of America_\"}},");
    expected.push_str("{\"type\":\"rich_text\",\"elements\":[{\"type\":\"rich_text_list\",\"style\":\"bullet\",\"elements\":[");
    expected.push_str("{\"type\":\"rich_text_section\",\"elements\":[");
    expected.push_str("{\"type\":\"text\",\"text\":\"New Year's Day\",\"style\":{\"bold\":true}},");
    expected.push_str("{\"type\":\"text\",\"text\":\" (New Year's Day)\",\"style\":{\"italic\":true}}");
    expected.push_str("]}]}]}");
    expected.push_str("]}");
    assert_eq!(payload, expected);
}

#[test]
fn one_failed_country_does_not_hide_the_others() {
    // A failed fetch contributes no records; the surviving country's
    // holidays still reach the message.
    let from_failed_country: Vec<Holiday> = Vec::new();
    let mut holidays = from_failed_country;
    holidays.extend(select_holidays(
        vec![record("2024-07-14", "Bastille Day", "Fête nationale", &["Public"], "FR")],
        "2024-07-14",
    ));
    let payload = notification_payload(holidays).expect("the surviving country must be announced");
    assert!(payload.contains("_France_"));
    assert!(payload.contains("Fête nationale"));
}

#[test]
fn renders_quotes_and_backslashes_escaped() {
    let blocks = vec![
        Block::Header(String::from(":calendar: Holidays")),
        Block::Section(String::from("No\"where\\land")),
        Block::Bullets(vec![Line {
            bold: String::from("Day \"one\""),
            italic: None,
        }]),
    ];
    let payload = render_message(&blocks);
    assert!(payload.contains("_No\\\"where\\\\land_"));
    assert!(payload.contains("{\"type\":\"text\",\"text\":\"Day \\\"one\\\"\",\"style\":{\"bold\":true}}"));
}

#[test]
fn renders_control_characters_as_hex_escapes() {
    let blocks = vec![Block::Section(String::from("a\nb"))];
    let payload = render_message(&blocks);
    assert!(payload.contains("_a\\u000ab_"));
}

#[test]
fn line_without_secondary_name_has_one_element() {
    let groups = vec![Group {
        key: String::from("Austria"),
        entries: vec![holiday_notifier::model::Entry {
            location: Some(String::from("Austria")),
            primary: String::from("Staatsfeiertag"),
            secondary: None,
        }],
    }];
    let blocks = build_blocks(groups);
    let payload = render_message(&blocks);
    assert!(payload.contains(
        "{\"type\":\"rich_text_section\",\"elements\":[{\"type\":\"text\",\"text\":\"Staatsfeiertag\",\"style\":{\"bold\":true}}]}"
    ));
    assert!(!payload.contains("italic"));
}
