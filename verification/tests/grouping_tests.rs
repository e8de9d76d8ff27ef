use holiday_notifier::group::group_entries;
use holiday_notifier::model::Entry;

fn entry(location: Option<&str>, primary: &str, secondary: Option<&str>) -> Entry {
    Entry {
        location: location.map(String::from),
        primary: String::from(primary),
        secondary: secondary.map(String::from),
    }
}

#[test]
fn absent_and_empty_locations_fall_into_no_group() {
    let entries = vec![
        entry(None, "Nowhere Day", None),
        entry(Some(""), "Empty Day", None),
        entry(Some("Austria"), "Nationalfeiertag", Some("National Day")),
    ];
    let groups = group_entries(&entries);
    assert_eq!(groups.len(), 1);
    assert_eq!(groups[0].key, "Austria");
    assert_eq!(groups[0].entries.len(), 1);
    assert_eq!(groups[0].entries[0].primary, "Nationalfeiertag");
}

#[test]
fn every_keyed_entry_lands_in_exactly_one_group() {
    let entries = vec![
        entry(Some("Brazil"), "Carnaval", None),
        entry(Some("Austria"), "Ostermontag", None),
        entry(Some("Brazil"), "Tiradentes", None),
    ];
    let groups = group_entries(&entries);
    assert_eq!(groups.len(), 2);
    let total: usize = groups.iter().map(|g| g.entries.len()).sum();
    assert_eq!(total, entries.len());
    for g in groups.iter() {
        for e in g.entries.iter() {
            assert_eq!(e.location.as_deref(), Some(g.key.as_str()));
        }
    }
}

#[test]
fn groups_are_sorted_by_key() {
    let entries = vec![
        entry(Some("Chile"), "c", None),
        entry(Some("Austria"), "a", None),
        entry(Some("Brazil"), "b", None),
    ];
    let groups = group_entries(&entries);
    let keys: Vec<&str> = groups.iter().map(|g| g.key.as_str()).collect();
    assert_eq!(keys, vec!["Austria", "Brazil", "Chile"]);
}

#[test]
fn shorter_prefix_key_sorts_first() {
    let entries = vec![
        entry(Some("B"), "late", None),
        entry(Some("AB"), "early", None),
        entry(Some("A"), "earliest", None),
    ];
    let groups = group_entries(&entries);
    let keys: Vec<&str> = groups.iter().map(|g| g.key.as_str()).collect();
    assert_eq!(keys, vec!["A", "AB", "B"]);
}

#[test]
fn within_a_group_input_order_is_kept() {
    let entries = vec![
        entry(Some("Brazil"), "first", None),
        entry(Some("Austria"), "other", None),
        entry(Some("Brazil"), "second", None),
        entry(Some("Brazil"), "third", None),
    ];
    let groups = group_entries(&entries);
    assert_eq!(groups.len(), 2);
    assert_eq!(groups[1].key, "Brazil");
    let names: Vec<&str> = groups[1].entries.iter().map(|e| e.primary.as_str()).collect();
    assert_eq!(names, vec!["first", "second", "third"]);
}
