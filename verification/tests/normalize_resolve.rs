use chatgraph::directory::{
    add_email_record, add_phone_record, compose_name, get_contact_names, ContactDirectory,
    ContactSource, NameRecord,
};
use chatgraph::normalize::normalize_phone;
use chatgraph::resolve::lookup_contact_name;

fn record(first: Option<&str>, last: Option<&str>, value: &str) -> NameRecord {
    NameRecord {
        first: first.map(|s| s.to_string()),
        last: last.map(|s| s.to_string()),
        value: value.to_string(),
    }
}

#[test]
fn normalize_strips_punctuation_and_country_code() {
    assert_eq!(normalize_phone("(415) 555-0100"), "4155550100");
    assert_eq!(normalize_phone("+14155550100"), "4155550100");
    assert_eq!(normalize_phone("415-555-0100"), "4155550100");
    assert_eq!(normalize_phone("1 415 555 0100"), "4155550100");
}

#[test]
fn normalize_keeps_fewer_than_ten_digits() {
    assert_eq!(normalize_phone("555-0100"), "5550100");
    assert_eq!(normalize_phone(""), "");
    assert_eq!(normalize_phone("no digits here"), "");
}

#[test]
fn normalize_keeps_only_last_ten_digits() {
    assert_eq!(normalize_phone("00114155550100"), "4155550100");
}

#[test]
fn compose_name_joins_first_and_last() {
    assert_eq!(
        compose_name(&Some("Ada".to_string()), &Some("Lovelace".to_string())),
        Some("Ada Lovelace".to_string())
    );
    assert_eq!(compose_name(&Some("Ada".to_string()), &None), Some("Ada".to_string()));
    assert_eq!(compose_name(&None, &Some("Lovelace".to_string())), Some("Lovelace".to_string()));
    assert_eq!(compose_name(&None, &None), None);
}

#[test]
fn phone_record_inserts_three_key_variants() {
    let mut dir = ContactDirectory::new();
    add_phone_record(&mut dir, &record(Some("Ada"), Some("Lovelace"), "(415) 555-0100"));
    let name = "Ada Lovelace".to_string();
    assert_eq!(dir.get(&"4155550100".to_string()), Some(&name));
    assert_eq!(dir.get(&"+14155550100".to_string()), Some(&name));
    assert_eq!(dir.get(&"(415) 555-0100".to_string()), Some(&name));
    assert_eq!(dir.get(&"555-0100".to_string()), None);
}

#[test]
fn nameless_record_inserts_nothing() {
    let mut dir = ContactDirectory::new();
    add_phone_record(&mut dir, &record(None, None, "4155550100"));
    add_email_record(&mut dir, &record(None, None, "ada@example.com"));
    assert_eq!(dir.get(&"4155550100".to_string()), None);
    assert_eq!(dir.get(&"ada@example.com".to_string()), None);
}

#[test]
fn email_record_inserts_lowercased_key() {
    let mut dir = ContactDirectory::new();
    add_email_record(&mut dir, &record(Some("Ada"), None, "Ada@Example.COM"));
    assert_eq!(dir.get(&"ada@example.com".to_string()), Some(&"Ada".to_string()));
    assert_eq!(dir.get(&"Ada@Example.COM".to_string()), None);
}

#[test]
fn later_source_wins_on_key_collision() {
    let first = ContactSource {
        phones: vec![record(Some("Old"), Some("Name"), "4155550100")],
        emails: vec![],
    };
    let second = ContactSource {
        phones: vec![record(Some("New"), Some("Name"), "4155550100")],
        emails: vec![],
    };
    let dir = get_contact_names(&vec![first, second]);
    assert_eq!(dir.get(&"4155550100".to_string()), Some(&"New Name".to_string()));
}

#[test]
fn empty_source_list_yields_empty_directory() {
    let dir = get_contact_names(&vec![]);
    assert!(!chatgraph::access::check_contacts_access(&dir));
}

#[test]
fn resolve_exact_match_wins() {
    let mut dir = ContactDirectory::new();
    dir.insert("ada@example.com".to_string(), "Ada".to_string());
    assert_eq!(lookup_contact_name("ada@example.com", &dir), Some("Ada".to_string()));
}

#[test]
fn resolve_falls_back_to_lowercase_for_email_case() {
    let mut dir = ContactDirectory::new();
    dir.insert("ada@example.com".to_string(), "Ada".to_string());
    assert_eq!(lookup_contact_name("ADA@EXAMPLE.COM", &dir), Some("Ada".to_string()));
}

#[test]
fn resolve_falls_back_to_normalized_phone() {
    let mut dir = ContactDirectory::new();
    dir.insert("4155550100".to_string(), "Ada".to_string());
    assert_eq!(lookup_contact_name("(415) 555-0100", &dir), Some("Ada".to_string()));
}

#[test]
fn resolve_returns_nothing_without_a_match() {
    let dir = ContactDirectory::new();
    assert_eq!(lookup_contact_name("4155550100", &dir), None);
}

#[test]
fn resolve_is_deterministic_across_calls() {
    let mut dir = ContactDirectory::new();
    dir.insert("4155550100".to_string(), "Ada".to_string());
    let a = lookup_contact_name("+1 (415) 555-0100", &dir);
    let b = lookup_contact_name("+1 (415) 555-0100", &dir);
    assert_eq!(a, b);
    assert_eq!(a, Some("Ada".to_string()));
}

#[test]
fn directory_insert_overwrites_earlier_binding() {
    let mut dir = ContactDirectory::new();
    dir.insert("k".to_string(), "one".to_string());
    dir.insert("k".to_string(), "two".to_string());
    assert_eq!(dir.get(&"k".to_string()), Some(&"two".to_string()));
}
