use chatgraph::access::{check_contacts_access, check_database_access};
use chatgraph::chats::get_chats;
use chatgraph::directory::ContactDirectory;
use chatgraph::stats::get_chat_stats;
use chatgraph::types::{ChatRow, ExportOptions, StatRow};

fn chat_row(id: i64, ident: &str, name: Option<&str>, style: i64, parts: Vec<&str>) -> ChatRow {
    ChatRow {
        id,
        chat_identifier: ident.to_string(),
        display_name: name.map(|s| s.to_string()),
        style,
        message_count: 5,
        participant_ids: parts.into_iter().map(|s| s.to_string()).collect(),
    }
}

#[test]
fn single_participant_chat_backfills_display_name() {
    let mut dir = ContactDirectory::new();
    dir.insert("4155550100".to_string(), "Ada Lovelace".to_string());
    let rows = vec![chat_row(1, "chat-1", None, 45, vec!["+14155550100"])];
    let chats = get_chats(rows, &dir);
    assert_eq!(chats[0].display_name.as_deref(), Some("Ada Lovelace"));
    assert_eq!(chats[0].participants, vec!["Ada Lovelace".to_string()]);
    assert_eq!(chats[0].participant_ids, vec!["+14155550100".to_string()]);
    assert!(!chats[0].is_group);
    assert_eq!(chats[0].participant_count, 1);
}

#[test]
fn unresolved_single_participant_chat_stays_nameless() {
    let dir = ContactDirectory::new();
    let rows = vec![chat_row(1, "chat-1", None, 45, vec!["+14155550199"])];
    let chats = get_chats(rows, &dir);
    assert_eq!(chats[0].display_name, None);
    assert_eq!(chats[0].participants, vec!["+14155550199".to_string()]);
}

#[test]
fn stored_display_name_is_kept() {
    let mut dir = ContactDirectory::new();
    dir.insert("4155550100".to_string(), "Ada".to_string());
    let rows = vec![chat_row(1, "chat-1", Some("Book club"), 43, vec![
        "+14155550100",
        "bob@example.com",
    ])];
    let chats = get_chats(rows, &dir);
    assert_eq!(chats[0].display_name.as_deref(), Some("Book club"));
    assert!(chats[0].is_group);
    assert_eq!(chats[0].participant_count, 2);
    assert_eq!(chats[0].participants, vec!["Ada".to_string(), "bob@example.com".to_string()]);
}

#[test]
fn group_chat_with_one_member_but_stored_name_keeps_it() {
    let dir = ContactDirectory::new();
    let rows = vec![chat_row(2, "chat-2", Some(""), 43, vec!["a@example.com"])];
    let chats = get_chats(rows, &dir);
    assert_eq!(chats[0].display_name.as_deref(), Some(""));
}

#[test]
fn stats_count_totals_sent_and_received() {
    let rows = vec![
        StatRow { date: 1_000_000_000, is_from_me: true },
        StatRow { date: 2_000_000_000, is_from_me: false },
        StatRow { date: 3_000_000_000, is_from_me: true },
    ];
    let stats = get_chat_stats(&rows, 2, &None);
    assert_eq!(stats.total_messages, 3);
    assert_eq!(stats.messages_sent, 2);
    assert_eq!(stats.messages_received, 1);
    assert_eq!(stats.total_contacts, 2);
    assert_eq!(stats.date_range_start, Some(978307201));
    assert_eq!(stats.date_range_end, Some(978307203));
}

#[test]
fn stats_apply_the_date_filter_throughout() {
    let rows = vec![
        StatRow { date: 1_000_000_000, is_from_me: true },
        StatRow { date: 2_000_000_000, is_from_me: false },
        StatRow { date: 3_000_000_000, is_from_me: true },
    ];
    let opts = ExportOptions {
        start_date: Some(978307202),
        end_date: None,
        contact_ids: None,
    };
    let stats = get_chat_stats(&rows, 9, &Some(opts));
    assert_eq!(stats.total_messages, 2);
    assert_eq!(stats.messages_sent, 1);
    assert_eq!(stats.messages_received, 1);
    assert_eq!(stats.date_range_start, Some(978307202));
    assert_eq!(stats.date_range_end, Some(978307203));
}

#[test]
fn stats_range_excludes_rows_outside_the_window() {
    let rows = vec![
        StatRow { date: 1_000_000_000, is_from_me: false },
        StatRow { date: 2_000_000_000, is_from_me: false },
        StatRow { date: 3_000_000_000, is_from_me: false },
    ];
    let opts = ExportOptions {
        start_date: Some(978307202),
        end_date: Some(978307202),
        contact_ids: None,
    };
    let stats = get_chat_stats(&rows, 0, &Some(opts));
    assert_eq!(stats.total_messages, 1);
    assert_eq!(stats.date_range_start, Some(978307202));
    assert_eq!(stats.date_range_end, Some(978307202));
}

#[test]
fn stats_of_an_empty_store_have_no_date_range() {
    let rows: Vec<StatRow> = Vec::new();
    let stats = get_chat_stats(&rows, 0, &None);
    assert_eq!(stats.total_messages, 0);
    assert_eq!(stats.messages_sent, 0);
    assert_eq!(stats.messages_received, 0);
    assert_eq!(stats.date_range_start, None);
    assert_eq!(stats.date_range_end, None);
}

#[test]
fn stats_ignore_nonpositive_dates_for_the_range() {
    let rows = vec![
        StatRow { date: 0, is_from_me: false },
        StatRow { date: 2_000_000_000, is_from_me: false },
    ];
    let stats = get_chat_stats(&rows, 0, &None);
    assert_eq!(stats.date_range_start, Some(978307202));
    assert_eq!(stats.date_range_end, Some(978307202));
}

#[test]
fn status_reports_missing_home_directory() {
    let status = check_database_access(None, None, None);
    assert!(!status.accessible);
    assert_eq!(status.path, "");
    assert_eq!(status.error.as_deref(), Some("Could not determine home directory"));
}

#[test]
fn status_reports_open_failure_with_guidance() {
    let status = check_database_access(
        Some("/tmp/chat.db".to_string()),
        Some("unable to open database file".to_string()),
        None,
    );
    assert!(!status.accessible);
    assert_eq!(status.path, "/tmp/chat.db");
    let text = status.error.unwrap();
    assert!(text.starts_with("Cannot open database. Please grant Full Disk Access"));
    assert!(text.ends_with("Error: unable to open database file"));
}

#[test]
fn status_reports_read_failure_verbatim() {
    let status = check_database_access(
        Some("/tmp/chat.db".to_string()),
        None,
        Some("no such table: message".to_string()),
    );
    assert!(!status.accessible);
    assert_eq!(status.error.as_deref(), Some("Cannot read database: no such table: message"));
}

#[test]
fn status_reports_success_without_error() {
    let status = check_database_access(Some("/tmp/chat.db".to_string()), None, None);
    assert!(status.accessible);
    assert_eq!(status.path, "/tmp/chat.db");
    assert_eq!(status.error, None);
}

#[test]
fn contacts_access_follows_directory_contents() {
    let mut dir = ContactDirectory::new();
    assert!(!check_contacts_access(&dir));
    dir.insert("k".to_string(), "v".to_string());
    assert!(check_contacts_access(&dir));
}
