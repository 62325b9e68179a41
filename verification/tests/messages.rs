use chatgraph::assemble::{
    attach_attachments, attachment_candidates, clean_guid, get_messages, get_messages_for_contact,
};
use chatgraph::directory::ContactDirectory;
use chatgraph::types::{AttachmentRow, ExportOptions, MessageRow, ReactionRow};

fn row(id: i64, guid: &str, date: i64, from_me: bool, handle: i64, cid: &str) -> MessageRow {
    MessageRow {
        id,
        guid: guid.to_string(),
        text: Some(format!("text {}", id)),
        date,
        is_from_me: from_me,
        handle_id: handle,
        contact_identifier: cid.to_string(),
        has_attachment: false,
        chat_id: Some(7),
        assoc_type: None,
    }
}

fn reaction(parent: Option<&str>, kind: i64, from_me: bool, sender: &str) -> ReactionRow {
    ReactionRow {
        assoc_guid: parent.map(|s| s.to_string()),
        reaction_type: kind,
        is_from_me: from_me,
        sender_id: sender.to_string(),
    }
}

fn no_extras() -> (Vec<AttachmentRow>, Vec<ReactionRow>) {
    (Vec::new(), Vec::new())
}

#[test]
fn clean_guid_takes_suffix_after_last_slash() {
    assert_eq!(clean_guid("p:0/ABC-1"), "ABC-1");
    assert_eq!(clean_guid("bp:ABC-1"), "ABC-1");
    assert_eq!(clean_guid("a/b/c"), "c");
    assert_eq!(clean_guid("trailing/"), "");
    assert_eq!(clean_guid(""), "");
}

#[test]
fn listing_orders_messages_newest_first() {
    let rows = vec![
        row(1, "G-1", 1_000_000_000, false, 1, "4155550100"),
        row(3, "G-3", 3_000_000_000, false, 1, "4155550100"),
        row(2, "G-2", 2_000_000_000, false, 1, "4155550100"),
    ];
    let (ars, rrs) = no_extras();
    let dir = ContactDirectory::new();
    let msgs = get_messages(rows, &ars, &rrs, &dir, &None, None);
    let ids: Vec<i64> = msgs.iter().map(|m| m.id).collect();
    assert_eq!(ids, vec![3, 2, 1]);
    assert_eq!(msgs[0].date, 978307203);
    assert_eq!(msgs[0].date_formatted, "2001-01-01 00:00:03");
}

#[test]
fn listing_excludes_pseudo_messages_and_nonpositive_dates() {
    let mut bad_type = row(4, "G-4", 4_000_000_000, false, 1, "x");
    bad_type.assoc_type = Some(2000);
    let mut edit_type = row(5, "G-5", 5_000_000_000, false, 1, "x");
    edit_type.assoc_type = Some(1000);
    let mut zero_type = row(6, "G-6", 6_000_000_000, false, 1, "x");
    zero_type.assoc_type = Some(0);
    let mut undated = row(7, "G-7", 0, false, 1, "x");
    undated.assoc_type = None;
    let rows = vec![bad_type, edit_type, zero_type, undated];
    let (ars, rrs) = no_extras();
    let dir = ContactDirectory::new();
    let msgs = get_messages(rows, &ars, &rrs, &dir, &None, None);
    let ids: Vec<i64> = msgs.iter().map(|m| m.id).collect();
    assert_eq!(ids, vec![6]);
}

#[test]
fn listing_never_returns_a_message_outside_the_bounds() {
    let rows = vec![
        row(1, "G-1", 1_000_000_000, false, 1, "x"),
        row(2, "G-2", 2_000_000_000, false, 1, "x"),
        row(3, "G-3", 3_000_000_000, false, 1, "x"),
        row(4, "G-4", 4_000_000_000, false, 1, "x"),
    ];
    let (ars, rrs) = no_extras();
    let dir = ContactDirectory::new();
    let opts = ExportOptions {
        start_date: Some(978307202),
        end_date: Some(978307203),
        contact_ids: None,
    };
    let msgs = get_messages(rows, &ars, &rrs, &dir, &Some(opts), None);
    let ids: Vec<i64> = msgs.iter().map(|m| m.id).collect();
    assert_eq!(ids, vec![3, 2]);
    for m in &msgs {
        assert!(978307202 <= m.date && m.date <= 978307203);
    }
}

#[test]
fn listing_applies_the_row_cap_after_ordering() {
    let rows = vec![
        row(1, "G-1", 1_000_000_000, false, 1, "x"),
        row(2, "G-2", 2_000_000_000, false, 1, "x"),
        row(3, "G-3", 3_000_000_000, false, 1, "x"),
    ];
    let dir = ContactDirectory::new();
    let (ars, rrs) = no_extras();
    let capped = get_messages(rows, &ars, &rrs, &dir, &None, Some(2));
    let ids: Vec<i64> = capped.iter().map(|m| m.id).collect();
    assert_eq!(ids, vec![3, 2]);
}

#[test]
fn listing_filters_by_contact_ids() {
    let rows = vec![
        row(1, "G-1", 1_000_000_000, false, 10, "a"),
        row(2, "G-2", 2_000_000_000, false, 20, "b"),
        row(3, "G-3", 3_000_000_000, false, 10, "a"),
    ];
    let dir = ContactDirectory::new();
    let (ars, rrs) = no_extras();
    let msgs = get_messages_for_contact(10, rows, &ars, &rrs, &dir, None);
    let ids: Vec<i64> = msgs.iter().map(|m| m.id).collect();
    assert_eq!(ids, vec![3, 1]);
}

#[test]
fn sender_names_resolve_through_the_directory() {
    let mut dir = ContactDirectory::new();
    dir.insert("4155550100".to_string(), "Ada Lovelace".to_string());
    let rows = vec![
        row(1, "G-1", 1_000_000_000, true, 1, "4155550100"),
        row(2, "G-2", 2_000_000_000, false, 1, "(415) 555-0100"),
        row(3, "G-3", 3_000_000_000, false, 2, ""),
        row(4, "G-4", 4_000_000_000, false, 3, "nobody@example.com"),
    ];
    let (ars, rrs) = no_extras();
    let msgs = get_messages(rows, &ars, &rrs, &dir, &None, None);
    let senders: Vec<&str> = msgs.iter().map(|m| m.sender_name.as_str()).collect();
    assert_eq!(senders, vec!["nobody@example.com", "Unknown", "Ada Lovelace", "Me"]);
}

#[test]
fn reactions_attach_to_their_parsed_parent() {
    let rows = vec![
        row(1, "ABC-1", 2_000_000_000, false, 1, "4155550100"),
        row(2, "DEF-2", 1_000_000_000, false, 1, "4155550100"),
    ];
    let reactions = vec![
        reaction(Some("p:0/ABC-1"), 2000, false, "4155550100"),
        reaction(Some("bp:ABC-1"), 2001, true, ""),
        reaction(Some("p:0/UNKNOWN-GUID"), 2002, false, "4155550100"),
        reaction(None, 2003, false, "4155550100"),
    ];
    let mut dir = ContactDirectory::new();
    dir.insert("4155550100".to_string(), "Ada".to_string());
    let ars: Vec<AttachmentRow> = Vec::new();
    let msgs = get_messages(rows, &ars, &reactions, &dir, &None, None);
    let abc = msgs.iter().find(|m| m.guid == "ABC-1").unwrap();
    assert_eq!(abc.reactions.len(), 2);
    assert_eq!(abc.reactions[0].reaction_type, 2000);
    assert_eq!(abc.reactions[0].sender, "Ada");
    assert!(!abc.reactions[0].is_from_me);
    assert_eq!(abc.reactions[1].reaction_type, 2001);
    assert_eq!(abc.reactions[1].sender, "Me");
    assert!(abc.reactions[1].is_from_me);
    let def = msgs.iter().find(|m| m.guid == "DEF-2").unwrap();
    assert!(def.reactions.is_empty());
}

#[test]
fn reaction_sender_falls_back_to_raw_identifier() {
    let rows = vec![row(1, "ABC-1", 2_000_000_000, false, 1, "x")];
    let reactions = vec![reaction(Some("bp:ABC-1"), 2004, false, "555-0000")];
    let dir = ContactDirectory::new();
    let ars: Vec<AttachmentRow> = Vec::new();
    let msgs = get_messages(rows, &ars, &reactions, &dir, &None, None);
    assert_eq!(msgs[0].reactions[0].sender, "555-0000");
}

#[test]
fn attachments_attach_to_their_owning_message() {
    let mut flagged = row(1, "G-1", 2_000_000_000, false, 1, "x");
    flagged.has_attachment = true;
    let rows = vec![flagged, row(2, "G-2", 1_000_000_000, false, 1, "x")];
    let ars = vec![
        AttachmentRow {
            message_id: 1,
            filename: Some("a.heic".to_string()),
            mime_type: Some("image/heic".to_string()),
            transfer_name: None,
        },
        AttachmentRow {
            message_id: 1,
            filename: Some("b.mov".to_string()),
            mime_type: None,
            transfer_name: Some("b.mov".to_string()),
        },
        AttachmentRow { message_id: 99, filename: None, mime_type: None, transfer_name: None },
    ];
    let rrs: Vec<ReactionRow> = Vec::new();
    let dir = ContactDirectory::new();
    let msgs = get_messages(rows, &ars, &rrs, &dir, &None, None);
    assert_eq!(msgs[0].attachments.len(), 2);
    assert_eq!(msgs[0].attachments[0].filename.as_deref(), Some("a.heic"));
    assert_eq!(msgs[0].attachments[1].filename.as_deref(), Some("b.mov"));
    assert!(msgs[1].attachments.is_empty());
}

#[test]
fn empty_candidate_set_attaches_nothing_and_does_not_error() {
    let rows = vec![row(1, "G-1", 1_000_000_000, false, 1, "x")];
    let (ars, rrs) = no_extras();
    let dir = ContactDirectory::new();
    let mut msgs = get_messages(rows, &ars, &rrs, &dir, &None, None);
    let candidates = attachment_candidates(&msgs);
    assert!(candidates.is_empty());
    let empty_batch: Vec<AttachmentRow> = Vec::new();
    attach_attachments(&mut msgs, &empty_batch);
    assert!(msgs[0].attachments.is_empty());
}

#[test]
fn candidate_ids_list_flagged_messages_in_order() {
    let mut a = row(1, "G-1", 3_000_000_000, false, 1, "x");
    a.has_attachment = true;
    let b = row(2, "G-2", 2_000_000_000, false, 1, "x");
    let mut c = row(3, "G-3", 1_000_000_000, false, 1, "x");
    c.has_attachment = true;
    let (ars, rrs) = no_extras();
    let dir = ContactDirectory::new();
    let msgs = get_messages(vec![a, b, c], &ars, &rrs, &dir, &None, None);
    assert_eq!(attachment_candidates(&msgs), vec![1, 3]);
}

#[test]
fn multi_chat_message_is_listed_once_with_first_linkage() {
    let mut in_chat_seven = row(1, "G-1", 2_000_000_000, false, 1, "x");
    in_chat_seven.chat_id = Some(7);
    let mut in_chat_nine = row(1, "G-1", 2_000_000_000, false, 1, "x");
    in_chat_nine.chat_id = Some(9);
    let rows = vec![in_chat_seven, in_chat_nine, row(2, "G-2", 1_000_000_000, false, 1, "x")];
    let (ars, rrs) = no_extras();
    let dir = ContactDirectory::new();
    let msgs = get_messages(rows, &ars, &rrs, &dir, &None, None);
    let ids: Vec<i64> = msgs.iter().map(|m| m.id).collect();
    assert_eq!(ids, vec![1, 2]);
    assert_eq!(msgs[0].chat_id, Some(7));
}
