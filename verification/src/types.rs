use vstd::prelude::*;

verus! {

/// The character-sequence form of an optional string.
pub open spec fn opt_str_view(o: Option<String>) -> Option<Seq<char>> {
    match o {
        Some(s) => Some(s@),
        None => None,
    }
}

/// One unique handle of the message store, with how many messages it sent.
pub struct Contact {
    pub id: i64,
    pub identifier: String,
    pub display_name: Option<String>,
    pub message_count: i64,
}

/// One attachment of a message, as the store describes it.
pub struct Attachment {
    pub filename: Option<String>,
    pub mime_type: Option<String>,
    pub transfer_name: Option<String>,
}

/// The abstract form of an `Attachment`.
pub struct AttachmentV {
    pub filename: Option<Seq<char>>,
    pub mime_type: Option<Seq<char>>,
    pub transfer_name: Option<Seq<char>>,
}

impl View for Attachment {
    type V = AttachmentV;

    open spec fn view(&self) -> AttachmentV {
        AttachmentV {
            filename: opt_str_view(self.filename),
            mime_type: opt_str_view(self.mime_type),
            transfer_name: opt_str_view(self.transfer_name),
        }
    }
}

/// One tapback attached to a message: its kind code, who sent it, and
/// whether that sender is the store's owner.
pub struct Reaction {
    pub reaction_type: i64,
    pub sender: String,
    pub is_from_me: bool,
}

/// The abstract form of a `Reaction`.
pub struct ReactionV {
    pub reaction_type: i64,
    pub sender: Seq<char>,
    pub is_from_me: bool,
}

impl View for Reaction {
    type V = ReactionV;

    open spec fn view(&self) -> ReactionV {
        ReactionV {
            reaction_type: self.reaction_type,
            sender: self.sender@,
            is_from_me: self.is_from_me,
        }
    }
}

/// One fully assembled message: resolved sender, portable timestamp, and
/// its attachments and reactions.
pub struct Message {
    pub id: i64,
    pub guid: String,
    pub text: Option<String>,
    pub date: i64,
    pub date_formatted: String,
    pub is_from_me: bool,
    pub handle_id: i64,
    pub contact_identifier: String,
    pub sender_name: String,
    pub chat_id: Option<i64>,
    pub has_attachment: bool,
    pub attachments: Vec<Attachment>,
    pub reactions: Vec<Reaction>,
}

/// The abstract form of a `Message`.
pub struct MessageV {
    pub id: i64,
    pub guid: Seq<char>,
    pub text: Option<Seq<char>>,
    pub date: i64,
    pub date_formatted: Seq<char>,
    pub is_from_me: bool,
    pub handle_id: i64,
    pub contact_identifier: Seq<char>,
    pub sender_name: Seq<char>,
    pub chat_id: Option<i64>,
    pub has_attachment: bool,
    pub attachments: Seq<AttachmentV>,
    pub reactions: Seq<ReactionV>,
}

impl View for Message {
    type V = MessageV;

    open spec fn view(&self) -> MessageV {
        MessageV {
            id: self.id,
            guid: self.guid@,
            text: opt_str_view(self.text),
            date: self.date,
            date_formatted: self.date_formatted@,
            is_from_me: self.is_from_me,
            handle_id: self.handle_id,
            contact_identifier: self.contact_identifier@,
            sender_name: self.sender_name@,
            chat_id: self.chat_id,
            has_attachment: self.has_attachment,
            attachments: self.attachments@.map_values(|a: Attachment| a@),
            reactions: self.reactions@.map_values(|r: Reaction| r@),
        }
    }
}

/// One chat with its resolved participants and message count.
pub struct Chat {
    pub id: i64,
    pub chat_identifier: String,
    pub display_name: Option<String>,
    pub is_group: bool,
    pub participant_count: i64,
    pub message_count: i64,
    pub participants: Vec<String>,
    pub participant_ids: Vec<String>,
}

/// The abstract form of a `Chat`.
pub struct ChatV {
    pub id: i64,
    pub chat_identifier: Seq<char>,
    pub display_name: Option<Seq<char>>,
    pub is_group: bool,
    pub participant_count: i64,
    pub message_count: i64,
    pub participants: Seq<Seq<char>>,
    pub participant_ids: Seq<Seq<char>>,
}

impl View for Chat {
    type V = ChatV;

    open spec fn view(&self) -> ChatV {
        ChatV {
            id: self.id,
            chat_identifier: self.chat_identifier@,
            display_name: opt_str_view(self.display_name),
            is_group: self.is_group,
            participant_count: self.participant_count,
            message_count: self.message_count,
            participants: self.participants@.map_values(|p: String| p@),
            participant_ids: self.participant_ids@.map_values(|p: String| p@),
        }
    }
}

/// Aggregate counts over the store, under the same optional date filter as
/// a message listing.
pub struct ChatStats {
    pub total_messages: i64,
    pub messages_sent: i64,
    pub messages_received: i64,
    pub total_contacts: i64,
    pub date_range_start: Option<i64>,
    pub date_range_end: Option<i64>,
}

/// An optional filter for a listing: portable Unix-second bounds and a set
/// of handle row ids.
pub struct ExportOptions {
    pub start_date: Option<i64>,
    pub end_date: Option<i64>,
    pub contact_ids: Option<Vec<i64>>,
}

/// The abstract form of an `ExportOptions`.
pub struct ExportOptionsV {
    pub start_date: Option<i64>,
    pub end_date: Option<i64>,
    pub contact_ids: Option<Seq<i64>>,
}

impl View for ExportOptions {
    type V = ExportOptionsV;

    open spec fn view(&self) -> ExportOptionsV {
        ExportOptionsV {
            start_date: self.start_date,
            end_date: self.end_date,
            contact_ids: match self.contact_ids {
                Some(ids) => Some(ids@),
                None => None,
            },
        }
    }
}

/// Whether the message store could be opened and read, with the path that
/// was tried and guidance when it could not.
pub struct DatabaseStatus {
    pub accessible: bool,
    pub path: String,
    pub error: Option<String>,
}

/// One raw message row as fetched from the store, joined with its handle's
/// raw identifier and (at most) one chat linkage.
#[derive(Clone)]
pub struct MessageRow {
    pub id: i64,
    pub guid: String,
    pub text: Option<String>,
    pub date: i64,
    pub is_from_me: bool,
    pub handle_id: i64,
    pub contact_identifier: String,
    pub has_attachment: bool,
    pub chat_id: Option<i64>,
    pub assoc_type: Option<i64>,
}

/// The abstract form of a `MessageRow`.
pub struct MessageRowV {
    pub id: i64,
    pub guid: Seq<char>,
    pub text: Option<Seq<char>>,
    pub date: i64,
    pub is_from_me: bool,
    pub handle_id: i64,
    pub contact_identifier: Seq<char>,
    pub has_attachment: bool,
    pub chat_id: Option<i64>,
    pub assoc_type: Option<i64>,
}

impl View for MessageRow {
    type V = MessageRowV;

    open spec fn view(&self) -> MessageRowV {
        MessageRowV {
            id: self.id,
            guid: self.guid@,
            text: opt_str_view(self.text),
            date: self.date,
            is_from_me: self.is_from_me,
            handle_id: self.handle_id,
            contact_identifier: self.contact_identifier@,
            has_attachment: self.has_attachment,
            chat_id: self.chat_id,
            assoc_type: self.assoc_type,
        }
    }
}

/// One row of the batched attachment lookup: the owning message's row id
/// and the attachment's descriptive fields.
pub struct AttachmentRow {
    pub message_id: i64,
    pub filename: Option<String>,
    pub mime_type: Option<String>,
    pub transfer_name: Option<String>,
}

/// The abstract form of an `AttachmentRow`.
pub struct AttachmentRowV {
    pub message_id: i64,
    pub filename: Option<Seq<char>>,
    pub mime_type: Option<Seq<char>>,
    pub transfer_name: Option<Seq<char>>,
}

impl View for AttachmentRow {
    type V = AttachmentRowV;

    open spec fn view(&self) -> AttachmentRowV {
        AttachmentRowV {
            message_id: self.message_id,
            filename: opt_str_view(self.filename),
            mime_type: opt_str_view(self.mime_type),
            transfer_name: opt_str_view(self.transfer_name),
        }
    }
}

/// One reaction pseudo-message row: the embedded parent reference, the
/// tapback kind code, and the sender's raw identifier.
pub struct ReactionRow {
    pub assoc_guid: Option<String>,
    pub reaction_type: i64,
    pub is_from_me: bool,
    pub sender_id: String,
}

/// The abstract form of a `ReactionRow`.
pub struct ReactionRowV {
    pub assoc_guid: Option<Seq<char>>,
    pub reaction_type: i64,
    pub is_from_me: bool,
    pub sender_id: Seq<char>,
}

impl View for ReactionRow {
    type V = ReactionRowV;

    open spec fn view(&self) -> ReactionRowV {
        ReactionRowV {
            assoc_guid: opt_str_view(self.assoc_guid),
            reaction_type: self.reaction_type,
            is_from_me: self.is_from_me,
            sender_id: self.sender_id@,
        }
    }
}

/// One raw chat row with its participants' raw identifiers, in the store's
/// join order.
pub struct ChatRow {
    pub id: i64,
    pub chat_identifier: String,
    pub display_name: Option<String>,
    pub style: i64,
    pub message_count: i64,
    pub participant_ids: Vec<String>,
}

/// The abstract form of a `ChatRow`.
pub struct ChatRowV {
    pub id: i64,
    pub chat_identifier: Seq<char>,
    pub display_name: Option<Seq<char>>,
    pub style: i64,
    pub message_count: i64,
    pub participant_ids: Seq<Seq<char>>,
}

impl View for ChatRow {
    type V = ChatRowV;

    open spec fn view(&self) -> ChatRowV {
        ChatRowV {
            id: self.id,
            chat_identifier: self.chat_identifier@,
            display_name: opt_str_view(self.display_name),
            style: self.style,
            message_count: self.message_count,
            participant_ids: self.participant_ids@.map_values(|p: String| p@),
        }
    }
}

/// One row of the statistics scan: the store-native timestamp and the
/// self-sent flag of a message.
#[derive(Clone, Copy)]
pub struct StatRow {
    pub date: i64,
    pub is_from_me: bool,
}

} // verus!
