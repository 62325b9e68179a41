use vstd::prelude::*;

use crate::directory::ContactDirectory;
use crate::resolve::{lookup_contact_name, resolve_spec};
use crate::types::{Chat, ChatRow, ChatRowV, ChatV};

verus! {

/// The name a raw participant identifier displays as: the resolved name,
/// falling back to the raw identifier itself.
pub open spec fn resolved_name_spec(id: Seq<char>, m: Map<Seq<char>, Seq<char>>) -> Seq<char> {
    match resolve_spec(id, m) {
        Some(n) => n,
        None => id,
    }
}

/// The chat a raw chat row assembles into: participants resolved in join
/// order, the group flag read off the style code, and — for a chat with
/// exactly one participant and no stored display name — the display name
/// backfilled from that participant's resolved name, where one exists.
pub open spec fn chat_of_row(r: ChatRowV, m: Map<Seq<char>, Seq<char>>) -> ChatV {
    ChatV {
        id: r.id,
        chat_identifier: r.chat_identifier,
        display_name: if r.display_name is None && r.participant_ids.len() == 1 {
            resolve_spec(r.participant_ids[0], m)
        } else {
            r.display_name
        },
        is_group: r.style == 43,
        participant_count: r.participant_ids.len() as i64,
        message_count: r.message_count,
        participants: r.participant_ids.map_values(|p: Seq<char>| resolved_name_spec(p, m)),
        participant_ids: r.participant_ids,
    }
}

/// A chat with exactly one participant and no stored display name shows
/// that participant's resolved name, and stays nameless when resolution
/// finds none.
pub proof fn lemma_single_participant_backfill(r: ChatRowV, m: Map<Seq<char>, Seq<char>>)
    requires
        r.display_name is None,
        r.participant_ids.len() == 1,
    ensures
        chat_of_row(r, m).display_name == resolve_spec(r.participant_ids[0], m),
{
}

/// Assemble every chat row: resolve its participants and counts, and
/// backfill a missing display name for a single-participant chat.
pub fn get_chats(rows: Vec<ChatRow>, contacts: &ContactDirectory) -> (r: Vec<Chat>)
    requires
        forall|i: int|
            0 <= i < rows@.len() ==> (#[trigger] rows@[i])@.participant_ids.len()
                <= 0x7fff_ffff_ffff_ffff,
    ensures
        r@.len() == rows@.len(),
        forall|i: int| 0 <= i < r@.len() ==> (#[trigger] r@[i])@ == chat_of_row(
            rows@[i]@,
            contacts@,
        ),
{
    let ghost all = rows@;
    let ghost dir = contacts@;
    let ghost total = all.len();
    let mut rest = rows;
    let mut out: Vec<Chat> = Vec::new();
    while rest.len() > 0
        invariant
            rest@.len() <= total,
            rest@ =~= all.skip(total - rest@.len() as int),
            all.len() == total,
            dir == contacts@,
            out@.len() == total - rest@.len(),
            forall|i: int|
                0 <= i < total ==> (#[trigger] all[i])@.participant_ids.len()
                    <= 0x7fff_ffff_ffff_ffff,
            forall|i: int| 0 <= i < out@.len() ==> (#[trigger] out@[i])@ == chat_of_row(
                all[i]@,
                dir,
            ),
        decreases rest@.len(),
    {
        let ghost i = total - rest@.len() as int;
        let ghost pre = rest@;
        let row = rest.remove(0);
        proof {
            assert(pre[0] == all.skip(i)[0]);
            assert(all.skip(i)[0] == all[i]);
            assert(row == all[i]);
            assert forall|k: int| 0 <= k < rest@.len() implies rest@[k] == all.skip(i + 1)[k] by {
                assert(rest@[k] == pre[k + 1]);
                assert(pre[k + 1] == all.skip(i)[k + 1]);
            };
            assert(rest@ =~= all.skip(i + 1));
        }
        let mut participants: Vec<String> = Vec::new();
        let mut j: usize = 0;
        while j < row.participant_ids.len()
            invariant
                j <= row.participant_ids@.len(),
                dir == contacts@,
                participants@.len() == j,
                forall|k: int|
                    0 <= k < j ==> (#[trigger] participants@[k])@ == resolved_name_spec(
                        row.participant_ids@[k]@,
                        dir,
                    ),
            decreases row.participant_ids@.len() - j,
        {
            let resolved: String = match lookup_contact_name(
                row.participant_ids[j].as_str(),
                contacts,
            ) {
                Some(n) => n,
                None => row.participant_ids[j].clone(),
            };
            participants.push(resolved);
            j = j + 1;
        }
        let display_name: Option<String> = if row.display_name.is_none()
            && row.participant_ids.len() == 1 {
            match lookup_contact_name(row.participant_ids[0].as_str(), contacts) {
                Some(n) => Some(n),
                None => None,
            }
        } else {
            row.display_name
        };
        let participant_count: i64 = row.participant_ids.len() as i64;
        let chat = Chat {
            id: row.id,
            chat_identifier: row.chat_identifier,
            display_name,
            is_group: row.style == 43,
            participant_count,
            message_count: row.message_count,
            participants,
            participant_ids: row.participant_ids,
        };
        proof {
            assert(chat@.participants =~= all[i]@.participant_ids.map_values(
                |p: Seq<char>| resolved_name_spec(p, dir),
            ));
            assert(chat@.participant_ids =~= all[i]@.participant_ids);
            assert(chat@ == chat_of_row(all[i]@, dir));
        }
        out.push(chat);
    }
    out
}

} // verus!
