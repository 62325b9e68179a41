use vstd::prelude::*;

use crate::directory::ContactDirectory;
use crate::normalize::{lower_of, lowercase, normalize_phone, normalize_phone_spec};

verus! {

/// What resolution yields for a raw identifier against a directory map:
/// the exact key where bound, else the lowercased key (email case
/// variance), else the normalized-phone key (phone formatting variance),
/// else nothing.
pub open spec fn resolve_spec(id: Seq<char>, m: Map<Seq<char>, Seq<char>>) -> Option<Seq<char>> {
    if m.contains_key(id) {
        Some(m[id])
    } else if m.contains_key(lower_of(id)) {
        Some(m[lower_of(id)])
    } else if m.contains_key(normalize_phone_spec(id)) {
        Some(m[normalize_phone_spec(id)])
    } else {
        None
    }
}

/// Resolve a raw identifier to a display name through the fallback chain:
/// exact key, lowercased key, normalized-phone key, first match wins.
pub fn lookup_contact_name(identifier: &str, contacts: &ContactDirectory) -> (r: Option<String>)
    ensures
        (match r {
            Some(n) => Some(n@),
            None => None::<Seq<char>>,
        }) == resolve_spec(identifier@, contacts@),
{
    let exact = identifier.to_owned();
    match contacts.get(&exact) {
        Some(n) => {
            return Some(n.clone());
        },
        None => {},
    }
    let low = lowercase(identifier);
    match contacts.get(&low) {
        Some(n) => {
            return Some(n.clone());
        },
        None => {},
    }
    let norm = normalize_phone(identifier);
    match contacts.get(&norm) {
        Some(n) => {
            return Some(n.clone());
        },
        None => {},
    }
    None
}

/// Resolution is deterministic: what it returns is a function of the
/// identifier and the directory alone, so repeated lookups with the same
/// identifier against the same directory agree.
pub proof fn lemma_resolve_deterministic(
    id: Seq<char>,
    m: Map<Seq<char>, Seq<char>>,
    r1: Option<Seq<char>>,
    r2: Option<Seq<char>>,
)
    requires
        r1 == resolve_spec(id, m),
        r2 == resolve_spec(id, m),
    ensures
        r1 == r2,
{
}

} // verus!
