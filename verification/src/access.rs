use vstd::prelude::*;

use crate::directory::ContactDirectory;
use crate::types::{opt_str_view, DatabaseStatus};

verus! {

/// What the error text of a failed open begins with: guidance toward the
/// privacy setting that usually causes the failure.
pub open spec fn open_failure_prefix() -> Seq<char> {
    "Cannot open database. Please grant Full Disk Access in System Settings > Privacy & Security > Full Disk Access. Error: "@
}

/// What the error text of a failed read begins with.
pub open spec fn read_failure_prefix() -> Seq<char> {
    "Cannot read database: "@
}

/// Classify the outcome of probing the message store. The caller reports
/// what happened — no store path at all, an open failure, a read failure,
/// or success — and this turns it into the status the store check exposes:
/// no path means the home directory was undeterminable; an open failure
/// carries guidance toward the privacy setting that usually causes it; a
/// read failure carries the store's own words; otherwise the store is
/// accessible.
pub fn check_database_access(
    path: Option<String>,
    open_error: Option<String>,
    read_error: Option<String>,
) -> (r: DatabaseStatus)
    ensures
        (match path {
            None => !r.accessible && r.path@ == Seq::<char>::empty() && opt_str_view(r.error)
                == Some("Could not determine home directory"@),
            Some(p) => r.path@ == p@ && (match open_error {
                Some(e) => !r.accessible && opt_str_view(r.error) == Some(
                    open_failure_prefix() + e@,
                ),
                None => (match read_error {
                    Some(e) => !r.accessible && opt_str_view(r.error) == Some(
                        read_failure_prefix() + e@,
                    ),
                    None => r.accessible && r.error is None,
                }),
            }),
        }),
{
    let p = match path {
        Some(p) => p,
        None => {
            return DatabaseStatus {
                accessible: false,
                path: String::new(),
                error: Some("Could not determine home directory".to_owned()),
            };
        },
    };
    match open_error {
        Some(e) => {
            let text = String::from_str(
                "Cannot open database. Please grant Full Disk Access in System Settings > Privacy & Security > Full Disk Access. Error: ",
            ).concat(e.as_str());
            DatabaseStatus { accessible: false, path: p, error: Some(text) }
        },
        None => {
            match read_error {
                Some(e) => {
                    let text = String::from_str("Cannot read database: ").concat(e.as_str());
                    DatabaseStatus { accessible: false, path: p, error: Some(text) }
                },
                None => DatabaseStatus { accessible: true, path: p, error: None },
            }
        },
    }
}

/// Whether any contact source yielded any mapping at all: the merged
/// directory is non-empty.
pub fn check_contacts_access(contacts: &ContactDirectory) -> (r: bool)
    ensures
        r == (contacts@ != Map::<Seq<char>, Seq<char>>::empty()),
{
    !contacts.is_empty()
}

} // verus!
