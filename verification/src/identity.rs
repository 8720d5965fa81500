//! Owner and group names: the lookup of an owner and the names that are
//! shown for the outcomes of the lookups.

use vstd::prelude::*;
use vstd::string::*;
use crate::classify::FileType;

verus! {

/// Whether the group of an entry of this kind falls back to `Unknown` when
/// it cannot be found: regular files, directories and symbolic links do;
/// devices, FIFOs and sockets fall back to the empty name.
pub open spec fn is_plain_kind(kind: FileType) -> bool {
    kind == FileType::File || kind == FileType::Dir || kind == FileType::Link
}

/// The owner name shown for the outcome of a lookup.
pub open spec fn owner_text(found: Option<String>) -> Seq<char> {
    match found {
        Some(name) => name@,
        None => "Unknown"@,
    }
}

/// The group name shown for the outcome of a lookup, for an entry of `kind`.
pub open spec fn group_text(found: Option<String>, kind: FileType) -> Seq<char> {
    match found {
        Some(name) => name@,
        None => if is_plain_kind(kind) {
            "Unknown"@
        } else {
            Seq::empty()
        },
    }
}

/// Calls `users::get_user_by_uid` and hands back the name of the user it
/// found, read leniently as UTF-8. Nothing is claimed of the outcome: it is
/// whatever the system's user database holds.
#[verifier::external_body]
pub(crate) fn lookup_user(uid: u32) -> (found: Option<String>) {
    users::get_user_by_uid(uid).map(|user| user.name().to_string_lossy().into_owned())
}

/// The display names of an entry of `kind` for the outcomes of the lookups
/// of its owner and its group: a name that was found is shown as it is; a
/// missing owner is `Unknown`; a missing group is `Unknown` for plain kinds
/// and empty for special files.
pub fn get_owner_and_group_name(
    owner: Option<String>,
    group: Option<String>,
    kind: FileType,
) -> (names: (String, String))
    ensures
        names.0@ == owner_text(owner),
        names.1@ == group_text(group, kind),
{
    let owner_name = match owner {
        Some(name) => name,
        None => String::from_str("Unknown"),
    };
    let group_name = match group {
        Some(name) => name,
        None => match kind {
            FileType::File | FileType::Dir | FileType::Link => String::from_str("Unknown"),
            _ => String::new(),
        },
    };
    (owner_name, group_name)
}

} // verus!
