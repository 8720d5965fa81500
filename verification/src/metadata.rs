//! Building the attribute record of an entry from what was read of it.

use vstd::prelude::*;
use vstd::string::*;
use crate::classify::{classification, classify, FileType};
use crate::entry::{starts_with_dot, EntryStat, FileInfo};
use crate::error::ListError;
use crate::identity::{get_owner_and_group_name, group_text, lookup_user, owner_text};
use crate::permission::{mode_triads, permission_triads};

verus! {

/// The permission column of an entry: its kind glyph and the nine permission
/// characters of its mode.
pub open spec fn permission_text(stat: EntryStat) -> Seq<char> {
    seq![classification(stat.flags).0] + mode_triads(stat.mode)
}

/// The pattern in which a modification time is written for the time
/// column: year, month and day, then hour, minute and second.
pub const TIME_PATTERN: &'static str = "%Y-%m-%d %H:%M:%S";

/// Whether `info` holds what `stat` determines: kind, permission column,
/// link count, size, name, hidden flag, the group with its fallback and the
/// modification time as it was written. The owner is looked up and is left
/// open here.
pub open spec fn describes(info: FileInfo, stat: EntryStat) -> bool {
    &&& info.file_type == classification(stat.flags).1
    &&& info.permissions@ == permission_text(stat)
    &&& info.link == stat.nlink
    &&& info.size == stat.size
    &&& info.name@ == stat.name@
    &&& info.is_hidden == starts_with_dot(stat.name@)
    &&& info.group@ == group_text(stat.group, classification(stat.flags).1)
    &&& stat.modified is Some
    &&& info.modified_time@ == stat.modified->Some_0@
}

/// The one-character text of a kind glyph.
fn glyph_str(glyph: char) -> (text: &'static str)
    requires
        exists|flags: crate::classify::TypeFlags| classification(flags).0 == glyph,
    ensures
        text@ == seq![glyph],
{
    proof {
        reveal_strlit("d");
        reveal_strlit("-");
        reveal_strlit("l");
        reveal_strlit("c");
        reveal_strlit("b");
        reveal_strlit("p");
        reveal_strlit("s");
        reveal_strlit("?");
    }
    let text = if glyph == 'd' {
        "d"
    } else if glyph == '-' {
        "-"
    } else if glyph == 'l' {
        "l"
    } else if glyph == 'c' {
        "c"
    } else if glyph == 'b' {
        "b"
    } else if glyph == 'p' {
        "p"
    } else if glyph == 's' {
        "s"
    } else {
        "?"
    };
    assert(text@ =~= seq![glyph]);
    text
}

/// Reads kind and permissions out of an entry's type predicates and mode:
/// the permission column and the kind.
pub fn analysis_mode(stat: &EntryStat) -> (result: (String, FileType))
    ensures
        result.0@ == permission_text(*stat),
        result.1 == classification(stat.flags).1,
{
    let (glyph, file_type) = classify(stat.flags);
    let triads = permission_triads(stat.mode);
    let mut permissions = String::from_str(glyph_str(glyph));
    permissions.append(triads.as_str());
    (permissions, file_type)
}

/// Whether a name starts with a dot.
pub fn is_hidden_name(name: &str) -> (hidden: bool)
    ensures
        hidden == starts_with_dot(name@),
{
    !name.is_empty() && name.get_char(0) == '.'
}

/// Puts the record of an entry together from what was read of it and the
/// outcome of the lookup of its owner. The record is owed exactly when the
/// modification time could be written; an entry without one is unavailable.
pub fn build_file_info(stat: &EntryStat, owner: Option<String>) -> (result: Result<
    FileInfo,
    ListError,
>)
    ensures
        stat.modified is None ==> result == Err::<FileInfo, ListError>(
            ListError::MetadataUnavailable,
        ),
        stat.modified is Some ==> result is Ok && describes(result->Ok_0, *stat)
            && result->Ok_0.well_formed() && result->Ok_0.owner@ == owner_text(owner),
{
    let modified_time = match &stat.modified {
        None => {
            return Err(ListError::MetadataUnavailable);
        },
        Some(text) => text.clone(),
    };
    let (permissions, file_type) = analysis_mode(stat);
    let is_hidden = is_hidden_name(stat.name.as_str());
    let (owner, group) = get_owner_and_group_name(owner, stat.group.clone(), file_type);
    Ok(
        FileInfo {
            file_type,
            permissions,
            link: stat.nlink,
            owner,
            group,
            size: stat.size,
            modified_time,
            name: stat.name.clone(),
            is_hidden,
        },
    )
}

/// Builds the attribute record of an entry: kind and permissions from its
/// type predicates and mode, the hidden flag from its name, link count, size,
/// group and modification time as they were read, the owner by lookup.
///
/// The record is owed exactly when the modification time could be written.
/// The owner's name is decided by the system's user database;
/// [`build_file_info`] states the record for each outcome of the lookup.
pub fn get_file_info(stat: &EntryStat) -> (result: Result<FileInfo, ListError>)
    ensures
        stat.modified is None ==> result == Err::<FileInfo, ListError>(
            ListError::MetadataUnavailable,
        ),
        stat.modified is Some ==> result is Ok && describes(result->Ok_0, *stat)
            && result->Ok_0.well_formed(),
{
    let owner = lookup_user(stat.uid);
    build_file_info(stat, owner)
}

} // verus!
