//! The attribute record of one filesystem entry and the raw values it is
//! built from.

use vstd::prelude::*;
use crate::classify::{FileType, TypeFlags};

verus! {

/// What was read about one entry, as plain values.
#[derive(Debug, Clone, PartialEq, Eq)]
pub struct EntryStat {
    /// The answers of the file-type predicates.
    pub flags: TypeFlags,
    /// The raw mode; its lowest nine bits are the permissions.
    pub mode: u32,
    /// Number of hard links.
    pub nlink: u64,
    /// Numeric owner.
    pub uid: u32,
    /// The name of the entry's group, unless the system knows none for it.
    pub group: Option<String>,
    /// Size in bytes.
    pub size: u64,
    /// The modification time in the machine's time zone, written in the
    /// pattern of the time column, unless it cannot be written.
    pub modified: Option<String>,
    /// Final component of the entry's path.
    pub name: String,
}

/// The attribute record of one entry, ready to be sorted and shown.
#[derive(Debug, Clone, PartialEq, Eq)]
pub struct FileInfo {
    pub file_type: FileType,
    /// Kind glyph followed by the three permission triads.
    pub permissions: String,
    pub link: u64,
    pub owner: String,
    pub group: String,
    pub size: u64,
    /// Modification time as `YYYY-MM-DD HH:MM:SS`, local time.
    pub modified_time: String,
    pub name: String,
    pub is_hidden: bool,
}

/// Whether a name marks a hidden entry: it starts with a dot.
pub open spec fn starts_with_dot(name: Seq<char>) -> bool {
    name.len() > 0 && name[0] == '.'
}

impl FileInfo {
    /// The hidden flag agrees with the name.
    pub open spec fn well_formed(&self) -> bool {
        self.is_hidden == starts_with_dot(self.name@)
    }
}

} // verus!
