//! The ways in which a listing can fail.

use vstd::prelude::*;
use vstd::string::*;

verus! {

/// Why a listing could not be produced.
#[derive(Debug, Clone, Copy, PartialEq, Eq, Structural)]
pub enum ListError {
    /// The path that was asked for does not exist.
    PathNotFound,
    /// The attributes of an entry could not be obtained or shown.
    MetadataUnavailable,
    /// A directory could not be read.
    DirectoryUnreadable,
}

impl ListError {
    /// The text of the message for each error.
    pub open spec fn message_text(self) -> Seq<char> {
        match self {
            ListError::PathNotFound => "Error: path is not exist"@,
            ListError::MetadataUnavailable => "Error: metadata is not available"@,
            ListError::DirectoryUnreadable => "Error: Permission denied"@,
        }
    }

    /// The message shown to the user.
    pub fn message(&self) -> (text: String)
        ensures
            text@ == self.message_text(),
    {
        match self {
            ListError::PathNotFound => String::from_str("Error: path is not exist"),
            ListError::MetadataUnavailable => String::from_str("Error: metadata is not available"),
            ListError::DirectoryUnreadable => String::from_str("Error: Permission denied"),
        }
    }
}

} // verus!
