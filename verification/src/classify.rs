//! Classification of an entry by the file-type predicates the system reports.

use vstd::prelude::*;

verus! {

/// The kind of a filesystem entry.
#[derive(Debug, Clone, Copy, PartialEq, Eq, PartialOrd, Ord, Structural)]
pub enum FileType {
    File,
    Dir,
    Link,
    CharDevice,
    BlockDevice,
    Fifo,
    Socket,
}

/// The answers of the system's file-type predicates for one entry.
/// Normally exactly one is true; nothing here relies on that.
#[derive(Debug, Clone, Copy, PartialEq, Eq, Structural)]
pub struct TypeFlags {
    pub is_dir: bool,
    pub is_file: bool,
    pub is_symlink: bool,
    pub is_char_device: bool,
    pub is_block_device: bool,
    pub is_fifo: bool,
    pub is_socket: bool,
}

/// The glyph and kind of an entry: the first predicate that holds decides, in
/// the order directory, regular file, symbolic link, character device, block
/// device, FIFO, socket. When none holds the glyph is `?` and the entry counts
/// as a regular file.
pub open spec fn classification(flags: TypeFlags) -> (char, FileType) {
    if flags.is_dir {
        ('d', FileType::Dir)
    } else if flags.is_file {
        ('-', FileType::File)
    } else if flags.is_symlink {
        ('l', FileType::Link)
    } else if flags.is_char_device {
        ('c', FileType::CharDevice)
    } else if flags.is_block_device {
        ('b', FileType::BlockDevice)
    } else if flags.is_fifo {
        ('p', FileType::Fifo)
    } else if flags.is_socket {
        ('s', FileType::Socket)
    } else {
        ('?', FileType::File)
    }
}

/// Classifies an entry from its file-type predicates.
pub fn classify(flags: TypeFlags) -> (result: (char, FileType))
    ensures
        result == classification(flags),
{
    if flags.is_dir {
        ('d', FileType::Dir)
    } else if flags.is_file {
        ('-', FileType::File)
    } else if flags.is_symlink {
        ('l', FileType::Link)
    } else if flags.is_char_device {
        ('c', FileType::CharDevice)
    } else if flags.is_block_device {
        ('b', FileType::BlockDevice)
    } else if flags.is_fifo {
        ('p', FileType::Fifo)
    } else if flags.is_socket {
        ('s', FileType::Socket)
    } else {
        ('?', FileType::File)
    }
}

} // verus!
