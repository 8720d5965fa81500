//! The configuration of one run and what it leads to: the arranged listing
//! in one of the flat modes, or a tree walk.

use vstd::prelude::*;
use crate::entry::{EntryStat, FileInfo};
use crate::error::ListError;
use crate::metadata::{describes, get_file_info};
use crate::render::{is_detailed_listing, is_names_listing, show_infos, show_names};
use crate::sorter::{is_arrangement, sort_files, SortKey};
use crate::walker::{TreeWalker, WalkState};

verus! {

/// The configuration of one run.
#[derive(Debug, Clone, Copy, PartialEq, Eq, Structural)]
pub struct LsCli {
    /// Show the details of each entry.
    pub long: bool,
    /// Show hidden entries too.
    pub all: bool,
    /// Show sizes scaled to a unit.
    pub human_readable: bool,
    /// Sort by size.
    pub sort_by_size: bool,
    /// Sort by modification time.
    pub sort_by_time: bool,
    /// Reverse the sorted listing.
    pub resort: bool,
    /// Show the entries as a tree.
    pub tree: bool,
    /// The depth below which the tree is not followed.
    pub depth: u8,
}

/// The three ways of showing entries.
#[derive(Debug, Clone, Copy, PartialEq, Eq, Structural)]
pub enum RenderMode {
    /// Names only, in columns.
    Names,
    /// One detailed row for each entry.
    Details,
    /// An indented tree.
    Tree,
}

/// What reading the target of a run gave.
pub enum Reading {
    /// The target does not exist.
    NotFound,
    /// The target is a directory that cannot be read.
    Unreadable,
    /// The entries of the target: the children of a directory in the order
    /// in which it gave them, or the target itself where it is no directory.
    /// An entry whose attributes could not be read is `None`.
    Entries(Vec<Option<EntryStat>>),
}

/// What a run leads to.
pub enum Outcome<P> {
    /// The finished text of a flat listing.
    Text(String),
    /// A tree walk at its start, for the caller to drive.
    Walk(TreeWalker<P>),
}

impl Default for LsCli {
    /// No flag set and a depth of 10.
    fn default() -> (cli: LsCli)
        ensures
            cli == (LsCli {
                long: false,
                all: false,
                human_readable: false,
                sort_by_size: false,
                sort_by_time: false,
                resort: false,
                tree: false,
                depth: 10,
            }),
    {
        LsCli {
            long: false,
            all: false,
            human_readable: false,
            sort_by_size: false,
            sort_by_time: false,
            resort: false,
            tree: false,
            depth: 10,
        }
    }
}

/// Whether the record of an entry can be built: its attributes were read
/// and its modification time could be written.
pub open spec fn is_available(entry: Option<EntryStat>) -> bool {
    entry is Some && entry->Some_0.modified is Some
}

/// Whether `files` is a listing of `entries`: there is a record for each
/// entry, holding what the entry determines, and `files` is these records
/// arranged under `key`.
pub open spec fn is_listing(
    files: Seq<FileInfo>,
    entries: Seq<Option<EntryStat>>,
    key: SortKey,
    reverse: bool,
) -> bool {
    exists|infos: Seq<FileInfo>|
        {
            &&& infos.len() == entries.len()
            &&& forall|i: int|
                0 <= i < infos.len() ==> is_available(#[trigger] entries[i]) && describes(
                    infos[i],
                    entries[i]->Some_0,
                ) && infos[i].well_formed()
            &&& #[trigger] is_arrangement(files, infos, key, reverse)
        }
}

/// The error that ends a run, if there is one: a target that does not
/// exist, a directory that cannot be read, or an entry whose record cannot
/// be built.
pub open spec fn reading_error(reading: Reading) -> Option<ListError> {
    match reading {
        Reading::NotFound => Some(ListError::PathNotFound),
        Reading::Unreadable => Some(ListError::DirectoryUnreadable),
        Reading::Entries(entries) => if exists|i: int|
            0 <= i < entries@.len() && !is_available(#[trigger] entries@[i]) {
            Some(ListError::MetadataUnavailable)
        } else {
            None
        },
    }
}

/// The entries that a reading gave.
pub open spec fn entries_of(reading: Reading) -> Seq<Option<EntryStat>> {
    match reading {
        Reading::Entries(entries) => entries@,
        _ => Seq::empty(),
    }
}

/// Whether `outcome` is what a run in `mode` makes of the listing `files`:
/// the text of the name-only or the detailed listing, or a walk that starts
/// at `root`.
pub open spec fn is_outcome<P>(
    outcome: Outcome<P>,
    cli: LsCli,
    root: P,
    files: Seq<FileInfo>,
) -> bool {
    match cli.mode() {
        RenderMode::Names => outcome matches Outcome::Text(text) && is_names_listing(
            text@,
            files,
            cli.all,
        ),
        RenderMode::Details => outcome matches Outcome::Text(text) && is_detailed_listing(
            text@,
            files,
            cli.all,
            cli.human_readable,
        ),
        RenderMode::Tree => outcome matches Outcome::Walk(walker) && walker@ == WalkState::start(
            root,
            cli.depth,
            cli.all,
        ),
    }
}

impl LsCli {
    /// The mode of a run: the tree where the tree flag is set, else the
    /// detailed listing where the long flag is set, else names only. The
    /// other flags change what a mode shows, not which mode it is.
    pub open spec fn mode(self) -> RenderMode {
        if self.tree {
            RenderMode::Tree
        } else if self.long {
            RenderMode::Details
        } else {
            RenderMode::Names
        }
    }

    /// The key of a run: size if asked for, else time if asked for, else name.
    pub open spec fn key(self) -> SortKey {
        if self.sort_by_size {
            SortKey::Size
        } else if self.sort_by_time {
            SortKey::Time
        } else {
            SortKey::Name
        }
    }

    /// The mode of this run.
    pub fn render_mode(&self) -> (mode: RenderMode)
        ensures
            mode == self.mode(),
    {
        if self.tree {
            RenderMode::Tree
        } else if self.long {
            RenderMode::Details
        } else {
            RenderMode::Names
        }
    }

    /// The key by which this run sorts.
    pub fn sort_key(&self) -> (key: SortKey)
        ensures
            key == self.key(),
    {
        if self.sort_by_size {
            SortKey::Size
        } else if self.sort_by_time {
            SortKey::Time
        } else {
            SortKey::Name
        }
    }

    /// Builds the listing of a target from what reading it gave: the record
    /// of each entry, sorted under the key of this run and reversed if asked
    /// for.
    ///
    /// The run fails as a whole, with the error of [`reading_error`], where
    /// the target or one of its entries could not be read or the record of
    /// an entry cannot be built; in every other case the listing is owed.
    /// The owner's name in each record is decided by the system's user
    /// database.
    pub fn get_files_and_dirs(&self, reading: &Reading) -> (result: Result<
        Vec<FileInfo>,
        ListError,
    >)
        ensures
            match reading_error(*reading) {
                Some(error) => result == Err::<Vec<FileInfo>, ListError>(error),
                None => result is Ok && is_listing(
                    result->Ok_0@,
                    entries_of(*reading),
                    self.key(),
                    self.resort,
                ),
            },
    {
        let entries = match reading {
            Reading::NotFound => {
                return Err(ListError::PathNotFound);
            },
            Reading::Unreadable => {
                return Err(ListError::DirectoryUnreadable);
            },
            Reading::Entries(entries) => entries,
        };
        let mut infos: Vec<FileInfo> = Vec::new();
        let mut i: usize = 0;
        while i < entries.len()
            invariant
                i <= entries.len(),
                infos@.len() == i,
                *reading == Reading::Entries(*entries),
                forall|j: int|
                    0 <= j < i ==> is_available(#[trigger] entries@[j]) && describes(
                        infos@[j],
                        entries@[j]->Some_0,
                    ) && infos@[j].well_formed(),
            decreases entries.len() - i,
        {
            let built = match &entries[i] {
                Some(stat) => get_file_info(stat),
                None => Err(ListError::MetadataUnavailable),
            };
            match built {
                Ok(info) => infos.push(info),
                Err(e) => {
                    assert(reading->Entries_0@ == entries@);
                    assert(!is_available(entries@[i as int]));
                    return Err(e);
                },
            }
            i = i + 1;
        }
        assert(reading_error(*reading) is None);
        let ghost built = infos@;
        let files = sort_files(infos, self.sort_key(), self.resort);
        assert(is_arrangement(files@, built, self.key(), self.resort));
        Ok(files)
    }

    /// Shows a listing in the mode of this run: the text of the name-only or
    /// the detailed listing, or, in tree mode, a walk that starts at `root`
    /// and shows hidden entries if all are asked for.
    pub fn render<P>(&self, root: P, files: &Vec<FileInfo>) -> (outcome: Outcome<P>)
        ensures
            is_outcome(outcome, *self, root, files@),
    {
        match self.render_mode() {
            RenderMode::Names => Outcome::Text(show_names(files, self.all)),
            RenderMode::Details => Outcome::Text(show_infos(files, self.all, self.human_readable)),
            RenderMode::Tree => Outcome::Walk(TreeWalker::new(root, self.depth, self.all)),
        }
    }

    /// Runs the listing of a target from what reading it gave: builds the
    /// listing as [`LsCli::get_files_and_dirs`] does and shows it as
    /// [`LsCli::render`] does.
    ///
    /// The listing is built in every mode, so a run fails before anything is
    /// shown, with the error of [`reading_error`], where there is one; in
    /// every other case the outcome is owed.
    pub fn execute<P>(&self, root: P, reading: &Reading) -> (result: Result<Outcome<P>, ListError>)
        ensures
            match reading_error(*reading) {
                Some(error) => result is Err && result->Err_0 == error,
                None => result is Ok && exists|files: Seq<FileInfo>| #[trigger]
                    is_listing(files, entries_of(*reading), self.key(), self.resort)
                        && is_outcome(result->Ok_0, *self, root, files),
            },
    {
        match self.get_files_and_dirs(reading) {
            Ok(files) => Ok(self.render(root, &files)),
            Err(e) => Err(e),
        }
    }
}

} // verus!
