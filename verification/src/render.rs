//! Rendering of attribute records: which entries are shown, the display
//! category of each kind, the name-only row and the detailed table.

use vstd::prelude::*;
use vstd::string::*;
use crate::classify::FileType;
use crate::entry::{starts_with_dot, FileInfo};
use crate::size::{human_readable, human_readable_size};
use crate::text::{
    decimal, decimal_string, left_aligned, left_aligned_string, push_right_aligned, push_spaces,
    right_aligned, spaces,
};
use crate::walker::TreeLine;

verus! {

/// The categories by which names are told apart on screen.
#[derive(Debug, Clone, Copy, PartialEq, Eq, Structural)]
pub enum DisplayCategory {
    Regular,
    Directory,
    Link,
    /// Character and block devices, FIFOs and sockets.
    Special,
}

/// The colours in which text is painted.
#[derive(Debug, Clone, Copy, PartialEq, Eq, Structural)]
pub enum Tint {
    White,
    Cyan,
    Blue,
    Green,
    Red,
}

/// The display category of a kind: regular files, directories and symbolic
/// links each have their own; all special files share one.
pub open spec fn category_of(kind: FileType) -> DisplayCategory {
    match kind {
        FileType::File => DisplayCategory::Regular,
        FileType::Dir => DisplayCategory::Directory,
        FileType::Link => DisplayCategory::Link,
        FileType::CharDevice | FileType::BlockDevice | FileType::Fifo | FileType::Socket =>
            DisplayCategory::Special,
    }
}

/// The colour of a display category.
pub open spec fn tint_of(category: DisplayCategory) -> Tint {
    match category {
        DisplayCategory::Regular => Tint::White,
        DisplayCategory::Directory => Tint::Cyan,
        DisplayCategory::Link => Tint::Blue,
        DisplayCategory::Special => Tint::Green,
    }
}

/// The display category of a kind.
pub fn display_category(kind: FileType) -> (category: DisplayCategory)
    ensures
        category == category_of(kind),
{
    match kind {
        FileType::File => DisplayCategory::Regular,
        FileType::Dir => DisplayCategory::Directory,
        FileType::Link => DisplayCategory::Link,
        _ => DisplayCategory::Special,
    }
}

/// The colour of a display category.
pub fn category_tint(category: DisplayCategory) -> (tint: Tint)
    ensures
        tint == tint_of(category),
{
    match category {
        DisplayCategory::Regular => Tint::White,
        DisplayCategory::Directory => Tint::Cyan,
        DisplayCategory::Link => Tint::Blue,
        DisplayCategory::Special => Tint::Green,
    }
}

/// Whether an entry is shown: hidden entries only when all are asked for.
pub open spec fn is_shown(file: FileInfo, all: bool) -> bool {
    all || !file.is_hidden
}

/// The test of [`is_shown`] as a predicate on records.
pub open spec fn shown_test(all: bool) -> spec_fn(FileInfo) -> bool {
    |file: FileInfo| is_shown(file, all)
}

/// The entries of a listing that are shown, in their order.
pub open spec fn shown(files: Seq<FileInfo>, all: bool) -> Seq<FileInfo> {
    files.filter(shown_test(all))
}

/// The hidden-entry rule: a record whose name starts with a dot is shown
/// only when all entries are asked for, and a record whose name does not is
/// shown in any case.
pub proof fn lemma_hidden_filter(file: FileInfo, all: bool)
    requires
        file.well_formed(),
    ensures
        starts_with_dot(file.name@) ==> (is_shown(file, all) <==> all),
        !starts_with_dot(file.name@) ==> is_shown(file, all),
{
}

/// What the shown part of a listing holds: every record of the listing that
/// passes the rule, and nothing but records of the listing that pass it.
pub proof fn lemma_shown_members(files: Seq<FileInfo>, all: bool)
    ensures
        forall|i: int|
            0 <= i < files.len() && is_shown(#[trigger] files[i], all) ==> shown(
                files,
                all,
            ).contains(files[i]),
        forall|j: int|
            0 <= j < shown(files, all).len() ==> is_shown(#[trigger] shown(files, all)[j], all)
                && files.contains(shown(files, all)[j]),
{
    assert forall|i: int| 0 <= i < files.len() && is_shown(#[trigger] files[i], all) implies shown(
        files,
        all,
    ).contains(files[i]) by {
        files.lemma_filter_contains(shown_test(all), i);
    }
    assert forall|j: int| 0 <= j < shown(files, all).len() implies is_shown(
        #[trigger] shown(files, all)[j],
        all,
    ) && files.contains(shown(files, all)[j]) by {
        files.lemma_filter_pred(shown_test(all), j);
        assert(shown(files, all).contains(shown(files, all)[j]));
        files.lemma_filter_contains_rev(shown_test(all), shown(files, all)[j]);
    }
}

/// The code that switches the terminal to a colour.
pub open spec fn colour_code(tint: Tint) -> Seq<char> {
    match tint {
        Tint::White => seq!['\x1b', '[', '3', '7', 'm'],
        Tint::Cyan => seq!['\x1b', '[', '3', '6', 'm'],
        Tint::Blue => seq!['\x1b', '[', '3', '4', 'm'],
        Tint::Green => seq!['\x1b', '[', '3', '2', 'm'],
        Tint::Red => seq!['\x1b', '[', '3', '1', 'm'],
    }
}

/// The code that switches the terminal back to its own colours.
pub open spec fn reset_code() -> Seq<char> {
    seq!['\x1b', '[', '0', 'm']
}

/// Whether `text` holds the reset code somewhere.
pub open spec fn holds_reset(text: Seq<char>) -> bool {
    exists|i: int|
        0 <= i && i + 4 <= text.len() && #[trigger] text.subrange(i, i + 4) == reset_code()
}

/// Whether `painted` is `text` painted in `tint`. The painted text is never
/// shorter than the text. Of text that holds no reset code there are three
/// forms: the text itself where colours are off, the text between the code
/// of the colour and the reset code where they are on, and the text
/// followed by the reset code alone should they be switched off while it is
/// being written.
pub open spec fn is_painted(painted: Seq<char>, text: Seq<char>, tint: Tint) -> bool {
    &&& painted.len() >= text.len()
    &&& !holds_reset(text) ==> {
        ||| painted == text
        ||| painted == colour_code(tint) + text + reset_code()
        ||| painted == text + reset_code()
    }
}

/// Paints `text` in `tint`, by `colored::Colorize::color` and the formatting
/// of `colored::ColoredString`, which writes the text as it is where colours
/// are off and between the colour's code and the reset code where they are
/// on. Whether they are on depends on the terminal and the environment, so
/// the contract admits both. Text that holds the reset code is rewritten by
/// the crate; of that only the length is claimed.
#[verifier::external_body]
fn paint(text: &str, tint: Tint) -> (painted: String)
    ensures
        is_painted(painted@, text@, tint),
{
    let color = match tint {
        Tint::White => colored::Color::White,
        Tint::Cyan => colored::Color::Cyan,
        Tint::Blue => colored::Color::Blue,
        Tint::Green => colored::Color::Green,
        Tint::Red => colored::Color::Red,
    };
    format!("{}", colored::Colorize::color(text, color))
}

/// The colour in which the name of an entry is painted.
pub open spec fn name_tint(file: FileInfo) -> Tint {
    tint_of(category_of(file.file_type))
}

/// The name of an entry, painted in the colour of its display category.
pub fn color_file_names(file: &FileInfo) -> (painted: String)
    ensures
        is_painted(painted@, file.name@, name_tint(*file)),
{
    paint(file.name.as_str(), category_tint(display_category(file.file_type)))
}

/// Whether `cells` are the painted names of `files` in columns of `width`
/// characters: one cell for each entry, which is the entry's name, aligned
/// to the left of its column and painted in the colour of its category.
pub open spec fn are_painted_names(cells: Seq<String>, files: Seq<FileInfo>, width: nat) -> bool {
    &&& cells.len() == files.len()
    &&& forall|i: int|
        0 <= i < cells.len() ==> is_painted(
            (#[trigger] cells[i])@,
            left_aligned(files[i].name@, width),
            name_tint(files[i]),
        )
}

/// The names of the entries that are shown, each aligned to the left of a
/// column of `width` characters and painted in the colour of its category:
/// one text for each shown entry, in the order of the listing.
pub fn painted_names(files: &Vec<FileInfo>, all: bool, width: usize) -> (cells: Vec<String>)
    ensures
        are_painted_names(cells@, shown(files@, all), width as nat),
{
    let mut cells: Vec<String> = Vec::new();
    let mut i: usize = 0;
    assert(files@.take(0) =~= Seq::<FileInfo>::empty());
    while i < files.len()
        invariant
            i <= files.len(),
            are_painted_names(cells@, shown(files@.take(i as int), all), width as nat),
        decreases files.len() - i,
    {
        proof {
            assert(files@.take(i + 1) =~= files@.take(i as int).push(files@[i as int]));
            files@.take(i as int).lemma_filter_push(files@[i as int], shown_test(all));
        }
        let file = &files[i];
        if all || !file.is_hidden {
            let tint = category_tint(display_category(file.file_type));
            let cell = left_aligned_string(file.name.as_str(), width);
            cells.push(paint(cell.as_str(), tint));
        }
        i = i + 1;
    }
    assert(files@.take(files@.len() as int) =~= files@);
    cells
}

/// The texts of `cells`, one after another.
pub open spec fn concat(cells: Seq<String>) -> Seq<char>
    decreases cells.len(),
{
    if cells.len() == 0 {
        Seq::empty()
    } else {
        concat(cells.drop_last()) + cells.last()@
    }
}

/// The name-only row: the cells one after another and a line break.
pub open spec fn names_text(cells: Seq<String>) -> Seq<char> {
    concat(cells) + seq!['\n']
}

/// Joins painted cells into the name-only row.
pub fn join_name_cells(cells: &Vec<String>) -> (out: String)
    ensures
        out@ == names_text(cells@),
{
    let mut out = String::new();
    let mut i: usize = 0;
    assert(cells@.take(0) =~= Seq::<String>::empty());
    while i < cells.len()
        invariant
            i <= cells.len(),
            out@ == concat(cells@.take(i as int)),
        decreases cells.len() - i,
    {
        proof {
            assert(cells@.take(i + 1).drop_last() =~= cells@.take(i as int));
        }
        out.append(cells[i].as_str());
        i = i + 1;
    }
    proof {
        assert(cells@.take(cells@.len() as int) =~= cells@);
        reveal_strlit("\n");
    }
    out.append("\n");
    assert(out@ =~= names_text(cells@));
    out
}

/// Whether `text` is a name-only listing of `files`: the row of the painted
/// names of the entries that are shown, in columns of 20 characters.
pub open spec fn is_names_listing(text: Seq<char>, files: Seq<FileInfo>, all: bool) -> bool {
    exists|cells: Seq<String>|
        are_painted_names(cells, shown(files, all), 20) && text == #[trigger] names_text(cells)
}

/// The name-only listing: the name of each entry that is shown, aligned to
/// the left of a column of 20 characters and painted, and a final line
/// break.
///
/// Whether colour codes are written is decided by the terminal; the row
/// holds one cell for each shown entry, painted as [`is_painted`] states,
/// and is put together as [`join_name_cells`] states.
pub fn show_names(files: &Vec<FileInfo>, all: bool) -> (out: String)
    ensures
        is_names_listing(out@, files@, all),
{
    let cells = painted_names(files, all, 20);
    join_name_cells(&cells)
}

/// The size column of an entry: scaled to a unit when human-readable sizes
/// are asked for, the plain byte count otherwise.
pub open spec fn size_text(file: FileInfo, human_readable_sizes: bool) -> Seq<char> {
    if human_readable_sizes {
        human_readable(file.size as nat)
    } else {
        decimal(file.size as nat)
    }
}

/// The columns of a detailed row before the name: permissions, link count
/// (width 3), owner, group and size (width 8 each) and modification time
/// (width 20), right-aligned, each followed by one space.
pub open spec fn info_columns(file: FileInfo, human_readable_sizes: bool) -> Seq<char> {
    file.permissions@ + seq![' '] + right_aligned(decimal(file.link as nat), 3) + seq![' ']
        + right_aligned(file.owner@, 8) + seq![' '] + right_aligned(file.group@, 8) + seq![' ']
        + right_aligned(size_text(file, human_readable_sizes), 8) + seq![' '] + right_aligned(
        file.modified_time@,
        20,
    ) + seq![' ']
}

/// One detailed row: the columns, the painted name and a line break.
pub open spec fn info_row_text(
    file: FileInfo,
    human_readable_sizes: bool,
    painted: Seq<char>,
) -> Seq<char> {
    info_columns(file, human_readable_sizes) + painted + seq!['\n']
}

/// The detailed table of `files`, whose painted names are `names`, one row
/// for each entry.
pub open spec fn infos_text(
    files: Seq<FileInfo>,
    names: Seq<String>,
    human_readable_sizes: bool,
) -> Seq<char>
    decreases files.len(),
{
    if files.len() == 0 {
        Seq::empty()
    } else {
        infos_text(files.drop_last(), names.drop_last(), human_readable_sizes) + info_row_text(
            files.last(),
            human_readable_sizes,
            names.last()@,
        )
    }
}

/// Appends the detailed row of `file`, whose painted name is `painted`.
pub fn push_info_row(out: &mut String, file: &FileInfo, human_readable_sizes: bool, painted: &str)
    ensures
        final(out)@ == old(out)@ + info_row_text(*file, human_readable_sizes, painted@),
{
    proof {
        reveal_strlit(" ");
        reveal_strlit("\n");
    }
    let link = decimal_string(file.link);
    let size = if human_readable_sizes {
        human_readable_size(file.size)
    } else {
        decimal_string(file.size)
    };
    out.append(file.permissions.as_str());
    out.append(" ");
    push_right_aligned(out, link.as_str(), 3);
    out.append(" ");
    push_right_aligned(out, file.owner.as_str(), 8);
    out.append(" ");
    push_right_aligned(out, file.group.as_str(), 8);
    out.append(" ");
    push_right_aligned(out, size.as_str(), 8);
    out.append(" ");
    push_right_aligned(out, file.modified_time.as_str(), 20);
    out.append(" ");
    out.append(painted);
    out.append("\n");
    assert(out@ =~= old(out)@ + info_row_text(*file, human_readable_sizes, painted@));
}

/// Puts the detailed table together from a listing and the painted names of
/// its shown entries.
pub fn join_info_rows(
    files: &Vec<FileInfo>,
    all: bool,
    human_readable_sizes: bool,
    names: &Vec<String>,
) -> (out: String)
    requires
        names@.len() == shown(files@, all).len(),
    ensures
        out@ == infos_text(shown(files@, all), names@, human_readable_sizes),
{
    let mut out = String::new();
    let mut i: usize = 0;
    let mut j: usize = 0;
    assert(files@.take(0) =~= Seq::<FileInfo>::empty());
    while i < files.len()
        invariant
            i <= files.len(),
            names@.len() == shown(files@, all).len(),
            j == shown(files@.take(i as int), all).len(),
            out@ == infos_text(
                shown(files@.take(i as int), all),
                names@.take(j as int),
                human_readable_sizes,
            ),
        decreases files.len() - i,
    {
        let ghost before = shown(files@.take(i as int), all);
        proof {
            assert(files@.take(i + 1) =~= files@.take(i as int).push(files@[i as int]));
            files@.take(i as int).lemma_filter_push(files@[i as int], shown_test(all));
            files@.lemma_filter_take_len(shown_test(all), i + 1);
        }
        let file = &files[i];
        if all || !file.is_hidden {
            proof {
                assert(before.push(*file).drop_last() =~= before);
                assert(names@.take(j + 1).drop_last() =~= names@.take(j as int));
            }
            push_info_row(&mut out, file, human_readable_sizes, names[j].as_str());
            j = j + 1;
        }
        i = i + 1;
    }
    proof {
        assert(files@.take(files@.len() as int) =~= files@);
        assert(names@.take(j as int) =~= names@);
    }
    out
}

/// Whether `text` is a detailed listing of `files`: the table of the
/// entries that are shown, with some painted name for each.
pub open spec fn is_detailed_listing(
    text: Seq<char>,
    files: Seq<FileInfo>,
    all: bool,
    human_readable_sizes: bool,
) -> bool {
    exists|names: Seq<String>|
        are_painted_names(names, shown(files, all), 0) && text == #[trigger] infos_text(
            shown(files, all),
            names,
            human_readable_sizes,
        )
}

/// The detailed listing: one row for each entry that is shown, with the
/// columns of [`info_columns`] and the painted name.
///
/// Whether colour codes are written is decided by the terminal; the table
/// holds the name of each shown entry, painted as [`is_painted`] states, and
/// is put together as [`join_info_rows`] states.
pub fn show_infos(files: &Vec<FileInfo>, all: bool, human_readable_sizes: bool) -> (out: String)
    ensures
        is_detailed_listing(out@, files@, all, human_readable_sizes),
{
    let names = painted_names(files, all, 0);
    join_info_rows(files, all, human_readable_sizes, &names)
}

/// The depth of a tree line.
pub open spec fn line_depth(line: TreeLine) -> u16 {
    match line {
        TreeLine::Entry { depth, .. } => depth,
        TreeLine::Missing { depth } => depth,
        TreeLine::Denied { depth } => depth,
    }
}

/// The colour in which the text of a tree line is painted: that of the
/// entry's category, and red for the two messages.
pub open spec fn line_tint(line: TreeLine) -> Tint {
    match line {
        TreeLine::Entry { category, .. } => tint_of(category),
        TreeLine::Missing { .. } => Tint::Red,
        TreeLine::Denied { .. } => Tint::Red,
    }
}

/// The text that a tree line shows: the name of an entry, or the message
/// for a missing path or an unreadable directory.
pub open spec fn line_label(line: TreeLine) -> Seq<char> {
    match line {
        TreeLine::Entry { name, .. } => name@,
        TreeLine::Missing { .. } => "No such file or directory"@,
        TreeLine::Denied { .. } => "Permission denied"@,
    }
}

/// A row of the tree: five spaces for each level of depth, the branch mark
/// and the painted text.
pub open spec fn tree_row_text(depth: u16, painted: Seq<char>) -> Seq<char> {
    spaces(5 * depth as nat) + seq!['|', ' ', '-', ' '] + painted
}

/// Puts a row of the tree together from its depth and its painted text.
pub fn tree_row(depth: u16, painted: &str) -> (out: String)
    ensures
        out@ == tree_row_text(depth, painted@),
{
    let mut out = String::new();
    push_spaces(&mut out, 5 * (depth as usize));
    proof {
        reveal_strlit("| - ");
    }
    out.append("| - ");
    out.append(painted);
    assert(out@ =~= tree_row_text(depth, painted@));
    out
}

/// Whether `text` is the row of a tree line: the text of the line, painted
/// in its colour, behind the indentation of its depth.
pub open spec fn is_tree_row(text: Seq<char>, line: TreeLine) -> bool {
    exists|painted: String|
        is_painted(painted@, line_label(line), line_tint(line)) && text == #[trigger] tree_row_text(
            line_depth(line),
            painted@,
        )
}

/// The row of a tree line: an entry shows its name in the colour of its
/// category, a missing path and an unreadable directory their message in
/// red. Whether colour codes are written is decided by the terminal; the
/// row is put together as [`tree_row`] states.
pub fn show_tree_line(line: &TreeLine) -> (out: String)
    ensures
        is_tree_row(out@, *line),
{
    let (depth, painted) = match line {
        TreeLine::Entry { depth, name, category } => (
            *depth,
            paint(name.as_str(), category_tint(*category)),
        ),
        TreeLine::Missing { depth } => (*depth, paint("No such file or directory", Tint::Red)),
        TreeLine::Denied { depth } => (*depth, paint("Permission denied", Tint::Red)),
    };
    let out = tree_row(depth, painted.as_str());
    assert(out@ == tree_row_text(line_depth(*line), painted@));
    out
}

} // verus!
