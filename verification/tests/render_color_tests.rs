use nls::classify::FileType;
use nls::entry::FileInfo;
use nls::render::{color_file_names, show_names, show_tree_line, DisplayCategory};
use nls::walker::TreeLine;

fn record(name: &str, kind: FileType) -> FileInfo {
    FileInfo {
        file_type: kind,
        permissions: String::from("-rw-r--r--"),
        link: 1,
        owner: String::from("owner"),
        group: String::from("group"),
        size: 1,
        modified_time: String::from("2024-05-06 07:08:09"),
        name: String::from(name),
        is_hidden: name.starts_with('.'),
    }
}

fn coloured() {
    colored::control::set_override(true);
}

#[test]
fn each_category_is_painted_in_its_colour() {
    coloured();
    assert_eq!(color_file_names(&record("f", FileType::File)), "\x1b[37mf\x1b[0m");
    assert_eq!(color_file_names(&record("d", FileType::Dir)), "\x1b[36md\x1b[0m");
    assert_eq!(color_file_names(&record("l", FileType::Link)), "\x1b[34ml\x1b[0m");
    assert_eq!(color_file_names(&record("c", FileType::CharDevice)), "\x1b[32mc\x1b[0m");
    assert_eq!(color_file_names(&record("b", FileType::BlockDevice)), "\x1b[32mb\x1b[0m");
    assert_eq!(color_file_names(&record("p", FileType::Fifo)), "\x1b[32mp\x1b[0m");
    assert_eq!(color_file_names(&record("s", FileType::Socket)), "\x1b[32ms\x1b[0m");
}

#[test]
fn painted_cells_are_padded_inside_the_colour_codes() {
    coloured();
    let files = vec![record("sub", FileType::Dir), record("a", FileType::File)];
    assert_eq!(
        show_names(&files, false),
        format!("\x1b[36m{:<20}\x1b[0m\x1b[37m{:<20}\x1b[0m\n", "sub", "a")
    );
}

#[test]
fn tree_messages_are_painted_red() {
    coloured();
    assert_eq!(
        show_tree_line(&TreeLine::Missing { depth: 1 }),
        "     | - \x1b[31mNo such file or directory\x1b[0m"
    );
    assert_eq!(
        show_tree_line(&TreeLine::Denied { depth: 0 }),
        "| - \x1b[31mPermission denied\x1b[0m"
    );
    let entry = TreeLine::Entry {
        depth: 0,
        name: String::from("dir"),
        category: DisplayCategory::Directory,
    };
    assert_eq!(show_tree_line(&entry), "| - \x1b[36mdir\x1b[0m");
}

#[test]
fn cells_are_padded_by_the_length_of_the_name() {
    coloured();
    let files = vec![record("żółw", FileType::File), record("a-name-longer-than-twenty", FileType::Dir)];
    assert_eq!(
        show_names(&files, false),
        format!("\x1b[37m{:<20}\x1b[0m\x1b[36ma-name-longer-than-twenty\x1b[0m\n", "żółw")
    );
}

#[test]
fn a_name_that_holds_the_reset_code_is_written_whole() {
    coloured();
    let painted = color_file_names(&record("a\x1b[0mb", FileType::File));
    assert!(painted.starts_with("\x1b[37ma\x1b[0m"));
    assert!(painted.ends_with("b\x1b[0m"));
    assert!(painted.chars().count() >= 6);
}
