use nls::classify::{FileType, TypeFlags};
use nls::cli::{LsCli, Outcome, Reading, RenderMode};
use nls::entry::{EntryStat, FileInfo};
use nls::error::ListError;
use nls::sorter::SortKey;
use nls::walker::Stage;

fn no_flags() -> TypeFlags {
    TypeFlags {
        is_dir: false,
        is_file: false,
        is_symlink: false,
        is_char_device: false,
        is_block_device: false,
        is_fifo: false,
        is_socket: false,
    }
}

fn entry(name: &str, is_dir: bool, size: u64, modified: &str) -> EntryStat {
    EntryStat {
        flags: TypeFlags { is_dir, is_file: !is_dir, ..no_flags() },
        mode: if is_dir { 0o40755 } else { 0o100644 },
        nlink: 1,
        uid: 0,
        group: Some(String::from("staff")),
        size,
        modified: Some(String::from(modified)),
        name: String::from(name),
    }
}

/// `a.txt` of 500 bytes, `.hidden` of 10 bytes and the directory `sub`, in
/// an order that no key gives.
fn scenario() -> Reading {
    Reading::Entries(vec![
        Some(entry("sub", true, 4096, "2020-09-13 12:26:40")),
        Some(entry(".hidden", false, 10, "2023-11-14 22:13:20")),
        Some(entry("a.txt", false, 500, "2017-07-14 02:40:00")),
    ])
}

fn text_of(outcome: Result<Outcome<u32>, ListError>) -> String {
    match outcome {
        Ok(Outcome::Text(text)) => text,
        Ok(Outcome::Walk(_)) => panic!("a walk where a text was expected"),
        Err(e) => panic!("{:?}", e),
    }
}

fn names_of_rows(text: &str) -> Vec<String> {
    text.lines().map(|line| String::from(line.rsplit(' ').next().unwrap())).collect()
}

#[test]
fn default_configuration() {
    let cli = LsCli::default();
    assert!(!cli.long && !cli.all && !cli.human_readable);
    assert!(!cli.sort_by_size && !cli.sort_by_time && !cli.resort && !cli.tree);
    assert_eq!(cli.depth, 10);
    assert_eq!(cli.render_mode(), RenderMode::Names);
    assert_eq!(cli.sort_key(), SortKey::Name);
}

#[test]
fn mode_of_every_combination_of_display_flags() {
    for bits in 0..16u8 {
        let cli = LsCli {
            long: bits & 1 != 0,
            all: bits & 2 != 0,
            human_readable: bits & 4 != 0,
            tree: bits & 8 != 0,
            ..LsCli::default()
        };
        let expected = match bits {
            1 | 3 | 5 | 7 => RenderMode::Details,
            0 | 2 | 4 | 6 => RenderMode::Names,
            _ => RenderMode::Tree,
        };
        assert_eq!(cli.render_mode(), expected, "flags {:04b}", bits);
    }
}

#[test]
fn key_prefers_size_over_time_over_name() {
    let cli = LsCli { sort_by_size: true, sort_by_time: true, ..LsCli::default() };
    assert_eq!(cli.sort_key(), SortKey::Size);
    let cli = LsCli { sort_by_time: true, ..LsCli::default() };
    assert_eq!(cli.sort_key(), SortKey::Time);
    let cli = LsCli { resort: true, long: true, ..LsCli::default() };
    assert_eq!(cli.sort_key(), SortKey::Name);
}

#[test]
fn scenario_without_flags() {
    colored::control::set_override(false);
    let text = text_of(LsCli::default().execute(0u32, &scenario()));
    assert_eq!(text, format!("{:<20}{:<20}\n", "a.txt", "sub"));
}

#[test]
fn scenario_with_all_and_details() {
    colored::control::set_override(false);
    let cli = LsCli { all: true, long: true, ..LsCli::default() };
    let text = text_of(cli.execute(0u32, &scenario()));
    assert_eq!(names_of_rows(&text), [".hidden", "a.txt", "sub"]);
    let rows: Vec<&str> = text.lines().collect();
    assert!(rows[0].starts_with("-rw-r--r--   1 "));
    assert!(rows[1].starts_with("-rw-r--r--   1 "));
    assert!(rows[2].starts_with("drwxr-xr-x   1 "));
    let columns: Vec<&str> = rows[0].split_whitespace().collect();
    assert_eq!(columns.len(), 8);
    assert_eq!(columns[4], "10");
    let columns: Vec<&str> = rows[1].split_whitespace().collect();
    assert_eq!(columns[4], "500");
}

#[test]
fn scenario_with_all_details_and_human_readable_sizes() {
    colored::control::set_override(false);
    let cli = LsCli { all: true, long: true, human_readable: true, ..LsCli::default() };
    let text = text_of(cli.execute(0u32, &scenario()));
    let rows: Vec<&str> = text.lines().collect();
    assert_eq!(rows.len(), 3);
    assert_eq!(rows[0].split_whitespace().nth(4), Some("10.00B"));
    assert_eq!(rows[1].split_whitespace().nth(4), Some("500.00B"));
    assert_eq!(rows[2].split_whitespace().nth(4), Some("4.00K"));
}

#[test]
fn scenario_with_details_hides_the_hidden_entry() {
    colored::control::set_override(false);
    let cli = LsCli { long: true, ..LsCli::default() };
    let text = text_of(cli.execute(0u32, &scenario()));
    assert_eq!(names_of_rows(&text), ["a.txt", "sub"]);
}

#[test]
fn scenario_sorted_by_size_and_by_time() {
    colored::control::set_override(false);
    let cli = LsCli { all: true, long: true, sort_by_size: true, ..LsCli::default() };
    assert_eq!(names_of_rows(&text_of(cli.execute(0u32, &scenario()))), [".hidden", "a.txt", "sub"]);
    let cli = LsCli { resort: true, ..cli };
    assert_eq!(names_of_rows(&text_of(cli.execute(0u32, &scenario()))), ["sub", "a.txt", ".hidden"]);
    let cli = LsCli { all: true, long: true, sort_by_time: true, ..LsCli::default() };
    assert_eq!(names_of_rows(&text_of(cli.execute(0u32, &scenario()))), ["a.txt", "sub", ".hidden"]);
    let cli = LsCli { resort: true, ..cli };
    assert_eq!(names_of_rows(&text_of(cli.execute(0u32, &scenario()))), [".hidden", "sub", "a.txt"]);
}

#[test]
fn scenario_reversed_by_name() {
    colored::control::set_override(false);
    let cli = LsCli { resort: true, all: true, ..LsCli::default() };
    let text = text_of(cli.execute(0u32, &scenario()));
    assert_eq!(text, format!("{:<20}{:<20}{:<20}\n", "sub", "a.txt", ".hidden"));
}

#[test]
fn listing_of_a_single_file() {
    colored::control::set_override(false);
    let entries = Reading::Entries(vec![Some(entry("only.txt", false, 7, "2024-01-01 00:00:00"))]);
    let text = text_of(LsCli { resort: true, ..LsCli::default() }.execute(0u32, &entries));
    assert_eq!(text, format!("{:<20}\n", "only.txt"));
}

#[test]
fn get_files_and_dirs_arranges_the_records() {
    let cli = LsCli { sort_by_size: true, resort: true, ..LsCli::default() };
    let files = cli.get_files_and_dirs(&scenario()).unwrap();
    let names: Vec<&str> = files.iter().map(|f| f.name.as_str()).collect();
    assert_eq!(names, ["sub", "a.txt", ".hidden"]);
    assert!(files[2].is_hidden);
    assert_eq!(files[1].size, 500);
    let nothing = Reading::Entries(Vec::new());
    assert!(LsCli::default().get_files_and_dirs(&nothing).unwrap().is_empty());
}

#[test]
fn tree_mode_starts_a_walk_at_the_root() {
    let cli = LsCli { tree: true, depth: 3, ..LsCli::default() };
    match cli.execute(77u32, &scenario()) {
        Ok(Outcome::Walk(walker)) => {
            assert_eq!(walker.stage(), Stage::Probe);
            assert_eq!(walker.current(), Some(&77));
            assert_eq!(walker.depth(), Some(0));
        }
        _ => panic!("no walk in tree mode"),
    }
}

fn hidden_file() -> FileInfo {
    FileInfo {
        file_type: FileType::File,
        permissions: String::from("-rw-r--r--"),
        link: 1,
        owner: String::from("owner"),
        group: String::from("staff"),
        size: 1,
        modified_time: String::from("2024-01-01 00:00:00"),
        name: String::from(".env"),
        is_hidden: true,
    }
}

#[test]
fn tree_mode_shows_hidden_entries_only_with_all() {
    for (all, long) in [(false, false), (false, true), (true, false), (true, true)] {
        let cli = LsCli { tree: true, all, long, human_readable: long, ..LsCli::default() };
        let mut walker = match cli.render(0u32, &Vec::new()) {
            Outcome::Walk(walker) => walker,
            Outcome::Text(_) => panic!("no walk in tree mode"),
        };
        assert_eq!(walker.probed(true), None);
        let line = walker.inspected(Some(hidden_file()));
        assert_eq!(line.is_some(), all);
    }
}

#[test]
fn render_shows_a_listing_in_the_mode_of_the_run() {
    colored::control::set_override(false);
    let files = vec![hidden_file()];
    match LsCli::default().render(0u32, &files) {
        Outcome::Text(text) => assert_eq!(text, "\n"),
        Outcome::Walk(_) => panic!("a walk where a text was expected"),
    }
    match (LsCli { all: true, ..LsCli::default() }).render(0u32, &files) {
        Outcome::Text(text) => assert_eq!(text, format!("{:<20}\n", ".env")),
        Outcome::Walk(_) => panic!("a walk where a text was expected"),
    }
    match (LsCli { all: true, long: true, ..LsCli::default() }).render(0u32, &files) {
        Outcome::Text(text) => assert_eq!(
            text,
            "-rw-r--r--   1    owner    staff        1  2024-01-01 00:00:00 .env\n"
        ),
        Outcome::Walk(_) => panic!("a walk where a text was expected"),
    }
}

fn every_mode() -> [LsCli; 3] {
    [
        LsCli::default(),
        LsCli { long: true, ..LsCli::default() },
        LsCli { tree: true, ..LsCli::default() },
    ]
}

#[test]
fn a_target_that_does_not_exist_fails_the_run() {
    for cli in every_mode() {
        assert!(matches!(cli.execute(0u32, &Reading::NotFound), Err(ListError::PathNotFound)));
        assert_eq!(cli.get_files_and_dirs(&Reading::NotFound), Err(ListError::PathNotFound));
    }
}

#[test]
fn a_directory_that_cannot_be_read_fails_the_run() {
    for cli in every_mode() {
        assert!(matches!(
            cli.execute(0u32, &Reading::Unreadable),
            Err(ListError::DirectoryUnreadable)
        ));
        assert_eq!(
            cli.get_files_and_dirs(&Reading::Unreadable),
            Err(ListError::DirectoryUnreadable)
        );
    }
}

#[test]
fn an_entry_without_attributes_fails_the_run() {
    let entries = Reading::Entries(vec![
        Some(entry("a", false, 1, "2024-01-01 00:00:00")),
        None,
        Some(entry("b", false, 1, "2024-01-01 00:00:00")),
    ]);
    for cli in every_mode() {
        assert!(matches!(cli.execute(0u32, &entries), Err(ListError::MetadataUnavailable)));
        assert_eq!(cli.get_files_and_dirs(&entries), Err(ListError::MetadataUnavailable));
    }
}

#[test]
fn a_record_that_cannot_be_built_fails_the_run() {
    let mut broken = entry(".hidden", false, 10, "");
    broken.modified = None;
    let entries = Reading::Entries(vec![
        Some(entry("a", false, 1, "2024-01-01 00:00:00")),
        Some(broken),
    ]);
    for cli in [
        LsCli::default(),
        LsCli { long: true, ..LsCli::default() },
        LsCli { tree: true, ..LsCli::default() },
    ] {
        assert!(matches!(cli.execute(0u32, &entries), Err(ListError::MetadataUnavailable)));
        assert_eq!(cli.get_files_and_dirs(&entries), Err(ListError::MetadataUnavailable));
    }
}
