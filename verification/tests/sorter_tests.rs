use nls::classify::FileType;
use nls::entry::FileInfo;
use nls::sorter::{precedes, reversed, sort_by_key, sort_files, SortKey};

fn record(name: &str, size: u64, time: &str) -> FileInfo {
    FileInfo {
        file_type: FileType::File,
        permissions: String::from("-rw-r--r--"),
        link: 1,
        owner: String::from("owner"),
        group: String::from("group"),
        size,
        modified_time: String::from(time),
        name: String::from(name),
        is_hidden: name.starts_with('.'),
    }
}

fn names(files: &[FileInfo]) -> Vec<String> {
    files.iter().map(|f| f.name.clone()).collect()
}

#[test]
fn sort_by_name_orders_b_a_c() {
    let files = vec![record("b", 1, "t"), record("a", 2, "t"), record("c", 3, "t")];
    let sorted = sort_files(files, SortKey::Name, false);
    assert_eq!(names(&sorted), ["a", "b", "c"]);
}

#[test]
fn reversed_name_sort_of_b_a_c() {
    let files = vec![record("b", 1, "t"), record("a", 2, "t"), record("c", 3, "t")];
    let sorted = sort_files(files, SortKey::Name, true);
    assert_eq!(names(&sorted), ["c", "b", "a"]);
}

#[test]
fn sort_by_size_keeps_ties_in_their_order() {
    let files = vec![
        record("x", 5, "t"),
        record("p", 1, "t"),
        record("y", 5, "t"),
        record("q", 1, "t"),
        record("z", 5, "t"),
        record("m", 3, "t"),
    ];
    let sorted = sort_files(files, SortKey::Size, false);
    assert_eq!(names(&sorted), ["p", "q", "m", "x", "y", "z"]);
}

#[test]
fn reversal_is_applied_to_the_sorted_listing() {
    // Ties come out in the opposite of their original order, as a reversal
    // of the sorted sequence gives them, not as a descending sort would.
    let files = vec![
        record("x", 5, "t"),
        record("p", 1, "t"),
        record("y", 5, "t"),
        record("q", 1, "t"),
    ];
    let sorted = sort_files(files, SortKey::Size, true);
    assert_eq!(names(&sorted), ["y", "x", "q", "p"]);
}

#[test]
fn sort_by_time_compares_the_time_text() {
    let files = vec![
        record("new", 1, "2024-03-01 10:00:00"),
        record("old", 1, "2019-12-31 23:59:59"),
        record("mid", 1, "2024-02-29 00:00:00"),
        record("same", 1, "2024-03-01 10:00:00"),
    ];
    let sorted = sort_files(files, SortKey::Time, false);
    assert_eq!(names(&sorted), ["old", "mid", "new", "same"]);
}

#[test]
fn names_compare_by_bytes() {
    let files = vec![
        record("b", 1, "t"),
        record("B", 1, "t"),
        record("ab", 1, "t"),
        record("a", 1, "t"),
        record("", 1, "t"),
        record(".env", 1, "t"),
        record("é", 1, "t"),
        record("z", 1, "t"),
        record("10", 1, "t"),
        record("9", 1, "t"),
    ];
    let sorted = sort_files(files, SortKey::Name, false);
    assert_eq!(names(&sorted), ["", ".env", "10", "9", "B", "a", "ab", "b", "z", "é"]);
}

#[test]
fn precedes_is_the_order_of_the_key() {
    let a = record("a", 2, "2020");
    let b = record("b", 1, "2020");
    assert!(precedes(&a, &b, SortKey::Name));
    assert!(!precedes(&b, &a, SortKey::Name));
    assert!(precedes(&b, &a, SortKey::Size));
    assert!(!precedes(&a, &b, SortKey::Size));
    assert!(precedes(&a, &b, SortKey::Time));
    assert!(precedes(&b, &a, SortKey::Time));
    assert!(precedes(&a, &a, SortKey::Name));
}

#[test]
fn sort_of_nothing_and_of_one() {
    assert!(sort_files(Vec::new(), SortKey::Name, false).is_empty());
    assert!(sort_files(Vec::new(), SortKey::Size, true).is_empty());
    let one = sort_files(vec![record("only", 1, "t")], SortKey::Time, true);
    assert_eq!(names(&one), ["only"]);
}

#[test]
fn reversed_reverses() {
    let files = vec![record("1", 1, "t"), record("2", 1, "t"), record("3", 1, "t")];
    assert_eq!(names(&reversed(files)), ["3", "2", "1"]);
    assert!(reversed(Vec::new()).is_empty());
}

#[test]
fn sort_agrees_with_a_stable_sort_of_the_standard_library() {
    let mut seed: u64 = 0x2545_f491_4f6c_dd1d;
    for round in 0..60usize {
        let mut files = Vec::new();
        for i in 0..(round * 3) {
            seed ^= seed << 13;
            seed ^= seed >> 7;
            seed ^= seed << 17;
            let name = format!("n{}", seed % 7);
            let time = format!("2024-01-{:02} 00:00:00", seed % 5 + 1);
            let mut file = record(&name, seed % 4, &time);
            // The link count tells records with equal keys apart.
            file.link = i as u64;
            files.push(file);
        }
        for key in [SortKey::Name, SortKey::Size, SortKey::Time] {
            let mut expected = files.clone();
            match key {
                SortKey::Name => expected.sort_by(|a, b| a.name.cmp(&b.name)),
                SortKey::Size => expected.sort_by(|a, b| a.size.cmp(&b.size)),
                SortKey::Time => expected.sort_by(|a, b| a.modified_time.cmp(&b.modified_time)),
            }
            assert_eq!(sort_by_key(files.clone(), key), expected);
            expected.reverse();
            assert_eq!(sort_files(files.clone(), key, true), expected);
        }
    }
}
