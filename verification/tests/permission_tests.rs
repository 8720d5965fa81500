use nls::classify::{classify, FileType, TypeFlags};
use nls::permission::{permission_triads, turn_permission_num_to_str};

fn no_flags() -> TypeFlags {
    TypeFlags {
        is_dir: false,
        is_file: false,
        is_symlink: false,
        is_char_device: false,
        is_block_device: false,
        is_fifo: false,
        is_socket: false,
    }
}

#[test]
fn triad_truth_table() {
    let expected = ["---", "--x", "-w-", "-wx", "r--", "r-x", "rw-", "rwx"];
    for num in 0..8u32 {
        assert_eq!(turn_permission_num_to_str(num), expected[num as usize]);
    }
}

#[test]
fn triad_examples() {
    assert_eq!(turn_permission_num_to_str(0b110), "rw-");
    assert_eq!(turn_permission_num_to_str(0b101), "r-x");
    assert_eq!(turn_permission_num_to_str(0b000), "---");
}

#[test]
fn triad_ignores_higher_bits() {
    assert_eq!(turn_permission_num_to_str(8), "---");
    assert_eq!(turn_permission_num_to_str(0o17), "rwx");
}

#[test]
fn mode_gives_three_triads() {
    assert_eq!(permission_triads(0o755), "rwxr-xr-x");
    assert_eq!(permission_triads(0o644), "rw-r--r--");
    assert_eq!(permission_triads(0o100644), "rw-r--r--");
    assert_eq!(permission_triads(0), "---------");
    assert_eq!(permission_triads(0o421), "r---w---x");
}

#[test]
fn classify_each_kind() {
    assert_eq!(classify(TypeFlags { is_dir: true, ..no_flags() }), ('d', FileType::Dir));
    assert_eq!(classify(TypeFlags { is_file: true, ..no_flags() }), ('-', FileType::File));
    assert_eq!(classify(TypeFlags { is_symlink: true, ..no_flags() }), ('l', FileType::Link));
    assert_eq!(
        classify(TypeFlags { is_char_device: true, ..no_flags() }),
        ('c', FileType::CharDevice)
    );
    assert_eq!(
        classify(TypeFlags { is_block_device: true, ..no_flags() }),
        ('b', FileType::BlockDevice)
    );
    assert_eq!(classify(TypeFlags { is_fifo: true, ..no_flags() }), ('p', FileType::Fifo));
    assert_eq!(classify(TypeFlags { is_socket: true, ..no_flags() }), ('s', FileType::Socket));
}

#[test]
fn classify_nothing_matched_is_a_regular_file_with_question_mark() {
    assert_eq!(classify(no_flags()), ('?', FileType::File));
}

#[test]
fn classify_takes_the_first_predicate_that_holds() {
    let flags = TypeFlags { is_dir: true, is_file: true, is_socket: true, ..no_flags() };
    assert_eq!(classify(flags), ('d', FileType::Dir));
    let flags = TypeFlags { is_symlink: true, is_fifo: true, ..no_flags() };
    assert_eq!(classify(flags), ('l', FileType::Link));
}
