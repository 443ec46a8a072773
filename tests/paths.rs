use discord_fs::error::FsError;
use discord_fs::fs::{check_move, check_new_name, check_not_root, check_removal, root_from_topic};
use discord_fs::node_kind::NodeKind;
use discord_fs::path::split_path;

#[test]
fn split_file_path() {
    assert_eq!(split_path(b"/a/b/file", false, false), Ok((&b"/a/b/"[..], &b"file"[..])));
    assert_eq!(split_path(b"/file", false, false), Ok((&b"/"[..], &b"file"[..])));
}

#[test]
fn split_directory_path() {
    assert_eq!(split_path(b"/a/b/", true, true), Ok((&b"/a/"[..], &b"b/"[..])));
    assert_eq!(split_path(b"/a/", true, false), Ok((&b"/"[..], &b"a/"[..])));
    assert_eq!(split_path(b"/a/f", true, false), Ok((&b"/a/"[..], &b"f"[..])));
}

#[test]
fn split_root_with_required_directory_fails() {
    assert_eq!(split_path(b"/", true, true), Err(FsError::MissingName));
}

#[test]
fn split_path_errors() {
    assert_eq!(split_path(b"/a/", false, false), Err(FsError::DirectoryNotAllowed));
    assert_eq!(split_path(b"/a", true, true), Err(FsError::DirectoryRequired));
    assert_eq!(split_path(b"name", false, false), Err(FsError::MissingName));
}

#[test]
fn new_name_rules() {
    assert_eq!(check_new_name(b"/a/", b"/"), Err(FsError::RootNotAllowed));
    assert_eq!(check_new_name(b"/a/", b"b/"), Ok(()));
    assert_eq!(check_new_name(b"/a/", b"b"), Err(FsError::InvalidNewName));
    assert_eq!(check_new_name(b"/a/", b"b/c/"), Err(FsError::InvalidNewName));
    assert_eq!(check_new_name(b"/a/f", b"g"), Ok(()));
    assert_eq!(check_new_name(b"/a/f", b"g/"), Err(FsError::InvalidNewName));
    assert_eq!(check_new_name(b"/a/f", b""), Err(FsError::InvalidNewName));
}

#[test]
fn root_checks() {
    assert_eq!(check_not_root(b"/"), Err(FsError::RootNotAllowed));
    assert_eq!(check_not_root(b"/a/"), Ok(()));
}

#[test]
fn removal_flags() {
    assert_eq!(check_removal(NodeKind::Directory, false), Err(FsError::RecursionRequired));
    assert_eq!(check_removal(NodeKind::File, true), Err(FsError::RecursionNotAllowed));
    assert_eq!(check_removal(NodeKind::Directory, true), Ok(()));
    assert_eq!(check_removal(NodeKind::File, false), Ok(()));
}

#[test]
fn move_paths() {
    assert_eq!(check_move(b"/a/f", b"/a/f"), Ok(false));
    assert_eq!(check_move(b"/", b"/b/"), Err(FsError::RootNotAllowed));
    assert_eq!(check_move(b"/a/", b"/a/b/"), Err(FsError::MoveIntoItself));
    assert_eq!(check_move(b"/a/f", b"/b/"), Ok(true));
    assert_eq!(check_move(b"/a/", b"/ab/"), Ok(true));
}

#[test]
fn topic_parsing() {
    assert_eq!(root_from_topic(b"123"), Ok(123));
    assert_eq!(root_from_topic(b"+5"), Ok(5));
    assert_eq!(root_from_topic(b"18446744073709551615"), Ok(u64::MAX));
    assert_eq!(root_from_topic(b"18446744073709551616"), Err(FsError::InvalidTopic));
    assert_eq!(root_from_topic(b""), Err(FsError::InvalidTopic));
    assert_eq!(root_from_topic(b"+"), Err(FsError::InvalidTopic));
    assert_eq!(root_from_topic(b"12a"), Err(FsError::InvalidTopic));
    assert_eq!(root_from_topic(b"-1"), Err(FsError::InvalidTopic));
    assert_eq!(root_from_topic(b"0"), Ok(0));
    assert_eq!(root_from_topic(b"00"), Ok(0));
    assert_eq!(root_from_topic(b"+0"), Ok(0));
}

#[test]
fn error_messages() {
    assert!(FsError::AlreadyExists.message().contains("file already exists"));
    assert!(FsError::DirectoryFull.message().contains("full"));
    assert_eq!(FsError::AlreadyExists.message(), "The file already exists");
}
