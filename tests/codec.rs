use discord_fs::directory_entry::{DirectoryEntry, NAME_LEN};
use discord_fs::error::{DecodeError, FsError};
use discord_fs::fs::{check_insert, encode, insert_entry, rename_entry};
use discord_fs::node::{Node, BLOCK_COUNT, BLOCK_SIZE, ENTRY_COUNT, MAX_FILE_SIZE};
use discord_fs::node_kind::NodeKind;

fn le(x: u64) -> Vec<u8> {
    x.to_le_bytes().to_vec()
}

#[test]
fn derived_limits() {
    assert_eq!(BLOCK_SIZE, 1 << 23);
    assert_eq!(BLOCK_COUNT, (BLOCK_SIZE - 24) / 8);
    assert_eq!(MAX_FILE_SIZE, (BLOCK_SIZE * BLOCK_COUNT) as u64);
    assert_eq!(ENTRY_COUNT, (BLOCK_SIZE - 24) / (NAME_LEN + 8));
    assert_eq!(ENTRY_COUNT, 8256);
    assert_eq!(NAME_LEN, 1008);
}

#[test]
fn node_kind_bytes() {
    assert_eq!(NodeKind::Directory.to_le_bytes(), [0u8; 8]);
    assert_eq!(NodeKind::File.to_le_bytes(), [1u8, 0, 0, 0, 0, 0, 0, 0]);
    assert_eq!(NodeKind::from_le_bytes([0u8; 8]), NodeKind::Directory);
    assert_eq!(NodeKind::from_le_bytes([1u8, 0, 0, 0, 0, 0, 0, 0]), NodeKind::File);
}

#[test]
fn entry_bytes_layout() {
    let e = DirectoryEntry::new(b"foo", 7);
    let mut want = le(3);
    want.extend_from_slice(b"foo");
    want.extend(le(7));
    assert_eq!(e.to_le_bytes(), want);
    assert_eq!(e.to_le_bytes().len(), 3 + 16);
    assert_eq!(e.block_id(), 7);
    assert_eq!(e.get_name(), b"foo");
}

#[test]
fn entry_set_name() {
    let mut e = DirectoryEntry::new(b"foo", 7);
    e.set_name(b"bar/");
    assert_eq!(e.get_name(), b"bar/");
    assert_eq!(e.block_id(), 7);
}

#[test]
fn entries_round_trip() {
    let names: Vec<&[u8]> = vec![b"a", b"dir/", b"", b"\xc3\xa9t\xc3\xa9"];
    let mut bytes = Vec::new();
    for (i, n) in names.iter().enumerate() {
        bytes.extend(DirectoryEntry::new(n, i as u64 + 100).to_le_bytes());
    }
    let back = DirectoryEntry::from_le_bytes(&bytes).unwrap();
    assert_eq!(back.len(), names.len());
    for (i, e) in back.iter().enumerate() {
        assert_eq!(e.get_name(), names[i]);
        assert_eq!(e.block_id(), i as u64 + 100);
    }
}

#[test]
fn empty_entries_decode_to_nothing() {
    assert_eq!(DirectoryEntry::from_le_bytes(&[]).unwrap().len(), 0);
}

#[test]
fn name_max_round_trips() {
    let name = vec![b'x'; NAME_LEN];
    let bytes = DirectoryEntry::new(&name, 9).to_le_bytes();
    assert_eq!(bytes.len(), NAME_LEN + 16);
    let back = DirectoryEntry::from_le_bytes(&bytes).unwrap();
    assert_eq!(back[0].get_name(), &name[..]);
    assert_eq!(back[0].block_id(), 9);
}

#[test]
fn name_max_plus_one_rejected() {
    let mut bytes = le(NAME_LEN as u64 + 1);
    bytes.extend(vec![b'x'; NAME_LEN + 1]);
    bytes.extend(le(9));
    assert_eq!(DirectoryEntry::from_le_bytes(&bytes).err(), Some(DecodeError::NameTooLong));
    let dir = Node::new(NodeKind::Directory, 5);
    assert_eq!(check_insert(&dir, &vec![b'x'; NAME_LEN + 1]), Err(FsError::NameTooLong));
    assert_eq!(check_insert(&dir, &vec![b'x'; NAME_LEN]), Ok(()));
}

#[test]
fn truncated_entry_rejected() {
    let mut bytes = DirectoryEntry::new(b"abc", 1).to_le_bytes();
    bytes.pop();
    assert_eq!(DirectoryEntry::from_le_bytes(&bytes).err(), Some(DecodeError::Truncated));
    assert_eq!(DirectoryEntry::from_le_bytes(&[1, 0, 0]).err(), Some(DecodeError::Truncated));
}

#[test]
fn empty_node_bytes() {
    let n = Node::new(NodeKind::File, 42);
    let mut want = le(1);
    want.extend(le(0));
    want.extend(le(42));
    assert_eq!(n.to_bytes(), want);
}

#[test]
fn directory_node_round_trip() {
    let mut d = Node::new(NodeKind::Directory, 3);
    d.push_directory_entry(b"a/", 10);
    d.push_directory_entry(b"f", 11);
    let bytes = d.to_bytes();
    assert_eq!(bytes.len(), 24 + (2 + 16) + (1 + 16));
    let back = Node::from_bytes(bytes).unwrap();
    assert_eq!(back.kind, NodeKind::Directory);
    assert_eq!(back.size(), 2);
    assert_eq!(back.parent_block_id, 3);
    assert_eq!(back.entries().len(), 2);
    assert_eq!(back.entries()[0].get_name(), b"a/");
    assert_eq!(back.entries()[1].block_id(), 11);
}

#[test]
fn file_node_round_trip() {
    let mut f = Node::new(NodeKind::File, 8);
    f.push_data_block(100, BLOCK_SIZE as u64);
    f.push_data_block(101, 1);
    let bytes = f.to_bytes();
    assert_eq!(bytes.len(), 24 + 16);
    let back = Node::from_bytes(bytes).unwrap();
    assert_eq!(back.kind, NodeKind::File);
    assert_eq!(back.size(), BLOCK_SIZE as u64 + 1);
    assert_eq!(back.blocks(), &vec![100, 101]);
    assert_eq!(back.parent_block_id, 8);
}

#[test]
fn node_decode_errors() {
    assert_eq!(Node::from_bytes(vec![0; 23]).err(), Some(DecodeError::Truncated));
    assert_eq!(Node::from_bytes(vec![0; BLOCK_SIZE + 1]).err(), Some(DecodeError::TooLarge));
    let mut bad_kind = le(2);
    bad_kind.extend(le(0));
    bad_kind.extend(le(0));
    assert_eq!(Node::from_bytes(bad_kind).err(), Some(DecodeError::InvalidKind));
    let mut count = le(0);
    count.extend(le(1));
    count.extend(le(0));
    assert_eq!(Node::from_bytes(count).err(), Some(DecodeError::EntryCountMismatch));
    let mut big = le(1);
    big.extend(le(MAX_FILE_SIZE + 1));
    big.extend(le(0));
    assert_eq!(Node::from_bytes(big).err(), Some(DecodeError::FileTooLarge));
    let mut odd = le(1);
    odd.extend(le(0));
    odd.extend(le(0));
    odd.extend([1, 2, 3]);
    assert_eq!(Node::from_bytes(odd).err(), Some(DecodeError::MisalignedBlocks));
}

#[test]
fn directory_entry_lookup_and_edit() {
    let mut d = Node::new(NodeKind::Directory, 3);
    d.push_directory_entry(b"a/", 10);
    d.push_directory_entry(b"b", 11);
    assert!(d.contains_entry(b"a/"));
    assert!(!d.contains_entry(b"a"));
    assert_eq!(d.get_directory_entry(b"b").block_id(), 11);
    d.rename_directory_entry(b"b", b"c");
    assert!(!d.contains_entry(b"b"));
    assert_eq!(d.get_directory_entry(b"c").block_id(), 11);
    d.delete_directory_entry(b"a/");
    assert_eq!(d.size(), 1);
    assert_eq!(d.entries().len(), 1);
    assert!(!d.is_full());
}

#[test]
fn full_directory_rejects_push() {
    let mut d = Node::new(NodeKind::Directory, 3);
    for i in 0..ENTRY_COUNT {
        let name = format!("{i}");
        assert!(insert_entry(&mut d, name.as_bytes(), i as u64 + 1).is_ok());
    }
    assert!(d.is_full());
    assert_eq!(d.size(), ENTRY_COUNT as u64);
    assert_eq!(check_insert(&d, b"one-more"), Err(FsError::DirectoryFull));
    assert_eq!(insert_entry(&mut d, b"one-more", 1).err(), Some(FsError::DirectoryFull));
    assert_eq!(d.size(), ENTRY_COUNT as u64);
}

#[test]
fn oversized_directory_not_encoded() {
    let mut d = Node::new(NodeKind::Directory, 3);
    let mut i: u64 = 0;
    while d.size() < ENTRY_COUNT as u64 {
        let mut name = format!("{i:08}").into_bytes();
        name.resize(NAME_LEN, b'n');
        d.push_directory_entry(&name, i + 1);
        i += 1;
    }
    assert!(!d.fits_in_block());
    assert_eq!(encode(&d).err(), Some(FsError::BlockOverflow));
}

#[test]
fn insert_refuses_existing_name_and_block_zero() {
    let mut d = Node::new(NodeKind::Directory, 3);
    assert!(insert_entry(&mut d, b"x", 5).is_ok());
    assert_eq!(insert_entry(&mut d, b"x", 6).err(), Some(FsError::AlreadyExists));
    assert_eq!(insert_entry(&mut d, b"y", 0).err(), Some(FsError::ReservedBlockId));
    let f = Node::new(NodeKind::File, 3);
    assert_eq!(check_insert(&f, b"x"), Err(FsError::NotADirectory));
}

#[test]
fn entry_names_keep_slash_rule() {
    let mut d = Node::new(NodeKind::Directory, 3);
    assert_eq!(check_insert(&d, b""), Err(FsError::InvalidName));
    assert_eq!(check_insert(&d, b"/"), Err(FsError::InvalidName));
    assert_eq!(check_insert(&d, b"a/b"), Err(FsError::InvalidName));
    assert_eq!(check_insert(&d, b"a//"), Err(FsError::InvalidName));
    assert_eq!(insert_entry(&mut d, b"a/b", 5).err(), Some(FsError::InvalidName));
    assert_eq!(d.size(), 0);
    assert!(insert_entry(&mut d, b"a/", 5).is_ok());
    assert!(insert_entry(&mut d, b"f", 6).is_ok());
    assert_eq!(rename_entry(&mut d, b"f", b"x/y").err(), Some(FsError::InvalidNewName));
    assert_eq!(rename_entry(&mut d, b"f", b"").err(), Some(FsError::InvalidNewName));
    assert!(rename_entry(&mut d, b"f", b"g").is_ok());
}
