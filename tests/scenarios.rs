use std::collections::{HashMap, HashSet};

use discord_fs::crypto::cipher_key;
use discord_fs::error::FsError;
use discord_fs::fs::{
    check_file_size, check_insert, check_move, check_new_name, check_not_root, check_removal,
    insert_entry, move_entry, new_directory_block, new_root_block, remove_entry, rename_entry,
};
use discord_fs::node::{Node, BLOCK_SIZE, MAX_FILE_SIZE};
use discord_fs::node_kind::NodeKind;
use discord_fs::path::split_path;
use discord_fs::transfer::{download_blocks, Download, Upload};
use discord_fs::traverse::{Step, Traversal};
use discord_fs::walk::{DeleteTask, DeleteWalk, ListWalk};

const KEY: &str = "0123456789abcdef0123456789abcdef";

struct Log {
    blocks: HashMap<u64, Vec<u8>>,
    nodes: HashSet<u64>,
    next: u64,
    root: u64,
}

type Listing = Vec<(usize, Vec<u8>, NodeKind, u64)>;

impl Log {
    fn new() -> Log {
        let mut log = Log { blocks: HashMap::new(), nodes: HashSet::new(), next: 1000, root: 0 };
        log.root = log.send_node(new_root_block());
        log
    }

    fn send(&mut self, bytes: Vec<u8>) -> u64 {
        let id = self.next;
        self.next += 1;
        self.blocks.insert(id, bytes);
        id
    }

    fn send_node(&mut self, bytes: Vec<u8>) -> u64 {
        let id = self.send(bytes);
        self.nodes.insert(id);
        id
    }

    fn edit(&mut self, id: u64, bytes: Vec<u8>) {
        assert!(self.blocks.contains_key(&id));
        self.blocks.insert(id, bytes);
    }

    fn read(&self, id: u64) -> Vec<u8> {
        self.blocks[&id].clone()
    }

    fn delete(&mut self, id: u64) {
        self.blocks.remove(&id).unwrap();
        self.nodes.remove(&id);
    }

    fn node(&self, id: u64) -> Node {
        Node::from_bytes(self.read(id)).unwrap()
    }

    fn traverse(&self, path: &[u8]) -> Result<(Node, u64), FsError> {
        let mut t = Traversal::start(path, self.root)?;
        loop {
            match t.advance(self.read(t.next_block()))? {
                Step::Read(_) => {}
                Step::Found(n, id) => return Ok((n, id)),
            }
        }
    }

    fn mkdir(&mut self, path: &str) -> Result<(), FsError> {
        let (parent, name) = split_path(path.as_bytes(), true, true)?;
        let (mut dir, dir_id) = self.traverse(parent)?;
        check_insert(&dir, name)?;
        let id = self.send_node(new_directory_block(dir_id)?);
        let bytes = insert_entry(&mut dir, name, id)?;
        self.edit(dir_id, bytes);
        Ok(())
    }

    fn upload(&mut self, data: &[u8], dest: &str) -> Result<u64, FsError> {
        check_file_size(data.len() as u64)?;
        let key = cipher_key(KEY)?;
        let (parent, name) = split_path(dest.as_bytes(), false, false)?;
        let (mut dir, dir_id) = self.traverse(parent)?;
        check_insert(&dir, name)?;
        let mut up = Upload::new(&key, data.len() as u64, dir_id)?;
        let file_id = self.send_node(up.file_bytes());
        let mut pos = 0;
        while let Some(len) = up.next_chunk_len() {
            let sealed = up.seal_chunk(&data[pos..pos + len]);
            pos += len;
            let block = self.send(sealed);
            up.record_block(block);
        }
        let w = up.finish(&mut dir, name, file_id)?;
        self.edit(file_id, w.file);
        self.edit(dir_id, w.directory);
        Ok(file_id)
    }

    fn download(&self, source: &str) -> Result<Vec<u8>, FsError> {
        let key = cipher_key(KEY)?;
        let (file, _) = self.traverse(source.as_bytes())?;
        let mut d = Download::new(&key);
        let mut out = Vec::new();
        for b in download_blocks(&file)? {
            out.extend(d.open_block(&self.read(*b))?);
        }
        Ok(out)
    }

    fn rm(&mut self, path: &str, quick: bool, recursive: bool) -> Result<(), FsError> {
        check_not_root(path.as_bytes())?;
        let (_, name) = split_path(path.as_bytes(), true, false)?;
        let (target, target_id) = self.traverse(path.as_bytes())?;
        let parent_id = target.parent_block_id;
        let mut parent = Node::from_bytes(self.read(parent_id)).map_err(FsError::Corrupt)?;
        check_removal(target.kind, recursive)?;
        if !quick {
            let mut w = DeleteWalk::new(&target, target_id);
            while let Some(task) = w.next() {
                match task {
                    DeleteTask::Visit(id) => w.visit(id, self.read(id))?,
                    DeleteTask::Delete(id) => self.delete(id),
                }
            }
        }
        let bytes = remove_entry(&mut parent, name)?;
        self.edit(parent_id, bytes);
        Ok(())
    }

    fn mv(&mut self, source: &str, destination: &str) -> Result<(), FsError> {
        if !check_move(source.as_bytes(), destination.as_bytes())? {
            return Ok(());
        }
        let (_, name) = split_path(source.as_bytes(), true, false)?;
        let (mut moved, moved_id) = self.traverse(source.as_bytes())?;
        let parent_id = moved.parent_block_id;
        let mut parent = Node::from_bytes(self.read(parent_id)).map_err(FsError::Corrupt)?;
        let (mut target, target_id) = self.traverse(destination.as_bytes())?;
        let w = move_entry(&mut parent, &mut target, target_id, &mut moved, moved_id, name)?;
        self.edit(target_id, w.target);
        self.edit(parent_id, w.source_parent);
        self.edit(moved_id, w.moved);
        Ok(())
    }

    fn rename(&mut self, old: &str, new: &str) -> Result<(), FsError> {
        check_new_name(old.as_bytes(), new.as_bytes())?;
        let (dir_path, leaf) = split_path(old.as_bytes(), true, false)?;
        let (mut dir, dir_id) = self.traverse(dir_path)?;
        let bytes = rename_entry(&mut dir, leaf, new.as_bytes())?;
        self.edit(dir_id, bytes);
        Ok(())
    }

    fn ls(&self, path: Option<&str>) -> Result<Listing, FsError> {
        let (node, name) = match path {
            Some(p) if p != "/" => {
                let (_, name) = split_path(p.as_bytes(), true, true)?;
                (self.traverse(p.as_bytes())?.0, name.to_vec())
            }
            _ => (self.traverse(b"/")?.0, b"/".to_vec()),
        };
        let mut out = vec![(0, name, node.kind, node.size())];
        let mut w = ListWalk::new(&node);
        while let Some(item) = w.next() {
            let n = w.visit(&item, self.read(item.block))?;
            out.push((item.depth, item.name.clone(), n.kind, n.size()));
        }
        Ok(out)
    }

    /// The tree invariants: one node without parent, each other node listed
    /// in its parent, sizes agree with contents, names unique.
    fn check_invariants(&self) {
        let roots: Vec<u64> =
            self.nodes.iter().copied().filter(|id| self.node(*id).parent_block_id == 0).collect();
        assert_eq!(roots, vec![self.root]);
        for id in &self.nodes {
            let n = self.node(*id);
            if *id != self.root {
                let parent = self.node(n.parent_block_id);
                let listed =
                    parent.entries().iter().filter(|e| e.block_id() == *id).count();
                assert_eq!(listed, 1);
            }
            if n.kind == NodeKind::Directory {
                assert_eq!(n.size(), n.entries().len() as u64);
                let names: HashSet<&[u8]> = n.entries().iter().map(|e| e.get_name()).collect();
                assert_eq!(names.len(), n.entries().len());
            }
        }
    }
}

fn zeros(n: usize) -> Vec<u8> {
    vec![0u8; n]
}

fn pattern(n: usize) -> Vec<u8> {
    (0..n).map(|i| (i * 31 % 251) as u8).collect()
}

#[test]
fn mkdir_then_list_root() {
    let mut log = Log::new();
    log.mkdir("/a/").unwrap();
    let l = log.ls(Some("/")).unwrap();
    assert_eq!(l.len(), 2);
    assert_eq!(l[0], (0, b"/".to_vec(), NodeKind::Directory, 1));
    assert_eq!(l[1], (1, b"a/".to_vec(), NodeKind::Directory, 0));
    log.check_invariants();
}

#[test]
fn upload_download_five_mebibytes() {
    let mut log = Log::new();
    log.mkdir("/a/").unwrap();
    let data = zeros(5 << 20);
    log.upload(&data, "/a/file").unwrap();
    assert_eq!(log.download("/a/file").unwrap(), data);
    log.check_invariants();
}

#[test]
fn mkdir_twice_fails() {
    let mut log = Log::new();
    log.mkdir("/a/").unwrap();
    let e = log.mkdir("/a/").unwrap_err();
    assert_eq!(e, FsError::AlreadyExists);
    assert!(e.message().contains("file already exists"));
    log.check_invariants();
}

#[test]
fn remove_directory_recursively() {
    let mut log = Log::new();
    log.mkdir("/a/").unwrap();
    log.mkdir("/a/b/").unwrap();
    log.upload(&pattern(100), "/a/f").unwrap();
    log.upload(&pattern(10), "/a/b/g").unwrap();
    log.rm("/a/", false, true).unwrap();
    let l = log.ls(None).unwrap();
    assert_eq!(l, vec![(0, b"/".to_vec(), NodeKind::Directory, 0)]);
    assert_eq!(log.blocks.len(), 1);
    log.check_invariants();
}

#[test]
fn remove_flags_and_quick() {
    let mut log = Log::new();
    log.mkdir("/a/").unwrap();
    log.upload(&pattern(100), "/f").unwrap();
    assert_eq!(log.rm("/a/", false, false), Err(FsError::RecursionRequired));
    assert_eq!(log.rm("/f", false, true), Err(FsError::RecursionNotAllowed));
    assert_eq!(log.rm("/", false, true), Err(FsError::RootNotAllowed));
    let before = log.blocks.len();
    log.rm("/f", true, false).unwrap();
    assert_eq!(log.blocks.len(), before);
    assert_eq!(log.ls(None).unwrap().len(), 2);
}

#[test]
fn move_file_between_directories() {
    let mut log = Log::new();
    log.mkdir("/a/").unwrap();
    log.mkdir("/b/").unwrap();
    let data = pattern(1000);
    let f = log.upload(&data, "/a/f").unwrap();
    log.mv("/a/f", "/b/").unwrap();
    assert_eq!(log.ls(Some("/a/")).unwrap().len(), 1);
    let b = log.ls(Some("/b/")).unwrap();
    assert_eq!(b.len(), 2);
    assert_eq!(b[1].1, b"f".to_vec());
    assert_eq!(log.download("/b/f").unwrap(), data);
    let (_, b_id) = log.traverse(b"/b/").unwrap();
    assert_eq!(log.node(f).parent_block_id, b_id);
    log.check_invariants();
}

#[test]
fn move_refusals() {
    let mut log = Log::new();
    log.mkdir("/a/").unwrap();
    log.mkdir("/a/c/").unwrap();
    assert_eq!(log.mv("/a/", "/a/c/"), Err(FsError::MoveIntoItself));
    assert_eq!(log.mv("/a/c/", "/a/"), Err(FsError::AlreadyExists));
    assert_eq!(log.mv("/a/", "/a/"), Ok(()));
    log.check_invariants();
}

#[test]
fn large_file_uses_two_blocks() {
    let mut log = Log::new();
    let data = pattern(BLOCK_SIZE + 1);
    let f = log.upload(&data, "/big").unwrap();
    let node = log.node(f);
    assert_eq!(node.kind, NodeKind::File);
    assert_eq!(node.blocks().len(), 2);
    assert_eq!(node.size(), BLOCK_SIZE as u64 + 1);
    assert_eq!(log.read(node.blocks()[0]).len(), BLOCK_SIZE + 16);
    assert_eq!(log.read(node.blocks()[1]).len(), 1 + 16);
    assert_eq!(log.download("/big").unwrap(), data);
    log.check_invariants();
}

#[test]
fn chunk_lengths_follow_block_size() {
    let key = cipher_key(KEY).unwrap();
    let mut up = Upload::new(&key, BLOCK_SIZE as u64 + 1, 7).unwrap();
    assert_eq!(up.next_chunk_len(), Some(BLOCK_SIZE));
    let _ = up.seal_chunk(&zeros(BLOCK_SIZE));
    up.record_block(1);
    assert_eq!(up.next_chunk_len(), Some(1));
    let _ = up.seal_chunk(&zeros(1));
    up.record_block(2);
    assert_eq!(up.next_chunk_len(), None);
}

#[test]
fn largest_file_size_accepted() {
    let key = cipher_key(KEY).unwrap();
    assert_eq!(check_file_size(MAX_FILE_SIZE), Ok(()));
    assert_eq!(check_file_size(MAX_FILE_SIZE + 1), Err(FsError::FileTooLarge));
    let up = Upload::new(&key, MAX_FILE_SIZE, 7).unwrap();
    assert_eq!(up.next_chunk_len(), Some(BLOCK_SIZE));
    assert_eq!(Upload::new(&key, MAX_FILE_SIZE + 1, 7).err(), Some(FsError::FileTooLarge));
    assert_eq!(Upload::new(&key, 1, 0).err(), Some(FsError::ReservedBlockId));
}

#[test]
fn same_chunk_same_nonce() {
    let mut log = Log::new();
    let data = pattern(300);
    let f = log.upload(&data, "/x").unwrap();
    let g = log.upload(&data, "/y").unwrap();
    let fb = log.read(log.node(f).blocks()[0]);
    let gb = log.read(log.node(g).blocks()[0]);
    assert_eq!(fb, gb);
    assert_eq!(log.download("/y").unwrap(), data);
}

#[test]
fn shuffled_chunks_fail_to_decrypt() {
    let key = cipher_key(KEY).unwrap();
    let mut up = Upload::new(&key, 20, 7).unwrap();
    let sealed = up.seal_chunk(&pattern(20));
    let mut other = Upload::new(&key, 2 * BLOCK_SIZE as u64, 7).unwrap();
    let _ = other.seal_chunk(&zeros(BLOCK_SIZE));
    other.record_block(1);
    let second = other.seal_chunk(&zeros(BLOCK_SIZE));
    let mut d = Download::new(&key);
    assert_eq!(d.open_block(&second).err(), Some(FsError::DecryptionFailed));
    assert_eq!(d.open_block(&sealed).err(), Some(FsError::DecryptionFailed));
    let mut d2 = Download::new(&key);
    assert_eq!(d2.open_block(&sealed).unwrap(), pattern(20));
}

#[test]
fn wrong_key_fails_to_decrypt() {
    let mut log = Log::new();
    log.upload(&pattern(50), "/x").unwrap();
    let (file, _) = log.traverse(b"/x").unwrap();
    let other = cipher_key("fedcba9876543210fedcba9876543210").unwrap();
    let mut d = Download::new(&other);
    assert_eq!(d.open_block(&log.read(file.blocks()[0])).err(), Some(FsError::DecryptionFailed));
}

#[test]
fn sealed_chunk_differs_from_plaintext() {
    let key = cipher_key(KEY).unwrap();
    let mut up = Upload::new(&key, 64, 7).unwrap();
    let sealed = up.seal_chunk(&zeros(64));
    assert_eq!(sealed.len(), 80);
    assert_ne!(&sealed[..64], &zeros(64)[..]);
}

#[test]
fn key_material() {
    assert_eq!(cipher_key("short").err(), Some(FsError::KeyTooShort));
    let k = cipher_key("0123456789abcdef0123456789abcdefEXTRA").unwrap();
    assert_eq!(k, KEY.as_bytes().to_vec());
}

#[test]
fn traversal_errors() {
    let mut log = Log::new();
    log.mkdir("/a/").unwrap();
    log.upload(&pattern(5), "/a/f").unwrap();
    assert_eq!(log.traverse(b"a/").err(), Some(FsError::NotAbsolute));
    assert_eq!(log.traverse(b"/a//f").err(), Some(FsError::EmptySegment));
    assert_eq!(log.traverse(b"/b/").err(), Some(FsError::NotFound));
    assert_eq!(log.traverse(b"/a").err(), Some(FsError::NotFound));
    assert_eq!(log.traverse(b"/a/f/").err(), Some(FsError::NotFound));
    assert!(log.traverse(b"/a/f").is_ok());
    assert!(log.traverse(b"/a/").is_ok());
    assert_eq!(log.download("/a/").err(), Some(FsError::NotAFile));
}

#[test]
fn traversal_finds_entry_in_parent() {
    let mut log = Log::new();
    log.mkdir("/a/").unwrap();
    log.mkdir("/a/b/").unwrap();
    let (node, id) = log.traverse(b"/a/b/").unwrap();
    let parent = log.node(node.parent_block_id);
    assert_eq!(parent.get_directory_entry(b"b/").block_id(), id);
    let (root, root_id) = log.traverse(b"/").unwrap();
    assert_eq!(root_id, log.root);
    assert_eq!(root.parent_block_id, 0);
}

#[test]
fn rename_entries() {
    let mut log = Log::new();
    log.mkdir("/a/").unwrap();
    log.upload(&pattern(5), "/a/f").unwrap();
    log.upload(&pattern(6), "/a/g").unwrap();
    log.rename("/a/f", "h").unwrap();
    assert_eq!(log.download("/a/h").unwrap(), pattern(5));
    assert_eq!(log.rename("/a/h", "g"), Err(FsError::AlreadyExists));
    assert_eq!(log.rename("/a/", "c"), Err(FsError::InvalidNewName));
    log.rename("/a/", "c/").unwrap();
    assert_eq!(log.download("/c/g").unwrap(), pattern(6));
    assert_eq!(log.rename("/c/zz", "y"), Err(FsError::NotFound));
    log.check_invariants();
}

#[test]
fn new_directory_block_refuses_parent_zero() {
    assert_eq!(new_directory_block(0).err(), Some(FsError::ReservedBlockId));
    let n = Node::from_bytes(new_directory_block(9).unwrap()).unwrap();
    assert_eq!(n.parent_block_id, 9);
    assert_eq!(n.kind, NodeKind::Directory);
    assert_eq!(Node::from_bytes(new_root_block()).unwrap().parent_block_id, 0);
}

#[test]
fn nested_listing_order() {
    let mut log = Log::new();
    log.mkdir("/a/").unwrap();
    log.mkdir("/a/b/").unwrap();
    log.upload(&pattern(7), "/a/b/f").unwrap();
    log.mkdir("/c/").unwrap();
    let l = log.ls(None).unwrap();
    let names: Vec<(usize, Vec<u8>)> = l.iter().map(|x| (x.0, x.1.clone())).collect();
    assert_eq!(
        names,
        vec![
            (0, b"/".to_vec()),
            (1, b"a/".to_vec()),
            (2, b"b/".to_vec()),
            (3, b"f".to_vec()),
            (1, b"c/".to_vec()),
        ]
    );
    assert_eq!(l[3].3, 7);
}

#[test]
fn delete_walk_order() {
    let mut f = Node::new(NodeKind::File, 3);
    f.push_data_block(5, 10);
    f.push_data_block(6, 10);
    let mut w = DeleteWalk::new(&f, 9);
    assert_eq!(w.next(), Some(DeleteTask::Delete(5)));
    assert_eq!(w.next(), Some(DeleteTask::Delete(6)));
    assert_eq!(w.next(), Some(DeleteTask::Delete(9)));
    assert_eq!(w.next(), None);

    let mut d = Node::new(NodeKind::Directory, 3);
    d.push_directory_entry(b"x", 20);
    d.push_directory_entry(b"y/", 21);
    let mut w = DeleteWalk::new(&d, 8);
    assert_eq!(w.next(), Some(DeleteTask::Visit(20)));
    w.visit(20, f.to_bytes()).unwrap();
    assert_eq!(w.next(), Some(DeleteTask::Delete(5)));
    assert_eq!(w.next(), Some(DeleteTask::Delete(6)));
    assert_eq!(w.next(), Some(DeleteTask::Delete(20)));
    assert_eq!(w.next(), Some(DeleteTask::Visit(21)));
    assert_eq!(w.visit(21, vec![9, 9]).err(), Some(FsError::Corrupt(discord_fs::error::DecodeError::Truncated)));
    assert_eq!(w.next(), Some(DeleteTask::Delete(8)));
    assert_eq!(w.next(), None);
}
