//! Nodes: the directory and file blocks of the tree, and their byte format.
use crate::directory_entry::{
    entries_bytes, entry_views, lemma_entries_bytes_push, lemma_entries_round_trip, parse_entries,
    valid_entries, valid_name, BlockIndex, DirectoryEntry, EntryView, BLOCK_INDEX_SIZE, NAME_LEN,
};
use crate::error::DecodeError;
use crate::le::{le, le_value, lemma_le, push_u64, read_u64};
use crate::node_kind::{kind_code, kind_of_code, lemma_kind_code, NodeKind};
use vstd::prelude::*;

verus! {

/// Largest encoded node, and largest plaintext chunk of a file.
pub const BLOCK_SIZE: usize = 8388608;

/// Bytes of the header: kind, size, parent.
pub const HEADER_SIZE: usize = 24;

/// Most data blocks a file node can list.
pub const BLOCK_COUNT: usize = (BLOCK_SIZE - HEADER_SIZE) / BLOCK_INDEX_SIZE;

/// Largest file size: `BLOCK_COUNT` blocks of `BLOCK_SIZE` bytes.
pub const MAX_FILE_SIZE: u64 = 8388608 * 1048573;

/// Most entries a directory holds.
pub const ENTRY_COUNT: usize = (BLOCK_SIZE - HEADER_SIZE) / (NAME_LEN + BLOCK_INDEX_SIZE);

/// A file's size in bytes, or a directory's number of entries.
pub type Size = u64;

/// What a node is.
pub struct NodeView {
    pub kind: NodeKind,
    pub size: u64,
    pub parent: u64,
    pub blocks: Seq<u64>,
    pub entries: Seq<EntryView>,
}

/// Some entry of `es` is named `name`.
pub open spec fn has_name(es: Seq<EntryView>, name: Seq<u8>) -> bool {
    exists|i: int| 0 <= i < es.len() && (#[trigger] es[i]).name == name
}

/// `i` is the first entry of `es` named `name`.
pub open spec fn is_first(es: Seq<EntryView>, name: Seq<u8>, i: int) -> bool {
    &&& 0 <= i < es.len()
    &&& es[i].name == name
    &&& forall|j: int| 0 <= j < i ==> (#[trigger] es[j]).name != name
}

/// No two entries of `es` share a name.
pub open spec fn names_unique(es: Seq<EntryView>) -> bool {
    forall|i: int, j: int|
        0 <= i < es.len() && 0 <= j < es.len() && i != j ==> (#[trigger] es[i]).name != (
        #[trigger] es[j]).name
}

/// The node's fields agree with its kind: a directory counts its entries
/// and lists no blocks; a file lists no entries and stays within the
/// largest file size.
pub open spec fn valid_node(n: NodeView) -> bool {
    match n.kind {
        NodeKind::Directory => n.size == n.entries.len() && n.blocks.len() == 0 && valid_entries(
            n.entries,
        ),
        NodeKind::File => n.entries.len() == 0 && n.size <= MAX_FILE_SIZE,
    }
}

/// The bytes of a list of block ids.
pub open spec fn blocks_bytes(bs: Seq<u64>) -> Seq<u8>
    decreases bs.len(),
{
    if bs.len() == 0 {
        Seq::empty()
    } else {
        blocks_bytes(bs.drop_last()) + le(bs.last())
    }
}

/// The block ids that `b` lists, eight bytes each.
pub open spec fn parse_blocks(b: Seq<u8>) -> Seq<u64> {
    Seq::new((b.len() / 8) as nat, |i: int| le_value(b.subrange(8 * i, 8 * i + 8)))
}

/// What follows the header: entries for a directory, block ids for a file.
pub open spec fn payload_bytes(n: NodeView) -> Seq<u8> {
    match n.kind {
        NodeKind::Directory => entries_bytes(n.entries),
        NodeKind::File => blocks_bytes(n.blocks),
    }
}

/// The block that stores `n`.
pub open spec fn node_bytes(n: NodeView) -> Seq<u8> {
    le(kind_code(n.kind)) + le(n.size) + le(n.parent) + payload_bytes(n)
}

/// The node fits one block.
pub open spec fn fits(n: NodeView) -> bool {
    node_bytes(n).len() <= BLOCK_SIZE
}

/// Reads a node from a block.
pub open spec fn parse_node(b: Seq<u8>) -> Result<NodeView, DecodeError> {
    if b.len() > BLOCK_SIZE {
        Err(DecodeError::TooLarge)
    } else if b.len() < HEADER_SIZE {
        Err(DecodeError::Truncated)
    } else {
        let size = le_value(b.subrange(8, 16));
        let parent = le_value(b.subrange(16, 24));
        let rest = b.subrange(24, b.len() as int);
        match kind_of_code(le_value(b.subrange(0, 8))) {
            None => Err(DecodeError::InvalidKind),
            Some(NodeKind::Directory) => match parse_entries(rest) {
                Err(e) => Err(e),
                Ok(es) => if es.len() != size {
                    Err(DecodeError::EntryCountMismatch)
                } else {
                    Ok(
                        NodeView {
                            kind: NodeKind::Directory,
                            size,
                            parent,
                            blocks: Seq::empty(),
                            entries: es,
                        },
                    )
                },
            },
            Some(NodeKind::File) => if size > MAX_FILE_SIZE {
                Err(DecodeError::FileTooLarge)
            } else if rest.len() % 8 != 0 {
                Err(DecodeError::MisalignedBlocks)
            } else {
                Ok(
                    NodeView {
                        kind: NodeKind::File,
                        size,
                        parent,
                        blocks: parse_blocks(rest),
                        entries: Seq::empty(),
                    },
                )
            },
        }
    }
}

/// A directory or a file node.
pub struct Node {
    /// Whether the node is a directory or a file.
    pub kind: NodeKind,
    size: Size,
    /// The directory that holds this node; 0 for the root.
    pub parent_block_id: BlockIndex,
    blocks: Vec<BlockIndex>,
    entries: Vec<DirectoryEntry>,
}

impl View for Node {
    type V = NodeView;

    closed spec fn view(&self) -> NodeView {
        NodeView {
            kind: self.kind,
            size: self.size,
            parent: self.parent_block_id,
            blocks: self.blocks@,
            entries: entry_views(self.entries@),
        }
    }
}

/// Whether two byte strings are equal.
fn same_bytes(a: &[u8], b: &[u8]) -> (r: bool)
    ensures
        r == (a@ == b@),
{
    if a.len() != b.len() {
        return false;
    }
    let mut i: usize = 0;
    while i < a.len()
        invariant
            a@.len() == b@.len(),
            i <= a@.len(),
            forall|j: int| 0 <= j < i ==> a@[j] == b@[j],
        decreases a@.len() - i,
    {
        if a[i] != b[i] {
            return false;
        }
        i += 1;
    }
    assert(a@ =~= b@);
    true
}

impl Node {
    /// The fields agree with the kind.
    pub open spec fn wf(&self) -> bool {
        valid_node(self@)
    }

    /// An empty node of `kind` inside `parent_block_id`.
    pub fn new(kind: NodeKind, parent_block_id: BlockIndex) -> (r: Self)
        ensures
            r@ == (NodeView {
                kind,
                size: 0,
                parent: parent_block_id,
                blocks: Seq::empty(),
                entries: Seq::empty(),
            }),
            r.wf(),
    {
        let r = Node { kind, size: 0, parent_block_id, blocks: Vec::new(), entries: Vec::new() };
        assert(entry_views(r.entries@) =~= Seq::<EntryView>::empty());
        r
    }

    /// The kind, as the view sees it.
    pub fn kind(&self) -> (r: NodeKind)
        ensures
            r == self@.kind,
    {
        self.kind
    }

    /// Moves the node under another parent directory.
    pub fn set_parent(&mut self, parent_block_id: BlockIndex)
        ensures
            final(self)@ == (NodeView { parent: parent_block_id, ..old(self)@ }),
    {
        self.parent_block_id = parent_block_id;
    }

    /// A directory's entries.
    pub fn entries(&self) -> (r: &Vec<DirectoryEntry>)
        requires
            self@.kind == NodeKind::Directory,
        ensures
            entry_views(r@) == self@.entries,
    {
        &self.entries
    }

    /// The index of the first entry named `name`, if any.
    pub fn find_entry(&self, name: &[u8]) -> (r: Option<usize>)
        ensures
            match r {
                Some(i) => is_first(self@.entries, name@, i as int),
                None => !has_name(self@.entries, name@),
            },
    {
        let mut i: usize = 0;
        while i < self.entries.len()
            invariant
                i <= self.entries@.len(),
                self@.entries.len() == self.entries@.len(),
                forall|j: int| 0 <= j < i ==> (#[trigger] self@.entries[j]).name != name@,
            decreases self.entries@.len() - i,
        {
            if same_bytes(self.entries[i].get_name(), name) {
                return Some(i);
            }
            i += 1;
        }
        None
    }

    /// Whether the directory has an entry named `entry_name`.
    pub fn contains_entry(&self, entry_name: &[u8]) -> (r: bool)
        requires
            self@.kind == NodeKind::Directory,
        ensures
            r == has_name(self@.entries, entry_name@),
    {
        self.find_entry(entry_name).is_some()
    }

    /// A file's data blocks, in order.
    pub fn blocks(&self) -> (r: &Vec<BlockIndex>)
        requires
            self@.kind == NodeKind::File,
        ensures
            r@ == self@.blocks,
    {
        &self.blocks
    }

    /// A file's size in bytes, or a directory's entry count.
    pub fn size(&self) -> (r: Size)
        ensures
            r == self@.size,
    {
        self.size
    }

    /// Whether the directory has reached `ENTRY_COUNT` entries.
    pub fn is_full(&self) -> (r: bool)
        requires
            self@.kind == NodeKind::Directory,
        ensures
            r == (self@.size == ENTRY_COUNT),
    {
        self.size == ENTRY_COUNT as u64
    }

    /// Appends a data block of `size` plaintext bytes to a file.
    pub fn push_data_block(&mut self, block: BlockIndex, size: Size)
        requires
            old(self).wf(),
            old(self)@.kind == NodeKind::File,
            old(self)@.blocks.len() < BLOCK_COUNT,
            old(self)@.size + size <= MAX_FILE_SIZE,
        ensures
            final(self).wf(),
            final(self)@ == (NodeView {
                size: (old(self)@.size + size) as u64,
                blocks: old(self)@.blocks.push(block),
                ..old(self)@
            }),
    {
        self.blocks.push(block);
        self.size = self.size + size;
    }

    /// Adds an entry named `name` for `block` to a directory that is not
    /// full.
    pub fn push_directory_entry(&mut self, name: &[u8], block: BlockIndex)
        requires
            old(self).wf(),
            old(self)@.kind == NodeKind::Directory,
            old(self)@.size < ENTRY_COUNT,
            name@.len() <= NAME_LEN,
        ensures
            final(self).wf(),
            final(self)@ == (NodeView {
                size: (old(self)@.size + 1) as u64,
                entries: old(self)@.entries.push(EntryView { name: name@, block }),
                ..old(self)@
            }),
            names_unique(old(self)@.entries) && !has_name(old(self)@.entries, name@)
                ==> names_unique(final(self)@.entries),
    {
        let e = DirectoryEntry::new(name, block);
        let ghost before = entry_views(self.entries@);
        self.entries.push(e);
        self.size = self.size + 1;
        assert(entry_views(self.entries@) =~= before.push(e@));
        proof {
            let after = before.push(e@);
            assert(valid_entries(after)) by {
                assert forall|i: int| 0 <= i < after.len() implies valid_name(
                    #[trigger] after[i].name,
                ) by {
                    if i < before.len() {
                        assert(after[i] == before[i]);
                    }
                }
            }
            if names_unique(before) && !has_name(before, name@) {
                assert forall|i: int, j: int|
                    0 <= i < after.len() && 0 <= j < after.len() && i != j implies (
                    #[trigger] after[i]).name != (#[trigger] after[j]).name by {
                    if i < before.len() && j < before.len() {
                        assert(after[i] == before[i] && after[j] == before[j]);
                    } else if i < before.len() {
                        assert(after[i] == before[i]);
                    } else {
                        assert(after[j] == before[j]);
                    }
                }
            }
        }
    }

    /// Renames the first entry named `old_name` to `new_name`.
    pub fn rename_directory_entry(&mut self, old_name: &[u8], new_name: &[u8])
        requires
            old(self).wf(),
            old(self)@.kind == NodeKind::Directory,
            has_name(old(self)@.entries, old_name@),
            new_name@.len() <= NAME_LEN,
        ensures
            final(self).wf(),
            exists|i: int|
                is_first(old(self)@.entries, old_name@, i) && final(self)@ == (NodeView {
                    entries: old(self)@.entries.update(
                        i,
                        EntryView { name: new_name@, block: old(self)@.entries[i].block },
                    ),
                    ..old(self)@
                }),
            names_unique(old(self)@.entries) && !has_name(
                old(self)@.entries,
                new_name@,
            ) ==> names_unique(final(self)@.entries),
    {
        let i = match self.find_entry(old_name) {
            Some(i) => i,
            None => {
                proof {
                    assert(false);
                }
                0
            },
        };
        let ghost before = entry_views(self.entries@);
        let mut e = self.entries.remove(i);
        e.set_name(new_name);
        self.entries.insert(i, e);
        let ghost after = before.update(i as int, e@);
        assert(entry_views(self.entries@) =~= after);
        proof {
            assert(valid_entries(after)) by {
                assert forall|k: int| 0 <= k < after.len() implies valid_name(
                    #[trigger] after[k].name,
                ) by {
                    if k != i {
                        assert(after[k] == before[k]);
                    }
                }
            }
            if names_unique(before) && !has_name(before, new_name@) {
                assert forall|k: int, j: int|
                    0 <= k < after.len() && 0 <= j < after.len() && k != j implies (
                    #[trigger] after[k]).name != (#[trigger] after[j]).name by {
                    if k != i && j != i {
                        assert(after[k] == before[k] && after[j] == before[j]);
                    } else if k != i {
                        assert(after[k] == before[k]);
                    } else {
                        assert(after[j] == before[j]);
                    }
                }
            }
        }
    }

    /// The first entry named `name`.
    pub fn get_directory_entry(&self, name: &[u8]) -> (r: &DirectoryEntry)
        requires
            self@.kind == NodeKind::Directory,
            has_name(self@.entries, name@),
        ensures
            exists|i: int| is_first(self@.entries, name@, i) && r@ == self@.entries[i],
    {
        match self.find_entry(name) {
            Some(i) => &self.entries[i],
            None => {
                proof {
                    assert(false);
                }
                &self.entries[0]
            },
        }
    }

    /// Removes the first entry named `name`.
    pub fn delete_directory_entry(&mut self, name: &[u8])
        requires
            old(self).wf(),
            old(self)@.kind == NodeKind::Directory,
            has_name(old(self)@.entries, name@),
        ensures
            final(self).wf(),
            exists|i: int|
                is_first(old(self)@.entries, name@, i) && final(self)@ == (NodeView {
                    size: (old(self)@.size - 1) as u64,
                    entries: old(self)@.entries.remove(i),
                    ..old(self)@
                }),
            names_unique(old(self)@.entries) ==> names_unique(final(self)@.entries),
    {
        let i = match self.find_entry(name) {
            Some(i) => i,
            None => {
                proof {
                    assert(false);
                }
                0
            },
        };
        let ghost before = entry_views(self.entries@);
        self.entries.remove(i);
        self.size = self.size - 1;
        let ghost after = before.remove(i as int);
        assert(entry_views(self.entries@) =~= after);
        proof {
            assert(valid_entries(after)) by {
                assert forall|k: int| 0 <= k < after.len() implies valid_name(
                    #[trigger] after[k].name,
                ) by {
                    if k < i {
                        assert(after[k] == before[k]);
                    } else {
                        assert(after[k] == before[k + 1]);
                    }
                }
            }
            if names_unique(before) {
                assert forall|k: int, j: int|
                    0 <= k < after.len() && 0 <= j < after.len() && k != j implies (
                    #[trigger] after[k]).name != (#[trigger] after[j]).name by {
                    let k2 = if k < i { k } else { k + 1 };
                    let j2 = if j < i { j } else { j + 1 };
                    assert(after[k] == before[k2] && after[j] == before[j2]);
                }
            }
        }
    }
}


impl Node {
    /// Whether the node's encoding fits one block.
    pub fn fits_in_block(&self) -> (r: bool)
        requires
            self.wf(),
        ensures
            r == fits(self@),
    {
        match self.kind {
            NodeKind::Directory => {
                let ghost es = self@.entries;
                let mut total: usize = HEADER_SIZE;
                let mut i: usize = 0;
                proof {
                    assert(es.take(0) =~= Seq::<EntryView>::empty());
                    lemma_header_len(self@);
                }
                while i < self.entries.len()
                    invariant
                        self.wf(),
                        self@.kind == NodeKind::Directory,
                        es == self@.entries,
                        es.len() == self.entries@.len(),
                        i <= es.len(),
                        total == HEADER_SIZE + entries_bytes(es.take(i as int)).len(),
                        total <= BLOCK_SIZE,
                    decreases es.len() - i,
                {
                    let n = self.entries[i].get_name().len();
                    proof {
                        assert(self.entries@[i as int]@ == es[i as int]);
                        lemma_le(es[i as int].name.len() as u64, es[i as int].block);
                        lemma_le(es[i as int].block, 0);
                        assert(es.take(i + 1) =~= es.take(i as int).push(es[i as int]));
                        lemma_entries_bytes_push(es.take(i as int), es[i as int]);
                    }
                    total = total + 16 + n;
                    i = i + 1;
                    if total > BLOCK_SIZE {
                        proof {
                            lemma_entries_prefix_len(es, i as int);
                            lemma_header_len(self@);
                        }
                        return false;
                    }
                }
                assert(es.take(i as int) =~= es);
                proof {
                    lemma_header_len(self@);
                }
                true
            },
            NodeKind::File => {
                proof {
                    lemma_blocks_bytes(self@.blocks);
                    lemma_header_len(self@);
                }
                self.blocks.len() <= (BLOCK_SIZE - HEADER_SIZE) / 8
            },
        }
    }

    /// The node as a block: kind, size and parent as little-endian `u64`s,
    /// then the entries of a directory or the block ids of a file.
    pub fn to_bytes(&self) -> (r: Vec<u8>)
        requires
            self.wf(),
            fits(self@),
        ensures
            r@ == node_bytes(self@),
    {
        let mut res: Vec<u8> = Vec::new();
        let k = self.kind.to_le_bytes();
        res.extend_from_slice(k.as_slice());
        push_u64(&mut res, self.size);
        push_u64(&mut res, self.parent_block_id);
        let ghost header = res@;
        assert(header =~= le(kind_code(self@.kind)) + le(self@.size) + le(self@.parent));
        match self.kind {
            NodeKind::Directory => {
                let ghost es = self@.entries;
                let mut i: usize = 0;
                assert(es.take(0) =~= Seq::<EntryView>::empty());
                assert(res@ =~= header + entries_bytes(es.take(0)));
                while i < self.entries.len()
                    invariant
                        self.wf(),
                        self@.kind == NodeKind::Directory,
                        es == self@.entries,
                        es.len() == self.entries@.len(),
                        i <= es.len(),
                        res@ == header + entries_bytes(es.take(i as int)),
                    decreases es.len() - i,
                {
                    assert(self.entries[i as int]@ == es[i as int]);
                    assert(valid_name(es[i as int].name));
                    self.entries[i].append_le_bytes(&mut res);
                    proof {
                        assert(es.take(i + 1) =~= es.take(i as int).push(es[i as int]));
                        lemma_entries_bytes_push(es.take(i as int), es[i as int]);
                        assert(res@ =~= header + entries_bytes(es.take(i + 1)));
                    }
                    i = i + 1;
                }
                assert(es.take(i as int) =~= es);
            },
            NodeKind::File => {
                let ghost bs = self@.blocks;
                let mut i: usize = 0;
                assert(bs.take(0) =~= Seq::<u64>::empty());
                assert(res@ =~= header + blocks_bytes(bs.take(0)));
                while i < self.blocks.len()
                    invariant
                        bs == self.blocks@,
                        i <= bs.len(),
                        res@ == header + blocks_bytes(bs.take(i as int)),
                    decreases bs.len() - i,
                {
                    push_u64(&mut res, self.blocks[i]);
                    proof {
                        assert(bs.take(i + 1).drop_last() =~= bs.take(i as int));
                        assert(res@ =~= header + blocks_bytes(bs.take(i + 1)));
                    }
                    i = i + 1;
                }
                assert(bs.take(i as int) =~= bs);
            },
        }
        res
    }

    /// Reads a node from a block, rejecting bytes that are not a node.
    pub fn from_bytes(bytes: Vec<u8>) -> (r: Result<Node, DecodeError>)
        ensures
            match r {
                Ok(n) => parse_node(bytes@) == Ok::<NodeView, DecodeError>(n@) && n.wf(),
                Err(e) => parse_node(bytes@) == Err::<NodeView, DecodeError>(e),
            },
    {
        let b = bytes.as_slice();
        let len = b.len();
        if len > BLOCK_SIZE {
            return Err(DecodeError::TooLarge);
        }
        if len < HEADER_SIZE {
            return Err(DecodeError::Truncated);
        }
        let code = read_u64(b, 0);
        let size = read_u64(b, 8);
        let parent_block_id = read_u64(b, 16);
        let rest = vstd::slice::slice_subrange(b, HEADER_SIZE, len);
        if code == 0 {
            let entries = match DirectoryEntry::from_le_bytes(rest) {
                Ok(es) => es,
                Err(e) => {
                    return Err(e);
                },
            };
            if entries.len() as u64 != size {
                return Err(DecodeError::EntryCountMismatch);
            }
            let r = Node {
                kind: NodeKind::Directory,
                size,
                parent_block_id,
                blocks: Vec::new(),
                entries,
            };
            proof {
                let es = entry_views(entries@);
                assert(r@.blocks =~= Seq::<u64>::empty());
                assert(valid_entries(es)) by {
                    assert forall|i: int| 0 <= i < es.len() implies valid_name(
                        #[trigger] es[i].name,
                    ) by {
                        assert(entries@[i].wf());
                    }
                }
            }
            Ok(r)
        } else if code == 1 {
            if size > MAX_FILE_SIZE {
                return Err(DecodeError::FileTooLarge);
            }
            let rest_len = rest.len();
            if rest_len % 8 != 0 {
                return Err(DecodeError::MisalignedBlocks);
            }
            let count = rest_len / 8;
            let mut blocks: Vec<BlockIndex> = Vec::new();
            let mut i: usize = 0;
            while i < count
                invariant
                    count == rest@.len() / 8,
                    rest_len == rest@.len(),
                    i <= count,
                    blocks@.len() == i,
                    forall|j: int|
                        0 <= j < i ==> #[trigger] blocks@[j] == le_value(
                            rest@.subrange(8 * j, 8 * j + 8),
                        ),
                decreases count - i,
            {
                let x = read_u64(rest, 8 * i);
                blocks.push(x);
                i = i + 1;
            }
            let r = Node {
                kind: NodeKind::File,
                size,
                parent_block_id,
                blocks,
                entries: Vec::new(),
            };
            assert(r@.blocks =~= parse_blocks(rest@));
            assert(r@.entries =~= Seq::<EntryView>::empty());
            Ok(r)
        } else {
            Err(DecodeError::InvalidKind)
        }
    }
}

/// The header of any node is 24 bytes.
pub proof fn lemma_header_len(n: NodeView)
    ensures
        node_bytes(n).len() == HEADER_SIZE + payload_bytes(n).len(),
{
    lemma_le(kind_code(n.kind), 0);
    lemma_le(n.size, 0);
    lemma_le(n.parent, 0);
}

/// A prefix of entries takes no more bytes than all of them.
proof fn lemma_entries_prefix_len(es: Seq<EntryView>, i: int)
    requires
        0 <= i <= es.len(),
    ensures
        entries_bytes(es.take(i)).len() <= entries_bytes(es).len(),
    decreases es.len() - i,
{
    if i < es.len() {
        assert(es.take(i + 1) =~= es.take(i).push(es[i]));
        lemma_entries_bytes_push(es.take(i), es[i]);
        lemma_entries_prefix_len(es, i + 1);
    } else {
        assert(es.take(i) =~= es);
    }
}

/// The bytes of block ids: eight per id, each at its place.
pub proof fn lemma_blocks_bytes(bs: Seq<u64>)
    ensures
        blocks_bytes(bs).len() == 8 * bs.len(),
        forall|i: int|
            0 <= i < bs.len() ==> blocks_bytes(bs).subrange(8 * i, 8 * i + 8) == le(
                #[trigger] bs[i],
            ),
    decreases bs.len(),
{
    if bs.len() > 0 {
        let front = bs.drop_last();
        lemma_blocks_bytes(front);
        lemma_le(bs.last(), 0);
        let b = blocks_bytes(bs);
        assert forall|i: int| 0 <= i < bs.len() implies b.subrange(8 * i, 8 * i + 8) == le(
            #[trigger] bs[i],
        ) by {
            if i < front.len() {
                assert(front[i] == bs[i]);
                assert(b.subrange(8 * i, 8 * i + 8) =~= blocks_bytes(front).subrange(8 * i, 8 * i + 8));
            } else {
                assert(b.subrange(8 * i, 8 * i + 8) =~= le(bs.last()));
            }
        }
    }
}

/// Decoding the block of a valid node that fits gives back that node.
pub proof fn lemma_node_round_trip(n: NodeView)
    requires
        valid_node(n),
        fits(n),
    ensures
        parse_node(node_bytes(n)) == Ok::<NodeView, DecodeError>(n),
{
    let b = node_bytes(n);
    lemma_header_len(n);
    lemma_kind_code(n.kind);
    lemma_le(kind_code(n.kind), 0);
    lemma_le(n.size, 0);
    lemma_le(n.parent, 0);
    assert(b.subrange(0, 8) =~= le(kind_code(n.kind)));
    assert(b.subrange(8, 16) =~= le(n.size));
    assert(b.subrange(16, 24) =~= le(n.parent));
    let rest = b.subrange(24, b.len() as int);
    assert(rest =~= payload_bytes(n));
    match n.kind {
        NodeKind::Directory => {
            lemma_entries_round_trip(n.entries);
            assert(n.blocks =~= Seq::<u64>::empty());
        },
        NodeKind::File => {
            lemma_blocks_bytes(n.blocks);
            lemma_blocks_parse(n.blocks);
            assert(n.entries =~= Seq::<EntryView>::empty());
        },
    }
}

/// Reading the bytes of block ids gives back the ids.
proof fn lemma_blocks_parse(bs: Seq<u64>)
    ensures
        parse_blocks(blocks_bytes(bs)) == bs,
{
    lemma_blocks_bytes(bs);
    let p = parse_blocks(blocks_bytes(bs));
    assert forall|i: int| 0 <= i < bs.len() implies p[i] == bs[i] by {
        lemma_le(bs[i], 0);
    }
    assert(p =~= bs);
}

} // verus!
