//! Resolving a path by walking down from the root, one block read at a
//! time: the caller reads the block that the walk names and hands its bytes
//! back.
use crate::directory_entry::{BlockIndex, EntryView};
use crate::error::FsError;
use crate::node::{has_name, is_first, parse_node, Node, NodeView};
use crate::node_kind::NodeKind;
use crate::path::{
    byte_views, double_slash, ends_with_slash, has_double_slash, is_absolute, is_split,
    split_segments, SLASH,
};
use vstd::prelude::*;

verus! {

/// Where a walk stands.
pub struct TraversalView {
    /// The names to look up, one per level below the root.
    pub segments: Seq<Seq<u8>>,
    /// The path ends in `/`: the last node must be a directory.
    pub to_dir: bool,
    /// How many names have been looked up.
    pub depth: nat,
    /// The block to read next.
    pub block: u64,
    /// The root directory's block.
    pub root: u64,
    /// The entries of the directory where `block` was found.
    pub parent_entries: Seq<EntryView>,
    /// The block of the directory where `block` was found.
    pub parent_block: u64,
}

/// What a walk asks for next.
pub enum Step {
    /// Read this block and hand its bytes to `advance`.
    Read(BlockIndex),
    /// The path names this node, stored at this block.
    Found(Node, BlockIndex),
}

/// A walk from the root to the node a path names.
pub struct Traversal {
    segments: Vec<Vec<u8>>,
    to_dir: bool,
    depth: usize,
    block: BlockIndex,
    root: BlockIndex,
    parent_entries: Ghost<Seq<EntryView>>,
    parent_block: Ghost<u64>,
}

impl View for Traversal {
    type V = TraversalView;

    closed spec fn view(&self) -> TraversalView {
        TraversalView {
            segments: byte_views(self.segments@),
            to_dir: self.to_dir,
            depth: self.depth as nat,
            block: self.block,
            root: self.root,
            parent_entries: self.parent_entries@,
            parent_block: self.parent_block@,
        }
    }
}

/// The entries hold one named `name` for `block`.
pub open spec fn has_entry(es: Seq<EntryView>, name: Seq<u8>, block: u64) -> bool {
    exists|i: int| 0 <= i < es.len() && #[trigger] es[i] == (EntryView { name, block })
}

/// The kind the node at the end of a walk must have.
pub open spec fn wanted_kind(to_dir: bool) -> NodeKind {
    if to_dir {
        NodeKind::Directory
    } else {
        NodeKind::File
    }
}

/// The error for a node of the wrong kind at the end of a walk.
pub open spec fn wrong_kind(to_dir: bool) -> FsError {
    if to_dir {
        FsError::NotADirectory
    } else {
        FsError::NotAFile
    }
}

impl Traversal {
    /// The walk is consistent: at the root it reads the root; below it,
    /// the block to read was found under the last name looked up.
    pub open spec fn wf(&self) -> bool {
        &&& self@.depth <= self@.segments.len()
        &&& self@.depth == 0 ==> self@.block == self@.root
        &&& self@.depth > 0 ==> has_entry(
            self@.parent_entries,
            self@.segments[self@.depth - 1],
            self@.block,
        )
    }

    /// A walk for `path` from the root at `root`. The path must start with
    /// `/` and may not hold `//`.
    pub fn start(path: &[u8], root: BlockIndex) -> (r: Result<Traversal, FsError>)
        ensures
            !is_absolute(path@) ==> r == Err::<Traversal, FsError>(FsError::NotAbsolute),
            is_absolute(path@) && has_double_slash(path@) ==> r == Err::<Traversal, FsError>(
                FsError::EmptySegment,
            ),
            is_absolute(path@) && !has_double_slash(path@) ==> r is Ok,
            r matches Ok(t) ==> t.wf() && is_split(path@.skip(1), t@.segments) && t@.to_dir
                == ends_with_slash(path@) && t@.depth == 0 && t@.root == root,
    {
        if path.len() == 0 || path[0] != SLASH {
            return Err(FsError::NotAbsolute);
        }
        if double_slash(path) {
            return Err(FsError::EmptySegment);
        }
        let n = path.len();
        let rest = vstd::slice::slice_subrange(path, 1, n);
        assert(rest@ =~= path@.skip(1));
        let segments = split_segments(rest);
        let t = Traversal {
            segments,
            to_dir: path[n - 1] == SLASH,
            depth: 0,
            block: root,
            root,
            parent_entries: Ghost(Seq::empty()),
            parent_block: Ghost(0),
        };
        Ok(t)
    }

    /// The block to read next.
    pub fn next_block(&self) -> (r: BlockIndex)
        ensures
            r == self@.block,
    {
        self.block
    }

    /// Takes the bytes of the block named by `next_block`. Below the last
    /// name the node must be a directory holding the next name; at the end
    /// it must be a directory if the path ends in `/` and a file otherwise.
    pub fn advance(&mut self, bytes: Vec<u8>) -> (r: Result<Step, FsError>)
        requires
            old(self).wf(),
        ensures
            final(self).wf(),
            final(self)@.segments == old(self)@.segments,
            final(self)@.to_dir == old(self)@.to_dir,
            final(self)@.root == old(self)@.root,
            parse_node(bytes@) is Err ==> r == Err::<Step, FsError>(
                FsError::Corrupt(parse_node(bytes@)->Err_0),
            ),
            parse_node(bytes@) is Ok ==> ({
                let n = parse_node(bytes@)->Ok_0;
                let o = old(self)@;
                if o.depth < o.segments.len() {
                    let name = o.segments[o.depth as int];
                    &&& n.kind != NodeKind::Directory ==> r == Err::<Step, FsError>(
                        FsError::NotADirectory,
                    )
                    &&& n.kind == NodeKind::Directory && !has_name(n.entries, name) ==> r == Err::<
                        Step,
                        FsError,
                    >(FsError::NotFound)
                    &&& n.kind == NodeKind::Directory && has_name(n.entries, name) ==> exists|
                        i: int,
                    |
                        is_first(n.entries, name, i) && r == Ok::<Step, FsError>(
                            Step::Read(n.entries[i].block),
                        ) && final(self)@.depth == o.depth + 1 && final(self)@.block
                            == n.entries[i].block && final(self)@.parent_entries == n.entries
                            && final(self)@.parent_block == o.block
                } else {
                    &&& n.kind != wanted_kind(o.to_dir) ==> r == Err::<Step, FsError>(
                        wrong_kind(o.to_dir),
                    )
                    &&& n.kind == wanted_kind(o.to_dir) ==> (r matches Ok(Step::Found(m, id)) && m@
                        == n && m.wf() && id == o.block)
                }
            }),
            r matches Ok(Step::Found(_, id)) ==> (old(self)@.segments.len() == 0 && id
                == old(self)@.root) || has_entry(
                old(self)@.parent_entries,
                old(self)@.segments.last(),
                id,
            ),
    {
        let node = match Node::from_bytes(bytes) {
            Ok(n) => n,
            Err(e) => {
                return Err(FsError::Corrupt(e));
            },
        };
        if self.depth < self.segments.len() {
            if node.kind() != NodeKind::Directory {
                return Err(FsError::NotADirectory);
            }
            let i = match node.find_entry(self.segments[self.depth].as_slice()) {
                Some(i) => i,
                None => {
                    return Err(FsError::NotFound);
                },
            };
            let es = node.entries();
            let block = es[i].block_id();
            proof {
                assert(es@[i as int]@ == node@.entries[i as int]);
                assert(node@.entries[i as int] == (EntryView {
                    name: self@.segments[self@.depth as int],
                    block,
                }));
            }
            self.parent_entries = Ghost(node@.entries);
            self.parent_block = Ghost(self.block);
            self.depth = self.depth + 1;
            self.block = block;
            Ok(Step::Read(block))
        } else {
            let want = if self.to_dir {
                NodeKind::Directory
            } else {
                NodeKind::File
            };
            if node.kind() != want {
                return Err(
                    if self.to_dir {
                        FsError::NotADirectory
                    } else {
                        FsError::NotAFile
                    },
                );
            }
            proof {
                if self@.segments.len() > 0 {
                    assert(self@.segments.last() == self@.segments[self@.depth - 1]);
                }
            }
            Ok(Step::Found(node, self.block))
        }
    }
}

} // verus!
