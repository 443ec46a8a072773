//! Walks over a subtree with an explicit stack: the caller reads each block
//! the walk names and hands its bytes back.
use crate::directory_entry::BlockIndex;
use crate::error::FsError;
use crate::node::{parse_node, Node, NodeView};
use crate::node_kind::NodeKind;
use vstd::prelude::*;

verus! {

/// A pending step of a deletion.
#[derive(Clone, Copy, Debug, PartialEq, Eq, Structural)]
pub enum DeleteTask {
    /// Read this node, then plan its deletion.
    Visit(BlockIndex),
    /// Delete this block.
    Delete(BlockIndex),
}

/// The tasks a node adds to the stack: its own deletion at the bottom, then
/// its data blocks or children so that they come off the stack first, in
/// order.
pub open spec fn node_tasks(n: NodeView, id: u64) -> Seq<DeleteTask> {
    seq![DeleteTask::Delete(id)] + match n.kind {
        NodeKind::File => Seq::new(
            n.blocks.len(),
            |i: int| DeleteTask::Delete(n.blocks[n.blocks.len() - 1 - i]),
        ),
        NodeKind::Directory => Seq::new(
            n.entries.len(),
            |i: int| DeleteTask::Visit(n.entries[n.entries.len() - 1 - i].block),
        ),
    }
}

/// Deletes a subtree: data blocks before their file node, children before
/// their directory.
pub struct DeleteWalk {
    stack: Vec<DeleteTask>,
}

impl View for DeleteWalk {
    type V = Seq<DeleteTask>;

    closed spec fn view(&self) -> Seq<DeleteTask> {
        self.stack@
    }
}

impl DeleteWalk {
    /// Pushes the tasks of `node` at `id`.
    fn push_node(&mut self, node: &Node, id: BlockIndex)
        requires
            node.wf(),
        ensures
            final(self)@ == old(self)@ + node_tasks(node@, id),
    {
        let ghost start = self.stack@;
        self.stack.push(DeleteTask::Delete(id));
        match node.kind() {
            NodeKind::File => {
                let blocks = node.blocks();
                let n = blocks.len();
                let mut i: usize = 0;
                while i < n
                    invariant
                        n == blocks@.len(),
                        blocks@ == node@.blocks,
                        i <= n,
                        self.stack@ == start + seq![DeleteTask::Delete(id)] + Seq::new(
                            i as nat,
                            |k: int| DeleteTask::Delete(blocks@[n - 1 - k]),
                        ),
                    decreases n - i,
                {
                    self.stack.push(DeleteTask::Delete(blocks[n - 1 - i]));
                    i = i + 1;
                    assert(self.stack@ =~= start + seq![DeleteTask::Delete(id)] + Seq::new(
                        i as nat,
                        |k: int| DeleteTask::Delete(blocks@[n - 1 - k]),
                    ));
                }
                assert(self.stack@ =~= start + node_tasks(node@, id));
            },
            NodeKind::Directory => {
                let entries = node.entries();
                let n = entries.len();
                let mut i: usize = 0;
                proof {
                    assert(node@.entries.len() == n);
                }
                while i < n
                    invariant
                        n == entries@.len(),
                        n == node@.entries.len(),
                        crate::directory_entry::entry_views(entries@) == node@.entries,
                        i <= n,
                        self.stack@ == start + seq![DeleteTask::Delete(id)] + Seq::new(
                            i as nat,
                            |k: int| DeleteTask::Visit(node@.entries[n - 1 - k].block),
                        ),
                    decreases n - i,
                {
                    let b = entries[n - 1 - i].block_id();
                    assert(entries@[n - 1 - i]@ == node@.entries[n - 1 - i]);
                    self.stack.push(DeleteTask::Visit(b));
                    i = i + 1;
                    assert(self.stack@ =~= start + seq![DeleteTask::Delete(id)] + Seq::new(
                        i as nat,
                        |k: int| DeleteTask::Visit(node@.entries[n - 1 - k].block),
                    ));
                }
                assert(self.stack@ =~= start + node_tasks(node@, id));
            },
        }
    }

    /// A deletion of `node`, stored at `id`, and all below it.
    pub fn new(node: &Node, id: BlockIndex) -> (r: DeleteWalk)
        requires
            node.wf(),
        ensures
            r@ == node_tasks(node@, id),
    {
        let mut w = DeleteWalk { stack: Vec::new() };
        w.push_node(node, id);
        assert(Seq::<DeleteTask>::empty() + node_tasks(node@, id) =~= node_tasks(node@, id));
        w
    }

    /// The next task, taken off the stack; `None` when all is deleted.
    pub fn next(&mut self) -> (r: Option<DeleteTask>)
        ensures
            old(self)@.len() == 0 ==> r is None && final(self)@ == old(self)@,
            old(self)@.len() > 0 ==> r == Some(old(self)@.last()) && final(self)@
                == old(self)@.drop_last(),
    {
        self.stack.pop()
    }

    /// Takes the bytes of a node the walk asked to visit, at `id`, and
    /// plans its deletion.
    pub fn visit(&mut self, id: BlockIndex, bytes: Vec<u8>) -> (r: Result<(), FsError>)
        ensures
            parse_node(bytes@) is Err ==> r == Err::<(), FsError>(
                FsError::Corrupt(parse_node(bytes@)->Err_0),
            ) && final(self)@ == old(self)@,
            parse_node(bytes@) is Ok ==> r is Ok && final(self)@ == old(self)@ + node_tasks(
                parse_node(bytes@)->Ok_0,
                id,
            ),
    {
        match Node::from_bytes(bytes) {
            Ok(n) => {
                self.push_node(&n, id);
                Ok(())
            },
            Err(e) => Err(FsError::Corrupt(e)),
        }
    }
}

/// A node to list: its block, its depth below the listed node, its name.
pub struct ListItem {
    pub block: BlockIndex,
    pub depth: usize,
    pub name: Vec<u8>,
}

/// What a list item is.
pub struct ListItemView {
    pub block: u64,
    pub depth: nat,
    pub name: Seq<u8>,
}

/// The items a directory adds at `depth`: its entries one level deeper,
/// pushed so that the first entry comes off the stack first.
pub open spec fn child_items(n: NodeView, depth: nat) -> Seq<ListItemView> {
    Seq::new(
        n.entries.len(),
        |i: int|
            ListItemView {
                block: n.entries[n.entries.len() - 1 - i].block,
                depth: depth + 1,
                name: n.entries[n.entries.len() - 1 - i].name,
            },
    )
}

/// Lists a subtree depth first, each directory's entries in order.
pub struct ListWalk {
    stack: Vec<ListItem>,
}

/// The views of list items.
pub open spec fn item_views(v: Seq<ListItem>) -> Seq<ListItemView> {
    v.map_values(|x: ListItem| ListItemView { block: x.block, depth: x.depth as nat, name: x.name@ })
}

impl View for ListWalk {
    type V = Seq<ListItemView>;

    closed spec fn view(&self) -> Seq<ListItemView> {
        item_views(self.stack@)
    }
}

impl ListWalk {
    /// Pushes the entries of `node`, listed at `depth`.
    fn push_children(&mut self, node: &Node, depth: usize)
        requires
            node.wf(),
            depth < usize::MAX,
        ensures
            node@.kind == NodeKind::Directory ==> final(self)@ == old(self)@ + child_items(
                node@,
                depth as nat,
            ),
            node@.kind == NodeKind::File ==> final(self)@ == old(self)@,
    {
        if node.kind() == NodeKind::File {
            return;
        }
        let ghost start = self@;
        let entries = node.entries();
        let n = entries.len();
        let mut i: usize = 0;
        while i < n
            invariant
                n == entries@.len(),
                n == node@.entries.len(),
                node@.kind == NodeKind::Directory,
                depth < usize::MAX,
                crate::directory_entry::entry_views(entries@) == node@.entries,
                i <= n,
                self@ == start + child_items(node@, depth as nat).take(i as int),
            decreases n - i,
        {
            let e = &entries[n - 1 - i];
            assert(entries@[n - 1 - i]@ == node@.entries[n - 1 - i]);
            let item = ListItem {
                block: e.block_id(),
                depth: depth + 1,
                name: vstd::slice::slice_to_vec(e.get_name()),
            };
            let ghost before = self.stack@;
            self.stack.push(item);
            i = i + 1;
            assert(item_views(self.stack@) =~= item_views(before).push(
                child_items(node@, depth as nat)[i - 1],
            ));
            assert(child_items(node@, depth as nat).take(i as int) =~= child_items(
                node@,
                depth as nat,
            ).take(i - 1).push(child_items(node@, depth as nat)[i - 1]));
            assert(self@ =~= start + child_items(node@, depth as nat).take(i as int));
        }
        assert(child_items(node@, depth as nat).take(n as int) =~= child_items(
            node@,
            depth as nat,
        ));
    }

    /// A listing below `node`, which is itself listed at depth 0.
    pub fn new(node: &Node) -> (r: ListWalk)
        requires
            node.wf(),
        ensures
            node@.kind == NodeKind::Directory ==> r@ == child_items(node@, 0),
            node@.kind == NodeKind::File ==> r@ == Seq::<ListItemView>::empty(),
    {
        let mut w = ListWalk { stack: Vec::new() };
        assert(item_views(w.stack@) =~= Seq::<ListItemView>::empty());
        w.push_children(node, 0);
        assert(Seq::<ListItemView>::empty() + child_items(node@, 0) =~= child_items(node@, 0));
        w
    }

    /// The next node to list; `None` when the listing is done.
    pub fn next(&mut self) -> (r: Option<ListItem>)
        ensures
            old(self)@.len() == 0 ==> r is None && final(self)@ == old(self)@,
            old(self)@.len() > 0 ==> r is Some && item_views(seq![r->0]) == seq![old(self)@.last()]
                && final(self)@ == old(self)@.drop_last(),
    {
        let ghost before = self.stack@;
        let r = self.stack.pop();
        proof {
            if before.len() > 0 {
                assert(item_views(self.stack@) =~= item_views(before).drop_last());
                assert(item_views(seq![r->0]) =~= seq![item_views(before).last()]);
            }
        }
        r
    }

    /// Takes the bytes of the node of `item`; returns the node, to be
    /// listed, and queues its entries one level deeper.
    pub fn visit(&mut self, item: &ListItem, bytes: Vec<u8>) -> (r: Result<Node, FsError>)
        ensures
            parse_node(bytes@) is Err ==> r == Err::<Node, FsError>(
                FsError::Corrupt(parse_node(bytes@)->Err_0),
            ) && final(self)@ == old(self)@,
            parse_node(bytes@) is Ok ==> {
                let n = parse_node(bytes@)->Ok_0;
                &&& r matches Ok(m) && m@ == n && m.wf()
                &&& item.depth < usize::MAX && n.kind == NodeKind::Directory ==> final(self)@
                    == old(self)@ + child_items(n, item.depth as nat)
                &&& item.depth == usize::MAX || n.kind == NodeKind::File ==> final(self)@
                    == old(self)@
            },
    {
        match Node::from_bytes(bytes) {
            Ok(n) => {
                if item.depth < usize::MAX {
                    self.push_children(&n, item.depth);
                }
                Ok(n)
            },
            Err(e) => Err(FsError::Corrupt(e)),
        }
    }
}

} // verus!
