//! The tree that the nodes of a log form, and how each mutation keeps it
//! well formed.
use crate::directory_entry::{valid_entries, valid_name, EntryView};
use crate::fs::{empty_directory, entry_name_ok, insert_refusal, rename_refusal};
use crate::node::{
    fits, has_name, is_first, lemma_header_len, lemma_node_round_trip, names_unique, node_bytes,
    parse_node, valid_node, NodeView,
};
use crate::error::DecodeError;
use crate::node_kind::NodeKind;
use vstd::prelude::*;

verus! {

/// No two entries of `es` name the same block.
pub open spec fn blocks_unique(es: Seq<EntryView>) -> bool {
    forall|i: int, j: int|
        0 <= i < es.len() && 0 <= j < es.len() && i != j ==> (#[trigger] es[i]).block != (
        #[trigger] es[j]).block
}

/// Some entry of `es` names `block`.
pub open spec fn lists(es: Seq<EntryView>, block: u64) -> bool {
    exists|i: int| 0 <= i < es.len() && (#[trigger] es[i]).block == block
}

/// `id` is a directory of `t`.
pub open spec fn is_dir(t: Map<u64, NodeView>, id: u64) -> bool {
    t.contains_key(id) && t[id].kind == NodeKind::Directory
}

/// The nodes `t` of a log, by block, form a tree under `root`:
/// - block 0 holds no node, the root is a directory, and it alone has
///   parent 0;
/// - every node is valid: a directory's size counts its entries;
/// - every other node is listed in its parent, a directory;
/// - a directory's entries have distinct names, none empty nor with a `/`
///   but as its last byte, and distinct blocks, each
///   the block of a node, not the root, whose parent is that directory; so
///   each node but the root is listed exactly once, in its parent.
pub open spec fn tree_ok(t: Map<u64, NodeView>, root: u64) -> bool {
    &&& !t.contains_key(0)
    &&& is_dir(t, root)
    &&& t[root].parent == 0
    &&& forall|k: u64| #[trigger] t.contains_key(k) ==> valid_node(t[k])
    &&& forall|k: u64|
        #[trigger] t.contains_key(k) && k != root ==> t[k].parent != 0 && is_dir(t, t[k].parent)
            && lists(t[t[k].parent].entries, k)
    &&& forall|d: u64| #[trigger] is_dir(t, d) ==> dir_ok(t, root, d)
}

/// The entries of directory `d` have distinct names and blocks, names that
/// an entry may have, and name non-root nodes whose parent is `d`.
pub open spec fn dir_ok(t: Map<u64, NodeView>, root: u64, d: u64) -> bool {
    &&& names_unique(t[d].entries)
    &&& blocks_unique(t[d].entries)
    &&& forall|i: int| 0 <= i < t[d].entries.len() ==> entry_name_ok(#[trigger] t[d].entries[i].name)
    &&& forall|i: int|
        0 <= i < t[d].entries.len() ==> {
            let b = (#[trigger] t[d].entries[i]).block;
            t.contains_key(b) && t[b].parent == d && b != root
        }
}

/// Directory `d` with one more entry, `name` for `block`.
pub open spec fn with_entry(d: NodeView, name: Seq<u8>, block: u64) -> NodeView {
    NodeView {
        size: (d.size + 1) as u64,
        entries: d.entries.push(EntryView { name, block }),
        ..d
    }
}

/// Adding a new node `child` at a fresh block `child_id`, listed as `name`
/// in the directory `dir_id` (as `mkdir` and `upload` do, after the checks
/// of `insert_refusal`), keeps the tree well formed.
pub proof fn lemma_add_child(
    t: Map<u64, NodeView>,
    root: u64,
    dir_id: u64,
    name: Seq<u8>,
    child_id: u64,
    child: NodeView,
)
    requires
        tree_ok(t, root),
        is_dir(t, dir_id),
        insert_refusal(t[dir_id], name) is None,
        child_id != 0,
        !t.contains_key(child_id),
        child.parent == dir_id,
        valid_node(child),
        child.kind == NodeKind::Directory ==> child.entries.len() == 0,
    ensures
        tree_ok(
            t.insert(child_id, child).insert(dir_id, with_entry(t[dir_id], name, child_id)),
            root,
        ),
{
    let d = t[dir_id];
    let d2 = with_entry(d, name, child_id);
    let t2 = t.insert(child_id, child).insert(dir_id, d2);
    let e = EntryView { name, block: child_id };
    assert(d2.entries[d.entries.len() as int] == e);
    assert(forall|i: int| 0 <= i < d.entries.len() ==> d2.entries[i] == d.entries[i]);
    assert(valid_node(d2)) by {
        assert(dir_ok(t, root, dir_id));
        assert forall|i: int| 0 <= i < d2.entries.len() implies valid_name(
            #[trigger] d2.entries[i].name,
        ) by {
            if i < d.entries.len() {
                assert(valid_entries(d.entries));
            }
        }
    }
    assert forall|k: u64| #[trigger] t2.contains_key(k) implies valid_node(t2[k]) by {}
    assert forall|k: u64| #[trigger] t2.contains_key(k) && k != root implies t2[k].parent != 0
        && is_dir(t2, t2[k].parent) && lists(t2[t2[k].parent].entries, k) by {
        if k == child_id {
            assert(d2.entries[d.entries.len() as int].block == k);
        } else {
            let p = t[k].parent;
            assert(t2[k].parent == p);
            let i = choose|i: int| 0 <= i < t[p].entries.len() && (#[trigger] t[p].entries[i]).block == k;
            if p == dir_id {
                assert(t2[p].entries[i] == t[p].entries[i]);
            }
        }
    }
    assert forall|x: u64| #[trigger] is_dir(t2, x) implies dir_ok(t2, root, x) by {
        if x == dir_id {
            assert(dir_ok(t, root, dir_id));
            assert(names_unique(d2.entries)) by {
                assert forall|i: int, j: int|
                    0 <= i < d2.entries.len() && 0 <= j < d2.entries.len() && i != j implies (
                    #[trigger] d2.entries[i]).name != (#[trigger] d2.entries[j]).name by {
                    if i < d.entries.len() && j < d.entries.len() {
                    } else if i < d.entries.len() {
                        assert(!has_name(d.entries, name));
                        assert(d.entries[i].name != name);
                    } else {
                        assert(!has_name(d.entries, name));
                        assert(d.entries[j].name != name);
                    }
                }
            }
            assert(blocks_unique(d2.entries)) by {
                assert forall|i: int, j: int|
                    0 <= i < d2.entries.len() && 0 <= j < d2.entries.len() && i != j implies (
                    #[trigger] d2.entries[i]).block != (#[trigger] d2.entries[j]).block by {
                    if i < d.entries.len() && j < d.entries.len() {
                    } else if i < d.entries.len() {
                        assert(t.contains_key(d.entries[i].block));
                    } else {
                        assert(t.contains_key(d.entries[j].block));
                    }
                }
            }
            assert forall|i: int| 0 <= i < d2.entries.len() implies {
                let b = (#[trigger] d2.entries[i]).block;
                t2.contains_key(b) && t2[b].parent == x && b != root
            } by {
                if i < d.entries.len() {
                    let b = d.entries[i].block;
                    assert(t.contains_key(b) && t[b].parent == x);
                    if b == dir_id {
                        assert(t2[b].parent == d.parent);
                    }
                } else {
                    assert(t.contains_key(root));
                }
            }
        } else if x == child_id {
        } else {
            assert(is_dir(t, x));
            assert(dir_ok(t, root, x));
            assert forall|i: int| 0 <= i < t2[x].entries.len() implies {
                let b = (#[trigger] t2[x].entries[i]).block;
                t2.contains_key(b) && t2[b].parent == x && b != root
            } by {
                let b = t[x].entries[i].block;
                assert(t.contains_key(b) && t[b].parent == x);
                if b == dir_id {
                    assert(t2[b].parent == d.parent);
                }
            }
        }
    }
}

/// Directory `d` without its entry at `i`.
pub open spec fn without(d: NodeView, i: int) -> NodeView {
    NodeView { size: (d.size - 1) as u64, entries: d.entries.remove(i), ..d }
}

/// Directory `d` with its entry at `i` renamed to `name`.
pub open spec fn with_name(d: NodeView, i: int, name: Seq<u8>) -> NodeView {
    NodeView {
        entries: d.entries.update(i, EntryView { name, block: d.entries[i].block }),
        ..d
    }
}

/// Removing an entry keeps the names and blocks of the others distinct.
proof fn lemma_remove_keeps_unique(es: Seq<EntryView>, i: int)
    requires
        0 <= i < es.len(),
        names_unique(es),
        blocks_unique(es),
    ensures
        names_unique(es.remove(i)),
        blocks_unique(es.remove(i)),
        valid_entries(es) ==> valid_entries(es.remove(i)),
        forall|j: int|
            0 <= j < es.remove(i).len() ==> #[trigger] es.remove(i)[j] == es[if j < i {
                j
            } else {
                j + 1
            }],
{
    let r = es.remove(i);
    assert forall|j: int| 0 <= j < r.len() implies #[trigger] r[j] == es[if j < i {
        j
    } else {
        j + 1
    }] by {}
    assert forall|a: int, b: int|
        0 <= a < r.len() && 0 <= b < r.len() && a != b implies (#[trigger] r[a]).name != (
        #[trigger] r[b]).name && r[a].block != r[b].block by {
        let a2 = if a < i {
            a
        } else {
            a + 1
        };
        let b2 = if b < i {
            b
        } else {
            b + 1
        };
        assert(r[a] == es[a2] && r[b] == es[b2]);
    }
    if valid_entries(es) {
        assert forall|j: int| 0 <= j < r.len() implies valid_name(#[trigger] r[j].name) by {
            let j2 = if j < i {
                j
            } else {
                j + 1
            };
            assert(r[j] == es[j2]);
        }
    }
}

/// Renaming the entry at `i` of directory `dir_id` (as `rename` does,
/// after the checks of `rename_refusal`) keeps the tree well formed.
pub proof fn lemma_rename(
    t: Map<u64, NodeView>,
    root: u64,
    dir_id: u64,
    old_name: Seq<u8>,
    new_name: Seq<u8>,
    i: int,
)
    requires
        tree_ok(t, root),
        is_dir(t, dir_id),
        rename_refusal(t[dir_id], old_name, new_name) is None,
        is_first(t[dir_id].entries, old_name, i),
    ensures
        tree_ok(t.insert(dir_id, with_name(t[dir_id], i, new_name)), root),
{
    let d = t[dir_id];
    let d2 = with_name(d, i, new_name);
    let t2 = t.insert(dir_id, d2);
    assert(dir_ok(t, root, dir_id));
    assert(forall|j: int| 0 <= j < d.entries.len() && j != i ==> d2.entries[j] == d.entries[j]);
    assert(valid_node(d2)) by {
        assert forall|j: int| 0 <= j < d2.entries.len() implies valid_name(
            #[trigger] d2.entries[j].name,
        ) by {
            assert(valid_entries(d.entries));
            assert(valid_name(d.entries[j].name));
        }
    }
    assert forall|k: u64| #[trigger] t2.contains_key(k) implies valid_node(t2[k]) by {}
    assert forall|k: u64| #[trigger] t2.contains_key(k) && k != root implies t2[k].parent != 0
        && is_dir(t2, t2[k].parent) && lists(t2[t2[k].parent].entries, k) by {
        let p = t[k].parent;
        let j = choose|j: int| 0 <= j < t[p].entries.len() && (#[trigger] t[p].entries[j]).block == k;
        if p == dir_id {
            assert(t2[p].entries[j].block == k);
        }
    }
    assert forall|x: u64| #[trigger] is_dir(t2, x) implies dir_ok(t2, root, x) by {
        if x == dir_id {
            assert(names_unique(d2.entries)) by {
                assert forall|a: int, b: int|
                    0 <= a < d2.entries.len() && 0 <= b < d2.entries.len() && a != b implies (
                    #[trigger] d2.entries[a]).name != (#[trigger] d2.entries[b]).name by {
                    if a != i && b != i {
                    } else if new_name == old_name {
                        assert(d2.entries[i].name == d.entries[i].name);
                        assert(d2.entries[a] == d.entries[a] || a == i);
                        assert(d2.entries[b] == d.entries[b] || b == i);
                    } else if a == i {
                        assert(!has_name(d.entries, new_name));
                        assert(d.entries[b].name != new_name);
                    } else {
                        assert(!has_name(d.entries, new_name));
                        assert(d.entries[a].name != new_name);
                    }
                }
            }
            assert(blocks_unique(d2.entries)) by {
                assert forall|a: int, b: int|
                    0 <= a < d2.entries.len() && 0 <= b < d2.entries.len() && a != b implies (
                    #[trigger] d2.entries[a]).block != (#[trigger] d2.entries[b]).block by {
                    assert(d2.entries[a].block == d.entries[a].block);
                    assert(d2.entries[b].block == d.entries[b].block);
                }
            }
            assert forall|j: int| 0 <= j < d2.entries.len() implies {
                let b = (#[trigger] d2.entries[j]).block;
                t2.contains_key(b) && t2[b].parent == x && b != root
            } by {
                let b = d.entries[j].block;
                assert(d2.entries[j].block == b);
                assert(t.contains_key(b) && t[b].parent == x);
            }
        } else {
            assert(is_dir(t, x));
            assert(dir_ok(t, root, x));
            assert forall|j: int| 0 <= j < t2[x].entries.len() implies {
                let b = (#[trigger] t2[x].entries[j]).block;
                t2.contains_key(b) && t2[b].parent == x && b != root
            } by {
                let b = t[x].entries[j].block;
                assert(t.contains_key(b) && t[b].parent == x);
            }
        }
    }
}

/// Moving the node `m`, listed at `i` as `name` in its parent `sp`, into
/// the directory `target` (as `mv` does, after the checks of
/// `insert_refusal`, writing the new `target`, `sp` and `m`) keeps the tree
/// well formed.
pub proof fn lemma_move(
    t: Map<u64, NodeView>,
    root: u64,
    sp: u64,
    i: int,
    name: Seq<u8>,
    target: u64,
    m: u64,
)
    requires
        tree_ok(t, root),
        is_dir(t, sp),
        is_dir(t, target),
        0 <= i < t[sp].entries.len(),
        t[sp].entries[i] == (EntryView { name, block: m }),
        insert_refusal(t[target], name) is None,
        m != target,
        m != sp,
        sp != target,
    ensures
        tree_ok(
            t.insert(target, with_entry(t[target], name, m)).insert(sp, without(t[sp], i)).insert(
                m,
                NodeView { parent: target, ..t[m] },
            ),
            root,
        ),
{
    let tg = t[target];
    let s = t[sp];
    let tg2 = with_entry(tg, name, m);
    let s2 = without(s, i);
    let m2 = NodeView { parent: target, ..t[m] };
    let t2 = t.insert(target, tg2).insert(sp, s2).insert(m, m2);
    assert(dir_ok(t, root, sp));
    assert(dir_ok(t, root, target));
    assert(t.contains_key(m) && t[m].parent == sp && m != root);
    lemma_remove_keeps_unique(s.entries, i);
    assert(valid_entries(s.entries));
    assert(forall|j: int| 0 <= j < tg.entries.len() ==> tg2.entries[j] == tg.entries[j]);
    assert(tg2.entries[tg.entries.len() as int] == (EntryView { name, block: m }));
    assert(valid_node(tg2)) by {
        assert(valid_entries(tg.entries));
        assert forall|j: int| 0 <= j < tg2.entries.len() implies valid_name(
            #[trigger] tg2.entries[j].name,
        ) by {
            if j < tg.entries.len() {
                assert(valid_name(tg.entries[j].name));
            }
        }
    }
    assert(valid_node(t[m]));
    assert forall|k: u64| #[trigger] t2.contains_key(k) implies valid_node(t2[k]) by {}
    assert forall|k: u64| #[trigger] t2.contains_key(k) && k != root implies t2[k].parent != 0
        && is_dir(t2, t2[k].parent) && lists(t2[t2[k].parent].entries, k) by {
        if k == m {
            assert(tg2.entries[tg.entries.len() as int].block == m);
        } else {
            let p = t[k].parent;
            assert(t2[k].parent == p);
            let j = choose|j: int| 0 <= j < t[p].entries.len() && (#[trigger] t[p].entries[j]).block == k;
            if p == target {
                assert(t2[p].entries[j].block == k);
            } else if p == sp {
                assert(j != i);
                let j2 = if j < i {
                    j
                } else {
                    j - 1
                };
                assert(s2.entries[j2] == s.entries[j]);
                assert(t2[p].entries[j2].block == k);
            } else if p == m {
                assert(t2[p].entries[j].block == k);
            }
        }
    }
    assert forall|x: u64| #[trigger] is_dir(t2, x) implies dir_ok(t2, root, x) by {
        if x == target {
            assert(names_unique(tg2.entries)) by {
                assert forall|a: int, b: int|
                    0 <= a < tg2.entries.len() && 0 <= b < tg2.entries.len() && a != b implies (
                    #[trigger] tg2.entries[a]).name != (#[trigger] tg2.entries[b]).name by {
                    if a < tg.entries.len() && b < tg.entries.len() {
                    } else if a < tg.entries.len() {
                        assert(!has_name(tg.entries, name));
                        assert(tg.entries[a].name != name);
                    } else {
                        assert(!has_name(tg.entries, name));
                        assert(tg.entries[b].name != name);
                    }
                }
            }
            assert(blocks_unique(tg2.entries)) by {
                assert forall|a: int, b: int|
                    0 <= a < tg2.entries.len() && 0 <= b < tg2.entries.len() && a != b implies (
                    #[trigger] tg2.entries[a]).block != (#[trigger] tg2.entries[b]).block by {
                    if a < tg.entries.len() && b < tg.entries.len() {
                    } else if a < tg.entries.len() {
                        assert(t[tg.entries[a].block].parent == target);
                    } else {
                        assert(t[tg.entries[b].block].parent == target);
                    }
                }
            }
            assert forall|j: int| 0 <= j < tg2.entries.len() implies {
                let b = (#[trigger] tg2.entries[j]).block;
                t2.contains_key(b) && t2[b].parent == x && b != root
            } by {
                if j < tg.entries.len() {
                    let b = tg.entries[j].block;
                    assert(t.contains_key(b) && t[b].parent == target);
                    assert(b != m);
                }
            }
        } else if x == sp {
            assert forall|j: int| 0 <= j < s2.entries.len() implies {
                let b = (#[trigger] s2.entries[j]).block;
                t2.contains_key(b) && t2[b].parent == x && b != root
            } by {
                let j2 = if j < i {
                    j
                } else {
                    j + 1
                };
                assert(s2.entries[j] == s.entries[j2]);
                let b = s.entries[j2].block;
                assert(t.contains_key(b) && t[b].parent == sp);
                assert(b != m);
            }
        } else if x == m {
            assert(is_dir(t, m));
            assert(dir_ok(t, root, m));
            assert forall|j: int| 0 <= j < t2[x].entries.len() implies {
                let b = (#[trigger] t2[x].entries[j]).block;
                t2.contains_key(b) && t2[b].parent == x && b != root
            } by {
                let b = t[m].entries[j].block;
                assert(t.contains_key(b) && t[b].parent == m);
            }
        } else {
            assert(is_dir(t, x));
            assert(dir_ok(t, root, x));
            assert forall|j: int| 0 <= j < t2[x].entries.len() implies {
                let b = (#[trigger] t2[x].entries[j]).block;
                t2.contains_key(b) && t2[b].parent == x && b != root
            } by {
                let b = t[x].entries[j].block;
                assert(t.contains_key(b) && t[b].parent == x);
            }
        }
    }
}

/// Deleting the subtree `s` under the node `k`, listed at `i` in its parent
/// (as `rm` does without `quick`: every node of `s` is deleted and the
/// entry is removed from the parent), keeps the tree well formed. `s` holds
/// `k`, not the root nor `k`'s parent, every entry of a directory in `s`,
/// and the parent of each of its nodes but `k`.
pub proof fn lemma_remove_subtree(t: Map<u64, NodeView>, root: u64, s: Set<u64>, k: u64, i: int)
    requires
        tree_ok(t, root),
        s.contains(k),
        !s.contains(root),
        t.contains_key(k),
        !s.contains(t[k].parent),
        k != root,
        0 <= i < t[t[k].parent].entries.len(),
        t[t[k].parent].entries[i].block == k,
        forall|x: u64|
            #[trigger] s.contains(x) && is_dir(t, x) ==> forall|j: int|
                0 <= j < t[x].entries.len() ==> s.contains(#[trigger] t[x].entries[j].block),
        forall|x: u64| #[trigger] s.contains(x) && x != k ==> s.contains(t[x].parent),
    ensures
        tree_ok(t.remove_keys(s).insert(t[k].parent, without(t[t[k].parent], i)), root),
{
    let p = t[k].parent;
    let pv = t[p];
    let shrunk = without(pv, i);
    let t2 = t.remove_keys(s).insert(p, shrunk);
    assert(is_dir(t, p));
    assert(dir_ok(t, root, p));
    lemma_remove_keeps_unique(pv.entries, i);
    assert(valid_entries(pv.entries));
    assert forall|x: u64| #[trigger] t2.contains_key(x) implies valid_node(t2[x]) by {}
    assert forall|x: u64| #[trigger] t2.contains_key(x) && x != root implies t2[x].parent != 0
        && is_dir(t2, t2[x].parent) && lists(t2[t2[x].parent].entries, x) by {
        let q = t[x].parent;
        assert(t2[x].parent == q);
        let j = choose|j: int| 0 <= j < t[q].entries.len() && (#[trigger] t[q].entries[j]).block == x;
        if s.contains(q) {
            assert(s.contains(t[q].entries[j].block));
        }
        if q == p {
            assert(x != k);
            assert(j != i);
            let j2 = if j < i {
                j
            } else {
                j - 1
            };
            assert(shrunk.entries[j2] == pv.entries[j]);
            assert(t2[q].entries[j2].block == x);
        } else {
            assert(t2[q] == t[q]);
        }
    }
    assert forall|x: u64| #[trigger] is_dir(t2, x) implies dir_ok(t2, root, x) by {
        if x == p {
            assert forall|j: int| 0 <= j < shrunk.entries.len() implies {
                let b = (#[trigger] shrunk.entries[j]).block;
                t2.contains_key(b) && t2[b].parent == x && b != root
            } by {
                let j2 = if j < i {
                    j
                } else {
                    j + 1
                };
                assert(shrunk.entries[j] == pv.entries[j2]);
                let b = pv.entries[j2].block;
                assert(t.contains_key(b) && t[b].parent == p);
                assert(b != k);
                if s.contains(b) {
                    assert(s.contains(t[b].parent));
                }
            }
        } else {
            assert(is_dir(t, x));
            assert(!s.contains(x));
            assert(dir_ok(t, root, x));
            assert forall|j: int| 0 <= j < t2[x].entries.len() implies {
                let b = (#[trigger] t2[x].entries[j]).block;
                t2.contains_key(b) && t2[b].parent == x && b != root
            } by {
                let b = t[x].entries[j].block;
                assert(t.contains_key(b) && t[b].parent == x);
                if s.contains(b) {
                    if b == k {
                        assert(x == p);
                    } else {
                        assert(s.contains(t[b].parent));
                    }
                }
            }
        }
    }
}

/// In a well-formed tree, a node listed in directory `d` is a node whose
/// parent is `d`, and no other directory lists it: so the node that a walk
/// finds under its leaf name has as parent the directory it was found in.
pub proof fn lemma_listed_in_parent(t: Map<u64, NodeView>, root: u64, d: u64, name: Seq<u8>, id: u64)
    requires
        tree_ok(t, root),
        is_dir(t, d),
        crate::traverse::has_entry(t[d].entries, name, id),
    ensures
        t.contains_key(id),
        t[id].parent == d,
        id != root,
        forall|x: u64| #[trigger] is_dir(t, x) && lists(t[x].entries, id) ==> x == d,
{
    assert(dir_ok(t, root, d));
    let i = choose|i: int| 0 <= i < t[d].entries.len() && #[trigger] t[d].entries[i] == (EntryView { name, block: id });
    assert(t[d].entries[i].block == id);
    assert forall|x: u64| #[trigger] is_dir(t, x) && lists(t[x].entries, id) implies x == d by {
        assert(dir_ok(t, root, x));
        let j = choose|j: int| 0 <= j < t[x].entries.len() && (#[trigger] t[x].entries[j]).block == id;
        assert(t[t[x].entries[j].block].parent == x);
    }
}

/// A fresh log whose one node is the root that bootstrap writes (an empty
/// directory with parent 0, which `new_root_block` encodes) is a
/// well-formed tree: it has exactly one node with parent 0.
pub proof fn lemma_new_root(root: u64)
    requires
        root != 0,
    ensures
        parse_node(node_bytes(empty_directory(0))) == Ok::<NodeView, DecodeError>(empty_directory(0)),
        tree_ok(Map::<u64, NodeView>::empty().insert(root, empty_directory(0)), root),
{
    let n = empty_directory(0);
    lemma_header_len(n);
    lemma_node_round_trip(n);
    let t = Map::<u64, NodeView>::empty().insert(root, n);
    assert(valid_entries(n.entries));
    assert forall|k: u64| #[trigger] t.contains_key(k) implies valid_node(t[k]) by {}
}

/// `mkdir`: the directory it creates at a fresh block `new_id` (the bytes of
/// `new_directory_block(dir_id)`) and the parent `dir_id` with the new entry
/// (the bytes of `insert_entry`) decode to those nodes, and writing them
/// keeps the tree well formed, with the root still the one node with
/// parent 0.
pub proof fn lemma_mkdir(t: Map<u64, NodeView>, root: u64, dir_id: u64, name: Seq<u8>, new_id: u64)
    requires
        tree_ok(t, root),
        is_dir(t, dir_id),
        insert_refusal(t[dir_id], name) is None,
        new_id != 0,
        !t.contains_key(new_id),
        fits(with_entry(t[dir_id], name, new_id)),
    ensures
        parse_node(node_bytes(empty_directory(dir_id))) == Ok::<NodeView, DecodeError>(
            empty_directory(dir_id),
        ),
        parse_node(node_bytes(with_entry(t[dir_id], name, new_id))) == Ok::<NodeView, DecodeError>(
            with_entry(t[dir_id], name, new_id),
        ),
        tree_ok(
            t.insert(new_id, empty_directory(dir_id)).insert(dir_id, with_entry(t[dir_id], name, new_id)),
            root,
        ),
{
    let n = empty_directory(dir_id);
    lemma_header_len(n);
    assert(valid_entries(n.entries));
    lemma_node_round_trip(n);
    lemma_add_child(t, root, dir_id, name, new_id, n);
    let t2 = t.insert(new_id, n).insert(dir_id, with_entry(t[dir_id], name, new_id));
    assert(t2.contains_key(dir_id));
    lemma_node_round_trip(with_entry(t[dir_id], name, new_id));
}

} // verus!
