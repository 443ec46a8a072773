//! The decisions of the filesystem operations. Each function takes the
//! nodes that were read and returns what to write, or why the operation
//! refuses; the caller does the reading and writing in the order given.
use crate::directory_entry::{valid_name, BlockIndex, EntryView, NAME_LEN};
use crate::error::FsError;
use crate::node::{fits, has_name, is_first, names_unique, node_bytes, Node, NodeView, ENTRY_COUNT, MAX_FILE_SIZE};
use crate::node_kind::NodeKind;
use crate::path::{ends_with_slash, SLASH};
use vstd::prelude::*;

verus! {

/// Why `name` cannot be added to `dir`, if anything stops it.
pub open spec fn insert_refusal(dir: NodeView, name: Seq<u8>) -> Option<FsError> {
    if dir.kind != NodeKind::Directory {
        Some(FsError::NotADirectory)
    } else if dir.size >= ENTRY_COUNT {
        Some(FsError::DirectoryFull)
    } else if has_name(dir.entries, name) {
        Some(FsError::AlreadyExists)
    } else if name.len() > NAME_LEN {
        Some(FsError::NameTooLong)
    } else if !entry_name_ok(name) {
        Some(FsError::InvalidName)
    } else {
        None
    }
}

/// A name an entry may have: not empty, not `/` alone, and with no `/` but
/// as its last byte, which marks a directory.
pub open spec fn entry_name_ok(name: Seq<u8>) -> bool {
    name.len() > 0 && name != seq![SLASH] && !has_slash(name.drop_last())
}

/// Whether `name` is a name an entry may have.
pub fn name_ok(name: &[u8]) -> (r: bool)
    ensures
        r == entry_name_ok(name@),
{
    let n = name.len();
    if n == 0 {
        return false;
    }
    if n == 1 && name[0] == SLASH {
        assert(name@ =~= seq![SLASH]);
        return false;
    }
    assert(name@ != seq![SLASH]) by {
        if name@ == seq![SLASH] {
            assert(name@[0] == SLASH);
        }
    }
    let front = vstd::slice::slice_subrange(name, 0, n - 1);
    assert(front@ =~= name@.drop_last());
    !find_slash(front)
}

/// Refuses files larger than the largest file size.
pub fn check_file_size(size: u64) -> (r: Result<(), FsError>)
    ensures
        r is Ok <==> size <= MAX_FILE_SIZE,
        r is Err ==> r == Err::<(), FsError>(FsError::FileTooLarge),
{
    if size > MAX_FILE_SIZE {
        Err(FsError::FileTooLarge)
    } else {
        Ok(())
    }
}

/// Refuses to add `name` to `dir` when `dir` is not a directory, is full,
/// already holds the name, or the name is too long.
pub fn check_insert(dir: &Node, name: &[u8]) -> (r: Result<(), FsError>)
    requires
        dir.wf(),
    ensures
        match insert_refusal(dir@, name@) {
            Some(e) => r == Err::<(), FsError>(e),
            None => r is Ok,
        },
{
    if dir.kind() != NodeKind::Directory {
        return Err(FsError::NotADirectory);
    }
    if dir.size() >= ENTRY_COUNT as u64 {
        return Err(FsError::DirectoryFull);
    }
    if dir.find_entry(name).is_some() {
        return Err(FsError::AlreadyExists);
    }
    if name.len() > NAME_LEN {
        return Err(FsError::NameTooLong);
    }
    if !name_ok(name) {
        return Err(FsError::InvalidName);
    }
    Ok(())
}

/// Encodes a node, or refuses one that does not fit a block.
pub fn encode(node: &Node) -> (r: Result<Vec<u8>, FsError>)
    requires
        node.wf(),
    ensures
        fits(node@) ==> (r matches Ok(b) && b@ == node_bytes(node@)),
        !fits(node@) ==> r == Err::<Vec<u8>, FsError>(FsError::BlockOverflow),
{
    if node.fits_in_block() {
        Ok(node.to_bytes())
    } else {
        Err(FsError::BlockOverflow)
    }
}

/// Adds the entry `name` for `block` to `dir` and encodes `dir`. Block 0
/// stands for "no parent" and is never a child.
pub fn insert_entry(dir: &mut Node, name: &[u8], block: BlockIndex) -> (r: Result<Vec<u8>, FsError>)
    requires
        old(dir).wf(),
    ensures
        final(dir).wf(),
        insert_refusal(old(dir)@, name@) is Some ==> r == Err::<Vec<u8>, FsError>(
            insert_refusal(old(dir)@, name@)->0,
        ) && final(dir)@ == old(dir)@,
        insert_refusal(old(dir)@, name@) is None && block == 0 ==> r == Err::<Vec<u8>, FsError>(
            FsError::ReservedBlockId,
        ) && final(dir)@ == old(dir)@,
        insert_refusal(old(dir)@, name@) is None && block != 0 ==> {
            &&& final(dir)@ == (NodeView {
                size: (old(dir)@.size + 1) as u64,
                entries: old(dir)@.entries.push(EntryView { name: name@, block }),
                ..old(dir)@
            })
            &&& fits(final(dir)@) ==> (r matches Ok(b) && b@ == node_bytes(final(dir)@))
            &&& !fits(final(dir)@) ==> r == Err::<Vec<u8>, FsError>(FsError::BlockOverflow)
        },
        names_unique(old(dir)@.entries) ==> names_unique(final(dir)@.entries),
{
    match check_insert(dir, name) {
        Ok(()) => {},
        Err(e) => {
            return Err(e);
        },
    }
    if block == 0 {
        return Err(FsError::ReservedBlockId);
    }
    dir.push_directory_entry(name, block);
    encode(dir)
}

/// Removes the entry `name` from `dir` and encodes `dir`.
pub fn remove_entry(dir: &mut Node, name: &[u8]) -> (r: Result<Vec<u8>, FsError>)
    requires
        old(dir).wf(),
    ensures
        final(dir).wf(),
        old(dir)@.kind != NodeKind::Directory ==> r == Err::<Vec<u8>, FsError>(
            FsError::NotADirectory,
        ) && final(dir)@ == old(dir)@,
        old(dir)@.kind == NodeKind::Directory && !has_name(old(dir)@.entries, name@) ==> r
            == Err::<Vec<u8>, FsError>(FsError::NotFound) && final(dir)@ == old(dir)@,
        old(dir)@.kind == NodeKind::Directory && has_name(old(dir)@.entries, name@) ==> {
            &&& exists|i: int|
                is_first(old(dir)@.entries, name@, i) && final(dir)@ == (NodeView {
                    size: (old(dir)@.size - 1) as u64,
                    entries: old(dir)@.entries.remove(i),
                    ..old(dir)@
                })
            &&& fits(final(dir)@) ==> (r matches Ok(b) && b@ == node_bytes(final(dir)@))
            &&& !fits(final(dir)@) ==> r == Err::<Vec<u8>, FsError>(FsError::BlockOverflow)
        },
        names_unique(old(dir)@.entries) ==> names_unique(final(dir)@.entries),
{
    if dir.kind() != NodeKind::Directory {
        return Err(FsError::NotADirectory);
    }
    if dir.find_entry(name).is_none() {
        return Err(FsError::NotFound);
    }
    dir.delete_directory_entry(name);
    encode(dir)
}

/// `s` holds a `/`.
pub open spec fn has_slash(s: Seq<u8>) -> bool {
    exists|j: int| 0 <= j < s.len() && #[trigger] s[j] == SLASH
}

/// Why `new` cannot replace the last name of `old`, if anything stops it:
/// a directory's new name ends in its only `/`, a file's new name has none,
/// and neither is empty.
pub open spec fn new_name_refusal(old: Seq<u8>, new: Seq<u8>) -> Option<FsError> {
    if new == seq![SLASH] {
        Some(FsError::RootNotAllowed)
    } else if ends_with_slash(old) {
        if ends_with_slash(new) && !has_slash(new.drop_last()) {
            None
        } else {
            Some(FsError::InvalidNewName)
        }
    } else if new.len() == 0 || has_slash(new) {
        Some(FsError::InvalidNewName)
    } else {
        None
    }
}

/// Whether `s` holds a `/`.
fn find_slash(s: &[u8]) -> (r: bool)
    ensures
        r == has_slash(s@),
{
    let mut j: usize = 0;
    while j < s.len()
        invariant
            j <= s@.len(),
            forall|k: int| 0 <= k < j ==> #[trigger] s@[k] != SLASH,
        decreases s@.len() - j,
    {
        if s[j] == SLASH {
            return true;
        }
        j = j + 1;
    }
    false
}

/// Refuses a new name that does not suit the entry that `old` names.
pub fn check_new_name(old: &[u8], new: &[u8]) -> (r: Result<(), FsError>)
    ensures
        match new_name_refusal(old@, new@) {
            Some(e) => r == Err::<(), FsError>(e),
            None => r is Ok,
        },
{
    let n = new.len();
    if n == 1 && new[0] == SLASH {
        assert(new@ =~= seq![SLASH]);
        return Err(FsError::RootNotAllowed);
    }
    assert(new@ != seq![SLASH] ==> !(n == 1 && new@[0] == SLASH)) by {
        if n == 1 && new@[0] == SLASH {
            assert(new@ =~= seq![SLASH]);
        }
    }
    if old.len() > 0 && old[old.len() - 1] == SLASH {
        if n > 0 && new[n - 1] == SLASH {
            let front = vstd::slice::slice_subrange(new, 0, n - 1);
            assert(front@ =~= new@.drop_last());
            if !find_slash(front) {
                return Ok(());
            }
        }
        Err(FsError::InvalidNewName)
    } else if n == 0 || find_slash(new) {
        Err(FsError::InvalidNewName)
    } else {
        Ok(())
    }
}

/// Why the entry `old_name` of `dir` cannot be renamed to `new_name`.
pub open spec fn rename_refusal(dir: NodeView, old_name: Seq<u8>, new_name: Seq<u8>) -> Option<
    FsError,
> {
    if dir.kind != NodeKind::Directory {
        Some(FsError::NotADirectory)
    } else if !has_name(dir.entries, old_name) {
        Some(FsError::NotFound)
    } else if new_name.len() > NAME_LEN {
        Some(FsError::NameTooLong)
    } else if !entry_name_ok(new_name) {
        Some(FsError::InvalidNewName)
    } else if new_name != old_name && has_name(dir.entries, new_name) {
        Some(FsError::AlreadyExists)
    } else {
        None
    }
}

/// Renames the entry `old_name` of `dir` to `new_name` and encodes `dir`.
pub fn rename_entry(dir: &mut Node, old_name: &[u8], new_name: &[u8]) -> (r: Result<
    Vec<u8>,
    FsError,
>)
    requires
        old(dir).wf(),
    ensures
        final(dir).wf(),
        rename_refusal(old(dir)@, old_name@, new_name@) is Some ==> r == Err::<Vec<u8>, FsError>(
            rename_refusal(old(dir)@, old_name@, new_name@)->0,
        ) && final(dir)@ == old(dir)@,
        rename_refusal(old(dir)@, old_name@, new_name@) is None ==> {
            &&& exists|i: int|
                is_first(old(dir)@.entries, old_name@, i) && final(dir)@ == (NodeView {
                    entries: old(dir)@.entries.update(
                        i,
                        EntryView { name: new_name@, block: old(dir)@.entries[i].block },
                    ),
                    ..old(dir)@
                })
            &&& fits(final(dir)@) ==> (r matches Ok(b) && b@ == node_bytes(final(dir)@))
            &&& !fits(final(dir)@) ==> r == Err::<Vec<u8>, FsError>(FsError::BlockOverflow)
        },
        names_unique(old(dir)@.entries) ==> names_unique(final(dir)@.entries),
{
    if dir.kind() != NodeKind::Directory {
        return Err(FsError::NotADirectory);
    }
    let old_at = dir.find_entry(old_name);
    if old_at.is_none() {
        return Err(FsError::NotFound);
    }
    if new_name.len() > NAME_LEN {
        return Err(FsError::NameTooLong);
    }
    if !name_ok(new_name) {
        return Err(FsError::InvalidNewName);
    }
    let new_at = dir.find_entry(new_name);
    if new_at.is_some() {
        let i = old_at.unwrap();
        let j = new_at.unwrap();
        if i != j {
            proof {
                assert(dir@.entries[j as int].name == new_name@);
                assert(dir@.entries[i as int].name == old_name@);
                if new_name@ == old_name@ {
                    assert(false);
                }
            }
            return Err(FsError::AlreadyExists);
        }
        proof {
            let es = dir@.entries;
            assert(es[i as int].name == old_name@ && es[i as int].name == new_name@);
        }
        let ghost before = dir@;
        dir.rename_directory_entry(old_name, new_name);
        proof {
            let es = before.entries;
            assert(es.update(i as int, EntryView { name: new_name@, block: es[i as int].block }) =~= es);
        }
        return encode(dir);
    }
    dir.rename_directory_entry(old_name, new_name);
    encode(dir)
}

/// Refuses to act on the root path `/`.
pub fn check_not_root(path: &[u8]) -> (r: Result<(), FsError>)
    ensures
        path@ == seq![SLASH] ==> r == Err::<(), FsError>(FsError::RootNotAllowed),
        path@ != seq![SLASH] ==> r is Ok,
{
    if path.len() == 1 && path[0] == SLASH {
        assert(path@ =~= seq![SLASH]);
        Err(FsError::RootNotAllowed)
    } else {
        Ok(())
    }
}

/// Refuses to remove a directory without recursion, or a file with it.
pub fn check_removal(kind: NodeKind, recursive: bool) -> (r: Result<(), FsError>)
    ensures
        kind == NodeKind::Directory && !recursive ==> r == Err::<(), FsError>(
            FsError::RecursionRequired,
        ),
        kind == NodeKind::File && recursive ==> r == Err::<(), FsError>(
            FsError::RecursionNotAllowed,
        ),
        (kind == NodeKind::Directory) == recursive ==> r is Ok,
{
    match kind {
        NodeKind::Directory => if recursive {
            Ok(())
        } else {
            Err(FsError::RecursionRequired)
        },
        NodeKind::File => if recursive {
            Err(FsError::RecursionNotAllowed)
        } else {
            Ok(())
        },
    }
}

/// `s` starts with `prefix`.
pub open spec fn starts_with(s: Seq<u8>, prefix: Seq<u8>) -> bool {
    prefix.len() <= s.len() && s.take(prefix.len() as int) == prefix
}

/// What `mv` decides from its two paths alone: `Ok(false)` when they are
/// equal and there is nothing to do, `Ok(true)` when the move goes ahead.
/// The root cannot move, nor a directory into itself or below itself.
pub fn check_move(source: &[u8], destination: &[u8]) -> (r: Result<bool, FsError>)
    ensures
        source@ == destination@ ==> r == Ok::<bool, FsError>(false),
        source@ != destination@ && source@ == seq![SLASH] ==> r == Err::<bool, FsError>(
            FsError::RootNotAllowed,
        ),
        source@ != destination@ && source@ != seq![SLASH] && ends_with_slash(source@)
            && starts_with(destination@, source@) ==> r == Err::<bool, FsError>(
            FsError::MoveIntoItself,
        ),
        source@ != destination@ && source@ != seq![SLASH] && !(ends_with_slash(source@)
            && starts_with(destination@, source@)) ==> r == Ok::<bool, FsError>(true),
{
    let n = source.len();
    let m = destination.len();
    let mut same = n <= m;
    let mut j: usize = 0;
    while same && j < n
        invariant
            n == source@.len(),
            m == destination@.len(),
            j <= n,
            same ==> n <= m,
            same ==> forall|k: int| 0 <= k < j ==> #[trigger] source@[k] == destination@[k],
            !same ==> !starts_with(destination@, source@),
        decreases n - j + (if same { 1int } else { 0 }),
    {
        if source[j] != destination[j] {
            assert(destination@.take(n as int)[j as int] != source@[j as int]);
            same = false;
        } else {
            j = j + 1;
        }
    }
    if same {
        assert(destination@.take(n as int) =~= source@);
    }
    let prefix = same;
    if prefix && n == m {
        assert(source@ =~= destination@);
        return Ok(false);
    }
    if !prefix || n != m {
        assert(source@ != destination@) by {
            if source@ == destination@ {
                assert(destination@.take(n as int) =~= source@);
            }
        }
    }
    match check_not_root(source) {
        Ok(()) => {},
        Err(e) => {
            return Err(e);
        },
    }
    if n > 0 && source[n - 1] == SLASH && prefix {
        return Err(FsError::MoveIntoItself);
    }
    Ok(true)
}

/// The three blocks a move rewrites, in the order to write them.
pub struct MoveWrites {
    /// The destination directory, now holding the entry.
    pub target: Vec<u8>,
    /// The former parent, without the entry.
    pub source_parent: Vec<u8>,
    /// The moved node, with its new parent.
    pub moved: Vec<u8>,
}

/// Moves the entry `name` for `moved_id` out of `source_parent` into
/// `target` at `target_id`, and records `target_id` as the parent of
/// `moved`. Returns the encodings of the new `target`, `source_parent` and
/// `moved`, to be written in that order.
pub fn move_entry(
    source_parent: &mut Node,
    target: &mut Node,
    target_id: BlockIndex,
    moved: &mut Node,
    moved_id: BlockIndex,
    name: &[u8],
) -> (r: Result<MoveWrites, FsError>)
    requires
        old(source_parent).wf(),
        old(target).wf(),
        old(moved).wf(),
    ensures
        final(source_parent).wf(),
        final(target).wf(),
        final(moved).wf(),
        insert_refusal(old(target)@, name@) is Some ==> r == Err::<
            MoveWrites,
            FsError,
        >(insert_refusal(old(target)@, name@)->0),
        insert_refusal(old(target)@, name@) is None && (moved_id == 0 || target_id == 0) ==> r
            == Err::<MoveWrites, FsError>(FsError::ReservedBlockId),
        insert_refusal(old(target)@, name@) is None && moved_id != 0 && target_id != 0 && old(
            source_parent,
        )@.kind != NodeKind::Directory ==> r == Err::<MoveWrites, FsError>(
            FsError::NotADirectory,
        ),
        insert_refusal(old(target)@, name@) is None && moved_id != 0 && target_id != 0 && old(
            source_parent,
        )@.kind == NodeKind::Directory && !has_name(old(source_parent)@.entries, name@) ==> r == Err::<
            MoveWrites,
            FsError,
        >(FsError::NotFound),
        r is Ok ==> {
            &&& final(target)@ == (NodeView {
                size: (old(target)@.size + 1) as u64,
                entries: old(target)@.entries.push(EntryView { name: name@, block: moved_id }),
                ..old(target)@
            })
            &&& exists|i: int|
                is_first(old(source_parent)@.entries, name@, i) && final(source_parent)@ == (
                NodeView {
                    size: (old(source_parent)@.size - 1) as u64,
                    entries: old(source_parent)@.entries.remove(i),
                    ..old(source_parent)@
                })
            &&& final(moved)@ == (NodeView { parent: target_id, ..old(moved)@ })
            &&& r->Ok_0.target@ == node_bytes(final(target)@)
            &&& r->Ok_0.source_parent@ == node_bytes(final(source_parent)@)
            &&& r->Ok_0.moved@ == node_bytes(final(moved)@)
        },
        insert_refusal(old(target)@, name@) is None && moved_id != 0 && target_id != 0 && old(
            source_parent,
        )@.kind == NodeKind::Directory && has_name(old(source_parent)@.entries, name@) && fits(
            final(target)@,
        ) && fits(final(source_parent)@) && fits(final(moved)@) ==> r is Ok,
        names_unique(old(target)@.entries) ==> names_unique(final(target)@.entries),
        names_unique(old(source_parent)@.entries) ==> names_unique(final(source_parent)@.entries),
{
    match check_insert(target, name) {
        Ok(()) => {},
        Err(e) => {
            return Err(e);
        },
    }
    if moved_id == 0 || target_id == 0 {
        return Err(FsError::ReservedBlockId);
    }
    if source_parent.kind() != NodeKind::Directory {
        return Err(FsError::NotADirectory);
    }
    if source_parent.find_entry(name).is_none() {
        return Err(FsError::NotFound);
    }
    let a = insert_entry(target, name, moved_id);
    let b = remove_entry(source_parent, name);
    moved.set_parent(target_id);
    let c = encode(moved);
    match (a, b, c) {
        (Ok(a), Ok(b), Ok(c)) => Ok(MoveWrites { target: a, source_parent: b, moved: c }),
        _ => Err(FsError::BlockOverflow),
    }
}

/// `s` is a non-empty run of ASCII digits.
pub open spec fn all_digits(s: Seq<u8>) -> bool {
    forall|j: int| 0 <= j < s.len() ==> 48 <= #[trigger] s[j] <= 57
}

/// The number that decimal digits `s` write.
pub open spec fn decimal(s: Seq<u8>) -> nat
    decreases s.len(),
{
    if s.len() == 0 {
        0
    } else {
        decimal(s.drop_last()) * 10 + (s.last() - 48) as nat
    }
}

/// The digits of a topic: all of it, less one leading `+`.
pub open spec fn topic_digits(s: Seq<u8>) -> Seq<u8> {
    if s.len() > 0 && s[0] == 43 {
        s.skip(1)
    } else {
        s
    }
}

/// The block id a channel topic holds: an unsigned decimal `u64`, with an
/// optional leading `+`.
pub open spec fn topic_value(s: Seq<u8>) -> Option<u64> {
    let d = topic_digits(s);
    if d.len() > 0 && all_digits(d) && decimal(d) <= u64::MAX {
        Some(decimal(d) as u64)
    } else {
        None
    }
}

/// A longer run of digits writes no smaller number.
proof fn lemma_decimal_grows(s: Seq<u8>, i: int)
    requires
        0 <= i <= s.len(),
        all_digits(s),
    ensures
        decimal(s.take(i)) <= decimal(s),
    decreases s.len() - i,
{
    if i < s.len() {
        lemma_decimal_grows(s, i + 1);
        assert(s.take(i + 1).drop_last() =~= s.take(i));
    } else {
        assert(s.take(i) =~= s);
    }
}

/// The root block id that the log's topic holds.
pub fn root_from_topic(topic: &[u8]) -> (r: Result<BlockIndex, FsError>)
    ensures
        match topic_value(topic@) {
            Some(v) => r == Ok::<BlockIndex, FsError>(v),
            None => r == Err::<BlockIndex, FsError>(FsError::InvalidTopic),
        },
{
    let n = topic.len();
    let start: usize = if n > 0 && topic[0] == 43 {
        1
    } else {
        0
    };
    let d = vstd::slice::slice_subrange(topic, start, n);
    assert(d@ =~= topic_digits(topic@));
    if d.len() == 0 {
        return Err(FsError::InvalidTopic);
    }
    let mut value: u64 = 0;
    let mut i: usize = 0;
    assert(d@.take(0) =~= Seq::<u8>::empty());
    while i < d.len()
        invariant
            i <= d@.len(),
            d@ == topic_digits(topic@),
            d@.len() > 0,
            all_digits(d@.take(i as int)),
            value == decimal(d@.take(i as int)),
        decreases d@.len() - i,
    {
        let c = d[i];
        assert(d@.take(i + 1).drop_last() =~= d@.take(i as int));
        if c < 48 || c > 57 {
            assert(!all_digits(d@)) by {
                assert(!(48 <= d@[i as int] <= 57));
            }
            return Err(FsError::InvalidTopic);
        }
        let digit = (c - 48) as u64;
        assert(all_digits(d@.take(i + 1))) by {
            assert forall|j: int| 0 <= j < i + 1 implies 48 <= #[trigger] d@.take(i + 1)[j] <= 57 by {
                if j < i {
                    assert(d@.take(i + 1)[j] == d@.take(i as int)[j]);
                }
            }
        }
        if value > (u64::MAX - digit) / 10 {
            proof {
                assert(decimal(d@.take(i + 1)) > u64::MAX) by (nonlinear_arith)
                    requires
                        decimal(d@.take(i + 1)) == value * 10 + digit,
                        value > (u64::MAX - digit) / 10,
                        digit <= 9,
                ;
                if all_digits(d@) {
                    lemma_decimal_grows(d@, i + 1);
                }
            }
            return Err(FsError::InvalidTopic);
        }
        assert(value * 10 + digit <= u64::MAX) by (nonlinear_arith)
            requires
                value <= (u64::MAX - digit) / 10,
                digit <= 9,
        ;
        value = value * 10 + digit;
        i = i + 1;
    }
    assert(d@.take(i as int) =~= d@);
    Ok(value)
}

/// An empty directory inside `parent`.
pub open spec fn empty_directory(parent: u64) -> NodeView {
    NodeView {
        kind: NodeKind::Directory,
        size: 0,
        parent,
        blocks: Seq::empty(),
        entries: Seq::empty(),
    }
}

/// The block of a new, empty directory inside `parent`. Only the root has
/// parent 0, so 0 is refused here.
pub fn new_directory_block(parent: BlockIndex) -> (r: Result<Vec<u8>, FsError>)
    ensures
        parent == 0 ==> r == Err::<Vec<u8>, FsError>(FsError::ReservedBlockId),
        parent != 0 ==> (r matches Ok(b) && b@ == node_bytes(empty_directory(parent))),
{
    if parent == 0 {
        return Err(FsError::ReservedBlockId);
    }
    let n = Node::new(NodeKind::Directory, parent);
    proof {
        crate::node::lemma_header_len(n@);
        assert(n@.entries =~= Seq::<EntryView>::empty());
    }
    Ok(n.to_bytes())
}

/// The block of a new, empty root directory, whose parent is 0.
pub fn new_root_block() -> (r: Vec<u8>)
    ensures
        r@ == node_bytes(empty_directory(0)),
{
    let n = Node::new(NodeKind::Directory, 0);
    proof {
        crate::node::lemma_header_len(n@);
    }
    n.to_bytes()
}

} // verus!
