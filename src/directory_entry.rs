//! Directory entries: a name and the block of the node it names.
use crate::error::DecodeError;
use crate::le::{le, le_value, lemma_le, push_u64, read_u64};
use vstd::prelude::*;

verus! {

/// Bytes of a block id.
pub const BLOCK_INDEX_SIZE: usize = 8;

/// Longest entry name, in bytes.
pub const NAME_LEN: usize = 1008;

/// A block's identifier in the log.
pub type BlockIndex = u64;

/// What an entry is: its name's bytes and the block it names.
pub struct EntryView {
    pub name: Seq<u8>,
    pub block: u64,
}

/// A name that fits an entry: at most `NAME_LEN` bytes.
pub open spec fn valid_name(name: Seq<u8>) -> bool {
    name.len() <= NAME_LEN
}

/// Every entry of `es` has a name that fits.
pub open spec fn valid_entries(es: Seq<EntryView>) -> bool {
    forall|i: int| 0 <= i < es.len() ==> valid_name(#[trigger] es[i].name)
}

/// The bytes of one entry: name length, name, block id.
pub open spec fn entry_bytes(e: EntryView) -> Seq<u8> {
    le(e.name.len() as u64) + e.name + le(e.block)
}

/// The bytes of a sequence of entries, packed one after another.
pub open spec fn entries_bytes(es: Seq<EntryView>) -> Seq<u8>
    decreases es.len(),
{
    if es.len() == 0 {
        Seq::empty()
    } else {
        entry_bytes(es[0]) + entries_bytes(es.drop_first())
    }
}

/// Puts `es` in front of a parse result.
pub open spec fn prepend(es: Seq<EntryView>, r: Result<Seq<EntryView>, DecodeError>) -> Result<
    Seq<EntryView>,
    DecodeError,
> {
    match r {
        Ok(rest) => Ok(es + rest),
        Err(e) => Err(e),
    }
}

/// Reads entries from the front of `b` until it is used up.
pub open spec fn parse_entries(b: Seq<u8>) -> Result<Seq<EntryView>, DecodeError>
    decreases b.len(),
{
    if b.len() == 0 {
        Ok(Seq::empty())
    } else if b.len() < 8 {
        Err(DecodeError::Truncated)
    } else {
        let n = le_value(b.subrange(0, 8));
        if n > NAME_LEN {
            Err(DecodeError::NameTooLong)
        } else if b.len() < 16 + n {
            Err(DecodeError::Truncated)
        } else {
            let e = EntryView { name: b.subrange(8, 8 + n), block: le_value(b.subrange(8 + n, 16 + n)) };
            prepend(seq![e], parse_entries(b.subrange(16 + n, b.len() as int)))
        }
    }
}

/// The views of a sequence of entries.
pub open spec fn entry_views(v: Seq<DirectoryEntry>) -> Seq<EntryView> {
    v.map_values(|e: DirectoryEntry| e@)
}

/// An entry of a directory.
pub struct DirectoryEntry {
    name: Vec<u8>,
    block: BlockIndex,
}

impl View for DirectoryEntry {
    type V = EntryView;

    closed spec fn view(&self) -> EntryView {
        EntryView { name: self.name@, block: self.block }
    }
}

impl DirectoryEntry {
    /// The name fits the limit.
    pub open spec fn wf(&self) -> bool {
        valid_name(self@.name)
    }

    /// An entry named `name` for `block`.
    pub fn new(name: &[u8], block: BlockIndex) -> (r: Self)
        requires
            name@.len() <= NAME_LEN,
        ensures
            r@ == (EntryView { name: name@, block }),
            r.wf(),
    {
        DirectoryEntry { name: vstd::slice::slice_to_vec(name), block }
    }

    /// The block the entry names.
    pub fn block_id(&self) -> (r: BlockIndex)
        ensures
            r == self@.block,
    {
        self.block
    }

    /// Gives the entry a new name.
    pub fn set_name(&mut self, name: &[u8])
        requires
            name@.len() <= NAME_LEN,
        ensures
            final(self)@ == (EntryView { name: name@, block: old(self)@.block }),
            final(self).wf(),
    {
        self.name = vstd::slice::slice_to_vec(name);
    }

    /// The entry's name.
    pub fn get_name(&self) -> (r: &[u8])
        ensures
            r@ == self@.name,
    {
        self.name.as_slice()
    }

    /// The entry as bytes: name length, name, block id, all integers
    /// little-endian.
    pub fn to_le_bytes(&self) -> (r: Vec<u8>)
        requires
            self.wf(),
        ensures
            r@ == entry_bytes(self@),
    {
        let mut r: Vec<u8> = Vec::new();
        self.append_le_bytes(&mut r);
        assert(r@ =~= entry_bytes(self@));
        r
    }

    /// Appends the entry's bytes to `out`.
    pub fn append_le_bytes(&self, out: &mut Vec<u8>)
        requires
            self.wf(),
        ensures
            final(out)@ == old(out)@ + entry_bytes(self@),
    {
        let name = self.name.as_slice();
        push_u64(out, name.len() as u64);
        out.extend_from_slice(name);
        push_u64(out, self.block);
        assert(final(out)@ =~= old(out)@ + entry_bytes(self@));
    }

    /// Reads the packed entries that make up `bytes`.
    pub fn from_le_bytes(bytes: &[u8]) -> (r: Result<Vec<Self>, DecodeError>)
        ensures
            match r {
                Ok(v) => parse_entries(bytes@) == Ok::<Seq<EntryView>, DecodeError>(
                    entry_views(v@),
                ) && forall|i: int| 0 <= i < v@.len() ==> (#[trigger] v@[i]).wf(),
                Err(e) => parse_entries(bytes@) == Err::<Seq<EntryView>, DecodeError>(e),
            },
    {
        let mut entries: Vec<DirectoryEntry> = Vec::new();
        let len = bytes.len();
        let mut pos: usize = 0;
        assert(bytes@.subrange(0, len as int) =~= bytes@);
        while pos < len
            invariant
                len == bytes@.len(),
                pos <= len,
                parse_entries(bytes@) == prepend(
                    entry_views(entries@),
                    parse_entries(bytes@.subrange(pos as int, len as int)),
                ),
                forall|i: int| 0 <= i < entries@.len() ==> (#[trigger] entries@[i]).wf(),
            decreases len - pos,
        {
            let ghost rest = bytes@.subrange(pos as int, len as int);
            if len - pos < 8 {
                return Err(DecodeError::Truncated);
            }
            let n = read_u64(bytes, pos);
            assert(rest.subrange(0, 8) =~= bytes@.subrange(pos as int, pos + 8));
            if n > NAME_LEN as u64 {
                return Err(DecodeError::NameTooLong);
            }
            let n = n as usize;
            if len - pos < 16 + n {
                return Err(DecodeError::Truncated);
            }
            let name = vstd::slice::slice_to_vec(
                vstd::slice::slice_subrange(bytes, pos + 8, pos + 8 + n),
            );
            assert(rest.subrange(8, 8 + n) =~= name@);
            let block = read_u64(bytes, pos + 8 + n);
            assert(rest.subrange(8 + n, 16 + n) =~= bytes@.subrange(pos + 8 + n, pos + 16 + n));
            assert(rest.subrange(16 + n, rest.len() as int) =~= bytes@.subrange(
                pos + 16 + n,
                len as int,
            ));
            let entry = DirectoryEntry { name, block };
            let ghost old_views = entry_views(entries@);
            entries.push(entry);
            assert(entry_views(entries@) =~= old_views + seq![entry@]);
            pos = pos + 16 + n;
            proof {
                let e = EntryView { name: rest.subrange(8, 8 + n as int), block: block };
                assert(entry@ == e);
                match parse_entries(bytes@.subrange(pos as int, len as int)) {
                    Ok(tail) => {
                        assert(old_views + (seq![e] + tail) =~= (old_views + seq![e]) + tail);
                    },
                    Err(_) => {},
                }
            }
        }
        assert(bytes@.subrange(len as int, len as int) =~= Seq::<u8>::empty());
        assert(entry_views(entries@) + Seq::<EntryView>::empty() =~= entry_views(entries@));
        Ok(entries)
    }
}

/// The bytes of entries followed by one more entry.
pub proof fn lemma_entries_bytes_push(es: Seq<EntryView>, e: EntryView)
    ensures
        entries_bytes(es.push(e)) == entries_bytes(es) + entry_bytes(e),
    decreases es.len(),
{
    if es.len() == 0 {
        assert(es.push(e).drop_first() =~= Seq::<EntryView>::empty());
        assert(es.push(e)[0] == e);
        assert(entries_bytes(Seq::<EntryView>::empty()) == Seq::<u8>::empty());
        assert(entries_bytes(es) == Seq::<u8>::empty());
        assert(entries_bytes(es.push(e)) =~= entry_bytes(e) + Seq::<u8>::empty());
        assert(entries_bytes(es.push(e)) =~= entries_bytes(es) + entry_bytes(e));
    } else {
        assert(es.push(e).drop_first() =~= es.drop_first().push(e));
        assert(es.push(e)[0] == es[0]);
        lemma_entries_bytes_push(es.drop_first(), e);
        assert(entries_bytes(es.push(e)) =~= entries_bytes(es) + entry_bytes(e));
    }
}

/// Decoding the bytes of valid entries gives back those entries.
pub proof fn lemma_entries_round_trip(es: Seq<EntryView>)
    requires
        valid_entries(es),
    ensures
        parse_entries(entries_bytes(es)) == Ok::<Seq<EntryView>, DecodeError>(es),
    decreases es.len(),
{
    let b = entries_bytes(es);
    if es.len() == 0 {
        assert(es =~= Seq::<EntryView>::empty());
    } else {
        let e = es[0];
        let rest = es.drop_first();
        let n = e.name.len() as int;
        assert(valid_name(e.name));
        lemma_le(n as u64, 0);
        lemma_le(e.block, 0);
        assert(b.subrange(0, 8) =~= le(n as u64));
        assert(b.subrange(8, 8 + n) =~= e.name);
        assert(b.subrange(8 + n, 16 + n) =~= le(e.block));
        assert(b.subrange(16 + n, b.len() as int) =~= entries_bytes(rest));
        assert(valid_entries(rest)) by {
            assert forall|i: int| 0 <= i < rest.len() implies valid_name(#[trigger] rest[i].name) by {
                assert(rest[i] == es[i + 1]);
            }
        }
        lemma_entries_round_trip(rest);
        assert(le_value(b.subrange(0, 8)) == n);
        let decoded = EntryView { name: b.subrange(8, 8 + n), block: le_value(b.subrange(8 + n, 16 + n)) };
        assert(decoded == e);
        assert(seq![e] + rest =~= es);
        assert(parse_entries(b) == prepend(seq![decoded], parse_entries(b.subrange(16 + n, b.len() as int))));
    }
}

} // verus!
