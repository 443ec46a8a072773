//! Uploading and downloading a file's data: chunks of at most `BLOCK_SIZE`
//! bytes, in order, the i-th sealed and opened with the i-th nonce.
use crate::crypto::{aead_open, aead_seal, open_chunk, seal_chunk, KEY_SIZE, P_MAX, TAG_SIZE};
use crate::directory_entry::{BlockIndex, EntryView};
use crate::error::FsError;
use crate::fs::{insert_entry, insert_refusal};
use crate::node::{
    fits, lemma_blocks_bytes, lemma_header_len, names_unique, node_bytes, valid_node, Node,
    NodeView, BLOCK_COUNT, BLOCK_SIZE, MAX_FILE_SIZE,
};
use crate::node_kind::NodeKind;
use crate::nonce_counter::{nonce_bytes, NonceCounter};
use vstd::prelude::*;

verus! {

/// The sum of a sequence of chunk lengths.
pub open spec fn sum(s: Seq<u64>) -> nat
    decreases s.len(),
{
    if s.len() == 0 {
        0
    } else {
        sum(s.drop_last()) + s.last() as nat
    }
}

/// The length of the chunk that starts after `sent` of `total` bytes.
pub open spec fn chunk_len(total: u64, sent: u64) -> u64 {
    if total - sent < BLOCK_SIZE {
        (total - sent) as u64
    } else {
        BLOCK_SIZE as u64
    }
}

/// Where an upload stands.
pub struct UploadView {
    pub key: Seq<u8>,
    /// Chunks sealed so far; the next chunk takes this nonce.
    pub counter: u64,
    /// The file's size.
    pub total: u64,
    /// Bytes sealed so far.
    pub sent: u64,
    /// The length of the chunk sealed but not yet recorded, if any.
    pub pending: Option<u64>,
    /// The lengths of the chunks sealed so far, in order.
    pub lens: Seq<u64>,
    /// The chunks sealed so far, in order.
    pub chunks: Seq<Seq<u8>>,
    /// What each of them was sealed to.
    pub sealed: Seq<Seq<u8>>,
    /// The file node being filled.
    pub file: NodeView,
}

/// An upload of one file.
pub struct Upload {
    key: Vec<u8>,
    nonce: NonceCounter,
    total: u64,
    sent: u64,
    pending: Option<u64>,
    lens: Ghost<Seq<u64>>,
    chunks: Ghost<Seq<Seq<u8>>>,
    sealed: Ghost<Seq<Seq<u8>>>,
    file: Node,
}

impl View for Upload {
    type V = UploadView;

    closed spec fn view(&self) -> UploadView {
        UploadView {
            key: self.key@,
            counter: self.nonce@,
            total: self.total,
            sent: self.sent,
            pending: self.pending,
            lens: self.lens@,
            chunks: self.chunks@,
            sealed: self.sealed@,
            file: self.file@,
        }
    }
}

/// The file's blocks fit a node.
proof fn lemma_file_fits(n: NodeView)
    requires
        n.kind == NodeKind::File,
        n.blocks.len() <= BLOCK_COUNT,
    ensures
        fits(n),
{
    lemma_header_len(n);
    lemma_blocks_bytes(n.blocks);
}

impl Upload {
    /// The counts agree: the file records every chunk sealed but the
    /// pending one, its size is the sum of their lengths, and every chunk
    /// before the last is a full block.
    pub open spec fn wf(&self) -> bool {
        let v = self@;
        &&& v.key.len() == KEY_SIZE
        &&& v.total <= MAX_FILE_SIZE
        &&& v.sent <= v.total
        &&& valid_node(v.file)
        &&& v.file.kind == NodeKind::File
        &&& v.counter <= BLOCK_COUNT
        &&& v.counter == v.lens.len()
        &&& v.chunks.len() == v.counter && v.sealed.len() == v.counter
        &&& forall|i: int|
            0 <= i < v.counter ==> #[trigger] v.sealed[i] == aead_seal(
                v.key,
                nonce_bytes(i as u64),
                v.chunks[i],
            ) && v.chunks[i].len() == v.lens[i]
        &&& v.sent == sum(v.lens)
        &&& v.sent < v.total ==> v.sent == v.counter * BLOCK_SIZE
        &&& v.sent <= v.counter * BLOCK_SIZE
        &&& v.counter > 0 ==> (v.counter - 1) * BLOCK_SIZE < v.sent
        &&& match v.pending {
            None => v.file.size == v.sent && v.file.blocks.len() == v.counter,
            Some(l) => v.file.size + l == v.sent && v.file.blocks.len() + 1 == v.counter,
        }
    }

    /// An upload of `total` bytes under `key` into a new file node inside
    /// `parent`.
    pub fn new(key: &[u8], total: u64, parent: BlockIndex) -> (r: Result<Upload, FsError>)
        requires
            key@.len() == KEY_SIZE,
        ensures
            total > MAX_FILE_SIZE ==> r == Err::<Upload, FsError>(FsError::FileTooLarge),
            total <= MAX_FILE_SIZE && parent == 0 ==> r == Err::<Upload, FsError>(
                FsError::ReservedBlockId,
            ),
            total <= MAX_FILE_SIZE && parent != 0 ==> r is Ok,
            r matches Ok(u) ==> u.wf() && u@ == (UploadView {
                key: key@,
                counter: 0,
                total,
                sent: 0,
                pending: None,
                lens: Seq::empty(),
                chunks: Seq::empty(),
                sealed: Seq::empty(),
                file: NodeView {
                    kind: NodeKind::File,
                    size: 0,
                    parent,
                    blocks: Seq::empty(),
                    entries: Seq::empty(),
                },
            }),
    {
        if total > MAX_FILE_SIZE {
            return Err(FsError::FileTooLarge);
        }
        if parent == 0 {
            return Err(FsError::ReservedBlockId);
        }
        Ok(
            Upload {
                key: vstd::slice::slice_to_vec(key),
                nonce: NonceCounter::new(),
                total,
                sent: 0,
                pending: None,
                lens: Ghost(Seq::empty()),
                chunks: Ghost(Seq::empty()),
                sealed: Ghost(Seq::empty()),
                file: Node::new(NodeKind::File, parent),
            },
        )
    }

    /// The file node as it stands, encoded.
    pub fn file_bytes(&self) -> (r: Vec<u8>)
        requires
            self.wf(),
        ensures
            r@ == node_bytes(self@.file),
    {
        proof {
            lemma_file_fits(self@.file);
        }
        self.file.to_bytes()
    }

    /// The length of the next chunk to read, or `None` once the whole file
    /// is sealed.
    pub fn next_chunk_len(&self) -> (r: Option<usize>)
        requires
            self.wf(),
        ensures
            self@.sent == self@.total ==> r is None,
            self@.sent < self@.total ==> r == Some(chunk_len(self@.total, self@.sent) as usize),
    {
        if self.sent == self.total {
            None
        } else if self.total - self.sent < BLOCK_SIZE as u64 {
            Some((self.total - self.sent) as usize)
        } else {
            Some(BLOCK_SIZE)
        }
    }

    /// Seals the next chunk with the next nonce.
    pub fn seal_chunk(&mut self, chunk: &[u8]) -> (r: Vec<u8>)
        requires
            old(self).wf(),
            old(self)@.pending is None,
            old(self)@.sent < old(self)@.total,
            chunk@.len() == chunk_len(old(self)@.total, old(self)@.sent),
        ensures
            final(self).wf(),
            old(self)@.sent == old(self)@.counter * BLOCK_SIZE,
            r@ == aead_seal(old(self)@.key, nonce_bytes(old(self)@.counter), chunk@),
            r@.len() == chunk@.len() + TAG_SIZE,
            final(self)@ == (UploadView {
                counter: (old(self)@.counter + 1) as u64,
                sent: (old(self)@.sent + chunk@.len()) as u64,
                pending: Some(chunk@.len() as u64),
                lens: old(self)@.lens.push(chunk@.len() as u64),
                chunks: old(self)@.chunks.push(chunk@),
                sealed: old(self)@.sealed.push(r@),
                ..old(self)@
            }),
    {
        let ghost c = self@.counter;
        assert(c < BLOCK_COUNT) by (nonlinear_arith)
            requires
                self@.sent == c * BLOCK_SIZE,
                self@.sent < self@.total,
                self@.total <= MAX_FILE_SIZE,
                MAX_FILE_SIZE == BLOCK_SIZE * BLOCK_COUNT,
        ;
        let nonce = self.nonce.get_nonce();
        let sealed = seal_chunk(self.key.as_slice(), &nonce, chunk);
        let len = chunk.len() as u64;
        self.sent = self.sent + len;
        self.pending = Some(len);
        self.lens = Ghost(self.lens@.push(len));
        self.chunks = Ghost(self.chunks@.push(chunk@));
        self.sealed = Ghost(self.sealed@.push(sealed@));
        proof {
            assert(self.lens@.drop_last() =~= old(self)@.lens);
            assert(self@.sent <= (c + 1) * BLOCK_SIZE && c * BLOCK_SIZE < self@.sent) by (nonlinear_arith)
                requires
                    self@.sent == c * BLOCK_SIZE + len,
                    0 < len <= BLOCK_SIZE,
            ;
            if self@.sent < self@.total {
                assert(len == BLOCK_SIZE);
                assert(self@.sent == (c + 1) * BLOCK_SIZE) by (nonlinear_arith)
                    requires
                        self@.sent == c * BLOCK_SIZE + BLOCK_SIZE,
                ;
            }
        }
        sealed
    }

    /// Records the block that now holds the sealed chunk.
    pub fn record_block(&mut self, block: BlockIndex)
        requires
            old(self).wf(),
            old(self)@.pending is Some,
        ensures
            final(self).wf(),
            final(self)@ == (UploadView {
                pending: None,
                file: NodeView {
                    size: (old(self)@.file.size + old(self)@.pending->0) as u64,
                    blocks: old(self)@.file.blocks.push(block),
                    ..old(self)@.file
                },
                ..old(self)@
            }),
    {
        let len = self.pending.unwrap();
        self.file.push_data_block(block, len);
        self.pending = None;
    }

    /// Ends the upload once every chunk is recorded: the file node gets its
    /// entry `name` in `dir`. Returns the encodings of the file node and of
    /// `dir`, to be written in that order, so that the entry appears only
    /// once the file is complete.
    pub fn finish(self, dir: &mut Node, name: &[u8], file_id: BlockIndex) -> (r: Result<
        UploadWrites,
        FsError,
    >)
        requires
            self.wf(),
            self@.pending is None,
            self@.sent == self@.total,
            old(dir).wf(),
        ensures
            final(dir).wf(),
            self@.file.size == self@.total,
            self@.file.size == sum(self@.lens),
            self@.file.blocks.len() == self@.lens.len(),
            self@.total > 0 ==> (self@.lens.len() - 1) * BLOCK_SIZE < self@.total <= self@.lens.len()
                * BLOCK_SIZE,
            self@.total == 0 ==> self@.lens.len() == 0,
            forall|i: int|
                0 <= i < self@.lens.len() ==> #[trigger] self@.sealed[i] == aead_seal(
                    self@.key,
                    nonce_bytes(i as u64),
                    self@.chunks[i],
                ) && self@.chunks[i].len() == self@.lens[i],
            insert_refusal(old(dir)@, name@) is Some ==> r == Err::<UploadWrites, FsError>(
                insert_refusal(old(dir)@, name@)->0,
            ),
            insert_refusal(old(dir)@, name@) is None && file_id == 0 ==> r == Err::<
                UploadWrites,
                FsError,
            >(FsError::ReservedBlockId),
            insert_refusal(old(dir)@, name@) is None && file_id != 0 ==> final(dir)@ == (NodeView {
                size: (old(dir)@.size + 1) as u64,
                entries: old(dir)@.entries.push(EntryView { name: name@, block: file_id }),
                ..old(dir)@
            }),
            insert_refusal(old(dir)@, name@) is None && file_id != 0 && fits(final(dir)@) ==> r
                is Ok,
            r matches Ok(w) ==> w.file@ == node_bytes(self@.file) && w.directory@ == node_bytes(
                final(dir)@,
            ),
            names_unique(old(dir)@.entries) ==> names_unique(final(dir)@.entries),
    {
        let file = self.file_bytes();
        match insert_entry(dir, name, file_id) {
            Ok(d) => Ok(UploadWrites { file, directory: d }),
            Err(e) => Err(e),
        }
    }
}

/// The two blocks that end an upload, in the order to write them.
pub struct UploadWrites {
    /// The complete file node.
    pub file: Vec<u8>,
    /// The directory with the file's entry.
    pub directory: Vec<u8>,
}

/// The data blocks to download for `node`, which must be a file.
pub fn download_blocks(node: &Node) -> (r: Result<&Vec<BlockIndex>, FsError>)
    ensures
        node@.kind == NodeKind::File ==> (r matches Ok(b) && b@ == node@.blocks),
        node@.kind == NodeKind::Directory ==> r == Err::<&Vec<BlockIndex>, FsError>(
            FsError::NotAFile,
        ),
{
    if node.kind() == NodeKind::File {
        Ok(node.blocks())
    } else {
        Err(FsError::NotAFile)
    }
}

/// A download of one file: opens its blocks in order.
pub struct Download {
    key: Vec<u8>,
    nonce: NonceCounter,
}

impl Download {
    /// The key the download opens with.
    pub closed spec fn key(&self) -> Seq<u8> {
        self.key@
    }

    /// The nonce the next block opens with.
    pub closed spec fn counter(&self) -> u64 {
        self.nonce@
    }

    /// A download under `key`, starting at the first nonce.
    pub fn new(key: &[u8]) -> (r: Download)
        requires
            key@.len() == KEY_SIZE,
        ensures
            r.key() == key@,
            r.counter() == 0,
    {
        Download { key: vstd::slice::slice_to_vec(key), nonce: NonceCounter::new() }
    }

    /// Opens the next block with the next nonce. A block that `Upload`
    /// sealed at the same place under the same key opens to its chunk.
    pub fn open_block(&mut self, block: &[u8]) -> (r: Result<Vec<u8>, FsError>)
        requires
            old(self).key().len() == KEY_SIZE,
        ensures
            final(self).key() == old(self).key(),
            old(self).counter() == u64::MAX ==> r == Err::<Vec<u8>, FsError>(
                FsError::NonceExhausted,
            ),
            old(self).counter() < u64::MAX ==> {
                let n = nonce_bytes(old(self).counter());
                &&& final(self).counter() == old(self).counter() + 1
                &&& r is Ok ==> aead_open(old(self).key(), n, block@) == Some(r->Ok_0@)
                &&& r is Err ==> aead_open(old(self).key(), n, block@) is None && r
                    == Err::<Vec<u8>, FsError>(FsError::DecryptionFailed)
                &&& forall|p: Seq<u8>|
                    #[trigger] aead_seal(old(self).key(), n, p) == block@ && p.len() <= P_MAX ==> (r
                        is Ok && r->Ok_0@ == p)
            },
    {
        if self.nonce.count() == u64::MAX {
            return Err(FsError::NonceExhausted);
        }
        let nonce = self.nonce.get_nonce();
        open_chunk(self.key.as_slice(), &nonce, block)
    }
}

} // verus!
