//! Why a block could not be decoded, and why a filesystem operation refused.
use vstd::prelude::*;

verus! {

/// Why bytes are not a well-formed block.
#[derive(Clone, Copy, Debug, PartialEq, Eq, Structural)]
pub enum DecodeError {
    /// The bytes end inside a field.
    Truncated,
    /// A stored name is longer than the name limit.
    NameTooLong,
    /// The block is larger than a block may be.
    TooLarge,
    /// The kind field holds neither kind.
    InvalidKind,
    /// A directory's entry count differs from its number of entries.
    EntryCountMismatch,
    /// A file reports a size above the largest file size.
    FileTooLarge,
    /// A file's block list is not a whole number of block ids.
    MisalignedBlocks,
}

/// Why a filesystem operation refused or failed.
#[derive(Clone, Copy, Debug, PartialEq, Eq, Structural)]
pub enum FsError {
    /// A path does not start with `/`.
    NotAbsolute,
    /// A path holds two `/` in a row.
    EmptySegment,
    /// A path names a directory where a file is wanted.
    DirectoryNotAllowed,
    /// A path names a file where a directory is wanted.
    DirectoryRequired,
    /// A path has no name after its parent directory.
    MissingName,
    /// No entry has the name a path asks for.
    NotFound,
    /// A node that should be a directory is a file.
    NotADirectory,
    /// A node that should be a file is a directory.
    NotAFile,
    /// The directory already has an entry of that name.
    AlreadyExists,
    /// The directory holds as many entries as it may.
    DirectoryFull,
    /// A node would not fit one block.
    BlockOverflow,
    /// A name is longer than the name limit.
    NameTooLong,
    /// A name is empty or has a `/` but as its last byte.
    InvalidName,
    /// A file is larger than the largest file size.
    FileTooLarge,
    /// The key material is shorter than a key.
    KeyTooShort,
    /// The nonce counter has run out.
    NonceExhausted,
    /// A chunk did not authenticate.
    DecryptionFailed,
    /// The operation may not act on the root directory.
    RootNotAllowed,
    /// A directory is removed without asking for recursion.
    RecursionRequired,
    /// A file is removed while asking for recursion.
    RecursionNotAllowed,
    /// A directory would move into itself.
    MoveIntoItself,
    /// A new name has a `/` where none may stand.
    InvalidNewName,
    /// The log handed out block id 0, which stands for "no parent".
    ReservedBlockId,
    /// The log's topic is not a block id.
    InvalidTopic,
    /// A block is not a well-formed node.
    Corrupt(DecodeError),
}

impl FsError {
    /// A sentence that says what went wrong.
    pub fn message(&self) -> (r: &'static str)
        ensures
            *self == FsError::NotAbsolute ==> r@ == "Paths must start with a '/'"@,
            *self == FsError::EmptySegment ==> r@ == "Consecutive '/' are not permitted"@,
            *self == FsError::DirectoryNotAllowed ==> r@ == "Directories not allowed"@,
            *self == FsError::DirectoryRequired ==> r@ == "Directories are required"@,
            *self == FsError::MissingName ==> r@ == "Target path must have trailing filename"@,
            *self == FsError::NotFound ==> r@ == "Directory entry doesn't exist"@,
            *self == FsError::NotADirectory ==> r@ == "Node is not a directory"@,
            *self == FsError::NotAFile ==> r@ == "Node is not a file"@,
            *self == FsError::AlreadyExists ==> r@ == "The file already exists"@,
            *self == FsError::DirectoryFull ==> r@ == "The directory is full"@,
            *self == FsError::BlockOverflow ==> r@ == "Node exceeds the block size"@,
            *self == FsError::NameTooLong ==> r@ == "Name exceeds the directory entry name size"@,
            *self == FsError::InvalidName ==> r@ == "Names must not be empty nor have a '/' but a trailing one"@,
            *self == FsError::FileTooLarge ==> r@ == "File exceeds maximum file size"@,
            *self == FsError::KeyTooShort ==> r@ == "Key must be at least 32 bytes"@,
            *self == FsError::NonceExhausted ==> r@ == "Nonce counter overflow"@,
            *self == FsError::DecryptionFailed ==> r@ == "Failed to decrypt data"@,
            *self == FsError::RootNotAllowed ==> r@ == "Cannot act on the root directory"@,
            *self == FsError::RecursionRequired ==> r@ == "Directories must be deleted recursively"@,
            *self == FsError::RecursionNotAllowed ==> r@ == "Files cannot be deleted recursively"@,
            *self == FsError::MoveIntoItself ==> r@ == "Cannot move a directory into itself"@,
            *self == FsError::InvalidNewName ==> r@ == "New name must have no '/' but a trailing one for directories"@,
            *self == FsError::ReservedBlockId ==> r@ == "The log returned the reserved block id 0"@,
            *self == FsError::InvalidTopic ==> r@ == "Only the root message ID should be in the channel topic and be a valid u64"@,
            self is Corrupt ==> r@ == "Malformed node block"@,
    {
        proof {
            reveal_strlit("Paths must start with a '/'");
            reveal_strlit("Consecutive '/' are not permitted");
            reveal_strlit("Directories not allowed");
            reveal_strlit("Directories are required");
            reveal_strlit("Target path must have trailing filename");
            reveal_strlit("Directory entry doesn't exist");
            reveal_strlit("Node is not a directory");
            reveal_strlit("Node is not a file");
            reveal_strlit("The file already exists");
            reveal_strlit("The directory is full");
            reveal_strlit("Node exceeds the block size");
            reveal_strlit("Name exceeds the directory entry name size");
            reveal_strlit("Names must not be empty nor have a '/' but a trailing one");
            reveal_strlit("File exceeds maximum file size");
            reveal_strlit("Key must be at least 32 bytes");
            reveal_strlit("Nonce counter overflow");
            reveal_strlit("Failed to decrypt data");
            reveal_strlit("Cannot act on the root directory");
            reveal_strlit("Directories must be deleted recursively");
            reveal_strlit("Files cannot be deleted recursively");
            reveal_strlit("Cannot move a directory into itself");
            reveal_strlit("New name must have no '/' but a trailing one for directories");
            reveal_strlit("The log returned the reserved block id 0");
            reveal_strlit("Only the root message ID should be in the channel topic and be a valid u64");
            reveal_strlit("Malformed node block");
        }
        match self {
            FsError::NotAbsolute => "Paths must start with a '/'",
            FsError::EmptySegment => "Consecutive '/' are not permitted",
            FsError::DirectoryNotAllowed => "Directories not allowed",
            FsError::DirectoryRequired => "Directories are required",
            FsError::MissingName => "Target path must have trailing filename",
            FsError::NotFound => "Directory entry doesn't exist",
            FsError::NotADirectory => "Node is not a directory",
            FsError::NotAFile => "Node is not a file",
            FsError::AlreadyExists => "The file already exists",
            FsError::DirectoryFull => "The directory is full",
            FsError::BlockOverflow => "Node exceeds the block size",
            FsError::NameTooLong => "Name exceeds the directory entry name size",
            FsError::InvalidName => "Names must not be empty nor have a '/' but a trailing one",
            FsError::FileTooLarge => "File exceeds maximum file size",
            FsError::KeyTooShort => "Key must be at least 32 bytes",
            FsError::NonceExhausted => "Nonce counter overflow",
            FsError::DecryptionFailed => "Failed to decrypt data",
            FsError::RootNotAllowed => "Cannot act on the root directory",
            FsError::RecursionRequired => "Directories must be deleted recursively",
            FsError::RecursionNotAllowed => "Files cannot be deleted recursively",
            FsError::MoveIntoItself => "Cannot move a directory into itself",
            FsError::InvalidNewName => "New name must have no '/' but a trailing one for directories",
            FsError::ReservedBlockId => "The log returned the reserved block id 0",
            FsError::InvalidTopic => "Only the root message ID should be in the channel topic and be a valid u64",
            FsError::Corrupt(_) => "Malformed node block",
        }
    }
}

} // verus!
