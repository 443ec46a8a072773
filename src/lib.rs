//! A hierarchical filesystem stored in an append-only message log with
//! attachments: the block formats, path resolution, the decisions of each
//! filesystem operation, and the chunk encryption discipline.

pub mod command;
pub mod crypto;
pub mod directory_entry;
pub mod error;
pub mod fs;
pub mod le;
pub mod node;
pub mod node_kind;
pub mod nonce_counter;
pub mod path;
pub mod transfer;
pub mod traverse;
pub mod tree;
pub mod walk;
