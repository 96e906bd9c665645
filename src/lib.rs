//! Order-insensitive fingerprints of directory trees: a breadth-first shape
//! digest of child counts, XOR-combined with a parallel fold of per-node
//! value hashes.

pub mod digest;
pub mod laws;
pub mod listing;
pub mod tree;

pub use digest::{hash_val, le_bytes_of, xor_pair, IO};
pub use listing::Entry;
pub use tree::{Nodes, Tree};
