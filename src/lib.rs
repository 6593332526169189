//! Session logic of a kernel-facing filesystem adapter over a block-addressed
//! entity store: parent hints for inodes, the open-handle table, attribute
//! mapping, a full-tree resolver and the per-operation decisions.
pub mod ino_cache;
pub mod handles;
pub mod node;
pub mod attrs;
pub mod resolver;
pub mod session;
