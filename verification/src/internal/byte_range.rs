//! Byte ranges as the internal pipeline uses them: the crate's
//! [`ByteRange`](crate::byte_range::ByteRange), created from tree-sitter
//! nodes by [`ByteRange::from_ts_node`](crate::byte_range::ByteRange::from_ts_node).

pub use crate::byte_range::{to_u32, ByteRange};
