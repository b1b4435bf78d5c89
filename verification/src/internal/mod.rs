//! Internal building blocks of the chunking pipeline.

pub mod byte_range;
pub mod materialize;
pub mod node;
pub mod order;
pub mod partition;
pub mod tree;
pub mod ts;
