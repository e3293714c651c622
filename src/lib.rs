//! A CSV reader that tokenizes a byte buffer with a finite-state machine,
//! splits the data rows into line-aligned shards, fills one flat row-major
//! table shard by shard, and merges per-shard column type inferences.

pub mod cell;
pub mod parse_state;
pub mod scan;
pub mod header;
pub mod parser;
pub mod partition;
pub mod iter;
pub mod dframe;
pub mod table;
pub mod determinism;
