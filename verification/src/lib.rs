//! Core execution substrate for a distributed data-processing framework:
//! a typed record value model, a partitioned byte-range source with retry,
//! and the bookkeeping of a two-level work pool (round-robin dispatch,
//! per-worker FIFO response demultiplexing, drop-safe slot reclamation).

pub mod bits;
pub mod path;
pub mod pool;
pub mod read;
pub mod s3;
pub mod schema;
pub mod types;
pub mod util;
pub mod value;
