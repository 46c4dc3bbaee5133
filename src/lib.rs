//! Packed storage for bloom filters: a dense bit vector with word-wise
//! boolean algebra, and a vector of saturating 4-bit counters for counting
//! bloom filters.

pub mod bitvec;
pub mod counting;
pub mod error;
pub mod storage;

pub use bitvec::{BloomBitVec, BITS_PER_WORD};
pub use counting::{CountingVec, COUNTERS_PER_WORD, COUNTER_MAX};
pub use error::VecError;
pub use storage::{Storage, StorageMut};
