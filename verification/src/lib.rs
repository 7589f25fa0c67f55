//! LRU-K eviction policy tracker for a fixed-capacity frame pool.
//!
//! The tracker remembers, for each tracked frame, the timestamps of its last
//! `k` accesses, and selects eviction victims by backward K-distance: frames
//! with fewer than `k` recorded accesses are treated as infinitely distant
//! and evicted first; ties are broken by the older most-recent access, then
//! by the smaller frame id.

pub mod error;
pub mod history;
pub mod order;
pub mod replacer;

pub use crate::error::CustomError;
pub use crate::error::CustomResult;
pub use crate::history::LRUKNode;
pub use crate::replacer::FrameId;
pub use crate::replacer::LRUKReplacer;
