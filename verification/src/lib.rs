//! A tier-aware cache hierarchy: an in-process LRU cache with prefix
//! invalidation, a prefix index for key-group invalidation, a durable
//! byte store, and the decision logic that walks the tiers in order.

pub mod error;
pub mod hierarchical;
pub mod memory;
pub mod model;
pub mod prefix_index;
pub mod recency;
pub mod sled_store;
pub mod text;
