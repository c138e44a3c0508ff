//! An easy way to cache values for a function. If you have a slow running
//! function, this can be used to speed up successive runs dramatically. It is
//! also quite useful for memoization of recursive functions, to prevent
//! calculating the same function twice in different calls.
//!
//! Of particular note, this caching is done without cloning or copying the
//! stored values: a function may return a large object, and the cache hands
//! back a reference to it instead of a copy.
//!
//! Each cache verifies the central invariant of memoization: every
//! association it holds is one its rule could have produced, a value once
//! stored is never replaced, and a repeated retrieval returns the stored
//! value without recomputation. A recursive rule may further declare the
//! keys its computation installs along the way; a retrieval then guarantees
//! those keys are stored afterwards, so one call populates a recurrence's
//! whole dependency chain.
use vstd::prelude::*;

pub mod btree_cache;
pub mod cache;
pub mod container;
pub mod fn_cache;
pub mod generic_cache;
pub mod hash_cache;
pub mod raw_cache;
pub mod vec_cache;

verus! {

pub use crate::btree_cache::BTreeCache;

pub use crate::fn_cache::{FnCache, FnCacheMany};
pub use crate::generic_cache::GenericCache;
pub use crate::hash_cache::HashCache;
pub use crate::raw_cache::RawCache;
pub use crate::vec_cache::VecCache;

} // verus!
