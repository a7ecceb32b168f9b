//! A cache of files held in memory, deciding by a priority score which files to keep.
//!
//! The cache decides; its caller reads the file system. `Cache::get` answers a request with the
//! file from the cache, or with what the caller is to read next and which method of the cache
//! completes the request.
use vstd::prelude::*;

pub mod priority_function;
pub mod in_memory_file;
pub mod sized_file;
pub mod entries;
pub mod conc_map;
pub mod cached_file;
pub mod eviction;
pub mod cache;
pub mod cache_builder;
pub mod laws;

pub use cache::{AgeOut, Cache, CacheError, CacheMaps, CountFunction, GetAction, KeepCount};
pub use cache_builder::{CacheBuildError, CacheBuilder};
pub use cached_file::{CachedFile, NamedInMemoryFile};
pub use in_memory_file::{FileStats, InMemoryFile};
pub use priority_function::{
    access_priority_function, default_priority_function, normal_priority_function,
    small_files_access_priority_function, small_files_priority_function, AccessPriority,
    DefaultPriority, NormalPriority, PriorityFunction, SmallFilesAccessPriority,
    SmallFilesPriority,
};
pub use sized_file::SizedFile;

verus! {
}
