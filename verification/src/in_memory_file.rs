//! Files held in memory by the cache, with the statistics the cache keeps on them.
use std::sync::Arc;
use vstd::prelude::*;

verus! {

/// Holds information related to the InMemoryFile.
/// This information will be used to determine if the file should be replaced in the cache.
#[derive(Debug, PartialEq, Eq, Clone, Copy)]
pub struct FileStats {
    /// The number of bytes the file contains.
    pub size: usize,
    /// The number of times the file has been requested.
    /// This value can be altered by the `alter_access_count()` method on the `Cache`,
    /// and therefore will not represent the true number of access attempts the file has if that
    /// function is called.
    pub access_count: usize,
    /// The priority score.
    /// This is updated every time the access count is incremented by running the cache's priority function
    /// on the `size` and `access_count`.
    pub priority: usize,
}

/// The structure that represents a file in memory.
/// Keeps an up to date record of its stats so the cache can use this information to remove the file
/// from the cache.
/// The bytes are shared, so that handing a cached file out does not copy it.
#[derive(Debug, Clone, PartialEq, Eq)]
pub struct InMemoryFile {
    pub bytes: Arc<Vec<u8>>,
    pub stats: FileStats,
}

impl View for InMemoryFile {
    type V = (Seq<u8>, FileStats);

    open spec fn view(&self) -> (Seq<u8>, FileStats) {
        ((*self.bytes)@, self.stats)
    }
}

impl InMemoryFile {
    /// Builds the in-memory file for the bytes read from a file: the size is the number of bytes,
    /// the access count and the priority start at 0.
    pub fn from_bytes(bytes: Vec<u8>) -> (r: InMemoryFile)
        ensures
            r@.0 == bytes@,
            r.stats == (FileStats { size: bytes@.len() as usize, access_count: 0, priority: 0 }),
    {
        let size = bytes.len();
        InMemoryFile { bytes: Arc::new(bytes), stats: FileStats { size, access_count: 0, priority: 0 } }
    }
}

} // verus!
