//! What the cache hands out for a requested path.
use crate::in_memory_file::InMemoryFile;
use vstd::prelude::*;

verus! {

/// A file held by the cache, together with the path it was requested by.
/// The bytes are shared with the cache.
#[derive(Debug, Clone)]
pub struct NamedInMemoryFile {
    pub path: String,
    pub file: InMemoryFile,
}

/// The answer to a request for a file: the file from the cache, the file to be read from the
/// file system, or no file.
#[derive(Debug, Clone)]
pub enum CachedFile {
    InMemory(NamedInMemoryFile),
    FileSystem(String),
    NotFound,
}

/// The two answers are the same file: two files from the cache with the same bytes and stats,
/// two files on the file system with the same path, or no file twice.
pub open spec fn answers_same_file(a: CachedFile, b: CachedFile) -> bool {
    match (a, b) {
        (CachedFile::InMemory(x), CachedFile::InMemory(y)) => x.file@ == y.file@,
        (CachedFile::FileSystem(p), CachedFile::FileSystem(q)) => p@ == q@,
        (CachedFile::NotFound, CachedFile::NotFound) => true,
        _ => false,
    }
}

/// Whether two byte vectors hold the same bytes.
fn same_bytes(a: &Vec<u8>, b: &Vec<u8>) -> (r: bool)
    ensures
        r == (a@ == b@),
{
    if a.len() != b.len() {
        return false;
    }
    let mut i: usize = 0;
    while i < a.len()
        invariant
            0 <= i <= a.len(),
            a.len() == b.len(),
            forall|j: int| 0 <= j < i ==> a@[j] == b@[j],
        decreases a.len() - i,
    {
        if a[i] != b[i] {
            return false;
        }
        i = i + 1;
    }
    proof {
        assert(a@ =~= b@);
    }
    true
}

impl CachedFile {
    /// Compares two answers: files from the cache by their bytes and stats, files on the file
    /// system by their paths.
    pub fn same_file(&self, other: &CachedFile) -> (r: bool)
        ensures
            r == answers_same_file(*self, *other),
    {
        match (self, other) {
            (CachedFile::InMemory(x), CachedFile::InMemory(y)) => {
                let xs = x.file.stats;
                let ys = y.file.stats;
                xs.size == ys.size && xs.access_count == ys.access_count && xs.priority == ys.priority
                    && same_bytes(&*x.file.bytes, &*y.file.bytes)
            },
            (CachedFile::FileSystem(p), CachedFile::FileSystem(q)) => *p == *q,
            (CachedFile::NotFound, CachedFile::NotFound) => true,
            _ => false,
        }
    }
}

} // verus!
