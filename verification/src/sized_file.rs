//! A file in memory together with its size.
use vstd::prelude::*;

verus! {

/// The structure that represents a file in memory.
/// Keeps a copy of the size of the file so the size can be used in calculating if it should be
/// removed from the cache.
#[derive(Clone, Debug)]
pub struct SizedFile {
    pub bytes: Vec<u8>,
    pub size: usize,
}

impl SizedFile {
    /// Builds the sized file for the bytes read from a file: the size is the number of bytes.
    pub fn from_bytes(bytes: Vec<u8>) -> (r: SizedFile)
        ensures
            r.bytes@ == bytes@,
            r.size == bytes@.len(),
    {
        let size = bytes.len();
        SizedFile { bytes, size }
    }
}

} // verus!
