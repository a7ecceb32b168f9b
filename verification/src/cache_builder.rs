//! Configuring and building a cache.
use crate::cache::{AgeOut, Cache, CountFunction, KeepCount};
use crate::in_memory_file::FileStats;
use crate::priority_function::{DefaultPriority, PriorityFunction};
use vstd::prelude::*;

verus! {

/// Error types that can be encountered when a cache is built.
#[derive(Debug, PartialEq, Eq, Structural, Clone, Copy)]
pub enum CacheBuildError {
    MinFileSizeIsLargerThanMaxFileSize,
}

/// A builder for Caches.
pub struct CacheBuilder<P: PriorityFunction = DefaultPriority, A: CountFunction = KeepCount> {
    pub size_limit: Option<usize>,
    pub accesses_per_refresh: Option<usize>,
    pub concurrency: Option<u16>,
    pub priority_function: P,
    pub min_file_size: Option<usize>,
    pub max_file_size: Option<usize>,
    pub age_out: Option<AgeOut<A>>,
}

impl CacheBuilder {
    /// Create a new CacheBuilder: no setting is given, and the priority function is the default one.
    pub fn new() -> (r: CacheBuilder)
        ensures
            r.size_limit is None,
            r.accesses_per_refresh is None,
            r.concurrency is None,
            r.priority_function == DefaultPriority,
            r.min_file_size is None,
            r.max_file_size is None,
            r.age_out is None,
    {
        CacheBuilder {
            size_limit: None,
            accesses_per_refresh: None,
            concurrency: None,
            priority_function: DefaultPriority,
            min_file_size: None,
            max_file_size: None,
            age_out: None,
        }
    }
}

impl<P: PriorityFunction, A: CountFunction> CacheBuilder<P, A> {
    /// Refreshing is set to count modulo a nonzero number of accesses, as the setter ensures.
    pub open spec fn valid_settings(&self) -> bool {
        self.accesses_per_refresh != Some(0usize)
    }

    /// Makes the cache age out: whenever the count of accesses to the whole cache (from 0,
    /// wrapping around) is a multiple of `accesses_limit`, the `age_out_function` runs on every
    /// per-file access count. A limit of 0 never ages out.
    pub fn age_out<B: CountFunction>(self, accesses_limit: usize, age_out_function: B) -> (r: CacheBuilder<P, B>)
        ensures
            r.age_out matches Some(a) && a.accesses_limit == accesses_limit && a.access_count == 0
                && a.age_out_function == age_out_function,
            r.size_limit == self.size_limit,
            r.accesses_per_refresh == self.accesses_per_refresh,
            r.concurrency == self.concurrency,
            r.priority_function == self.priority_function,
            r.min_file_size == self.min_file_size,
            r.max_file_size == self.max_file_size,
    {
        CacheBuilder {
            size_limit: self.size_limit,
            accesses_per_refresh: self.accesses_per_refresh,
            concurrency: self.concurrency,
            priority_function: self.priority_function,
            min_file_size: self.min_file_size,
            max_file_size: self.max_file_size,
            age_out: Some(AgeOut { accesses_limit, access_count: 0, age_out_function }),
        }
    }

    /// Sets the maximum number of bytes (as they exist in the FS) that the cache can hold.
    /// The cache will take up more space in memory due to the backing concurrent HashMap it uses.
    /// The memory overhead can be controlled by setting the concurrency parameter.
    ///
    /// # Arguments
    /// * size_limit - The number of bytes the cache will be able to hold.
    pub fn size_limit(self, size_limit: usize) -> (r: Self)
        ensures
            r == (CacheBuilder { size_limit: Some(size_limit), ..self }),
    {
        CacheBuilder { size_limit: Some(size_limit), ..self }
    }

    /// Sets the concurrency setting of the concurrent hashmap backing the cache.
    /// A higher concurrency setting allows more threads to access the hashmap at the expense of more memory use.
    /// The default is 16.
    pub fn concurrency(self, concurrency: u16) -> (r: Self)
        ensures
            r == (CacheBuilder { concurrency: Some(concurrency), ..self }),
    {
        CacheBuilder { concurrency: Some(concurrency), ..self }
    }

    /// Sets the number of times a file can be accessed from the cache before it will be refreshed from the disk.
    /// By providing 1000, that will instruct the cache to refresh the file every 1000 times its accessed.
    /// By default, the cache will not refresh the file.
    ///
    /// This should be useful if you anticipate bitrot for the cache contents in RAM, as it will
    /// refresh the file from the FileSystem, meaning that if there is an error in the cached data,
    /// it will only be served for an average of n/2 accesses before the automatic refresh replaces it
    /// with an assumed correct copy.
    /// Using ECC RAM should mitigate the possibility of bitrot.
    ///
    /// Values of 0 or 1 are not allowed: something modulo 0 is undefined, and refreshing on every
    /// access is less efficient than just accessing the files directly.
    pub fn accesses_per_refresh(self, accesses: usize) -> (r: Self)
        requires
            accesses >= 2,
        ensures
            r == (CacheBuilder { accesses_per_refresh: Some(accesses), ..self }),
    {
        CacheBuilder { accesses_per_refresh: Some(accesses), ..self }
    }

    /// Override the default priority function used for determining if the cache should hold a file.
    /// By default a score is calculated using the square root of the size of a file, times the number
    /// of times it was accessed.
    /// Files with higher priority scores will be kept in the cache when files with lower scores are
    /// added.
    /// If there isn't room in the cache for two files, the one with the lower score will be removed /
    /// won't be added.
    ///
    /// The priority function should be kept simple, as it is calculated on every file in the cache
    /// every time a new file is attempted to be added.
    pub fn priority_function<Q: PriorityFunction>(self, priority_function: Q) -> (r: CacheBuilder<Q, A>)
        ensures
            r.priority_function == priority_function,
            r.size_limit == self.size_limit,
            r.accesses_per_refresh == self.accesses_per_refresh,
            r.concurrency == self.concurrency,
            r.min_file_size == self.min_file_size,
            r.max_file_size == self.max_file_size,
            r.age_out == self.age_out,
    {
        CacheBuilder {
            size_limit: self.size_limit,
            accesses_per_refresh: self.accesses_per_refresh,
            concurrency: self.concurrency,
            priority_function,
            min_file_size: self.min_file_size,
            max_file_size: self.max_file_size,
            age_out: self.age_out,
        }
    }

    /// Set the minimum size in bytes for files that can be stored in the cache
    pub fn min_file_size(self, min_size: usize) -> (r: Self)
        ensures
            r == (CacheBuilder { min_file_size: Some(min_size), ..self }),
    {
        CacheBuilder { min_file_size: Some(min_size), ..self }
    }

    /// Set the maximum size in bytes for files that can be stored in the cache
    pub fn max_file_size(self, max_size: usize) -> (r: Self)
        ensures
            r == (CacheBuilder { max_file_size: Some(max_size), ..self }),
    {
        CacheBuilder { max_file_size: Some(max_size), ..self }
    }

    /// Finalize the cache.
    ///
    /// Fails when both file size bounds are set and the minimum is larger than the maximum.
    /// An unset size limit is `usize::MAX`, an unset minimum file size 0, an unset maximum
    /// `usize::MAX`.
    pub fn build(self) -> (r: Result<Cache<P, A>, CacheBuildError>)
        requires
            self.valid_settings(),
        ensures
            r is Err <==> (self.min_file_size matches Some(min) && self.max_file_size matches Some(max) && min > max),
            r matches Err(e) ==> e == CacheBuildError::MinFileSizeIsLargerThanMaxFileSize,
            r matches Ok(c) ==> {
                &&& c.wf()
                &&& c.size_limit == match self.size_limit {
                    Some(s) => s,
                    None => usize::MAX,
                }
                &&& c.min_file_size == match self.min_file_size {
                    Some(s) => s,
                    None => 0,
                }
                &&& c.max_file_size == match self.max_file_size {
                    Some(s) => s,
                    None => usize::MAX,
                }
                &&& c.priority_function == self.priority_function
                &&& c.age_out == self.age_out
                &&& c.accesses_per_refresh == self.accesses_per_refresh
                &&& c.files() == Map::<Seq<char>, (Seq<u8>, FileStats)>::empty()
                &&& c.counts() == Map::<Seq<char>, usize>::empty()
                &&& c.concurrency() == match self.concurrency {
                    Some(n) => (n, n),
                    None => (16u16, 16u16),
                }
            },
    {
        let size_limit: usize = match self.size_limit {
            Some(s) => s,
            None => usize::MAX,
        };
        if let Some(min_file_size) = self.min_file_size {
            if let Some(max_file_size) = self.max_file_size {
                if min_file_size > max_file_size {
                    return Err(CacheBuildError::MinFileSizeIsLargerThanMaxFileSize);
                }
            }
        }
        let min_file_size: usize = match self.min_file_size {
            Some(min) => min,
            None => 0,
        };
        let max_file_size: usize = match self.max_file_size {
            Some(max) => max,
            None => usize::MAX,
        };
        Ok(
            Cache::from_parts(
                size_limit,
                min_file_size,
                max_file_size,
                self.priority_function,
                self.age_out,
                self.accesses_per_refresh,
                self.concurrency,
            ),
        )
    }
}

} // verus!
