use rocket_file_cache::{
    Cache, CacheBuildError, CacheBuilder, CachedFile, CountFunction, GetAction, InMemoryFile,
    NamedInMemoryFile, PriorityFunction,
};
use std::collections::HashMap;

const MEG1: usize = 1024 * 1024;
const MEG2: usize = MEG1 * 2;
const MEG5: usize = MEG1 * 5;
const MEG10: usize = MEG1 * 10;

const FILE_MEG1: &str = "test1/meg1.txt";
const FILE_MEG2: &str = "test1/meg2.txt";
const FILE_MEG5: &str = "test1/meg5.txt";
const FILE_MEG10: &str = "test1/meg10.txt";

/// Files standing in for a file system: path to contents.
type Files = HashMap<String, Vec<u8>>;

/// Pseudo-random contents of `size` bytes, different for each seed.
fn test_bytes(size: usize, seed: u64) -> Vec<u8> {
    let mut state: u64 = seed.wrapping_mul(6364136223846793005).wrapping_add(1442695040888963407);
    let mut v = Vec::with_capacity(size);
    for _ in 0..size {
        state = state.wrapping_mul(6364136223846793005).wrapping_add(1442695040888963407);
        v.push((state >> 33) as u8);
    }
    v
}

fn create_test_file(files: &mut Files, size: usize, name: &str, seed: u64) -> String {
    files.insert(name.to_string(), test_bytes(size, seed));
    name.to_string()
}

/// Completes a request the way a caller of `Cache::get` does: it reads what the cache asks for
/// from `files` and hands it back.
fn fetch<P: PriorityFunction, A: CountFunction>(cache: &mut Cache<P, A>, files: &Files, path: &str) -> CachedFile {
    let metadata_size = files.get(path).map(|b| b.len());
    if !cache.contains_key(path) {
        if let Some(size) = metadata_size {
            assert!(cache.can_weigh_file(size));
        }
    }
    match cache.get(path, metadata_size) {
        GetAction::Serve(file) => file,
        GetAction::Refresh => cache.refresh(path, files.get(path).cloned(), metadata_size),
        GetAction::OpenFromFileSystem { count_access } => {
            cache.get_file_from_fs(path, files.contains_key(path), count_access)
        }
        GetAction::ReadIntoCache { victims, count_access } => match files.get(path) {
            Some(bytes) => cache.get_file_from_fs_and_add_to_cache(
                path,
                bytes.clone(),
                &victims,
                count_access,
                metadata_size,
            ),
            None => CachedFile::NotFound,
        },
    }
}

fn get_in_memory_file(f: CachedFile) -> NamedInMemoryFile {
    match f {
        CachedFile::InMemory(n) => n,
        _ => panic!("tried to get cached file for named file"),
    }
}

fn get_named_file(f: CachedFile) -> String {
    match f {
        CachedFile::FileSystem(p) => p,
        _ => panic!("tried to get named file for cached file"),
    }
}

fn in_memory_file(files: &Files, path: &str, access_count: usize, priority: usize) -> InMemoryFile {
    let mut imf = InMemoryFile::from_bytes(files[path].clone());
    imf.stats.access_count = access_count;
    imf.stats.priority = priority;
    imf
}

#[test]
fn file_exceeds_size_limit() {
    let mut cache: Cache = Cache::new(MEG1 * 8); // Cache can hold only 8Mb
    let mut files = Files::new();
    let path_10m = create_test_file(&mut files, MEG10, FILE_MEG10, 10);

    // expect the cache to get the item from the FS.
    let served = fetch(&mut cache, &files, &path_10m);
    assert!(matches!(served, CachedFile::FileSystem(ref p) if *p == path_10m));
}

#[test]
fn file_replaces_other_file() {
    let mut files = Files::new();
    let path_1m = create_test_file(&mut files, MEG1, FILE_MEG1, 1);
    let path_5m = create_test_file(&mut files, MEG5, FILE_MEG5, 5);

    // set expected stats for 5m
    let imf_5m = in_memory_file(&files, &path_5m, 1, 2289);

    let mut cache: Cache = Cache::new(5500000); //Cache can hold only 5.5Mib

    assert_eq!(get_in_memory_file(fetch(&mut cache, &files, &path_5m)).file, imf_5m);
    assert_eq!(get_named_file(fetch(&mut cache, &files, &path_1m)), path_1m);
    assert_eq!(get_named_file(fetch(&mut cache, &files, &path_1m)), path_1m);

    // set the expected stats for 1m
    let imf_1m = in_memory_file(&files, &path_1m, 3, 3072);
    assert_eq!(get_in_memory_file(fetch(&mut cache, &files, &path_1m)).file, imf_1m);
}

#[test]
fn new_file_replaces_lowest_priority_file() {
    let mut files = Files::new();
    let path_1m = create_test_file(&mut files, MEG1, FILE_MEG1, 1);
    let path_2m = create_test_file(&mut files, MEG2, FILE_MEG2, 2);
    let path_5m = create_test_file(&mut files, MEG5, FILE_MEG5, 5);

    let mut cache: Cache = Cache::new(MEG1 * 7 + 2000); // cache can hold a little more than 7MB

    let imf_5m = in_memory_file(&files, &path_5m, 1, 2289);
    assert_eq!(get_in_memory_file(fetch(&mut cache, &files, &path_5m)).file, imf_5m);

    let imf_2m = in_memory_file(&files, &path_2m, 1, 1448);
    assert_eq!(get_in_memory_file(fetch(&mut cache, &files, &path_2m)).file, imf_2m);

    // The 1m file is read from the file system: its priority does not beat the 2m file's yet.
    let named = get_named_file(fetch(&mut cache, &files, &path_1m));
    assert_eq!(files[&named], files[&path_1m]);

    // This priority is higher than the in memory file - 2m's 1448, and therefore will replace it now.
    // The cache will now accept the 1 meg file because (sqrt(2)_size * 1_access) for the old
    // file is less than (sqrt(1)_size * 2_access) for the new file.
    let imf_1m = in_memory_file(&files, &path_1m, 2, 2048);
    assert_eq!(*get_in_memory_file(fetch(&mut cache, &files, &path_1m)).file.bytes, *imf_1m.bytes);

    assert!(cache.contains_key(&path_1m), "Expected 1m file to be in the cache");
    // Check if the 5m file is still in the cache
    assert!(cache.contains_key(&path_5m), "Expected 5m file to be in the cache");
    assert!(!cache.contains_key(&path_2m), "Expected 2m file to not be in the cache");
}

#[test]
fn remove_file() {
    let mut cache: Cache = Cache::new(MEG1 * 10);
    let mut files = Files::new();
    let path_5m = create_test_file(&mut files, MEG5, FILE_MEG5, 5);

    // Set the expected values for the stats in IMF.
    let imf = in_memory_file(&files, &path_5m, 1, 2289);

    // expect the cache to get the item from the FS.
    assert_eq!(get_in_memory_file(fetch(&mut cache, &files, &path_5m)).file, imf);

    cache.remove(&path_5m);

    assert_eq!(cache.contains_key(&path_5m), false);
}

#[test]
fn refresh_file() {
    let mut cache: Cache = Cache::new(MEG1 * 10);
    let mut files = Files::new();
    let path_5m = create_test_file(&mut files, MEG5, FILE_MEG5, 5);

    assert_eq!(
        match fetch(&mut cache, &files, &path_5m) {
            CachedFile::InMemory(c) => c.file.stats.size,
            CachedFile::FileSystem(_) => unreachable!(),
            CachedFile::NotFound => unreachable!(),
        },
        MEG5
    );

    let path_of_file_with_10mb_but_path_name_5m = create_test_file(&mut files, MEG10, FILE_MEG5, 10);

    let refreshed = cache.refresh(&path_5m, files.get(&path_5m).cloned(), files.get(&path_5m).map(|b| b.len()));
    assert!(matches!(refreshed, CachedFile::InMemory(_)));

    assert_eq!(
        match fetch(&mut cache, &files, &path_of_file_with_10mb_but_path_name_5m) {
            CachedFile::InMemory(c) => c.file.stats.size,
            CachedFile::FileSystem(_) => unreachable!(),
            CachedFile::NotFound => unreachable!(),
        },
        MEG10
    );
}

#[test]
fn min_greater_than_max() {
    let e: CacheBuildError = match CacheBuilder::new()
        .min_file_size(1024 * 1024 * 5)
        .max_file_size(1024 * 1024 * 4)
        .build()
    {
        Ok(_) => panic!("expected the build to fail"),
        Err(e) => e,
    };
    assert_eq!(CacheBuildError::MinFileSizeIsLargerThanMaxFileSize, e);
}

/// Scores a file by its access count times its size.
struct ProductPriority;

impl PriorityFunction for ProductPriority {
    fn spec_priority(&self, access_count: usize, size: usize) -> usize {
        access_count * size
    }

    fn priority(&self, access_count: usize, size: usize) -> usize {
        access_count * size
    }
}

#[test]
fn all_options_used_in_build() {
    let _: Cache<ProductPriority> = CacheBuilder::new()
        .size_limit(1024 * 1024 * 20)
        .priority_function(ProductPriority)
        .max_file_size(1024 * 1024 * 10)
        .min_file_size(1024 * 10)
        .concurrency(20)
        .accesses_per_refresh(1000)
        .build()
        .unwrap();
}
