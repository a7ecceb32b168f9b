use rocket_file_cache::{
    AccessPriority, Cache, CacheBuilder, CacheError, CachedFile, CountFunction, FileStats, GetAction,
    InMemoryFile, KeepCount, PriorityFunction, SizedFile,
};
use std::collections::HashMap;

const KB: usize = 1024;

type Files = HashMap<String, Vec<u8>>;

fn bytes_of(size: usize, fill: u8) -> Vec<u8> {
    vec![fill; size]
}

fn fetch<P: PriorityFunction, A: CountFunction>(cache: &mut Cache<P, A>, files: &Files, path: &str) -> CachedFile {
    let metadata_size = files.get(path).map(|b| b.len());
    if !cache.contains_key(path) {
        if let Some(size) = metadata_size {
            assert!(cache.can_weigh_file(size));
        }
    }
    match cache.get(path, metadata_size) {
        GetAction::Serve(file) => file,
        GetAction::Refresh => cache.refresh(path, files.get(path).cloned(), metadata_size),
        GetAction::OpenFromFileSystem { count_access } => {
            cache.get_file_from_fs(path, files.contains_key(path), count_access)
        }
        GetAction::ReadIntoCache { victims, count_access } => match files.get(path) {
            Some(bytes) => cache.get_file_from_fs_and_add_to_cache(
                path,
                bytes.clone(),
                &victims,
                count_access,
                metadata_size,
            ),
            None => CachedFile::NotFound,
        },
    }
}

/// Halves an access count.
struct Halve;

impl CountFunction for Halve {
    fn spec_apply(&self, count: usize) -> usize {
        count / 2
    }

    fn apply(&self, count: usize) -> usize {
        count / 2
    }
}

/// Sets an access count to 10.
struct SetTen;

impl CountFunction for SetTen {
    fn spec_apply(&self, _count: usize) -> usize {
        10
    }

    fn apply(&self, _count: usize) -> usize {
        10
    }
}

fn stats(size: usize, priority: usize) -> FileStats {
    FileStats { size, access_count: 1, priority }
}

#[test]
fn builder_defaults_give_an_unbounded_cache() {
    let cache: Cache = match CacheBuilder::new().build() {
        Ok(c) => c,
        Err(_) => panic!("a builder with no settings builds"),
    };
    assert_eq!(cache.size_limit, usize::MAX);
    assert_eq!(cache.min_file_size, 0);
    assert_eq!(cache.max_file_size, usize::MAX);
    assert!(cache.accesses_per_refresh.is_none());
    assert!(cache.age_out.is_none());
    assert_eq!(cache.used_bytes(), 0);
}

#[test]
fn builder_keeps_its_settings() {
    let cache: Cache = CacheBuilder::new()
        .size_limit(100)
        .min_file_size(10)
        .max_file_size(10)
        .accesses_per_refresh(3)
        .build()
        .unwrap();
    assert_eq!(cache.size_limit, 100);
    assert_eq!(cache.min_file_size, 10);
    assert_eq!(cache.max_file_size, 10);
    assert_eq!(cache.accesses_per_refresh, Some(3));
}

#[test]
fn new_cache_is_empty() {
    let cache: Cache = Cache::new(1000);
    assert_eq!(cache.size_limit, 1000);
    assert_eq!(cache.used_bytes(), 0);
    assert!(!cache.contains_key("a"));
    assert!(cache.can_weigh_file(500));
}

#[test]
fn make_room_takes_lowest_priorities_first() {
    let sorted = vec![
        ("high".to_string(), stats(100, 50)),
        ("mid".to_string(), stats(100, 20)),
        ("low".to_string(), stats(100, 10)),
    ];
    let r = Cache::make_room_for_new_file(sorted, 150, 30);
    assert_eq!(r, Ok(vec!["low".to_string(), "mid".to_string()]));
}

#[test]
fn make_room_needing_nothing_takes_nothing() {
    let sorted = vec![("a".to_string(), stats(100, 50))];
    assert_eq!(Cache::make_room_for_new_file(sorted, 0, 0), Ok(vec![]));
}

#[test]
fn make_room_refuses_a_lower_priority() {
    let sorted = vec![("a".to_string(), stats(100, 50)), ("b".to_string(), stats(100, 20))];
    assert_eq!(
        Cache::make_room_for_new_file(sorted, 150, 60),
        Err(CacheError::NewPriorityIsNotHighEnough)
    );
}

#[test]
fn make_room_runs_out_of_files() {
    let sorted = vec![("a".to_string(), stats(100, 1))];
    assert_eq!(
        Cache::make_room_for_new_file(sorted, 150, 1000),
        Err(CacheError::NoMoreFilesToRemove)
    );
}

#[test]
fn unreadable_file_is_not_found() {
    let mut cache: Cache = Cache::new(1000);
    assert!(matches!(cache.get("missing", None), GetAction::Serve(CachedFile::NotFound)));
    assert!(!cache.contains_key("missing"));
}

#[test]
fn small_file_is_read_into_the_cache() {
    let mut cache: Cache = Cache::new(1000);
    let mut files = Files::new();
    files.insert("a".to_string(), bytes_of(100, 7));
    match cache.get("a", Some(100)) {
        GetAction::ReadIntoCache { victims, count_access } => {
            assert!(victims.is_empty());
            assert!(count_access);
        }
        _ => panic!("expected the file to be read into the cache"),
    }
    let served = cache.get_file_from_fs_and_add_to_cache("a", files["a"].clone(), &vec![], true, Some(100));
    match served {
        CachedFile::InMemory(n) => {
            assert_eq!(n.path, "a");
            assert_eq!(*n.file.bytes, bytes_of(100, 7));
            // default priority: floor(sqrt(100)) * 1
            assert_eq!(n.file.stats, FileStats { size: 100, access_count: 1, priority: 10 });
        }
        _ => panic!("expected the file from the cache"),
    }
    assert_eq!(cache.used_bytes(), 100);
}

#[test]
fn stored_file_is_served_with_its_bytes() {
    let mut cache: Cache = Cache::new(1000);
    let mut files = Files::new();
    files.insert("a".to_string(), bytes_of(64, 3));
    let _ = fetch(&mut cache, &files, "a");
    match fetch(&mut cache, &files, "a") {
        CachedFile::InMemory(n) => {
            assert_eq!(*n.file.bytes, bytes_of(64, 3));
            assert_eq!(n.file.stats, FileStats { size: 64, access_count: 2, priority: 16 });
        }
        _ => panic!("expected the file from the cache"),
    }
}

#[test]
fn cache_stays_within_its_size_limit() {
    let mut cache: Cache = Cache::new(250);
    let mut files = Files::new();
    for (i, name) in ["a", "b", "c", "d"].iter().enumerate() {
        files.insert(name.to_string(), bytes_of(100, i as u8));
    }
    for _ in 0..3 {
        for name in ["a", "b", "c", "d"] {
            let _ = fetch(&mut cache, &files, name);
            assert!(cache.used_bytes() <= 250);
        }
    }
}

#[test]
fn files_outside_the_size_bounds_come_from_the_file_system() {
    let mut cache: Cache = CacheBuilder::new().size_limit(10 * KB).min_file_size(10).max_file_size(KB).build().unwrap();
    let mut files = Files::new();
    files.insert("tiny".to_string(), bytes_of(5, 1));
    files.insert("huge".to_string(), bytes_of(2 * KB, 1));
    assert!(matches!(cache.get("tiny", Some(5)), GetAction::OpenFromFileSystem { count_access: true }));
    assert!(matches!(fetch(&mut cache, &files, "huge"), CachedFile::FileSystem(ref p) if p == "huge"));
    assert!(!cache.contains_key("huge"));
    // The access was counted: the count can now be altered.
    assert!(cache.alter_access_count("huge", &SetTen, None));
}

#[test]
fn unopened_file_is_not_found() {
    let mut cache: Cache = Cache::new(100);
    assert!(matches!(cache.get_file_from_fs("gone", false, true), CachedFile::NotFound));
    assert!(!cache.alter_access_count("gone", &SetTen, None));
}

#[test]
fn altering_an_uncounted_file_changes_nothing() {
    let mut cache: Cache = Cache::new(100);
    assert!(!cache.alter_access_count("never", &Halve, None));
    assert!(!cache.contains_key("never"));
}

#[test]
fn altering_a_count_updates_the_priority() {
    let mut cache: Cache = Cache::new(1000);
    let mut files = Files::new();
    files.insert("a".to_string(), bytes_of(100, 1));
    let _ = fetch(&mut cache, &files, "a");
    assert!(cache.alter_access_count("a", &SetTen, None));
    match fetch(&mut cache, &files, "a") {
        CachedFile::InMemory(n) => {
            // 10 set, one more access
            assert_eq!(n.file.stats, FileStats { size: 100, access_count: 11, priority: 110 });
        }
        _ => panic!("expected the file from the cache"),
    }
}

#[test]
fn altering_all_counts_updates_every_file() {
    let mut cache: Cache = Cache::new(1000);
    let mut files = Files::new();
    files.insert("a".to_string(), bytes_of(100, 1));
    files.insert("b".to_string(), bytes_of(400, 2));
    for _ in 0..4 {
        let _ = fetch(&mut cache, &files, "a");
    }
    let _ = fetch(&mut cache, &files, "b");
    cache.alter_all_access_counts(&Halve, &vec![]);
    match cache.refresh("a", Some(bytes_of(100, 1)), Some(100)) {
        CachedFile::InMemory(n) => assert_eq!(n.file.stats, FileStats { size: 100, access_count: 2, priority: 20 }),
        _ => panic!("expected the file from the cache"),
    }
    match cache.refresh("b", Some(bytes_of(400, 2)), Some(400)) {
        CachedFile::InMemory(n) => assert_eq!(n.file.stats, FileStats { size: 400, access_count: 0, priority: 0 }),
        _ => panic!("expected the file from the cache"),
    }
}

#[test]
fn refresh_of_an_uncached_or_unreadable_file_is_not_found() {
    let mut cache: Cache = Cache::new(1000);
    assert!(matches!(cache.refresh("a", Some(bytes_of(10, 1)), Some(10)), CachedFile::NotFound));
    let mut files = Files::new();
    files.insert("a".to_string(), bytes_of(10, 1));
    let _ = fetch(&mut cache, &files, "a");
    assert!(matches!(cache.refresh("a", None, None), CachedFile::NotFound));
    assert!(cache.contains_key("a"));
}

#[test]
fn refresh_is_due_every_n_accesses() {
    let mut cache: Cache = CacheBuilder::new().size_limit(1000).accesses_per_refresh(2).build().unwrap();
    let mut files = Files::new();
    files.insert("a".to_string(), bytes_of(10, 1));
    let _ = fetch(&mut cache, &files, "a");
    assert!(matches!(cache.get("a", Some(10)), GetAction::Refresh));
    assert!(matches!(cache.get("a", Some(10)), GetAction::Serve(CachedFile::InMemory(_))));
    assert!(matches!(cache.get("a", Some(10)), GetAction::Refresh));
}

#[test]
fn ageing_out_halves_every_count() {
    let mut cache: Cache<AccessPriority, Halve> =
        CacheBuilder::new().size_limit(1000).priority_function(AccessPriority).age_out(3, Halve).build().unwrap();
    let mut files = Files::new();
    files.insert("a".to_string(), bytes_of(10, 1));
    let _ = fetch(&mut cache, &files, "a"); // count 1
    let _ = fetch(&mut cache, &files, "a"); // count 2
    match fetch(&mut cache, &files, "a") {
        // count 3, then the third access of the cache halves it
        CachedFile::InMemory(n) => assert_eq!(n.file.stats.access_count, 1),
        _ => panic!("expected the file from the cache"),
    }
    assert_eq!(cache.age_out.as_ref().map(|a| a.access_count), Some(3));
}

#[test]
fn keep_count_leaves_a_count_alone() {
    assert_eq!(KeepCount.apply(42), 42);
}

#[test]
fn removing_keeps_the_access_count() {
    let mut cache: Cache = Cache::new(1000);
    let mut files = Files::new();
    files.insert("a".to_string(), bytes_of(10, 1));
    let _ = fetch(&mut cache, &files, "a");
    assert!(cache.remove("a"));
    assert!(!cache.remove("a"));
    assert!(!cache.contains_key("a"));
    assert_eq!(cache.used_bytes(), 0);
    assert!(cache.alter_access_count("a", &SetTen, None));
}

#[test]
fn in_memory_and_sized_files_take_their_size_from_the_bytes() {
    let imf = InMemoryFile::from_bytes(vec![1, 2, 3]);
    assert_eq!(imf.stats, FileStats { size: 3, access_count: 0, priority: 0 });
    assert_eq!(*imf.bytes, vec![1, 2, 3]);
    let sf = SizedFile::from_bytes(vec![9; 5]);
    assert_eq!(sf.size, 5);
    assert_eq!(sf.bytes, vec![9; 5]);
}

#[test]
fn removed_file_is_read_again_on_the_next_request() {
    let mut cache: Cache = Cache::new(1000);
    let mut files = Files::new();
    files.insert("a".to_string(), bytes_of(10, 1));
    let _ = fetch(&mut cache, &files, "a");
    assert!(cache.remove("a"));
    assert!(matches!(cache.get("a", Some(10)), GetAction::ReadIntoCache { .. }));
}

#[test]
fn cache_without_a_size_limit_holds_files() {
    let mut cache: Cache = CacheBuilder::new().build().unwrap();
    let mut files = Files::new();
    files.insert("p".to_string(), vec![0u8; 10]);
    match fetch(&mut cache, &files, "p") {
        CachedFile::InMemory(x) => {
            assert_eq!(x.file, InMemoryFile {
                bytes: std::sync::Arc::new(vec![0u8; 10]),
                stats: FileStats { size: 10, access_count: 1, priority: 3 },
            });
        }
        _ => panic!("expected the file from the cache"),
    }
    assert!(cache.contains_key("p"));
    assert_eq!(cache.used_bytes(), 10);
}

#[test]
fn altering_a_removed_file_does_not_put_it_back() {
    let mut cache: Cache = Cache::new(10485760);
    let mut files = Files::new();
    files.insert("p".to_string(), bytes_of(5242880, 1));
    let _ = fetch(&mut cache, &files, "p");
    assert!(cache.remove("p"));
    struct Zero;
    impl CountFunction for Zero {
        fn spec_apply(&self, _count: usize) -> usize {
            0
        }
        fn apply(&self, _count: usize) -> usize {
            0
        }
    }
    assert!(cache.alter_access_count("p", &Zero, Some(5242880)));
    assert!(!cache.contains_key("p"));
    assert_eq!(cache.used_bytes(), 0);
    assert!(matches!(cache.get("p", Some(5242880)), GetAction::ReadIntoCache { .. }));
}

#[test]
fn altering_all_counts_keeps_the_held_files() {
    let mut cache: Cache = Cache::new(100);
    let mut files = Files::new();
    files.insert("big".to_string(), bytes_of(200, 1));
    files.insert("a".to_string(), bytes_of(50, 2));
    // Too big to be held, but counted.
    assert!(matches!(fetch(&mut cache, &files, "big"), CachedFile::FileSystem(_)));
    let _ = fetch(&mut cache, &files, "a");
    cache.alter_all_access_counts(&Halve, &vec![]);
    assert!(!cache.contains_key("big"));
    assert!(cache.contains_key("a"));
    assert_eq!(cache.used_bytes(), 50);
    assert_eq!(cache.paths_without_size(), Vec::<String>::new());
}

#[test]
fn age_out_limit_zero_never_ages_out() {
    let mut cache: Cache<AccessPriority, Halve> =
        CacheBuilder::new().size_limit(1000).priority_function(AccessPriority).age_out(0, Halve).build().unwrap();
    let mut files = Files::new();
    files.insert("a".to_string(), bytes_of(10, 1));
    for _ in 0..3 {
        let _ = fetch(&mut cache, &files, "a");
    }
    match fetch(&mut cache, &files, "a") {
        CachedFile::InMemory(n) => assert_eq!(n.file.stats.access_count, 4),
        _ => panic!("expected the file from the cache"),
    }
}

#[test]
fn served_files_compare_by_contents_and_path() {
    let a = CachedFile::InMemory(rocket_file_cache::NamedInMemoryFile {
        path: "a".to_string(),
        file: InMemoryFile::from_bytes(vec![1, 2, 3]),
    });
    let b = CachedFile::InMemory(rocket_file_cache::NamedInMemoryFile {
        path: "b".to_string(),
        file: InMemoryFile::from_bytes(vec![1, 2, 3]),
    });
    let c = CachedFile::InMemory(rocket_file_cache::NamedInMemoryFile {
        path: "a".to_string(),
        file: InMemoryFile::from_bytes(vec![1, 2, 4]),
    });
    assert!(a.same_file(&b));
    assert!(!a.same_file(&c));
    assert!(CachedFile::FileSystem("x".to_string()).same_file(&CachedFile::FileSystem("x".to_string())));
    assert!(!CachedFile::FileSystem("x".to_string()).same_file(&CachedFile::FileSystem("y".to_string())));
    assert!(!a.same_file(&CachedFile::NotFound));
    assert!(CachedFile::NotFound.same_file(&CachedFile::NotFound));
}

#[test]
fn make_room_takes_the_fewest_files_needed() {
    // The lowest file alone frees enough: the one above it stays, whatever its priority.
    let sorted = vec![("b".to_string(), stats(100, 1000)), ("a".to_string(), stats(100, 5))];
    assert_eq!(Cache::make_room_for_new_file(sorted, 100, 5), Ok(vec!["a".to_string()]));
}
