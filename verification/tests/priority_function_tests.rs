use rocket_file_cache::{
    access_priority_function, default_priority_function, normal_priority_function,
    small_files_access_priority_function, small_files_priority_function,
};

#[test]
fn default_priority_is_root_of_size_times_accesses() {
    assert_eq!(default_priority_function(1, 5 * 1024 * 1024), 2289);
    assert_eq!(default_priority_function(1, 2 * 1024 * 1024), 1448);
    assert_eq!(default_priority_function(2, 1024 * 1024), 2048);
    assert_eq!(default_priority_function(3, 1024 * 1024), 3072);
    assert_eq!(default_priority_function(0, 1024), 0);
    assert_eq!(default_priority_function(7, 0), 0);
    assert_eq!(default_priority_function(usize::MAX, 4), usize::MAX);
}

#[test]
fn normal_priority_is_size_times_accesses() {
    assert_eq!(normal_priority_function(3, 100), 300);
    assert_eq!(normal_priority_function(usize::MAX, 2), usize::MAX);
}

#[test]
fn access_priority_is_the_access_count() {
    assert_eq!(access_priority_function(42, 1_000_000), 42);
}

#[test]
fn small_files_priority_favours_small_files() {
    assert_eq!(small_files_priority_function(5, 0), 0);
    assert_eq!(small_files_priority_function(5, 1), usize::MAX);
    assert_eq!(small_files_priority_function(5, 2), usize::MAX / 2);
    assert!(small_files_priority_function(0, 10) > small_files_priority_function(0, 1000));
}

#[test]
fn small_files_access_priority_saturates() {
    assert_eq!(small_files_access_priority_function(3, 2), usize::MAX);
    assert_eq!(small_files_access_priority_function(2, usize::MAX), 2);
    assert_eq!(small_files_access_priority_function(4, 0), 0);
}

#[test]
fn priorities_grow_with_accesses_and_size() {
    assert!(default_priority_function(2, 1000) >= default_priority_function(1, 1000));
    assert!(default_priority_function(1, 2000) >= default_priority_function(1, 1000));
    assert!(normal_priority_function(3, 10) >= normal_priority_function(2, 10));
    assert!(small_files_priority_function(0, 10) >= small_files_priority_function(0, 20));
    assert!(small_files_access_priority_function(2, 10) >= small_files_access_priority_function(1, 10));
}
