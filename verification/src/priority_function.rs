//! Priority functions: how the cache scores a file from its access count and size.
use vstd::prelude::*;

verus! {

/// `r` is the integer square root of `n`, rounded down.
pub open spec fn is_floor_sqrt(r: int, n: int) -> bool {
    0 <= r && r * r <= n && n < (r + 1) * (r + 1)
}

/// The integer square root of `n`, rounded down.
pub open spec fn floor_sqrt(n: nat) -> nat
    decreases n,
{
    if n == 0 {
        0
    } else {
        let r = floor_sqrt((n - 1) as nat);
        if (r + 1) * (r + 1) <= n {
            r + 1
        } else {
            r
        }
    }
}

/// A product that saturates at `usize::MAX`.
pub open spec fn saturating_product(a: int, b: int) -> usize {
    if a * b <= usize::MAX {
        (a * b) as usize
    } else {
        usize::MAX
    }
}

/// The score of the default priority function.
pub open spec fn spec_default_priority(access_count: usize, size: usize) -> usize {
    saturating_product(floor_sqrt(size as nat) as int, access_count as int)
}

/// The score of the normal priority function.
pub open spec fn spec_normal_priority(access_count: usize, size: usize) -> usize {
    saturating_product(size as int, access_count as int)
}

/// `usize::MAX / size`, or 0 for an empty file.
pub open spec fn small_file_score(size: usize) -> usize {
    if size == 0 {
        0
    } else {
        (usize::MAX / size) as usize
    }
}

/// The score of the priority function that favours small files.
pub open spec fn spec_small_files_priority(size: usize) -> usize {
    small_file_score(size)
}

/// The score of the priority function that favours small, often accessed files.
pub open spec fn spec_small_files_access_priority(access_count: usize, size: usize) -> usize {
    saturating_product(small_file_score(size) as int, access_count as int)
}

proof fn lemma_floor_sqrt(n: nat)
    ensures
        is_floor_sqrt(floor_sqrt(n) as int, n as int),
    decreases n,
{
    if n > 0 {
        lemma_floor_sqrt((n - 1) as nat);
        let r = floor_sqrt((n - 1) as nat) as int;
        assert((r + 1) * (r + 1) == r * r + 2 * r + 1) by (nonlinear_arith);
        assert((r + 2) * (r + 2) == (r + 1) * (r + 1) + 2 * r + 3) by (nonlinear_arith);
    }
}

proof fn lemma_floor_sqrt_unique(r: int, s: int, n: int)
    requires
        is_floor_sqrt(r, n),
        is_floor_sqrt(s, n),
    ensures
        r == s,
{
    if r < s {
        assert((r + 1) * (r + 1) <= s * s) by (nonlinear_arith)
            requires
                0 <= r,
                r + 1 <= s,
        ;
    } else if s < r {
        assert((s + 1) * (s + 1) <= r * r) by (nonlinear_arith)
            requires
                0 <= s,
                s + 1 <= r,
        ;
    }
}

/// Integer square root of `n`, rounded down, by bisection.
fn floor_sqrt_usize(n: usize) -> (r: usize)
    ensures
        r == floor_sqrt(n as nat),
{
    let target: u128 = n as u128;
    let mut lo: u128 = 0;
    let mut hi: u128 = 0x1_0000_0000;
    assert(target < hi * hi) by (nonlinear_arith)
        requires
            target <= 0xffff_ffff_ffff_ffff,
            hi == 0x1_0000_0000,
    ;
    while hi - lo > 1
        invariant
            lo < hi <= 0x1_0000_0000,
            lo * lo <= target,
            target < hi * hi,
            target == n,
        decreases hi - lo,
    {
        let mid: u128 = lo + (hi - lo) / 2;
        assert(mid * mid <= 0x1_0000_0000 * 0x1_0000_0000) by (nonlinear_arith)
            requires
                mid <= 0x1_0000_0000,
        ;
        if mid * mid <= target {
            lo = mid;
        } else {
            hi = mid;
        }
    }
    proof {
        lemma_floor_sqrt(n as nat);
        lemma_floor_sqrt_unique(lo as int, floor_sqrt(n as nat) as int, n as int);
    }
    lo as usize
}

/// The default priority function used for determining if a file should be in the cache.
///
/// This function takes the square root of the size of the file times the number of times it has been accessed.
/// This should give some priority to bigger files, while still allowing some smaller files to enter the cache.
/// The square root is the integer square root, rounded down; a product that does not fit in a
/// `usize` gives `usize::MAX`.
pub fn default_priority_function(access_count: usize, size: usize) -> (r: usize)
    ensures
        r == spec_default_priority(access_count, size),
        is_floor_sqrt(floor_sqrt(size as nat) as int, size as int),
{
    proof {
        lemma_floor_sqrt(size as nat);
    }
    let root = floor_sqrt_usize(size);
    match root.checked_mul(access_count) {
        Some(v) => v,
        None => usize::MAX,
    }
}

/// Priority is calculated as the size times the access count.
pub fn normal_priority_function(access_count: usize, size: usize) -> (r: usize)
    ensures
        r == spec_normal_priority(access_count, size),
{
    match size.checked_mul(access_count) {
        Some(v) => v,
        None => usize::MAX,
    }
}

/// This priority function will value files in the cache based solely on the number of times the file was accessed.
pub fn access_priority_function(access_count: usize, size: usize) -> (r: usize)
    ensures
        r == access_count,
{
    access_count
}

/// Favor small files without respect to the number of times file was accessed.
///
/// The smaller the file, the higher priority it will have.
/// Does not take into account the number of accesses the file has.
/// Completely empty files get no priority.
pub fn small_files_priority_function(access_count: usize, size: usize) -> (r: usize)
    ensures
        r == spec_small_files_priority(size),
{
    match usize::MAX.checked_div(size) {
        Some(v) => v,
        None => 0,
    }
}

/// Favor small files with respect to the number of times file was accessed.
///
/// The smaller the file, the higher priority it will have.
/// Does take into account the number of accesses the file has.
/// If the multiplication overflows, the file gets the maximum priority.
pub fn small_files_access_priority_function(access_count: usize, size: usize) -> (r: usize)
    ensures
        r == spec_small_files_access_priority(access_count, size),
{
    let per_access: usize = match usize::MAX.checked_div(size) {
        Some(v) => v,
        None => 0,
    };
    match per_access.checked_mul(access_count) {
        Some(v) => v,
        None => usize::MAX,
    }
}

} // verus!

verus! {

/// A rule that scores a file from the number of times it was accessed and its size in bytes.
/// Files with higher scores are kept in the cache when files with lower scores compete for room.
pub trait PriorityFunction: Send + Sync {
    /// The score this rule gives.
    spec fn spec_priority(&self, access_count: usize, size: usize) -> usize;

    /// Computes the score.
    fn priority(&self, access_count: usize, size: usize) -> (r: usize)
        ensures
            r == self.spec_priority(access_count, size),
    ;
}

/// The rule of `default_priority_function`.
pub struct DefaultPriority;

/// The rule of `normal_priority_function`.
pub struct NormalPriority;

/// The rule of `access_priority_function`.
pub struct AccessPriority;

/// The rule of `small_files_priority_function`.
pub struct SmallFilesPriority;

/// The rule of `small_files_access_priority_function`.
pub struct SmallFilesAccessPriority;

impl PriorityFunction for DefaultPriority {
    open spec fn spec_priority(&self, access_count: usize, size: usize) -> usize {
        spec_default_priority(access_count, size)
    }

    fn priority(&self, access_count: usize, size: usize) -> (r: usize) {
        default_priority_function(access_count, size)
    }
}

impl PriorityFunction for NormalPriority {
    open spec fn spec_priority(&self, access_count: usize, size: usize) -> usize {
        spec_normal_priority(access_count, size)
    }

    fn priority(&self, access_count: usize, size: usize) -> (r: usize) {
        normal_priority_function(access_count, size)
    }
}

impl PriorityFunction for AccessPriority {
    open spec fn spec_priority(&self, access_count: usize, size: usize) -> usize {
        access_count
    }

    fn priority(&self, access_count: usize, size: usize) -> (r: usize) {
        access_priority_function(access_count, size)
    }
}

impl PriorityFunction for SmallFilesPriority {
    open spec fn spec_priority(&self, access_count: usize, size: usize) -> usize {
        spec_small_files_priority(size)
    }

    fn priority(&self, access_count: usize, size: usize) -> (r: usize) {
        small_files_priority_function(access_count, size)
    }
}

impl PriorityFunction for SmallFilesAccessPriority {
    open spec fn spec_priority(&self, access_count: usize, size: usize) -> usize {
        spec_small_files_access_priority(access_count, size)
    }

    fn priority(&self, access_count: usize, size: usize) -> (r: usize) {
        small_files_access_priority_function(access_count, size)
    }
}

} // verus!

verus! {

proof fn lemma_saturating_product_monotone(a1: int, b1: int, a2: int, b2: int)
    requires
        0 <= a1 <= a2,
        0 <= b1 <= b2,
    ensures
        saturating_product(a1, b1) <= saturating_product(a2, b2),
{
    assert(a1 * b1 <= a2 * b2) by (nonlinear_arith)
        requires
            0 <= a1 <= a2,
            0 <= b1 <= b2,
    ;
}

proof fn lemma_floor_sqrt_monotone(n1: nat, n2: nat)
    requires
        n1 <= n2,
    ensures
        floor_sqrt(n1) <= floor_sqrt(n2),
{
    lemma_floor_sqrt(n1);
    lemma_floor_sqrt(n2);
    let r1 = floor_sqrt(n1) as int;
    let r2 = floor_sqrt(n2) as int;
    if r1 > r2 {
        assert((r2 + 1) * (r2 + 1) <= r1 * r1) by (nonlinear_arith)
            requires
                0 <= r2,
                r2 + 1 <= r1,
        ;
    }
}

/// The default priority does not fall as a file is accessed more, nor as it grows.
pub proof fn law_default_priority_monotone(access_count1: usize, access_count2: usize, size1: usize, size2: usize)
    requires
        access_count1 <= access_count2,
        size1 <= size2,
    ensures
        spec_default_priority(access_count1, size1) <= spec_default_priority(access_count2, size2),
{
    lemma_floor_sqrt_monotone(size1 as nat, size2 as nat);
    lemma_saturating_product_monotone(
        floor_sqrt(size1 as nat) as int,
        access_count1 as int,
        floor_sqrt(size2 as nat) as int,
        access_count2 as int,
    );
}

/// The normal priority does not fall as a file is accessed more, nor as it grows.
pub proof fn law_normal_priority_monotone(access_count1: usize, access_count2: usize, size1: usize, size2: usize)
    requires
        access_count1 <= access_count2,
        size1 <= size2,
    ensures
        spec_normal_priority(access_count1, size1) <= spec_normal_priority(access_count2, size2),
{
    lemma_saturating_product_monotone(size1 as int, access_count1 as int, size2 as int, access_count2 as int);
}

/// The smaller a (non-empty) file, the higher the priority that favours small files; an empty
/// file gets no priority.
pub proof fn law_small_files_priority_favours_small(size1: usize, size2: usize)
    requires
        0 < size1 <= size2,
    ensures
        spec_small_files_priority(size1) >= spec_small_files_priority(size2),
        spec_small_files_priority(0) == 0,
{
    vstd::arithmetic::div_mod::lemma_div_is_ordered_by_denominator(usize::MAX as int, size1 as int, size2 as int);
}

/// The priority that favours small, often accessed files does not fall as a file is accessed
/// more, nor as a (non-empty) file shrinks.
pub proof fn law_small_files_access_priority_monotone(
    access_count1: usize,
    access_count2: usize,
    size1: usize,
    size2: usize,
)
    requires
        access_count1 <= access_count2,
        0 < size2 <= size1,
    ensures
        spec_small_files_access_priority(access_count1, size1) <= spec_small_files_access_priority(
            access_count2,
            size2,
        ),
{
    law_small_files_priority_favours_small(size2, size1);
    lemma_saturating_product_monotone(
        small_file_score(size1) as int,
        access_count1 as int,
        small_file_score(size2) as int,
        access_count2 as int,
    );
}

/// The default priority is the integer square root of the size times the access count: for the
/// `r` with `r * r <= size < (r + 1) * (r + 1)`, it is `r * access_count`, or `usize::MAX` when
/// that product does not fit in a `usize`.
pub proof fn law_default_priority_is_root_times_count(access_count: usize, size: usize, r: int)
    requires
        0 <= r,
        r * r <= size < (r + 1) * (r + 1),
    ensures
        spec_default_priority(access_count, size) == if r * access_count <= usize::MAX {
            r * access_count
        } else {
            usize::MAX as int
        },
{
    lemma_floor_sqrt(size as nat);
    lemma_floor_sqrt_unique(r, floor_sqrt(size as nat) as int, size as int);
}

} // verus!
