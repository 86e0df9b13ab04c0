//! Size policy: decides whether a file's byte length excludes it from
//! hash-based comparison.

use vstd::prelude::*;

verus! {

/// Files strictly below this many bytes are skipped when `skip_small` is set.
pub const SMALL_FILE_SIZE: u64 = 1024 * 1024 * 8;

/// Files strictly above this many bytes are skipped when `skip_big` is set.
pub const BIG_FILE_SIZE: u64 = 1024 * 1024 * 8 * 1024;

/// The two skip toggles together with their byte thresholds.
#[derive(Clone, Copy, PartialEq, Eq, Structural)]
pub struct SizePolicy {
    pub skip_big: bool,
    pub skip_small: bool,
    pub big_threshold: u64,
    pub small_threshold: u64,
}

/// Whether the policy excludes a file of `size` bytes from hashing:
/// skip when `skip_big` is set and the size is strictly above the big
/// threshold, or `skip_small` is set and the size is strictly below the
/// small threshold.
pub open spec fn skips(p: SizePolicy, size: u64) -> bool {
    (p.skip_big && size > p.big_threshold) || (p.skip_small && size < p.small_threshold)
}

impl SizePolicy {
    /// A policy with the given toggles and the standard thresholds.
    pub fn new(skip_big: bool, skip_small: bool) -> (r: SizePolicy)
        ensures
            r == (SizePolicy {
                skip_big,
                skip_small,
                big_threshold: BIG_FILE_SIZE,
                small_threshold: SMALL_FILE_SIZE,
            }),
    {
        SizePolicy {
            skip_big,
            skip_small,
            big_threshold: BIG_FILE_SIZE,
            small_threshold: SMALL_FILE_SIZE,
        }
    }

    /// The skip decision for a file of `size` bytes.
    pub fn should_skip(&self, size: u64) -> (r: bool)
        ensures
            r == skips(*self, size),
    {
        (self.skip_big && size > self.big_threshold) || (self.skip_small && size
            < self.small_threshold)
    }
}

} // verus!
