//! The flag bits of a page table entry. They are combined with `|`.

use vstd::prelude::*;

verus! {

/// The entry is in use.
pub const PRESENT: u64 = 0x1;

/// Writing is allowed.
pub const WRITABLE: u64 = 0x2;

/// Reachable from user mode (ring 3).
pub const USER: u64 = 0x4;

/// Writes go through the cache.
pub const WRITE_THROUGH: u64 = 0x8;

/// The cache is off, as device memory needs it.
pub const CACHE_DISABLE: u64 = 0x10;

/// A page of 2 MiB, in a page directory.
pub const HUGE_PAGE: u64 = 0x80;

/// Code on the page may not be executed.
pub const NO_EXECUTE: u64 = 0x8000_0000_0000_0000;

} // verus!
