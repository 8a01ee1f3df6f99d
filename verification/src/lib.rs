//! An early-boot bump allocator managing one fixed address range.
//!
//! The allocator hands out byte-granular allocations growing forward from the
//! low end of the range and page-granular allocations growing backward from
//! the high end, with no auxiliary bookkeeping.  Every operation is verified:
//! the ordering invariant between the two frontiers, the alignment of every
//! returned address, and the exact effect of each call on the allocator state.

pub mod align;
pub mod early;

pub use align::{align_down, align_up, is_aligned, is_power_of_two};
pub use early::{AllocError, EarlyAllocator};
