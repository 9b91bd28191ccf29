//! Small-buffer-optimised sequences with lane-wise search, and the
//! scheduling core of a fixed-pool job system.

pub mod allocator;
pub mod layout;
pub mod simd;
pub mod array_list;
pub mod iter;
pub mod ring_queue;
pub mod active_jobs;
pub mod scheduler;
