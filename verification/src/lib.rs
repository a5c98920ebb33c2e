//! Page-level storage core of a log-structured, delta-chained page engine:
//! the logical page address codec, per-file page liveness accounting, and
//! the multi-version merge iterators that consolidate delta pages.
pub mod addr;
pub mod bytes;
pub mod bitmap;
pub mod merge;
pub mod page;
pub mod page_file;
pub mod timer;
