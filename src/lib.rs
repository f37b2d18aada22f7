//! Building blocks of a parallel dataset writer: the layout of table files in a
//! dataset directory, Hive-style partitioning of a writer into per-key
//! sub-writers, the auto-flush and row-group rollover policy of columnar
//! writers, and the gathering of per-writer outcomes.

pub mod config;
pub mod fan_in;
pub mod flush_policy;
pub mod naming;
pub mod partitioned;
pub mod path;
