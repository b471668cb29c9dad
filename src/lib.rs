//! Multi-version keys with an embedded timestamp suffix: the comparator that
//! orders them, the read and write options that carry timestamps, and an
//! in-memory store whose reads select the version visible at a timestamp.

pub mod order;
pub mod comparator;
pub mod timestamp;
pub mod options;
pub mod write_batch;
pub mod db;
