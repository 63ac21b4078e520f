//! A single-user task tracker core: the task data model, strict due-date
//! parsing, display ordering, keyword search, positional mutation with index
//! validation, and a persistence format with a proved round trip.

pub mod date;
pub mod task;
pub mod ops;
pub mod query;
pub mod codec;
pub mod storage;
