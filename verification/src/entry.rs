//! The record types of the log: the serialized, on-disk forms and the
//! in-memory forms they resolve to.

pub mod file;
pub mod mem;
