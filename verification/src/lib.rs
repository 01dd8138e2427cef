//! A persistent, single-node key/value store built on a log-structured
//! storage engine.
//!
//! The engine appends fixed-size records to a per-generation log file and
//! keeps variable-length payloads in a parallel heap-style data file.  An
//! in-memory index maps each live key to the generation and entry position
//! of its most recent `Put` record.  Reads seek to the indexed slot, decode
//! the record and resolve its payload references; a compaction pass rewrites
//! the live records of every generation to reclaim space.
//!
//! The storage medium is modelled as in-memory seekable byte files
//! ([`seekfile::SeekFile`]); the surrounding application reads the
//! generation files from disk into such buffers on open and writes them
//! back on close, so everything between those two edges is verified.

pub mod codec;
pub mod command;
pub mod entry;
pub mod error;
pub mod index;
pub mod kv;
pub mod model;
pub mod reader;
pub mod seekfile;
pub mod writer;
