//! Data types for serialized values in the log and data file.

use vstd::prelude::*;

verus! {

/// A serialized value: either a `{start, len}` reference into the
/// generation's data file, or an integer stored inline.
#[derive(Clone, Copy, Debug, PartialEq, Eq, Structural)]
pub enum Value {
    String { start: u64, len: u64 },
    Integer { value: i128 },
}

/// Keys are serialized exactly as values are.
pub type Key = Value;

/// One command registered by the key-value store, in its on-disk form.
#[derive(Clone, Copy, Debug, PartialEq, Eq, Structural)]
pub enum Entry {
    /// Sets the key to the given value.
    Put { key: Key, value: Value },
    /// Deletes the value associated with the given key.
    Remove { key: Key },
}

/// The fixed size of a log slot: every encoded entry is zero-padded to
/// exactly this many bytes, so entry number `p` always lives at byte
/// offset `p * SERIALIZED_ENTRY_SIZE`.
pub const SERIALIZED_ENTRY_SIZE: usize = 64;

/// The per-generation entry cap: when a generation's log grows past the
/// compaction threshold the engine rewrites it, and an append beyond this
/// many entries is refused outright.
pub const MAX_ENTRIES_PER_FILE: u64 = 0x1000;

} // verus!
