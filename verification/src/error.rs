//! The error kinds that store operations surface.

use vstd::prelude::*;

verus! {

/// What can go wrong inside the storage engine.
#[derive(Clone, Copy, Debug, PartialEq, Eq, Structural)]
pub enum Error {
    /// A read or write on the underlying medium failed, for instance a
    /// payload reference that reaches past the end of the data file.
    Io,
    /// A record could not be deserialized from its slot.
    Decode,
    /// Only emitted by `remove` when the key is absent.
    KeyNotFound,
    /// The path handed to `open` is not a directory.
    NotADirectory,
    /// An append would run past the per-generation entry cap.
    Overflow,
    /// The index pointed at a slot that did not hold a `Set` record for the
    /// expected key, or at a value of the wrong shape.
    Consistency,
}

impl Error {
    /// A short human-readable description, in place of `Display`.
    pub fn message(&self) -> (r: String)
        ensures
            r@ == match self {
                Error::Io => "io error"@,
                Error::Decode => "decode error"@,
                Error::KeyNotFound => "Key not found"@,
                Error::NotADirectory => "not a directory"@,
                Error::Overflow => "log overflow"@,
                Error::Consistency => "consistency error"@,
            },
    {
        match self {
            Error::Io => String::from_str("io error"),
            Error::Decode => String::from_str("decode error"),
            Error::KeyNotFound => String::from_str("Key not found"),
            Error::NotADirectory => String::from_str("not a directory"),
            Error::Overflow => String::from_str("log overflow"),
            Error::Consistency => String::from_str("consistency error"),
        }
    }
}

} // verus!
