//! Data types for values resolved from the log or data file.

use vstd::prelude::*;

verus! {

/// The mathematical form of a [`Value`]: a sequence of characters or an
/// unbounded integer.
pub enum ValueView {
    Str(Seq<char>),
    Int(int),
}

/// An in-memory value: a resolved string payload or an inline integer.
#[derive(Debug, Eq, Hash)]
pub enum Value {
    String(String),
    Integer(i128),
}

pub type Key = Value;

impl View for Value {
    type V = ValueView;

    open spec fn view(&self) -> ValueView {
        match self {
            Value::String(s) => ValueView::Str(s@),
            Value::Integer(i) => ValueView::Int(*i as int),
        }
    }
}

impl Clone for Value {
    fn clone(&self) -> (r: Self)
        ensures
            r@ == self@,
    {
        match self {
            Value::String(s) => Value::String(s.clone()),
            Value::Integer(i) => Value::Integer(*i),
        }
    }
}

impl PartialEq for Value {
    fn eq(&self, other: &Self) -> (r: bool) {
        match self {
            Value::String(a) => match other {
                Value::String(b) => *a == *b,
                Value::Integer(_) => false,
            },
            Value::Integer(a) => match other {
                Value::String(_) => false,
                Value::Integer(b) => *a == *b,
            },
        }
    }
}

impl vstd::std_specs::cmp::PartialEqSpecImpl for Value {
    open spec fn obeys_eq_spec() -> bool {
        true
    }

    open spec fn eq_spec(&self, other: &Self) -> bool {
        self@ == other@
    }
}

/// The mathematical form of an [`Entry`].
pub enum EntryView {
    Put { key: ValueView, value: ValueView },
    Remove { key: ValueView },
}

/// One command registered by the key-value store, in its resolved form.
#[derive(Debug, PartialEq, Eq, Hash)]
pub enum Entry {
    /// Sets the key to the given value.
    Put { key: Key, value: Value },
    /// Deletes the value associated with the given key.
    Remove { key: Key },
}

impl View for Entry {
    type V = EntryView;

    open spec fn view(&self) -> EntryView {
        match self {
            Entry::Put { key, value } => EntryView::Put { key: key@, value: value@ },
            Entry::Remove { key } => EntryView::Remove { key: key@ },
        }
    }
}

impl Entry {
    /// The key that this command concerns.
    pub fn get_key(&self) -> (r: Option<&Key>)
        ensures
            r is Some,
            self@ matches EntryView::Put { key, .. } ==> r->0@ == key,
            self@ matches EntryView::Remove { key } ==> r->0@ == key,
    {
        Some(
            match self {
                Entry::Put { key, .. } => key,
                Entry::Remove { key } => key,
            },
        )
    }
}

} // verus!
