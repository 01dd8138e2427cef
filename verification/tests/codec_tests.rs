use kvs::codec::{decode_slot, encode_slot};
use kvs::entry::file::{Entry, Value, SERIALIZED_ENTRY_SIZE};
use kvs::error::Error;

#[test]
fn check_serialized_entry_size() {
    let entry = Entry::Put {
        key: Value::Integer { value: 0 },
        value: Value::Integer { value: 0 },
    };
    let size = encode_slot(&entry).len();
    assert!(
        size <= SERIALIZED_ENTRY_SIZE,
        "entry::file::Entry is too large: currently at {} bytes",
        size
    );
}

#[test]
fn slot_round_trips_a_put_of_references() {
    let entry = Entry::Put {
        key: Value::String { start: 3, len: 5 },
        value: Value::String { start: 8, len: 200 },
    };
    let slot = encode_slot(&entry);
    assert_eq!(SERIALIZED_ENTRY_SIZE, slot.len());
    assert_eq!(Ok(Some(entry)), decode_slot(&slot));
}

#[test]
fn slot_round_trips_integers() {
    let entry = Entry::Put {
        key: Value::Integer { value: -42 },
        value: Value::Integer { value: i128::MAX },
    };
    let slot = encode_slot(&entry);
    assert_eq!(Ok(Some(entry)), decode_slot(&slot));

    let rm = Entry::Remove {
        key: Value::Integer { value: i128::MIN },
    };
    let slot2 = encode_slot(&rm);
    assert_eq!(Ok(Some(rm)), decode_slot(&slot2));
}

#[test]
fn a_zero_slot_is_absent() {
    let slot = vec![0u8; SERIALIZED_ENTRY_SIZE];
    assert_eq!(Ok(None), decode_slot(&slot));
}

#[test]
fn a_bad_framing_byte_is_a_decode_error() {
    let slot = vec![7u8; SERIALIZED_ENTRY_SIZE];
    assert_eq!(Err(Error::Decode), decode_slot(&slot));
}

#[test]
fn error_messages_name_the_kind() {
    assert_eq!("Key not found", Error::KeyNotFound.message());
    assert_eq!("decode error", Error::Decode.message());
    assert_eq!("io error", Error::Io.message());
    assert_eq!("log overflow", Error::Overflow.message());
    assert_eq!("not a directory", Error::NotADirectory.message());
    assert_eq!("consistency error", Error::Consistency.message());
}
