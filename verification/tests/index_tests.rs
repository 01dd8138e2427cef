use kvs::entry::mem::Value;
use kvs::index::{Index, IndexEntry};

#[test]
fn the_index_tracks_the_latest_location() {
    let mut index = Index::new();
    assert_eq!(0, index.len());
    assert_eq!(None, index.get(&Value::String("a".to_owned())));

    index.insert(
        Value::String("a".to_owned()),
        IndexEntry { gen: 0, position: 3 },
    );
    index.insert(
        Value::String("b".to_owned()),
        IndexEntry { gen: 0, position: 4 },
    );
    assert_eq!(2, index.len());
    assert_eq!(
        Some(IndexEntry { gen: 0, position: 3 }),
        index.get(&Value::String("a".to_owned()))
    );

    // overwriting replaces the location without growing the index
    index.insert(
        Value::String("a".to_owned()),
        IndexEntry { gen: 1, position: 0 },
    );
    assert_eq!(2, index.len());
    assert_eq!(
        Some(IndexEntry { gen: 1, position: 0 }),
        index.get(&Value::String("a".to_owned()))
    );

    index.remove(&Value::String("a".to_owned()));
    assert_eq!(None, index.get(&Value::String("a".to_owned())));
    assert_eq!(1, index.len());
}

#[test]
fn integer_and_string_keys_are_distinct() {
    let mut index = Index::new();
    index.insert(Value::Integer(1), IndexEntry { gen: 0, position: 0 });
    assert_eq!(None, index.get(&Value::String("1".to_owned())));
    assert_eq!(
        Some(IndexEntry { gen: 0, position: 0 }),
        index.get(&Value::Integer(1))
    );
}
