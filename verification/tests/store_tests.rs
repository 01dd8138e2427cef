use kvs::codec::encode_slot;
use kvs::entry::file::{Entry, Value};
use kvs::error::Error;
use kvs::kv::{GenFiles, KvStore};

fn fresh_store() -> KvStore {
    KvStore::open(Vec::new()).expect("open")
}

#[test]
fn set_then_get() {
    let mut store = fresh_store();
    store.set("a".to_owned(), "1".to_owned()).expect("set");
    assert_eq!(Ok(Some("1".to_owned())), store.get("a".to_owned()));
}

#[test]
fn set_twice_gets_the_second_value() {
    let mut store = fresh_store();
    store.set("a".to_owned(), "1".to_owned()).expect("set");
    store.set("a".to_owned(), "2".to_owned()).expect("set");
    assert_eq!(Ok(Some("2".to_owned())), store.get("a".to_owned()));
}

#[test]
fn remove_then_get_is_none_and_second_remove_fails() {
    let mut store = fresh_store();
    store.set("a".to_owned(), "1".to_owned()).expect("set");
    assert!(store.remove("a".to_owned()).is_ok());
    assert_eq!(Ok(None), store.get("a".to_owned()));
    assert_eq!(Err(Error::KeyNotFound), store.remove("a".to_owned()));
}

#[test]
fn get_of_an_absent_key_is_none() {
    let mut store = fresh_store();
    assert_eq!(Ok(None), store.get("missing".to_owned()));
}

#[test]
fn empty_key_and_value_round_trip() {
    let mut store = fresh_store();
    store.set("".to_owned(), "".to_owned()).expect("set");
    assert_eq!(Ok(Some("".to_owned())), store.get("".to_owned()));
}

#[test]
fn close_then_reopen_keeps_the_value() {
    let mut store = fresh_store();
    store.set("k1".to_owned(), "v1".to_owned()).expect("set");
    let files = store.close();
    let mut reopened = KvStore::open(files).expect("reopen");
    assert_eq!(Ok(Some("v1".to_owned())), reopened.get("k1".to_owned()));
}

#[test]
fn many_sets_force_compaction_and_keep_every_value() {
    let mut store = fresh_store();
    for i in 0..5000u32 {
        store
            .set(format!("key{}", i), format!("value{}", i))
            .expect("set");
    }
    // the per-generation threshold is 4000 entries and every key is
    // distinct, so compaction cannot shrink the first generation and the
    // generation counter must advance
    assert!(store.generations() >= 2);
    for i in 0..5000u32 {
        assert_eq!(Ok(Some(format!("value{}", i))), store.get(format!("key{}", i)));
    }
}

#[test]
fn sets_then_removes_survive_reopen_and_compact_to_nothing() {
    let mut store = fresh_store();
    for i in 0..100u32 {
        store.set(format!("k{}", i), format!("v{}", i)).expect("set");
    }
    for i in 0..100u32 {
        store.remove(format!("k{}", i)).expect("remove");
    }
    let files = store.close();
    let mut reopened = KvStore::open(files).expect("reopen");
    for i in 0..100u32 {
        assert_eq!(Ok(None), reopened.get(format!("k{}", i)));
    }
    reopened.compact_all().expect("compact");
    for g in 0..reopened.generations() {
        assert_eq!(0, reopened.log_len(g));
    }
}

#[test]
fn recovery_skips_zeroed_slots() {
    let mut store = fresh_store();
    store.set("a".to_owned(), "1".to_owned()).expect("set");
    store.set("b".to_owned(), "2".to_owned()).expect("set");
    let mut files = store.close();
    // two slots of zeros after the written records: a pre-allocated tail
    files[0].log.extend(vec![0u8; 128]);
    let mut reopened = KvStore::open(files).expect("reopen");
    assert_eq!(2, reopened.log_len(0));
    assert_eq!(Ok(Some("1".to_owned())), reopened.get("a".to_owned()));
    assert_eq!(Ok(Some("2".to_owned())), reopened.get("b".to_owned()));
}

#[test]
fn recovery_replays_exactly_the_written_prefix() {
    let mut log: Vec<u8> = Vec::new();
    log.extend(encode_slot(&Entry::Put {
        key: Value::Integer { value: 1 },
        value: Value::Integer { value: 2 },
    }));
    log.extend(encode_slot(&Entry::Put {
        key: Value::Integer { value: 3 },
        value: Value::Integer { value: 4 },
    }));
    log.extend(vec![0u8; 192]);
    let files = vec![GenFiles {
        gen: 0,
        log,
        data: Vec::new(),
    }];
    let store = KvStore::open(files).expect("open");
    assert_eq!(2, store.log_len(0));
}

#[test]
fn an_undecodable_slot_fails_the_open() {
    let files = vec![GenFiles {
        gen: 0,
        log: vec![2u8; 64],
        data: Vec::new(),
    }];
    assert!(matches!(KvStore::open(files), Err(Error::Decode)));
}

#[test]
fn a_dangling_reference_fails_the_open() {
    let log = encode_slot(&Entry::Put {
        key: Value::String { start: 0, len: 5 },
        value: Value::Integer { value: 0 },
    });
    let files = vec![GenFiles {
        gen: 0,
        log,
        data: Vec::new(),
    }];
    assert!(matches!(KvStore::open(files), Err(Error::Io)));
}

#[test]
fn a_log_over_the_cap_fails_the_open() {
    let slot = encode_slot(&Entry::Remove {
        key: Value::Integer { value: 1 },
    });
    let mut log: Vec<u8> = Vec::new();
    for _ in 0..0x1001 {
        log.extend(slot.iter().copied());
    }
    let files = vec![GenFiles {
        gen: 0,
        log,
        data: Vec::new(),
    }];
    assert!(matches!(KvStore::open(files), Err(Error::Overflow)));
}

#[test]
fn an_integer_value_under_a_string_key_is_a_consistency_fault() {
    let log = encode_slot(&Entry::Put {
        key: Value::String { start: 0, len: 1 },
        value: Value::Integer { value: 7 },
    });
    let files = vec![GenFiles {
        gen: 0,
        log,
        data: vec![b'a'],
    }];
    let mut store = KvStore::open(files).expect("open");
    assert_eq!(Err(Error::Consistency), store.get("a".to_owned()));
}

#[test]
fn compaction_preserves_the_map_and_shrinks_the_log() {
    let mut store = fresh_store();
    for i in 0..50u32 {
        store.set("same".to_owned(), format!("v{}", i)).expect("set");
    }
    store.set("other".to_owned(), "x".to_owned()).expect("set");
    assert_eq!(51, store.log_len(0));
    store.compact_all().expect("compact");
    // one live record per live key
    assert_eq!(2, store.log_len(0));
    assert_eq!(Ok(Some("v49".to_owned())), store.get("same".to_owned()));
    assert_eq!(Ok(Some("x".to_owned())), store.get("other".to_owned()));
}
