use kvs::entry::mem::{Entry, Value};
use kvs::seekfile::SeekFile;
use kvs::writer::LogWriter;

#[test]
fn entry_pos_remains_updated() {
    let entry_buf = vec![0u8; 500];
    let data_buf = vec![0u8; 500];

    let entry_cursor = SeekFile::from_vec(entry_buf);
    let data_cursor = SeekFile::from_vec(data_buf);

    let mut writer = LogWriter::new(entry_cursor, data_cursor).expect("writer");
    assert_eq!(0, writer.get_pos());

    let entry = Entry::Put {
        key: Value::Integer(42),
        value: Value::String("hey there".to_owned()),
    };

    for i in 0..10 {
        let pos = writer.write_entry(&entry);
        assert!(pos.is_ok());
        assert_eq!(i, pos.unwrap());
    }
}

#[test]
fn set_pos_repositions_the_counter() {
    let mut writer = LogWriter::new(SeekFile::new(), SeekFile::new()).expect("writer");
    assert_eq!(0, writer.get_pos());
    writer.set_pos(7);
    assert_eq!(7, writer.get_pos());
    let entry = Entry::Remove {
        key: Value::String("k".to_owned()),
    };
    let pos = writer.write_entry(&entry).expect("write");
    assert_eq!(7, pos);
    assert_eq!(8, writer.get_pos());
}

#[test]
fn flush_succeeds() {
    let mut writer = LogWriter::new(SeekFile::new(), SeekFile::new()).expect("writer");
    assert!(writer.flush().is_ok());
}

#[test]
fn writer_refuses_to_pass_the_cap() {
    let mut writer = LogWriter::new(SeekFile::new(), SeekFile::new()).expect("writer");
    writer.set_pos(0x1000);
    let entry = Entry::Put {
        key: Value::Integer(1),
        value: Value::Integer(2),
    };
    assert_eq!(Err(kvs::error::Error::Overflow), writer.write_entry(&entry));
}

#[test]
fn entry_get_key_names_the_key() {
    let put = Entry::Put {
        key: Value::String("a".to_owned()),
        value: Value::String("1".to_owned()),
    };
    assert_eq!(Some(&Value::String("a".to_owned())), put.get_key());
    let rm = Entry::Remove {
        key: Value::Integer(9),
    };
    assert_eq!(Some(&Value::Integer(9)), rm.get_key());
}
