use kvs::seekfile::SeekFile;

#[test]
fn writes_land_at_the_cursor_and_reads_return_them() {
    let mut f = SeekFile::new();
    f.write_all(&[1, 2, 3, 4]);
    assert_eq!(4, f.len());
    assert_eq!(4, f.position());

    f.seek_to(1);
    assert_eq!(Ok(vec![2, 3]), f.read_exact(2));
    assert_eq!(3, f.position());
}

#[test]
fn writing_past_the_end_zero_fills_the_gap() {
    let mut f = SeekFile::new();
    f.seek_to(3);
    f.write_all(&[9]);
    assert_eq!(4, f.len());
    f.seek_to(0);
    assert_eq!(Ok(vec![0, 0, 0, 9]), f.read_exact(4));
}

#[test]
fn overwriting_keeps_the_tail() {
    let mut f = SeekFile::from_vec(vec![1, 2, 3, 4, 5]);
    f.seek_to(1);
    f.write_all(&[8, 8]);
    f.seek_to(0);
    assert_eq!(Ok(vec![1, 8, 8, 4, 5]), f.read_exact(5));
}

#[test]
fn reading_past_the_end_is_an_io_error() {
    let mut f = SeekFile::from_vec(vec![1, 2]);
    f.seek_to(1);
    assert_eq!(Err(kvs::error::Error::Io), f.read_exact(2));
    // a failed read moves nothing
    assert_eq!(1, f.position());
    assert_eq!(Ok(vec![2]), f.read_exact(1));
}
