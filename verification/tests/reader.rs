use less2::reader::{BiBufReader, ByteSource, InputReader, InputType, SeekFrom, ValidReader};

fn thai_reader() -> ValidReader {
    let text = "พระปกเกศกองบู๊กู้ขึ้นใหม่สิบสองกษัตริย์ก่อนหน้";
    let source = ByteSource::new(text.as_bytes().to_vec());
    ValidReader::new(InputReader::new(InputType::Stdin(source)))
}

#[test]
fn reader_test_seek_to_end() {
    let mut reader = thai_reader();
    assert_eq!(
        reader.seek(SeekFrom::End(0)).unwrap(),
        reader.seek(SeekFrom::Current(0)).unwrap()
    );
}

#[test]
fn reader_test_seek_0_returns_0() {
    let mut reader = thai_reader();
    assert_eq!(reader.seek(SeekFrom::Start(0)).unwrap(), 0);
}

#[test]
fn reader_test_valid_from_1() {
    let mut reader = thai_reader();

    // Seek to invalid pos
    let pos = reader.seek(SeekFrom::Start(1)).unwrap();
    assert_eq!(pos, 3);

    let buf = reader.read(1000);
    assert!(std::str::from_utf8(&buf).is_ok());
}

#[test]
fn valid_reader_test_seek_to_end() {
    let mut reader = thai_reader();
    assert_eq!(
        reader.seek(SeekFrom::End(0)).unwrap(),
        reader.seek(SeekFrom::Current(0)).unwrap()
    );
}

#[test]
fn valid_reader_test_seek_0_returns_0() {
    let mut reader = thai_reader();
    assert_eq!(reader.seek(SeekFrom::Start(0)).unwrap(), 0);
}

#[test]
fn valid_reader_test_valid_from_1() {
    let mut reader = thai_reader();

    let pos = reader.seek(SeekFrom::Start(1)).unwrap();
    assert_eq!(pos, 3);

    let buf = reader.read(1000);
    assert!(std::str::from_utf8(&buf).is_ok());
}

#[test]
fn seek_mid_last_character_fails() {
    let text = "พระ";
    let len = text.len() as u64;
    let source = ByteSource::new(text.as_bytes().to_vec());
    let mut reader = ValidReader::new(InputReader::new(InputType::Stdin(source)));
    // one byte into the final three-byte character: no boundary remains
    assert!(reader.seek(SeekFrom::Start(len - 1)).is_err());
}

#[test]
fn jump_offset_snaps_to_character_boundary() {
    let text = "กขค"; // three three-byte characters
    let source = ByteSource::new(text.as_bytes().to_vec());
    let mut nav = BiBufReader::new(
        ValidReader::new(InputReader::new(InputType::Stdin(source))),
        false,
        80,
        24,
    );
    nav.jump_offset(1).unwrap();
    assert_eq!(nav.current_offset(), 3);
    nav.jump_offset(5).unwrap();
    assert_eq!(nav.current_offset(), 6);
    nav.jump_offset(0).unwrap();
    assert_eq!(nav.current_offset(), 0);
}

#[test]
fn next_file_cycles_and_keeps_positions() {
    let a = ByteSource::new(b"first\n".to_vec());
    let b = ByteSource::new(b"second\n".to_vec());
    let mut reader = InputReader::new(InputType::Files(vec![a, b]));
    reader.seek(SeekFrom::Start(3));
    assert!(reader.next_file().is_ok());
    assert_eq!(reader.position(), 0);
    assert!(reader.next_file().is_ok());
    assert_eq!(reader.position(), 3);

    let stdin = ByteSource::new(b"only\n".to_vec());
    let mut single = InputReader::new(InputType::Stdin(stdin));
    assert!(single.next_file().is_err());
}

#[test]
fn page_is_a_peek() {
    let source = ByteSource::new(b"hello\nworld\n".to_vec());
    let reader = BiBufReader::new(
        ValidReader::new(InputReader::new(InputType::Stdin(source))),
        false,
        80,
        24,
    );
    let (off, bytes) = reader.page();
    assert_eq!(off, 0);
    assert_eq!(&bytes[..], b"hello\nworld\n");
    assert_eq!(reader.current_offset(), 0);
}
