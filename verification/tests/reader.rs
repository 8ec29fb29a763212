use kmd_parser::reader::Reader;

#[test]
fn test_reader_next() {
    let mut reader = Reader::new("Some contents".to_string());
    assert_eq!(reader.next(), Some('S'));
    assert_eq!(reader.next(), Some('o'));
}

#[test]
fn test_reader_peek() {
    let mut reader = Reader::new("Some contents".to_string());
    assert_eq!(reader.next(), Some('S'));
    assert_eq!(reader.peek(), Some('o'));
    assert_eq!(reader.peek(), Some('o'));
    assert_eq!(reader.next(), Some('o'));
    assert_eq!(reader.peek(), Some('m'));
}
