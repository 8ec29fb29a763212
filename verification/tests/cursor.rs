use kmd_parser::reader::Reader;

#[test]
fn reader_starts_before_the_text() {
    let reader = Reader::new("ab".to_string());
    assert_eq!(reader.index(), None);
    assert_eq!(reader.current(), None);
    assert_eq!(reader.peek(), Some('a'));
}

#[test]
fn reader_runs_past_the_end() {
    let mut reader = Reader::new("ab".to_string());
    assert_eq!(reader.next(), Some('a'));
    assert_eq!(reader.current(), Some('a'));
    assert_eq!(reader.index(), Some(0));
    assert_eq!(reader.next(), Some('b'));
    assert_eq!(reader.peek(), None);
    assert_eq!(reader.next(), None);
    assert_eq!(reader.index(), Some(2));
    assert_eq!(reader.current(), None);
    assert_eq!(reader.next(), None);
    assert_eq!(reader.index(), Some(3));
    assert_eq!(reader.peek(), None);
}

#[test]
fn reader_of_empty_text() {
    let mut reader = Reader::new(String::new());
    assert_eq!(reader.peek(), None);
    assert_eq!(reader.next(), None);
    assert_eq!(reader.index(), Some(0));
}

#[test]
fn reader_counts_characters_not_bytes() {
    let mut reader = Reader::new("é*".to_string());
    assert_eq!(reader.next(), Some('é'));
    assert_eq!(reader.peek(), Some('*'));
    assert_eq!(reader.next(), Some('*'));
    assert_eq!(reader.index(), Some(1));
}

#[test]
fn reader_position_can_be_put_back() {
    let mut reader = Reader::new("abc".to_string());
    reader.next();
    let saved = reader.index();
    reader.next();
    reader.next();
    assert_eq!(reader.current(), Some('c'));
    reader.set_index(saved);
    assert_eq!(reader.current(), Some('a'));
    assert_eq!(reader.next(), Some('b'));
    reader.set_index(None);
    assert_eq!(reader.next(), Some('a'));
    reader.set_index(Some(usize::MAX));
    assert_eq!(reader.peek(), None);
    assert_eq!(reader.current(), None);
}

#[test]
fn reader_clone_moves_on_its_own() {
    let mut reader = Reader::new("abc".to_string());
    reader.next();
    let mut copy = reader.clone();
    assert_eq!(copy.index(), Some(0));
    assert_eq!(copy.next(), Some('b'));
    assert_eq!(copy.next(), Some('c'));
    assert_eq!(reader.index(), Some(0));
    assert_eq!(reader.next(), Some('b'));
}
