use kmd_parser::parse;

#[test]
fn test_parse_file() {
    assert_eq!(
        parse("# Some content".to_string()),
        "<h1>Some content</h1>".to_string()
    );
}
