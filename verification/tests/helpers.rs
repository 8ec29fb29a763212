use kmd_parser::reader::Reader;
use kmd_parser::tokenizer::helpers::{collect_until, get_last_paragraph, next_char_is, skip_while};
use kmd_parser::tokenizer::Token;

fn text(s: &str) -> Token {
    Token::Text(s.to_string())
}

#[test]
fn next_char_is_looks_one_ahead() {
    let mut reader = Reader::new("ab".to_string());
    assert!(next_char_is(&reader, 'a'));
    assert!(!next_char_is(&reader, 'b'));
    reader.next();
    assert!(next_char_is(&reader, 'b'));
    reader.next();
    assert!(!next_char_is(&reader, 'b'));
    assert_eq!(reader.index(), Some(1));
}

#[test]
fn skip_while_stops_before_the_first_refused() {
    let mut reader = Reader::new("a\n\n\nb\n".to_string());
    reader.next();
    skip_while(&mut reader, |c: &char| *c == '\n');
    assert_eq!(reader.index(), Some(3));
    assert_eq!(reader.peek(), Some('b'));
    skip_while(&mut reader, |c: &char| *c == '\n');
    assert_eq!(reader.index(), Some(3));
}

#[test]
fn skip_while_stops_at_the_end() {
    let mut reader = Reader::new("\n\n".to_string());
    skip_while(&mut reader, |c: &char| *c == '\n');
    assert_eq!(reader.index(), Some(1));
    assert_eq!(reader.peek(), None);
}

#[test]
fn collect_until_returns_what_it_read() {
    let mut reader = Reader::new("# Title here\nrest".to_string());
    reader.next();
    reader.next();
    let line = collect_until(&mut reader, |c: &char| *c == '\n');
    assert_eq!(line, "Title here");
    assert_eq!(reader.index(), Some(11));
    assert_eq!(reader.peek(), Some('\n'));
    let nothing = collect_until(&mut reader, |c: &char| *c == '\n');
    assert_eq!(nothing, "");
    assert_eq!(reader.index(), Some(11));
}

#[test]
fn collect_until_reads_to_the_end() {
    let mut reader = Reader::new("abc".to_string());
    let all = collect_until(&mut reader, |c: &char| *c == '\n');
    assert_eq!(all, "abc");
    assert_eq!(reader.index(), Some(2));
    assert_eq!(reader.peek(), None);
}

#[test]
fn last_paragraph_is_made_where_there_is_none() {
    let mut tokens: Vec<Token> = Vec::new();
    let mut force = false;
    get_last_paragraph(&mut tokens, &mut force).push(text("a"));
    assert!(!force);
    assert_eq!(tokens, vec![Token::Paragraph(vec![text("a")])]);

    let mut tokens = vec![Token::Heading(1, "T".to_string())];
    let mut force = false;
    get_last_paragraph(&mut tokens, &mut force).push(text("a"));
    assert_eq!(
        tokens,
        vec![Token::Heading(1, "T".to_string()), Token::Paragraph(vec![text("a")])]
    );
}

#[test]
fn last_paragraph_is_used_again() {
    let mut tokens = vec![Token::Paragraph(vec![text("a")])];
    let mut force = false;
    get_last_paragraph(&mut tokens, &mut force).push(text("b"));
    assert!(!force);
    assert_eq!(tokens, vec![Token::Paragraph(vec![text("a"), text("b")])]);
}

#[test]
fn last_paragraph_is_made_anew_when_forced() {
    let mut tokens = vec![Token::Paragraph(vec![text("a")])];
    let mut force = true;
    get_last_paragraph(&mut tokens, &mut force).push(text("b"));
    assert!(!force);
    assert_eq!(
        tokens,
        vec![Token::Paragraph(vec![text("a")]), Token::Paragraph(vec![text("b")])]
    );
}
