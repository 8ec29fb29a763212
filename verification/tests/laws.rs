use kmd_parser::reader::Reader;
use kmd_parser::tokenizer::{tokenize, tokenize_reader, StopRule, Token};

fn text(s: &str) -> Token {
    Token::Text(s.to_string())
}

#[test]
fn document_scan_reads_every_character() {
    let input = "ab\n*c*";
    let mut reader = Reader::new(input.to_string());
    let (tokens, stopped) = tokenize_reader(&mut reader, false, StopRule::Never);
    assert!(!stopped);
    assert_eq!(reader.index(), Some(6));
    assert_eq!(reader.next(), None);
    assert_eq!(
        tokens,
        vec![Token::Paragraph(vec![text("ab"), Token::Emphasis(1, vec![text("c")])])]
    );
}

#[test]
fn document_scan_of_empty_text_ends_at_once() {
    let mut reader = Reader::new(String::new());
    let (tokens, stopped) = tokenize_reader(&mut reader, false, StopRule::Never);
    assert!(!stopped);
    assert!(tokens.is_empty());
    assert_eq!(reader.index(), Some(0));
}

#[test]
fn heading_level_is_the_number_of_markers() {
    assert_eq!(
        tokenize("# One".to_string()),
        vec![Token::Heading(1, "One".to_string())]
    );
    assert_eq!(
        tokenize("## Two".to_string()),
        vec![Token::Heading(2, "Two".to_string())]
    );
    assert_eq!(
        tokenize("######   Six  ".to_string()),
        vec![Token::Heading(6, "Six".to_string())]
    );
}

#[test]
fn heading_text_keeps_markers_inside_it() {
    assert_eq!(
        tokenize("# a # b *c*".to_string()),
        vec![Token::Heading(1, "a # b *c*".to_string())]
    );
}

#[test]
fn heading_with_blank_text_is_literal_text() {
    assert_eq!(tokenize("## ".to_string()), vec![Token::Paragraph(vec![text("##")])]);
    assert_eq!(tokenize("#".to_string() + "  \t "), vec![Token::Paragraph(vec![text("#")])]);
    assert_eq!(
        tokenize("### \nnext".to_string()),
        vec![Token::Paragraph(vec![text("###"), text("next")])]
    );
}

#[test]
fn marker_before_other_text_is_dropped_from_the_line() {
    // A marker that another marker follows only counts; the run then ends in text.
    assert_eq!(tokenize("##x".to_string()), vec![Token::Paragraph(vec![text("#x")])]);
    assert_eq!(tokenize("#x".to_string()), vec![Token::Paragraph(vec![text("#x")])]);
}

#[test]
fn emphasis_strength_counts_collapsed_markers() {
    assert_eq!(
        tokenize("***its ok***".to_string()),
        vec![Token::Paragraph(vec![Token::Emphasis(3, vec![text("its ok")])])]
    );
    assert_eq!(
        tokenize("**bold**".to_string()),
        vec![Token::Paragraph(vec![Token::Emphasis(2, vec![text("bold")])])]
    );
    assert_eq!(
        tokenize("*****x*****".to_string()),
        vec![Token::Paragraph(vec![Token::Emphasis(5, vec![text("x")])])]
    );
}

#[test]
fn unmatched_marker_stays_in_the_text() {
    assert_eq!(tokenize("a*b".to_string()), vec![Token::Paragraph(vec![text("a*b")])]);
    assert_eq!(tokenize("a * b".to_string()), vec![Token::Paragraph(vec![text("a * b")])]);
    assert_eq!(tokenize("*".to_string()), vec![Token::Paragraph(vec![text("*")])]);
    assert_eq!(
        tokenize("Hey this is some text with *fake italic".to_string()),
        vec![Token::Paragraph(vec![text("Hey this is some text with *fake italic")])]
    );
}

#[test]
fn closing_marker_must_follow_something_other_than_white_space() {
    assert_eq!(tokenize("*a *".to_string()), vec![Token::Paragraph(vec![text("*a *")])]);
    assert_eq!(
        tokenize("*a\u{a0}*".to_string()),
        vec![Token::Paragraph(vec![text("*a\u{a0}*")])]
    );
    assert_eq!(tokenize("**".to_string()), vec![Token::Paragraph(vec![text("**")])]);
    assert_eq!(
        tokenize("*a\u{200b}*".to_string()),
        vec![Token::Paragraph(vec![Token::Emphasis(1, vec![text("a\u{200b}")])])]
    );
}

#[test]
fn opening_marker_before_a_space_is_text() {
    assert_eq!(tokenize("* a*".to_string()), vec![Token::Paragraph(vec![text("* a*")])]);
}

#[test]
fn emphasis_does_not_cross_a_line() {
    assert_eq!(
        tokenize("*a\nb*".to_string()),
        vec![Token::Paragraph(vec![text("*a"), text("b*")])]
    );
}

#[test]
fn single_newline_joins_lines_in_one_paragraph() {
    assert_eq!(
        tokenize("one\ntwo".to_string()),
        vec![Token::Paragraph(vec![text("one"), text("two")])]
    );
    assert_eq!(
        tokenize(" one \n\ttwo ".to_string()),
        vec![Token::Paragraph(vec![text("one"), text("two")])]
    );
}

#[test]
fn blank_line_separates_paragraphs() {
    assert_eq!(
        tokenize("one\n\ntwo".to_string()),
        vec![Token::Paragraph(vec![text("one")]), Token::Paragraph(vec![text("two")])]
    );
    assert_eq!(
        tokenize("one\n\n\n\ntwo".to_string()),
        vec![Token::Paragraph(vec![text("one")]), Token::Paragraph(vec![text("two")])]
    );
}

#[test]
fn two_trailing_spaces_make_a_hard_break() {
    assert_eq!(
        tokenize("one  \ntwo".to_string()),
        vec![Token::Paragraph(vec![text("one"), Token::Newline, text("two")])]
    );
    assert_eq!(
        tokenize("one     \ntwo".to_string()),
        vec![Token::Paragraph(vec![text("one"), Token::Newline, text("two")])]
    );
}

#[test]
fn one_trailing_space_makes_no_hard_break() {
    assert_eq!(
        tokenize("one \ntwo".to_string()),
        vec![Token::Paragraph(vec![text("one"), text("two")])]
    );
}

#[test]
fn hard_break_before_a_blank_line_is_dropped() {
    assert_eq!(
        tokenize("one  \n\ntwo".to_string()),
        vec![Token::Paragraph(vec![text("one")]), Token::Paragraph(vec![text("two")])]
    );
}

#[test]
fn hard_break_at_the_end_of_the_text_is_kept() {
    assert_eq!(
        tokenize("one  \n".to_string()),
        vec![Token::Paragraph(vec![text("one"), Token::Newline])]
    );
}

#[test]
fn line_of_spaces_alone_makes_a_hard_break() {
    assert_eq!(
        tokenize("  \nword".to_string()),
        vec![Token::Paragraph(vec![Token::Newline, text("word")])]
    );
}

#[test]
fn text_after_a_heading_opens_a_paragraph() {
    assert_eq!(
        tokenize("# T\nbody".to_string()),
        vec![Token::Heading(1, "T".to_string()), Token::Paragraph(vec![text("body")])]
    );
}

#[test]
fn heading_inside_a_document_closes_the_paragraph() {
    assert_eq!(
        tokenize("a\n# T\nb".to_string()),
        vec![
            Token::Paragraph(vec![text("a")]),
            Token::Heading(1, "T".to_string()),
            Token::Paragraph(vec![text("b")]),
        ]
    );
}

fn is_trimmed_line(s: &str) -> bool {
    !s.is_empty() && s.trim() == s && !s.contains('\n')
}

fn keeps_shape(token: &Token, inside_emphasis: bool) -> bool {
    match token {
        Token::Text(s) => is_trimmed_line(s),
        Token::Newline => !inside_emphasis,
        Token::Emphasis(strength, children) => {
            *strength >= 1
                && !children.is_empty()
                && children.iter().all(|child| keeps_shape(child, true))
        }
        Token::Link(_, _) | Token::Heading(_, _) | Token::Paragraph(_) => false,
    }
}

fn is_block(token: &Token) -> bool {
    match token {
        Token::Heading(level, s) => *level >= 1 && is_trimmed_line(s),
        Token::Paragraph(children) => children.iter().all(|child| keeps_shape(child, false)),
        _ => false,
    }
}

#[test]
fn documents_are_headings_and_paragraphs_of_trimmed_text() {
    let documents = [
        "",
        "\n",
        "  \n  \n",
        "# \n## x\n###\n#y #z",
        " * a * *b* **c** ***d\n*e*  \n\n  f  \n# g *h*  \n",
        "*****He*ll*o*****\n\n*Is it*Yes\n* *First*\n* Second",
        "\t#\u{a0}x \u{3000}\n*\u{2003}y*\n**  **z",
        "a*b*c*d*e\n#\n##\n### ok\n*#*\n",
    ];
    for document in documents {
        let tokens = tokenize(document.to_string());
        assert!(tokens.iter().all(is_block), "{:?}: {:?}", document, tokens);
    }
}
