use kmd_parser::tokenizer::{tokenize, Token};

fn text(s: &str) -> Token {
    Token::Text(s.to_string())
}

#[test]
fn document_with_heading_wrapped_lines_and_two_paragraphs() {
    let input = "# Title\nLine one\nLine two.  \nLine three\n\nSecond paragraph";
    assert_eq!(
        tokenize(input.to_string()),
        vec![
            Token::Heading(1, "Title".to_string()),
            Token::Paragraph(vec![
                text("Line one"),
                text("Line two."),
                Token::Newline,
                text("Line three"),
            ]),
            Token::Paragraph(vec![text("Second paragraph")]),
        ]
    );
}

#[test]
fn single_emphasis() {
    assert_eq!(
        tokenize("*hi*".to_string()),
        vec![Token::Paragraph(vec![Token::Emphasis(1, vec![text("hi")])])]
    );
}

#[test]
fn unterminated_marker_is_text() {
    assert_eq!(
        tokenize("*unterminated".to_string()),
        vec![Token::Paragraph(vec![text("*unterminated")])]
    );
}

#[test]
fn empty_document_has_no_tokens() {
    assert_eq!(tokenize(String::new()), Vec::<Token>::new());
}

#[test]
fn newlines_alone_have_no_tokens() {
    assert_eq!(tokenize("\n\n\n".to_string()), Vec::<Token>::new());
}

#[test]
fn blank_line_of_spaces_has_no_text() {
    assert_eq!(tokenize(" \n\nword".to_string()), vec![Token::Paragraph(vec![text("word")])]);
}

#[test]
fn test_tokenize_with_complex_inline_tokens() {
    let md_content = "# This is some heading\n\nHere is some text with a little bit of length **for testing**.\n\n*Hello this is *some* dumb shit*\n\n*****He*ll*o*****\n\n*Is it in italics*Yes it is\n\nHey this is some text with *fake italic\n\n* *First item*\n* Second item";
    assert_eq!(
        tokenize(md_content.to_string()),
        vec![
            Token::Heading(1, "This is some heading".to_string()),
            Token::Paragraph(vec![
                text("Here is some text with a little bit of length"),
                Token::Emphasis(2, vec![text("for testing")]),
                text("."),
            ]),
            Token::Paragraph(vec![Token::Emphasis(
                1,
                vec![
                    text("Hello this is"),
                    Token::Emphasis(1, vec![text("some")]),
                    text("dumb shit"),
                ]
            )]),
            Token::Paragraph(vec![
                Token::Emphasis(
                    3,
                    vec![
                        Token::Emphasis(
                            1,
                            vec![Token::Emphasis(1, vec![text("He")]), text("ll")]
                        ),
                        text("o"),
                    ]
                ),
                text("**"),
            ]),
            Token::Paragraph(vec![
                Token::Emphasis(1, vec![text("Is it in italics")]),
                text("Yes it is"),
            ]),
            Token::Paragraph(vec![text("Hey this is some text with *fake italic")]),
            Token::Paragraph(vec![
                text("*"),
                Token::Emphasis(1, vec![text("First item")]),
                text("* Second item"),
            ]),
        ]
    );
}

#[test]
fn sample_of_the_program() {
    assert_eq!(
        tokenize("\n*Italic**Bold*Italic**\n".to_string()),
        vec![Token::Paragraph(vec![
            Token::Emphasis(1, vec![text("Italic")]),
            Token::Emphasis(1, vec![text("Bold")]),
            text("Italic**"),
        ])]
    );
}
