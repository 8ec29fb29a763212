use kmd_parser::tokenizer::{tokenize, Token};

#[test]
fn tokenizer_test_tokenize_simple_md() {
    let md_content = "# This is a heading\nWe can insert newlines\nbut they are not taken account of.  \nBut here its ok.\n\nNew paragraph?";
    assert_eq!(
        tokenize(md_content.to_string()),
        vec![
            Token::Heading(1, "This is a heading".to_string()),
            Token::Paragraph(vec![
                Token::Text("We can insert newlines".to_string()),
                Token::Text("but they are not taken account of.".to_string()),
                Token::Newline,
                Token::Text("But here its ok.".to_string()),
            ]),
            Token::Paragraph(vec![Token::Text("New paragraph?".to_string()),]),
        ]
    )
}

#[test]
fn tokenizer_test_tokenize_with_inline_tokens() {
    let md_content = "# This is a heading\nWe *can* insert newlines\nbut they are not **taken account of**  \nBut here ***its ok***.\n\nNew paragraph?";
    assert_eq!(
        tokenize(md_content.to_string()),
        vec![
            Token::Heading(1, "This is a heading".to_string()),
            Token::Paragraph(vec![
                Token::Text("We".to_string()),
                Token::Emphasis(1, vec![Token::Text("can".to_string())]),
                Token::Text("insert newlines".to_string()),
                Token::Text("but they are not".to_string()),
                Token::Emphasis(2, vec![Token::Text("taken account of".to_string())]),
                Token::Newline,
                Token::Text("But here".to_string()),
                Token::Emphasis(3, vec![Token::Text("its ok".to_string())]),
                Token::Text(".".to_string()),
            ]),
            Token::Paragraph(vec![Token::Text("New paragraph?".to_string()),]),
        ]
    )
}

#[test]
fn mod_test_tokenize_simple_md() {
    let md_content = "# This is a heading\nWe can insert newlines\nbut they are not taken account of.  \nBut here its ok.\n\nNew paragraph?";
    assert_eq!(
        tokenize(md_content.to_string()),
        vec![
            Token::Heading(1, "This is a heading".to_string()),
            Token::Paragraph(vec![
                Token::Text("We can insert newlines".to_string()),
                Token::Text("but they are not taken account of.".to_string()),
                Token::Newline,
                Token::Text("But here its ok.".to_string()),
            ]),
            Token::Paragraph(vec![Token::Text("New paragraph?".to_string()),]),
        ]
    )
}

#[test]
fn mod_test_tokenize_with_inline_tokens() {
    let md_content = "# This is a heading\nWe *can* insert newlines\nbut they are not **taken account of**  \nBut here ***its ok***.\n\nNew paragraph?";
    assert_eq!(
        tokenize(md_content.to_string()),
        vec![
            Token::Heading(1, "This is a heading".to_string()),
            Token::Paragraph(vec![
                Token::Text("We".to_string()),
                Token::Emphasis(1, vec![Token::Text("can".to_string())]),
                Token::Text("insert newlines".to_string()),
                Token::Text("but they are not".to_string()),
                Token::Emphasis(2, vec![Token::Text("taken account of".to_string())]),
                Token::Newline,
                Token::Text("But here".to_string()),
                Token::Emphasis(3, vec![Token::Text("its ok".to_string())]),
                Token::Text(".".to_string()),
            ]),
            Token::Paragraph(vec![Token::Text("New paragraph?".to_string()),]),
        ]
    )
}
