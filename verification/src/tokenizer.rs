//! Tokens, the scanner's state, and the scan that turns a text into tokens.
use vstd::prelude::*;
use crate::pattern::ends_visibly;
use crate::reader::{char_at, Reader};
use crate::text::{ends_with_hard_break, is_one_line, is_trimmed, line_is_blank, trimmed};
use crate::tokenizer::helpers::{get_last_paragraph, next_char_is, skip_while};
use crate::tokenizer::lemmas::{
    lemma_open_paragraph, lemma_push_child, lemma_run_len, lemma_scan_well_formed,
    lemma_step_bound,
};
use crate::tokenizer::matchers::emphasis::{get_emphasis, match_emphasis};
use crate::tokenizer::matchers::heading::{get_heading, match_heading};
use crate::tokenizer::laws::lemma_document_scan_reads_all;
use crate::tokenizer::model::{
    open_paragraph, remaining, scan, scan_from, tokens_of, well_formed_tokens, Outcome,
    ScanState,
};

pub mod helpers;
pub mod laws;
pub mod lemmas;
pub mod matchers;
pub mod model;

verus! {

/// When a scan ends before the end of its text.
#[derive(Clone, Copy, Debug, PartialEq, Eq, Structural)]
pub enum StopRule {
    /// Never: the scan of a whole document.
    Never,
    /// At the marker that closes an emphasis.
    AtCloser,
}

/// The two classes of token: those that sit at block level and those that sit in a line.
#[derive(Debug, PartialEq, Eq, Structural)]
pub enum TokenType {
    Block,
    Inline,
}

/// A construct of a document. Headings and paragraphs make up a document; text, emphasis
/// and hard breaks stand inside them. No scan yields a link yet: the variant is kept for a
/// handler to come.
#[derive(Debug, PartialEq)]
pub enum Token {
    /// A run of literal text.
    Text(String),
    /// A hard line break inside a paragraph.
    Newline,
    /// A heading: its level and its text.
    Heading(usize, String),
    /// A paragraph and the tokens inside it.
    Paragraph(Vec<Token>),
    /// An emphasised run: its strength and the tokens inside it.
    Emphasis(usize, Vec<Token>),
    /// A link: its label and its address.
    Link(String, String),
}

/// What a [`Token`] stands for: the same tree over sequences and unbounded numbers.
pub enum TokenView {
    Text(Seq<char>),
    Newline,
    Heading(nat, Seq<char>),
    Paragraph(Seq<TokenView>),
    Emphasis(nat, Seq<TokenView>),
    Link(Seq<char>, Seq<char>),
}

impl TokenView {
    /// Whether a token may stand inside an emphasis: text and emphasis may.
    pub open spec fn is_emphasised_content(self) -> bool {
        self is Text || self is Emphasis
    }

    /// Whether a scan puts such a token into a paragraph: text, emphasis and hard breaks.
    pub open spec fn is_paragraph_content(self) -> bool {
        self is Text || self is Emphasis || self is Newline
    }

    /// The shape of the tokens that a scan yields. A text is trimmed, not empty and on one
    /// line, and so is the text of a heading. Levels and strengths are positive. A
    /// paragraph and an emphasis hold only what may stand inside them, well formed again,
    /// and an emphasis holds at least one token. No scan yields a link.
    pub open spec fn well_formed(self) -> bool
        decreases self,
    {
        match self {
            TokenView::Text(text) => text.len() > 0 && is_trimmed(text) && is_one_line(text),
            TokenView::Newline => true,
            TokenView::Heading(level, text) => level >= 1 && text.len() > 0 && is_trimmed(text)
                && is_one_line(text),
            TokenView::Paragraph(children) => forall|i: int|
                0 <= i < children.len() ==> (#[trigger] children[i]).is_paragraph_content()
                    && children[i].well_formed(),
            TokenView::Emphasis(strength, children) => strength >= 1 && children.len() > 0
                && forall|i: int|
                0 <= i < children.len() ==> (#[trigger] children[i]).is_emphasised_content()
                    && children[i].well_formed(),
            TokenView::Link(_, _) => false,
        }
    }

    /// The class of the token.
    pub open spec fn kind(self) -> TokenType {
        match self {
            TokenView::Heading(_, _) | TokenView::Paragraph(_) | TokenView::Newline => TokenType::Block,
            TokenView::Text(_) | TokenView::Emphasis(_, _) | TokenView::Link(_, _) => TokenType::Inline,
        }
    }
}

/// What `token` stands for.
pub open spec fn token_view(token: Token) -> TokenView
    decreases token,
{
    match token {
        Token::Text(text) => TokenView::Text(text@),
        Token::Newline => TokenView::Newline,
        Token::Heading(level, text) => TokenView::Heading(level as nat, text@),
        Token::Paragraph(children) => TokenView::Paragraph(tokens_view(children@)),
        Token::Emphasis(strength, children) => TokenView::Emphasis(
            strength as nat,
            tokens_view(children@),
        ),
        Token::Link(label, url) => TokenView::Link(label@, url@),
    }
}

/// What each of `tokens` stands for, in order.
pub open spec fn tokens_view(tokens: Seq<Token>) -> Seq<TokenView>
    decreases tokens,
{
    if tokens.len() == 0 {
        Seq::empty()
    } else {
        tokens_view(tokens.drop_last()).push(token_view(tokens.last()))
    }
}

impl DeepView for Token {
    type V = TokenView;

    open spec fn deep_view(&self) -> TokenView {
        token_view(*self)
    }
}

/// `tokens_view` maps `token_view` over the sequence.
pub proof fn lemma_tokens_view(tokens: Seq<Token>)
    ensures
        tokens_view(tokens).len() == tokens.len(),
        forall|i: int| 0 <= i < tokens.len() ==> (#[trigger] tokens_view(tokens)[i]) == token_view(tokens[i]),
    decreases tokens.len(),
{
    if tokens.len() > 0 {
        lemma_tokens_view(tokens.drop_last());
    }
}

/// The children of a token are viewed as a vector of tokens is.
pub proof fn lemma_children_view(children: Vec<Token>)
    ensures
        tokens_view(children@) == children.deep_view(),
{
    lemma_tokens_view(children@);
    assert(tokens_view(children@) =~= children.deep_view());
}

/// Pushing a token onto a vector pushes its view onto the vector's view.
pub proof fn lemma_push_view(before: Vec<Token>, after: Vec<Token>, token: Token)
    requires
        after@ == before@.push(token),
    ensures
        after.deep_view() == before.deep_view().push(token.deep_view()),
{
    assert(after.deep_view() =~= before.deep_view().push(token.deep_view()));
}

impl Token {
    /// The class of the token: headings, paragraphs and hard breaks are of the block class,
    /// text, emphasis and links of the inline class.
    pub fn token_type(&self) -> (kind: TokenType)
        ensures
            kind == self.deep_view().kind(),
    {
        match self {
            Token::Heading(_, _) | Token::Paragraph(_) | Token::Newline => TokenType::Block,
            Token::Text(_) | Token::Emphasis(_, _) | Token::Link(_, _) => TokenType::Inline,
        }
    }
}

/// A copy of each of `tokens`, in order.
fn clone_tokens(tokens: &Vec<Token>) -> (copy: Vec<Token>)
    ensures
        copy.deep_view() == tokens.deep_view(),
    decreases tokens, 1nat,
{
    let mut copy: Vec<Token> = Vec::new();
    let mut i: usize = 0;
    while i < tokens.len()
        invariant
            i <= tokens.len(),
            copy.deep_view() =~= tokens.deep_view().take(i as int),
        decreases tokens.len() - i,
    {
        let ghost before = copy;
        let token = tokens[i].clone();
        copy.push(token);
        proof {
            lemma_push_view(before, copy, token);
        }
        i += 1;
    }
    copy
}

impl Clone for Token {
    /// A copy of the whole tree.
    fn clone(&self) -> (copy: Token)
        ensures
            copy.deep_view() == self.deep_view(),
        decreases self, 0nat,
    {
        match self {
            Token::Text(text) => Token::Text(text.clone()),
            Token::Newline => Token::Newline,
            Token::Heading(level, text) => Token::Heading(*level, text.clone()),
            Token::Paragraph(children) => {
                let copy = clone_tokens(children);
                proof {
                    lemma_children_view(*children);
                    lemma_children_view(copy);
                }
                Token::Paragraph(copy)
            },
            Token::Emphasis(strength, children) => {
                let copy = clone_tokens(children);
                proof {
                    lemma_children_view(*children);
                    lemma_children_view(copy);
                }
                Token::Emphasis(*strength, copy)
            },
            Token::Link(label, url) => Token::Link(label.clone(), url.clone()),
        }
    }
}

/// What a scan has collected so far. Each scan starts with a state of its own and hands on
/// nothing but its tokens.
#[derive(Debug)]
pub struct TokenizerState {
    /// The text collected since the last token boundary. It holds no newline.
    pub current_line: String,
    /// The tokens produced so far, in document order.
    pub tokens: Vec<Token>,
    /// The heading markers counted at the start of the current line.
    pub current_heading_size: Option<usize>,
    /// Whether the stop rule has ended the scan.
    pub has_stop_with_predicate: bool,
    /// Whether the next inline content must open a paragraph of its own.
    pub should_start_new_paragraph: bool,
    /// Whether this is a scan inside a line, as opposed to one of a whole document.
    pub is_inline: bool,
}

impl View for TokenizerState {
    type V = ScanState;

    open spec fn view(&self) -> ScanState {
        ScanState {
            current_line: self.current_line@,
            tokens: self.tokens.deep_view(),
            current_heading_size: match self.current_heading_size {
                None => None,
                Some(size) => Some(size as nat),
            },
            has_stop_with_predicate: self.has_stop_with_predicate,
            should_start_new_paragraph: self.should_start_new_paragraph,
            is_inline: self.is_inline,
        }
    }
}

impl Clone for TokenizerState {
    fn clone(&self) -> (copy: Self)
        ensures
            copy@ == self@,
    {
        TokenizerState {
            current_line: self.current_line.clone(),
            tokens: clone_tokens(&self.tokens),
            current_heading_size: self.current_heading_size,
            has_stop_with_predicate: self.has_stop_with_predicate,
            should_start_new_paragraph: self.should_start_new_paragraph,
            is_inline: self.is_inline,
        }
    }
}

impl TokenizerState {
    /// The state in which a scan starts: nothing collected, and a new paragraph due.
    pub fn new(is_inline: bool) -> (state: Self)
        ensures
            state@ == ScanState::fresh(is_inline),
            state@.well_formed(),
    {
        let state = TokenizerState {
            current_line: String::new(),
            tokens: Vec::new(),
            current_heading_size: None,
            has_stop_with_predicate: false,
            should_start_new_paragraph: true,
            is_inline,
        };
        assert(state.tokens.deep_view() =~= Seq::empty());
        state
    }
}

impl StopRule {
    /// Whether the rule ends a scan at `ch`, met in `state`.
    pub fn applies(&self, ch: char, state: &TokenizerState) -> (b: bool)
        ensures
            b == self.holds(ch, state@),
    {
        match self {
            StopRule::Never => false,
            StopRule::AtCloser => ch == '*' && (state.tokens.len() > 0 || (
            !state.current_line.as_str().is_empty() && ends_visibly(
                state.current_line.as_str(),
            ))),
        }
    }
}

/// The tokens of the document `contents`: its headings and paragraphs, in order. No text
/// is refused: what is no construct is literal text. Text is trimmed.
pub fn tokenize(contents: String) -> (tokens: Vec<Token>)
    ensures
        tokens.deep_view() == tokens_of(contents@),
        well_formed_tokens(tokens.deep_view(), false),
{
    let mut reader = Reader::new(contents);
    let (tokens, _) = tokenize_reader(&mut reader, false, StopRule::Never);
    tokens
}

/// Scans from the reader's position on, until the text ends, an inline scan meets a
/// newline, or `stop` applies. Returns the tokens and whether `stop` ended the scan. The
/// reader is left at the character that ended the scan, or at the end of the text.
pub fn tokenize_reader(reader: &mut Reader, is_inline: bool, stop: StopRule) -> (result: (
    Vec<Token>,
    bool,
))
    requires
        old(reader)@.upcoming() <= usize::MAX,
    ensures
        result.0.deep_view() == scan_from(old(reader)@, is_inline, stop).tokens,
        result.1 == scan_from(old(reader)@, is_inline, stop).stopped,
        final(reader)@ == old(reader)@.before(
            old(reader)@.upcoming() + scan_from(old(reader)@, is_inline, stop).consumed + 1,
        ),
        !is_inline && stop == StopRule::Never ==> !result.1 && scan_from(
            old(reader)@,
            is_inline,
            stop,
        ).consumed == remaining(old(reader)@.contents, old(reader)@.upcoming()),
        well_formed_tokens(result.0.deep_view(), is_inline),
    decreases remaining(old(reader)@.contents, old(reader)@.upcoming()), 1nat,
{
    let ghost input = reader@.contents;
    let ghost start = reader@.upcoming();
    let ghost whole = scan(input, start, ScanState::fresh(is_inline), stop);
    let mut state = TokenizerState::new(is_inline);
    proof {
        reader.lemma_text_fits();
        lemma_scan_well_formed(input, start, ScanState::fresh(is_inline), stop);
        if !is_inline && stop == StopRule::Never {
            lemma_document_scan_reads_all(input, start, ScanState::fresh(false));
        }
    }

    loop
        invariant_except_break
            whole == scan(input, reader@.upcoming(), state@, stop).after(
                (reader@.upcoming() - start) as nat,
            ),
            !state.has_stop_with_predicate,
            reader@.upcoming() <= usize::MAX,
        invariant
            input == old(reader)@.contents,
            start == old(reader)@.upcoming(),
            input.len() <= usize::MAX,
            reader@.contents == input,
            0 <= start <= reader@.upcoming(),
            start <= usize::MAX,
            state.is_inline == is_inline,
            state.current_heading_size is Some ==> state.current_heading_size->0
                <= reader@.upcoming() - start,
        ensures
            start < reader@.upcoming(),
            whole == (Outcome {
                tokens: state@.flush_line().tokens,
                stopped: state.has_stop_with_predicate,
                consumed: (reader@.upcoming() - 1 - start) as nat,
            }),
        decreases remaining(input, reader@.upcoming()),
    {
        let ghost pos = reader@.upcoming();
        let ghost before = state@;
        match reader.next() {
            None => {
                break ;
            },
            Some(ch) => {
                if (is_inline && ch == '\n') || stop.applies(ch, &state) {
                    state.has_stop_with_predicate = stop.applies(ch, &state);
                    break ;
                }
                proof {
                    lemma_step_bound(input, pos, before);
                    assert(char_at(input, pos) == Some(ch));
                    assert(start <= pos < input.len());
                    assert(remaining(input, pos + 1) < remaining(input, start));
                }
                if ch == '#' && !state.is_inline && match_heading(reader, &state) {
                    get_heading(reader, &mut state);
                } else if ch == '\n' && !state.is_inline {
                    state.current_heading_size = None;
                    let ghost before = state@;
                    let mut text_token: Option<Token> = None;
                    let mut has_text_newline = false;

                    if !state.current_line.as_str().is_empty() {
                        has_text_newline = ends_with_hard_break(state.current_line.as_str());
                        if !line_is_blank(state.current_line.as_str()) {
                            text_token = Some(Token::Text(trimmed(state.current_line.as_str())));
                        }
                        state.current_line = String::new();
                    }
                    assert(state.current_line@ =~= Seq::empty());
                    if text_token.is_some() || has_text_newline {
                        let ghost opened = open_paragraph(
                            before.tokens,
                            before.should_start_new_paragraph,
                        );
                        let ghost base = opened.drop_last();
                        let paragraph = get_last_paragraph(
                            &mut state.tokens,
                            &mut state.should_start_new_paragraph,
                        );
                        let ghost kids = paragraph.deep_view();
                        proof {
                            lemma_open_paragraph(before.tokens, before.should_start_new_paragraph);
                            lemma_push_child(base, kids, TokenView::Newline);
                        }
                        if let Some(text) = text_token {
                            let ghost children = *paragraph;
                            paragraph.push(text);
                            proof {
                                lemma_push_view(children, *paragraph, text);
                                lemma_push_child(base, kids, text.deep_view());
                                lemma_push_child(
                                    base,
                                    kids.push(text.deep_view()),
                                    TokenView::Newline,
                                );
                            }
                        }
                        // A hard break before a blank line is dropped.

                        if has_text_newline && !next_char_is(reader, '\n') {
                            let ghost children = *paragraph;
                            paragraph.push(Token::Newline);
                            proof {
                                lemma_push_view(children, *paragraph, Token::Newline);
                            }
                        }
                    }
                    assert(state@ == before.close_line(char_at(input, pos + 1) == Some('\n')));
                    let should_add_new_paragraph = match state.tokens.last() {
                        Some(Token::Paragraph(_)) if !next_char_is(reader, '\n') => false,
                        Some(token) if token.token_type() == TokenType::Block => true,
                        _ => next_char_is(reader, '\n'),
                    };

                    let is_newline = |c: &char| -> (b: bool)
                        ensures
                            b == (*c == '\n'),
                    {
                        *c == '\n'
                    };
                    skip_while(reader, is_newline);
                    proof {
                        lemma_run_len(input, pos + 1, reader@.upcoming(), |c: char| c == '\n');
                    }

                    if should_add_new_paragraph {
                        state.should_start_new_paragraph = true
                    }
                } else if ch == '*' && match_emphasis(reader, &state) {
                    state.current_heading_size = None;
                    get_emphasis(reader, &mut state);
                } else {
                    state.current_heading_size = None;
                    state.current_line.push(ch);
                }
            },
        }
    }

    if !line_is_blank(state.current_line.as_str()) {
        let text = Token::Text(trimmed(state.current_line.as_str()));
        if state.is_inline {
            let ghost tokens = state.tokens;
            state.tokens.push(text);
            proof {
                lemma_push_view(tokens, state.tokens, text);
            }
        } else {
            let paragraph = get_last_paragraph(
                &mut state.tokens,
                &mut state.should_start_new_paragraph,
            );
            let ghost children = *paragraph;
            paragraph.push(text);
            proof {
                lemma_push_view(children, *paragraph, text);
            }
        }
    }
    (state.tokens, state.has_stop_with_predicate)
}

} // verus!
