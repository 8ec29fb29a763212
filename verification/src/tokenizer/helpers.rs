//! What the handlers share: lookahead, runs of characters, and the paragraph to append to.
use vstd::prelude::*;
use crate::reader::{char_at, Reader};
use crate::tokenizer::model::{open_paragraph, remaining};
use crate::tokenizer::{lemma_children_view, lemma_push_view, Token, TokenView};

verus! {

/// Whether the next character of `reader` is `ch`.
pub fn next_char_is(reader: &Reader, ch: char) -> (b: bool)
    ensures
        b == (reader@.peek() == Some(ch)),
{
    match reader.peek() {
        Some(next) => next == ch,
        None => false,
    }
}

/// Whether `predicate` gave `answer` for each character of `input` from `from` up to `to`.
pub open spec fn answered<F: Fn(&char) -> bool>(
    predicate: F,
    input: Seq<char>,
    from: int,
    to: int,
    answer: bool,
) -> bool {
    forall|i: int|
        from <= i < to ==> (#[trigger] char_at(input, i)) is Some && call_ensures(
            predicate,
            (&input[i],),
            answer,
        )
}

/// Reads the characters that `predicate` accepts, up to the first that it refuses or the
/// end of the text.
pub fn skip_while<F: Fn(&char) -> bool>(reader: &mut Reader, predicate: F)
    requires
        forall|c: char| call_requires(predicate, (&c,)),
    ensures
        final(reader)@.contents == old(reader)@.contents,
        old(reader)@.upcoming() <= final(reader)@.upcoming(),
        answered(
            predicate,
            old(reader)@.contents,
            old(reader)@.upcoming(),
            final(reader)@.upcoming(),
            true,
        ),
        final(reader)@.peek() is Some ==> call_ensures(
            predicate,
            (&final(reader)@.peek()->0,),
            false,
        ),
{
    loop
        invariant
            forall|c: char| call_requires(predicate, (&c,)),
            reader@.contents == old(reader)@.contents,
            old(reader)@.upcoming() <= reader@.upcoming(),
            answered(
                predicate,
                old(reader)@.contents,
                old(reader)@.upcoming(),
                reader@.upcoming(),
                true,
            ),
        ensures
            reader@.peek() is Some ==> call_ensures(predicate, (&reader@.peek()->0,), false),
        decreases remaining(reader@.contents, reader@.upcoming()),
    {
        match reader.peek() {
            None => {
                break;
            },
            Some(ch) => {
                if !predicate(&ch) {
                    break;
                }
                proof {
                    reader.lemma_text_fits();
                }
                reader.next();
            },
        }
    }
}

/// Reads the characters up to the first that `predicate` accepts or the end of the text,
/// and returns them.
pub fn collect_until<F: Fn(&char) -> bool>(reader: &mut Reader, predicate: F) -> (text: String)
    requires
        forall|c: char| call_requires(predicate, (&c,)),
    ensures
        final(reader)@.contents == old(reader)@.contents,
        old(reader)@.upcoming() <= final(reader)@.upcoming(),
        answered(
            predicate,
            old(reader)@.contents,
            old(reader)@.upcoming(),
            final(reader)@.upcoming(),
            false,
        ),
        final(reader)@.peek() is Some ==> call_ensures(
            predicate,
            (&final(reader)@.peek()->0,),
            true,
        ),
        text@.len() == final(reader)@.upcoming() - old(reader)@.upcoming(),
        forall|i: int|
            old(reader)@.upcoming() <= i < final(reader)@.upcoming() ==> text@[i - old(
                reader,
            )@.upcoming()] == #[trigger] old(reader)@.contents[i],
{
    let mut text = String::new();
    loop
        invariant
            forall|c: char| call_requires(predicate, (&c,)),
            reader@.contents == old(reader)@.contents,
            old(reader)@.upcoming() <= reader@.upcoming(),
            answered(
                predicate,
                old(reader)@.contents,
                old(reader)@.upcoming(),
                reader@.upcoming(),
                false,
            ),
            text@.len() == reader@.upcoming() - old(reader)@.upcoming(),
            forall|i: int|
                old(reader)@.upcoming() <= i < reader@.upcoming() ==> text@[i - old(
                    reader,
                )@.upcoming()] == #[trigger] old(reader)@.contents[i],
        ensures
            reader@.peek() is Some ==> call_ensures(predicate, (&reader@.peek()->0,), true),
        decreases remaining(reader@.contents, reader@.upcoming()),
    {
        match reader.peek() {
            None => {
                break;
            },
            Some(ch) => {
                if predicate(&ch) {
                    break;
                }
                proof {
                    reader.lemma_text_fits();
                }
                text.push(ch);
                reader.next();
            },
        }
    }
    text
}

/// The paragraph to append to: the children of the last token, after a new, empty
/// paragraph was added where `force_create` is set or the last token is no paragraph.
/// The flag is cleared.
pub fn get_last_paragraph<'a>(tokens: &'a mut Vec<Token>, force_create: &mut bool) -> (children:
    &'a mut Vec<Token>)
    ensures
        !*final(force_create),
        TokenView::Paragraph(children.deep_view()) == open_paragraph(
            old(tokens).deep_view(),
            *old(force_create),
        ).last(),
        final(tokens).deep_view() == open_paragraph(
            old(tokens).deep_view(),
            *old(force_create),
        ).drop_last().push(TokenView::Paragraph(final(children).deep_view())),
{
    let has_paragraph = match tokens.last() {
        Some(Token::Paragraph(_)) => true,
        _ => false,
    };
    if !has_paragraph || *force_create {
        *force_create = false;
        let empty: Vec<Token> = Vec::new();
        let ghost before = *tokens;
        proof {
            lemma_children_view(empty);
        }
        tokens.push(Token::Paragraph(empty));
        proof {
            lemma_push_view(before, *tokens, Token::Paragraph(empty));
        }
    }
    let n = tokens.len();
    let ghost opened = *tokens;
    assert(opened.deep_view() == open_paragraph(old(tokens).deep_view(), *old(force_create)));
    match &mut tokens[n - 1] {
        Token::Paragraph(children) => {
            proof {
                lemma_children_view(*children);
                lemma_children_view(*final(children));
            }
            children
        },
        _ => unreached(),
    }
}

} // verus!
