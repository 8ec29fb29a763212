//! The emphasis: a run of text between an opening and a closing marker.
use vstd::prelude::*;
use crate::reader::Reader;
use crate::text::{line_is_blank, trimmed};
use crate::tokenizer::helpers::get_last_paragraph;
use crate::tokenizer::lemmas::{
    lemma_emphasis_step_well_formed, lemma_open_paragraph, lemma_push_child, lemma_scan_bound,
    lemma_scan_strengths, lemma_stopped_scan_has_tokens,
};
use crate::tokenizer::model::{
    emphasis_step, emphasis_token, open_paragraph, opens_emphasis, remaining, scan_from,
    ScanState,
};
use crate::tokenizer::{
    lemma_children_view, lemma_push_view, tokenize_reader, StopRule, Token, TokenizerState,
};

verus! {

/// The emphasis around `inner`: a lone emphasis gains one in strength, anything else is
/// wrapped at strength one.
pub fn emphasis_around(inner: Vec<Token>) -> (token: Token)
    requires
        inner.len() == 1 && inner[0] is Emphasis ==> inner[0]->Emphasis_0 < usize::MAX,
    ensures
        token.deep_view() == emphasis_token(inner.deep_view()),
{
    let mut inner = inner;
    let lone = inner.len() == 1 && match &inner[0] {
        Token::Emphasis(_, _) => true,
        _ => false,
    };
    if lone {
        match inner.pop() {
            Some(Token::Emphasis(strength, children)) => Token::Emphasis(strength + 1, children),
            _ => unreached(),
        }
    } else {
        proof {
            lemma_children_view(inner);
        }
        Token::Emphasis(1, inner)
    }
}

/// Reads what follows an emphasis marker. An inline scan on a copy of the reader looks
/// for the closing marker. Where it finds one, the reader moves behind it, and the pending
/// line and the emphasis are emitted; where it finds none, the marker is literal text and
/// the reader stays.
pub fn get_emphasis(reader: &mut Reader, state: &mut TokenizerState)
    requires
        old(reader)@.upcoming() <= usize::MAX,
    ensures
        final(state)@ == emphasis_step(
            old(state)@,
            scan_from(old(reader)@, true, StopRule::AtCloser),
        ).state,
        final(reader)@ == old(reader)@.before(
            old(reader)@.upcoming() + emphasis_step(
                old(state)@,
                scan_from(old(reader)@, true, StopRule::AtCloser),
            ).consumed,
        ),
        old(state)@.well_formed() ==> final(state)@.well_formed(),
    decreases remaining(old(reader)@.contents, old(reader)@.upcoming()), 2nat,
{
    let ghost input = reader@.contents;
    let ghost pos = reader@.upcoming();
    let mut sub_reader = reader.clone();
    let (inner, closed) = tokenize_reader(&mut sub_reader, true, StopRule::AtCloser);
    proof {
        reader.lemma_text_fits();
        lemma_stopped_scan_has_tokens(input, pos, ScanState::fresh(true), StopRule::AtCloser);
        if state@.well_formed() {
            lemma_emphasis_step_well_formed(
                state@,
                scan_from(reader@, true, StopRule::AtCloser),
            );
        }
        lemma_scan_bound(input, pos, ScanState::fresh(true), StopRule::AtCloser);
        lemma_scan_strengths(input, pos, ScanState::fresh(true), StopRule::AtCloser, 0);
    }

    if closed {
        reader.set_index(sub_reader.index());
        let token = emphasis_around(inner);

        if state.is_inline {
            if !line_is_blank(state.current_line.as_str()) {
                let ghost before = state.tokens;
                let text = Token::Text(trimmed(state.current_line.as_str()));
                state.tokens.push(text);
                proof {
                    lemma_push_view(before, state.tokens, text);
                }
            }
            state.current_line = String::new();
            let ghost before = state.tokens;
            state.tokens.push(token);
            proof {
                lemma_push_view(before, state.tokens, token);
            }
        } else {
            let ghost opened = open_paragraph(
                state@.tokens,
                state@.should_start_new_paragraph,
            );
            let ghost base = opened.drop_last();
            let paragraph = get_last_paragraph(
                &mut state.tokens,
                &mut state.should_start_new_paragraph,
            );
            let ghost children = paragraph.deep_view();
            proof {
                lemma_open_paragraph(old(state)@.tokens, old(state)@.should_start_new_paragraph);
                lemma_push_child(base, children, token.deep_view());
            }
            if !line_is_blank(state.current_line.as_str()) {
                let ghost before = *paragraph;
                let text = Token::Text(trimmed(state.current_line.as_str()));
                paragraph.push(text);
                proof {
                    lemma_push_view(before, *paragraph, text);
                    lemma_push_child(base, children, text.deep_view());
                    lemma_push_child(base, children.push(text.deep_view()), token.deep_view());
                }
            }
            state.current_line = String::new();
            let ghost before = *paragraph;
            paragraph.push(token);
            proof {
                lemma_push_view(before, *paragraph, token);
            }
        }
        return ;
    }
    state.current_line.push('*');
}

/// Whether the emphasis marker just read may open an emphasis: no space follows it.
pub fn match_emphasis(reader: &Reader, _state: &TokenizerState) -> (b: bool)
    ensures
        b == opens_emphasis(reader@.contents, reader@.upcoming()),
{
    match reader.peek() {
        Some(next) => next != ' ',
        None => true,
    }
}

} // verus!
