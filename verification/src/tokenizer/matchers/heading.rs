//! The heading: markers at the start of a line, a space and the text of the heading.
use vstd::prelude::*;
use crate::reader::Reader;
use crate::text::{line_is_blank, trimmed};
use crate::tokenizer::helpers::{collect_until, next_char_is};
use crate::tokenizer::lemmas::{
    lemma_heading_step_well_formed, lemma_run_len, lemma_run_len_bound,
};
use crate::tokenizer::model::{heading_step, line_len, marker_run, next_heading_size, opens_heading};
use crate::tokenizer::{lemma_push_view, Token, TokenizerState};

verus! {

/// The text of `n` heading markers.
pub fn marker_text(n: usize) -> (text: String)
    ensures
        text@ == marker_run(n as nat),
{
    let mut text = String::new();
    let mut i: usize = 0;
    while i < n
        invariant
            i <= n,
            text@ =~= marker_run(i as nat),
        decreases n - i,
    {
        text.push('#');
        i += 1;
    }
    text
}

/// Reads what follows a heading marker. Before another marker it only counts this one.
/// Before a space it reads the rest of the line and emits the heading, or, where the rest
/// is blank, leaves the markers as the text of the line.
pub fn get_heading(reader: &mut Reader, state: &mut TokenizerState)
    requires
        next_heading_size(old(state)@.current_heading_size) <= usize::MAX,
    ensures
        final(state)@ == heading_step(
            old(reader)@.contents,
            old(reader)@.upcoming(),
            old(state)@,
        ).state,
        final(reader)@ == old(reader)@.before(
            old(reader)@.upcoming() + heading_step(
                old(reader)@.contents,
                old(reader)@.upcoming(),
                old(state)@,
            ).consumed,
        ),
        old(reader)@.peek() == Some(' ') ==> final(state)@.current_heading_size is None && (
        final(reader)@.peek() is None || final(reader)@.peek() == Some('\n')),
        old(state)@.well_formed() && !old(state).is_inline ==> final(state)@.well_formed(),
{
    proof {
        if state@.well_formed() && !state.is_inline {
            lemma_heading_step_well_formed(reader@.contents, reader@.upcoming(), state@);
        }
    }
    let size: usize = match state.current_heading_size {
        None => 1,
        Some(i) => i + 1,
    };
    state.current_heading_size = Some(size);

    if next_char_is(reader, ' ') {
        let ghost input = reader@.contents;
        let ghost pos = reader@.upcoming();
        proof {
            reader.lemma_text_fits();
        }
        reader.next();
        let is_newline = |ch: &char| -> (b: bool)
            ensures
                b == (*ch == '\n'),
        {
            *ch == '\n'
        };
        let text = collect_until(reader, is_newline);
        proof {
            let end = reader@.upcoming();
            lemma_run_len(input, pos + 1, end, |c: char| c != '\n');
            lemma_run_len_bound(input, pos + 1, |c: char| c != '\n');
            assert(text@ =~= input.subrange(pos + 1, pos + 1 + line_len(input, pos + 1)));
        }
        if line_is_blank(text.as_str()) {
            state.current_line = marker_text(size);
        } else {
            let ghost before = state.tokens;
            let heading = Token::Heading(size, trimmed(text.as_str()));
            state.tokens.push(heading);
            proof {
                lemma_push_view(before, state.tokens, heading);
            }
        }
        state.current_heading_size = None;
    }
}

/// Whether the heading marker just read opens or continues a marker run.
pub fn match_heading(reader: &Reader, state: &TokenizerState) -> (b: bool)
    ensures
        b == opens_heading(reader@.contents, reader@.upcoming(), state@),
{
    state.current_line.as_str().is_empty() && (next_char_is(reader, '#') || next_char_is(reader, ' '))
}

} // verus!
