//! Facts about the scan that its implementation and its laws rest on.
use vstd::prelude::*;
use crate::reader::char_at;
use crate::text::{is_blank, is_one_line, is_white_space, lemma_trim, trim};
use crate::tokenizer::model::{
    at_line_start, document_point, emphasis_step, emphasis_token, ends_at, handler,
    heading_step, line_len, marker_run, newline_step, open_paragraph, push_child, remaining,
    run_len, scan, step_at, well_formed_tokens, Handler, Outcome, ScanPoint, ScanState,
};
use crate::tokenizer::{StopRule, TokenView};

verus! {

/// A run stays within the text.
pub proof fn lemma_run_len_bound(input: Seq<char>, pos: int, wanted: spec_fn(char) -> bool)
    ensures
        run_len(input, pos, wanted) <= remaining(input, pos),
    decreases input.len() - pos,
{
    if 0 <= pos < input.len() && wanted(input[pos]) {
        lemma_run_len_bound(input, pos + 1, wanted);
    }
}

/// Behind a run stands a character that is not wanted, or the text ends.
pub proof fn lemma_run_ends(input: Seq<char>, pos: int, wanted: spec_fn(char) -> bool)
    requires
        0 <= pos,
    ensures
        char_at(input, pos + run_len(input, pos, wanted)) is Some ==> !wanted(
            input[pos + run_len(input, pos, wanted)],
        ),
    decreases input.len() - pos,
{
    if pos < input.len() && wanted(input[pos]) {
        lemma_run_ends(input, pos + 1, wanted);
    }
}

/// A run is as long as the stretch of wanted characters that an unwanted one, or the end
/// of the text, follows.
pub proof fn lemma_run_len(input: Seq<char>, from: int, to: int, wanted: spec_fn(char) -> bool)
    requires
        from <= to,
        forall|i: int| from <= i < to ==> (#[trigger] char_at(input, i)) is Some && wanted(input[i]),
        char_at(input, to) is Some ==> !wanted(input[to]),
    ensures
        run_len(input, from, wanted) == to - from,
    decreases to - from,
{
    if from < to {
        assert(char_at(input, from) is Some);
        lemma_run_len(input, from + 1, to, wanted);
    }
}

/// The heading handler and the block transition stay within the text.
pub proof fn lemma_handlers_stay_in_text(input: Seq<char>, pos: int, state: ScanState)
    requires
        0 <= pos <= input.len(),
    ensures
        heading_step(input, pos, state).consumed <= input.len() - pos,
        newline_step(input, pos, state).consumed <= input.len() - pos,
{
    lemma_run_len_bound(input, pos + 1, |c: char| c != '\n');
    lemma_run_len_bound(input, pos, |c: char| c == '\n');
}

/// A scan stays within the text, and where the stop rule ended it, it ended at a character.
pub proof fn lemma_scan_bound(input: Seq<char>, pos: int, state: ScanState, rule: StopRule)
    requires
        !state.has_stop_with_predicate,
    ensures
        scan(input, pos, state, rule).consumed <= remaining(input, pos),
        scan(input, pos, state, rule).stopped ==> scan(input, pos, state, rule).consumed
            < remaining(input, pos),
    decreases remaining(input, pos), 1nat,
{
    if !ends_at(input, pos, state, rule) {
        lemma_step_bound(input, pos, state);
        let step = step_at(input, pos, state);
        lemma_scan_bound(input, pos + 1 + step.consumed, step.state, rule);
    }
}

/// A handler stays within the text and leaves the stop flag as it was.
pub proof fn lemma_step_bound(input: Seq<char>, pos: int, state: ScanState)
    requires
        0 <= pos < input.len(),
    ensures
        step_at(input, pos, state).consumed <= input.len() - pos - 1,
        step_at(input, pos, state).state.has_stop_with_predicate == state.has_stop_with_predicate,
        step_at(input, pos, state).state.is_inline == state.is_inline,
    decreases remaining(input, pos), 0nat,
{
    lemma_handlers_stay_in_text(input, pos + 1, state);
    if handler(input, pos, state) is Emphasis {
        lemma_scan_bound(input, pos + 1, ScanState::fresh(true), StopRule::AtCloser);
    }
}

/// Every emphasis among `tokens` has a strength below `bound`.
pub open spec fn strengths_below(tokens: Seq<TokenView>, bound: nat) -> bool {
    forall|i: int|
        0 <= i < tokens.len() ==> (#[trigger] tokens[i]) is Emphasis ==> tokens[i]->Emphasis_0
            < bound
}

/// The strength of an emphasis that an inline scan yields is below the number of
/// characters that the scan read.
pub proof fn lemma_scan_strengths(
    input: Seq<char>,
    pos: int,
    state: ScanState,
    rule: StopRule,
    bound: nat,
)
    requires
        state.is_inline,
        strengths_below(state.tokens, bound),
    ensures
        strengths_below(
            scan(input, pos, state, rule).tokens,
            bound + scan(input, pos, state, rule).consumed,
        ),
    decreases remaining(input, pos),
{
    if !ends_at(input, pos, state, rule) {
        let step = step_at(input, pos, state);
        if handler(input, pos, state) is Emphasis {
            lemma_scan_strengths(input, pos + 1, ScanState::fresh(true), StopRule::AtCloser, 0);
        }
        lemma_scan_strengths(
            input,
            pos + 1 + step.consumed,
            step.state,
            rule,
            bound + 1 + step.consumed,
        );
    }
}

/// The paragraph resolution ends in a paragraph: of the children that were there, or
/// of none.
pub proof fn lemma_open_paragraph(tokens: Seq<TokenView>, force: bool)
    ensures
        open_paragraph(tokens, force).len() > 0,
        open_paragraph(tokens, force).last() is Paragraph,
        open_paragraph(tokens, force) == open_paragraph(tokens, force).drop_last().push(
            open_paragraph(tokens, force).last(),
        ),
{
    let opened = open_paragraph(tokens, force);
    assert(opened =~= opened.drop_last().push(opened.last()));
}

/// A child goes into the paragraph at the end, which then is still the paragraph to
/// append to.
pub proof fn lemma_push_child(base: Seq<TokenView>, children: Seq<TokenView>, child: TokenView)
    ensures
        push_child(base.push(TokenView::Paragraph(children)), child) == base.push(
            TokenView::Paragraph(children.push(child)),
        ),
        open_paragraph(base.push(TokenView::Paragraph(children)), false) == base.push(
            TokenView::Paragraph(children),
        ),
{
    let tokens = base.push(TokenView::Paragraph(children));
    assert(tokens.drop_last() =~= base);
}

/// The paragraph resolution keeps the tokens of a document well formed.
pub proof fn lemma_open_paragraph_well_formed(tokens: Seq<TokenView>, force: bool)
    requires
        well_formed_tokens(tokens, false),
    ensures
        well_formed_tokens(open_paragraph(tokens, force), false),
{
}

/// A well-formed child in the paragraph at the end keeps the tokens of a document well
/// formed.
pub proof fn lemma_push_child_well_formed(tokens: Seq<TokenView>, child: TokenView)
    requires
        well_formed_tokens(tokens, false),
        tokens.len() > 0,
        tokens.last() is Paragraph,
        child.well_formed(),
        child.is_paragraph_content(),
    ensures
        well_formed_tokens(push_child(tokens, child), false),
        push_child(tokens, child).len() > 0,
        push_child(tokens, child).last() is Paragraph,
{
    let children = tokens.last()->Paragraph_0;
    let grown = children.push(child);
    assert(tokens.last().well_formed());
    assert forall|i: int| 0 <= i < grown.len() implies (#[trigger] grown[i]).is_paragraph_content()
        && grown[i].well_formed() by {
        if i < children.len() {
            assert(grown[i] == children[i]);
        }
    }
    assert(TokenView::Paragraph(grown).well_formed());
}

/// The text of a line that is not blank is a well-formed token.
pub proof fn lemma_text_well_formed(line: Seq<char>)
    requires
        is_one_line(line),
        !is_blank(line),
    ensures
        TokenView::Text(trim(line)).well_formed(),
{
    lemma_trim(line);
}

/// Emitting text or an emphasis keeps a state well formed.
pub proof fn lemma_emit_well_formed(state: ScanState, token: TokenView)
    requires
        state.well_formed(),
        token.well_formed(),
        token.is_emphasised_content(),
    ensures
        state.emit(token).well_formed(),
{
    if !state.is_inline {
        lemma_open_paragraph_well_formed(state.tokens, state.should_start_new_paragraph);
        lemma_push_child_well_formed(
            open_paragraph(state.tokens, state.should_start_new_paragraph),
            token,
        );
    }
}

/// Emitting the pending line keeps a state well formed.
pub proof fn lemma_flush_line_well_formed(state: ScanState)
    requires
        state.well_formed(),
    ensures
        state.flush_line().well_formed(),
{
    let cleared = ScanState { current_line: Seq::empty(), ..state };
    if !is_blank(state.current_line) {
        lemma_text_well_formed(state.current_line);
        lemma_emit_well_formed(cleared, TokenView::Text(trim(state.current_line)));
    }
}

/// Closing a line keeps the state of a document scan well formed.
pub proof fn lemma_close_line_well_formed(state: ScanState, next_is_newline: bool)
    requires
        state.well_formed(),
        !state.is_inline,
    ensures
        state.close_line(next_is_newline).well_formed(),
{
    let line = state.current_line;
    let opened = open_paragraph(state.tokens, state.should_start_new_paragraph);
    lemma_open_paragraph_well_formed(state.tokens, state.should_start_new_paragraph);
    if !is_blank(line) {
        lemma_text_well_formed(line);
        lemma_push_child_well_formed(opened, TokenView::Text(trim(line)));
        lemma_push_child_well_formed(
            push_child(opened, TokenView::Text(trim(line))),
            TokenView::Newline,
        );
    } else {
        lemma_push_child_well_formed(opened, TokenView::Newline);
    }
}

/// A scan that the stop rule ended yields at least one token: the rule holds only behind
/// a token or behind text that is not blank.
pub proof fn lemma_stopped_scan_has_tokens(
    input: Seq<char>,
    pos: int,
    state: ScanState,
    rule: StopRule,
)
    requires
        !state.has_stop_with_predicate,
    ensures
        scan(input, pos, state, rule).stopped ==> scan(input, pos, state, rule).tokens.len() > 0,
    decreases remaining(input, pos),
{
    if ends_at(input, pos, state, rule) {
        if scan(input, pos, state, rule).stopped {
            let line = state.current_line;
            if is_blank(line) && line.len() > 0 {
                assert(is_white_space(line[line.len() - 1]));
            }
            lemma_open_paragraph(state.tokens, state.should_start_new_paragraph);
        }
    } else {
        let step = step_at(input, pos, state);
        lemma_step_bound(input, pos, state);
        lemma_stopped_scan_has_tokens(input, pos + 1 + step.consumed, step.state, rule);
    }
}

/// The emphasis around the well-formed tokens of an inline scan, at least one, is well
/// formed.
pub proof fn lemma_emphasis_token_well_formed(inner: Seq<TokenView>)
    requires
        well_formed_tokens(inner, true),
        inner.len() > 0,
    ensures
        emphasis_token(inner).well_formed(),
        emphasis_token(inner) is Emphasis,
{
    if inner.len() == 1 && inner[0] is Emphasis {
        assert(inner[0].well_formed());
    }
}

/// The line that starts at `pos` holds no newline.
pub proof fn lemma_line_is_one_line(input: Seq<char>, pos: int)
    requires
        0 <= pos <= input.len(),
    ensures
        pos + line_len(input, pos) <= input.len(),
        is_one_line(input.subrange(pos, pos + line_len(input, pos))),
    decreases input.len() - pos,
{
    let wanted = |c: char| c != '\n';
    let n = run_len(input, pos, wanted);
    if pos < input.len() && wanted(input[pos]) {
        lemma_line_is_one_line(input, pos + 1);
        let line = input.subrange(pos, pos + n);
        let rest = input.subrange(pos + 1, pos + n);
        assert forall|i: int| 0 <= i < line.len() implies #[trigger] line[i] != '\n' by {
            if i > 0 {
                assert(line[i] == rest[i - 1]);
            }
        }
    }
}

/// The heading handler keeps the state of a document scan well formed.
pub proof fn lemma_heading_step_well_formed(input: Seq<char>, pos: int, state: ScanState)
    requires
        0 <= pos,
        state.well_formed(),
        !state.is_inline,
    ensures
        heading_step(input, pos, state).state.well_formed(),
{
    if char_at(input, pos) == Some(' ') {
        let n = line_len(input, pos + 1);
        let text = input.subrange(pos + 1, pos + 1 + n);
        lemma_line_is_one_line(input, pos + 1);
        if !is_blank(text) {
            lemma_trim(text);
        }
    }
}

/// The block transition keeps the state of a document scan well formed.
pub proof fn lemma_newline_step_well_formed(input: Seq<char>, pos: int, state: ScanState)
    requires
        state.well_formed(),
        !state.is_inline,
    ensures
        newline_step(input, pos, state).state.well_formed(),
{
    lemma_close_line_well_formed(state, char_at(input, pos) == Some('\n'));
}

/// The emphasis handler keeps a state well formed, given the well-formed tokens of the
/// scan behind the marker, at least one where that scan found the closing marker.
pub proof fn lemma_emphasis_step_well_formed(state: ScanState, inner: Outcome)
    requires
        state.well_formed(),
        well_formed_tokens(inner.tokens, true),
        inner.stopped ==> inner.tokens.len() > 0,
    ensures
        emphasis_step(state, inner).state.well_formed(),
{
    if inner.stopped {
        lemma_emphasis_token_well_formed(inner.tokens);
        lemma_flush_line_well_formed(state);
        lemma_emit_well_formed(state.flush_line(), emphasis_token(inner.tokens));
    }
}

/// A handler keeps a well-formed state well formed.
pub proof fn lemma_step_well_formed(input: Seq<char>, pos: int, state: ScanState)
    requires
        0 <= pos < input.len(),
        state.well_formed(),
        !(state.is_inline && input[pos] == '\n'),
    ensures
        step_at(input, pos, state).state.well_formed(),
    decreases remaining(input, pos), 0nat,
{
    match handler(input, pos, state) {
        Handler::Heading => {
            lemma_heading_step_well_formed(input, pos + 1, state);
        },
        Handler::Newline => {
            lemma_newline_step_well_formed(input, pos + 1, state.without_count());
        },
        Handler::Emphasis => {
            let start = ScanState::fresh(true);
            lemma_scan_well_formed(input, pos + 1, start, StopRule::AtCloser);
            lemma_stopped_scan_has_tokens(input, pos + 1, start, StopRule::AtCloser);
            lemma_emphasis_step_well_formed(
                state.without_count(),
                scan(input, pos + 1, start, StopRule::AtCloser),
            );
        },
        Handler::Text => {},
    }
}

/// The tokens that a scan yields from a well-formed state are well formed.
pub proof fn lemma_scan_well_formed(input: Seq<char>, pos: int, state: ScanState, rule: StopRule)
    requires
        state.well_formed(),
    ensures
        well_formed_tokens(scan(input, pos, state, rule).tokens, state.is_inline),
    decreases remaining(input, pos), 1nat,
{
    if ends_at(input, pos, state, rule) {
        lemma_flush_line_well_formed(state);
    } else {
        let step = step_at(input, pos, state);
        lemma_step_bound(input, pos, state);
        lemma_step_well_formed(input, pos, state);
        lemma_scan_well_formed(input, pos + 1 + step.consumed, step.state, rule);
    }
}

/// A stretch of characters that no handler takes joins the pending line: no marker of an
/// emphasis, no newline and, outside an inline scan, no marker of a heading.
pub proof fn lemma_text_run(input: Seq<char>, pos: int, n: nat, state: ScanState, rule: StopRule)
    requires
        0 <= pos,
        pos + n <= input.len(),
        forall|i: int|
            pos <= i < pos + n ==> (#[trigger] input[i]) != '*' && input[i] != '\n' && (
            state.is_inline || input[i] != '#'),
    ensures
        scan(input, pos, state, rule) == scan(
            input,
            pos + n,
            ScanState {
                current_line: state.current_line + input.subrange(pos, pos + n),
                current_heading_size: if n == 0 {
                    state.current_heading_size
                } else {
                    None
                },
                ..state
            },
            rule,
        ).after(n),
    decreases n,
{
    let line = state.current_line;
    if n == 0 {
        assert(line + input.subrange(pos, pos) =~= line);
    } else {
        let ch = input[pos];
        let next = state.without_count().push_char(ch);
        assert(!ends_at(input, pos, state, rule));
        assert(step_at(input, pos, state).state == next);
        lemma_text_run(input, pos + 1, (n - 1) as nat, next, rule);
        assert(line.push(ch) + input.subrange(pos + 1, pos + n) =~= line + input.subrange(
            pos,
            pos + n,
        ));
    }
}

/// A stretch of such characters up to the end of the text is the last line of the scan:
/// it joins the pending line, which is then emitted.
pub proof fn lemma_last_line(input: Seq<char>, pos: int, state: ScanState, rule: StopRule)
    requires
        0 <= pos <= input.len(),
        forall|i: int|
            pos <= i < input.len() ==> (#[trigger] input[i]) != '*' && input[i] != '\n' && (
            state.is_inline || input[i] != '#'),
    ensures
        scan(input, pos, state, rule) == (Outcome {
            tokens: ScanState {
                current_line: state.current_line + input.subrange(pos, input.len() as int),
                ..state
            }.flush_line().tokens,
            stopped: state.has_stop_with_predicate,
            consumed: (input.len() - pos) as nat,
        }),
{
    let n = (input.len() - pos) as nat;
    lemma_text_run(input, pos, n, state, rule);
    let last = ScanState {
        current_line: state.current_line + input.subrange(pos, pos + n),
        current_heading_size: if n == 0 {
            state.current_heading_size
        } else {
            None
        },
        ..state
    };
    assert(ends_at(input, pos + n, last, rule));
}

/// In the scan of a document, text or an emphasis that finds no paragraph to join opens
/// one.
pub proof fn lemma_emit_opens_paragraph(state: ScanState, token: TokenView)
    requires
        !state.is_inline,
        state.should_start_new_paragraph || state.tokens.len() == 0 || !(state.tokens.last()
            is Paragraph),
    ensures
        state.emit(token) == (ScanState {
            tokens: state.tokens.push(TokenView::Paragraph(seq![token])),
            should_start_new_paragraph: false,
            ..state
        }),
{
    lemma_push_child(state.tokens, Seq::empty(), token);
    assert(Seq::<TokenView>::empty().push(token) =~= seq![token]);
}

/// In the scan of a document, text or an emphasis joins the paragraph at the end of the
/// tokens unless a new one is due.
pub proof fn lemma_emit_joins_paragraph(
    state: ScanState,
    before: Seq<TokenView>,
    children: Seq<TokenView>,
    token: TokenView,
)
    requires
        !state.is_inline,
        !state.should_start_new_paragraph,
        state.tokens == before.push(TokenView::Paragraph(children)),
    ensures
        state.emit(token) == (ScanState {
            tokens: before.push(TokenView::Paragraph(children.push(token))),
            ..state
        }),
{
    lemma_push_child(before, children, token);
}

/// Behind the last emphasis marker of a text no inline scan finds a closing marker.
pub proof fn lemma_no_marker_no_closer(input: Seq<char>, pos: int, state: ScanState)
    requires
        0 <= pos,
        state.is_inline,
        !state.has_stop_with_predicate,
        forall|i: int| pos <= i < input.len() ==> #[trigger] input[i] != '*',
    ensures
        !scan(input, pos, state, StopRule::AtCloser).stopped,
    decreases remaining(input, pos),
{
    if !ends_at(input, pos, state, StopRule::AtCloser) {
        let step = step_at(input, pos, state);
        lemma_step_bound(input, pos, state);
        lemma_no_marker_no_closer(input, pos + 1 + step.consumed, step.state);
    }
}

/// The heading markers counted so far, none counting as zero.
pub open spec fn markers_counted(state: ScanState) -> nat {
    match state.current_heading_size {
        None => 0,
        Some(size) => size,
    }
}

/// The state after a heading line of the given level and text: a heading, or, where the
/// text is blank, the markers as the pending line.
pub open spec fn after_heading_line(state: ScanState, level: nat, text: Seq<char>) -> ScanState {
    if is_blank(text) {
        ScanState { current_line: marker_run(level), current_heading_size: None, ..state }
    } else {
        ScanState {
            tokens: state.tokens.push(TokenView::Heading(level, trim(text))),
            current_heading_size: None,
            ..state
        }
    }
}

/// In a run of heading markers that a space ends, the markers counted so far and the `n`
/// that follow make the level of the heading line; its text is the rest of the line, and
/// the scan goes on at the end of the line.
pub proof fn lemma_marker_run_scan(
    input: Seq<char>,
    pos: int,
    n: nat,
    state: ScanState,
    rule: StopRule,
)
    requires
        n >= 1,
        !state.is_inline,
        state.current_line.len() == 0,
        0 <= pos,
        pos + n < input.len(),
        forall|i: int| pos <= i < pos + n ==> #[trigger] input[i] == '#',
        input[pos + n] == ' ',
    ensures
        scan(input, pos, state, rule) == scan(
            input,
            pos + n + 1 + line_len(input, pos + n + 1),
            after_heading_line(
                state,
                markers_counted(state) + n,
                input.subrange(pos + n + 1, pos + n + 1 + line_len(input, pos + n + 1)),
            ),
            rule,
        ).after(n + 1 + line_len(input, pos + n + 1)),
    decreases n,
{
    assert(input[pos] == '#');
    assert(!ends_at(input, pos, state, rule));
    let step = step_at(input, pos, state);
    assert(step == heading_step(input, pos + 1, state));
    if n > 1 {
        assert(input[pos + 1] == '#');
        let counted = ScanState {
            current_heading_size: Some(markers_counted(state) + 1),
            ..state
        };
        assert(step.state == counted);
        lemma_marker_run_scan(input, pos + 1, (n - 1) as nat, counted, rule);
    }
}

/// What holds at every point of the scan of a document: the point lies in the text, the
/// markers counted stand right before it, and at the start of a line nothing is pending.
pub open spec fn is_document_point(input: Seq<char>, point: ScanPoint) -> bool {
    &&& 0 <= point.pos <= input.len()
    &&& !point.state.is_inline
    &&& !point.state.has_stop_with_predicate
    &&& point.state.current_heading_size is Some ==> char_at(input, point.pos - 1) == Some('#')
    &&& at_line_start(input, point.pos) ==> point.state.current_line.len() == 0
}

/// A handler takes the scan of a document from one of its points to another.
pub proof fn lemma_step_keeps_document_point(input: Seq<char>, point: ScanPoint)
    requires
        is_document_point(input, point),
        point.pos < input.len(),
    ensures
        is_document_point(
            input,
            ScanPoint {
                pos: point.pos + 1 + step_at(input, point.pos, point.state).consumed,
                state: step_at(input, point.pos, point.state).state,
            },
        ),
{
    let pos = point.pos;
    let state = point.state;
    lemma_step_bound(input, pos, state);
    match handler(input, pos, state) {
        Handler::Heading => {
            if char_at(input, pos + 1) == Some(' ') {
                let n = line_len(input, pos + 2);
                lemma_line_is_one_line(input, pos + 2);
                if n > 0 {
                    let line = input.subrange(pos + 2, pos + 2 + n);
                    assert(line[n - 1] != '\n');
                }
            }
        },
        Handler::Newline => {},
        Handler::Emphasis => {},
        Handler::Text => {},
    }
}

/// Every point that the scan of a document comes to is such a point, and the scan from
/// there yields what is left of the scan of the document.
pub proof fn lemma_document_point(input: Seq<char>, steps: nat)
    ensures
        is_document_point(input, document_point(input, steps)),
        scan(input, 0, ScanState::fresh(false), StopRule::Never) == scan(
            input,
            document_point(input, steps).pos,
            document_point(input, steps).state,
            StopRule::Never,
        ).after(document_point(input, steps).pos as nat),
    decreases steps,
{
    if steps > 0 {
        let point = document_point(input, (steps - 1) as nat);
        lemma_document_point(input, (steps - 1) as nat);
        if !ends_at(input, point.pos, point.state, StopRule::Never) {
            lemma_step_keeps_document_point(input, point);
        }
    }
}

} // verus!
