//! The scan as a mathematical function: from a text, a position and a state to the tokens
//! that the scan yields from there.
use vstd::prelude::*;
use crate::reader::{char_at, Cursor};
use crate::text::{ends_in_non_space, has_hard_break, is_blank, is_one_line, trim};
use crate::tokenizer::{StopRule, TokenType, TokenView};

verus! {

/// What a `TokenizerState` stands for.
pub struct ScanState {
    /// The text collected since the last token boundary.
    pub current_line: Seq<char>,
    /// The tokens produced so far, in document order.
    pub tokens: Seq<TokenView>,
    /// The heading markers counted at the start of the current line.
    pub current_heading_size: Option<nat>,
    /// Whether the stop rule has ended the scan.
    pub has_stop_with_predicate: bool,
    /// Whether the next inline content must open a paragraph of its own.
    pub should_start_new_paragraph: bool,
    /// Whether this is a scan inside a line, as opposed to one of a whole document.
    pub is_inline: bool,
}

/// The number of characters from `pos` on that satisfy `wanted`, up to the first that does
/// not or the end of the text.
pub open spec fn run_len(input: Seq<char>, pos: int, wanted: spec_fn(char) -> bool) -> nat
    decreases input.len() - pos,
{
    if 0 <= pos < input.len() && wanted(input[pos]) {
        1 + run_len(input, pos + 1, wanted)
    } else {
        0
    }
}

/// The number of characters from `pos` to the end of its line.
pub open spec fn line_len(input: Seq<char>, pos: int) -> nat {
    run_len(input, pos, |c: char| c != '\n')
}

/// The number of newline characters in a row from `pos` on.
pub open spec fn newline_run(input: Seq<char>, pos: int) -> nat {
    run_len(input, pos, |c: char| c == '\n')
}

/// `n` heading markers in a row.
pub open spec fn marker_run(n: nat) -> Seq<char> {
    Seq::new(n, |i: int| '#')
}

/// Whether `tokens` are what a scan yields: each well formed, text and emphasis from an
/// inline scan, headings and paragraphs from the scan of a document.
pub open spec fn well_formed_tokens(tokens: Seq<TokenView>, is_inline: bool) -> bool {
    forall|i: int|
        0 <= i < tokens.len() ==> (#[trigger] tokens[i]).well_formed() && (if is_inline {
            tokens[i].is_emphasised_content()
        } else {
            tokens[i] is Heading || tokens[i] is Paragraph
        })
}

/// The paragraph resolution: the token list with a paragraph at its end to append into.
/// A new, empty one is added when `force` is set or the last token is no paragraph.
pub open spec fn open_paragraph(tokens: Seq<TokenView>, force: bool) -> Seq<TokenView> {
    if force || tokens.len() == 0 || !(tokens.last() is Paragraph) {
        tokens.push(TokenView::Paragraph(Seq::empty()))
    } else {
        tokens
    }
}

/// `tokens`, whose last token is a paragraph, with `child` appended to that paragraph.
pub open spec fn push_child(tokens: Seq<TokenView>, child: TokenView) -> Seq<TokenView>
    recommends
        tokens.len() > 0,
        tokens.last() is Paragraph,
{
    tokens.drop_last().push(TokenView::Paragraph(tokens.last()->Paragraph_0.push(child)))
}

/// The emphasis made of the tokens between an opening and a closing marker: a lone
/// emphasis inside gains one in strength, anything else is wrapped at strength one.
pub open spec fn emphasis_token(inner: Seq<TokenView>) -> TokenView {
    if inner.len() == 1 && inner[0] is Emphasis {
        TokenView::Emphasis(inner[0]->Emphasis_0 + 1, inner[0]->Emphasis_1)
    } else {
        TokenView::Emphasis(1, inner)
    }
}

/// Whether a line break, seen with `tokens` produced so far, makes the next inline
/// content open a new paragraph.
pub open spec fn forces_new_paragraph(tokens: Seq<TokenView>, next_is_newline: bool) -> bool {
    if tokens.len() > 0 && tokens.last() is Paragraph && !next_is_newline {
        false
    } else if tokens.len() > 0 && tokens.last().kind() == TokenType::Block {
        true
    } else {
        next_is_newline
    }
}

/// Whether `ch`, met in `state` by a scan between emphasis markers, is the closing marker:
/// a marker that follows a token or a character other than white space.
pub open spec fn closes_emphasis(ch: char, state: ScanState) -> bool {
    ch == '*' && (state.tokens.len() > 0 || ends_in_non_space(state.current_line))
}

impl StopRule {
    /// Whether the rule ends the scan at `ch`, met in `state`.
    pub open spec fn holds(self, ch: char, state: ScanState) -> bool {
        match self {
            StopRule::Never => false,
            StopRule::AtCloser => closes_emphasis(ch, state),
        }
    }
}

impl ScanState {
    /// The state in which every scan starts.
    pub open spec fn fresh(is_inline: bool) -> ScanState {
        ScanState {
            current_line: Seq::empty(),
            tokens: Seq::empty(),
            current_heading_size: None,
            has_stop_with_predicate: false,
            should_start_new_paragraph: true,
            is_inline,
        }
    }

    /// What holds of the state all through a scan: the pending line holds no newline, and
    /// the tokens are well formed, text and emphasis in an inline scan, headings and
    /// paragraphs otherwise.
    pub open spec fn well_formed(self) -> bool {
        is_one_line(self.current_line) && well_formed_tokens(self.tokens, self.is_inline)
    }

    /// The state with no heading markers counted: a character that the heading handler
    /// does not take ends the run of markers.
    pub open spec fn without_count(self) -> ScanState {
        ScanState { current_heading_size: None, ..self }
    }

    /// The state with `ch` at the end of the pending line.
    pub open spec fn push_char(self, ch: char) -> ScanState {
        ScanState { current_line: self.current_line.push(ch), ..self }
    }

    /// The state after `token` went where inline content goes: to the token list itself in
    /// an inline scan, into the paragraph at its end otherwise.
    pub open spec fn emit(self, token: TokenView) -> ScanState {
        if self.is_inline {
            ScanState { tokens: self.tokens.push(token), ..self }
        } else {
            ScanState {
                tokens: push_child(
                    open_paragraph(self.tokens, self.should_start_new_paragraph),
                    token,
                ),
                should_start_new_paragraph: false,
                ..self
            }
        }
    }

    /// The state after the pending line was emitted as text, if it is not blank, and cleared.
    pub open spec fn flush_line(self) -> ScanState {
        let cleared = ScanState { current_line: Seq::empty(), ..self };
        if is_blank(self.current_line) {
            cleared
        } else {
            cleared.emit(TokenView::Text(trim(self.current_line)))
        }
    }

    /// The state after the line that a newline ends was put into its paragraph. A line
    /// with a hard break is followed by a `Newline` token unless a blank line comes next.
    pub open spec fn close_line(self, next_is_newline: bool) -> ScanState {
        let line = self.current_line;
        let cleared = ScanState { current_line: Seq::empty(), ..self };
        if !is_blank(line) || has_hard_break(line) {
            let opened = open_paragraph(self.tokens, self.should_start_new_paragraph);
            let with_text = if is_blank(line) {
                opened
            } else {
                push_child(opened, TokenView::Text(trim(line)))
            };
            let with_break = if has_hard_break(line) && !next_is_newline {
                push_child(with_text, TokenView::Newline)
            } else {
                with_text
            };
            ScanState { tokens: with_break, should_start_new_paragraph: false, ..cleared }
        } else {
            cleared
        }
    }
}

/// What one handler did: the state it left and how many characters it read beyond the one
/// that it was called for.
pub struct Step {
    pub state: ScanState,
    pub consumed: nat,
}

/// What a scan came to: its tokens, whether the stop rule ended it, and how many
/// characters it read before it ended.
pub struct Outcome {
    pub tokens: Seq<TokenView>,
    pub stopped: bool,
    pub consumed: nat,
}

impl Outcome {
    /// The same outcome, reached after `n` more characters.
    pub open spec fn after(self, n: nat) -> Outcome {
        Outcome { consumed: self.consumed + n, ..self }
    }
}

/// Whether a heading marker read in `state`, with `pos` next, opens or continues a marker
/// run: the line is empty so far and another marker or a space follows.
pub open spec fn opens_heading(input: Seq<char>, pos: int, state: ScanState) -> bool {
    state.current_line.len() == 0 && (char_at(input, pos) == Some('#') || char_at(input, pos)
        == Some(' '))
}

/// Whether an emphasis marker, with `pos` next, may open an emphasis: no space follows.
pub open spec fn opens_emphasis(input: Seq<char>, pos: int) -> bool {
    char_at(input, pos) != Some(' ')
}

/// The count of heading markers after one more.
pub open spec fn next_heading_size(size: Option<nat>) -> nat {
    match size {
        None => 1,
        Some(n) => n + 1,
    }
}

/// The heading handler, called after a marker with `pos` next. Before another marker it
/// only counts. Before a space it reads the rest of the line: that is the heading's text,
/// or, if it is blank, the markers become literal text and the rest of the line is dropped.
pub open spec fn heading_step(input: Seq<char>, pos: int, state: ScanState) -> Step {
    let size = next_heading_size(state.current_heading_size);
    if char_at(input, pos) == Some(' ') {
        let n = line_len(input, pos + 1);
        let text = input.subrange(pos + 1, pos + 1 + n);
        Step {
            state: if is_blank(text) {
                ScanState { current_line: marker_run(size), current_heading_size: None, ..state }
            } else {
                ScanState {
                    tokens: state.tokens.push(TokenView::Heading(size, trim(text))),
                    current_heading_size: None,
                    ..state
                }
            },
            consumed: 1 + n,
        }
    } else {
        Step { state: ScanState { current_heading_size: Some(size), ..state }, consumed: 0 }
    }
}

/// The block transition, called after a newline with `pos` next: the line is closed, the
/// newlines that follow are read as one separator, and the state remembers whether the
/// next inline content opens a new paragraph.
pub open spec fn newline_step(input: Seq<char>, pos: int, state: ScanState) -> Step {
    let next_is_newline = char_at(input, pos) == Some('\n');
    let closed = state.close_line(next_is_newline);
    Step {
        state: ScanState {
            should_start_new_paragraph: closed.should_start_new_paragraph || forces_new_paragraph(
                closed.tokens,
                next_is_newline,
            ),
            ..closed
        },
        consumed: newline_run(input, pos),
    }
}

/// The emphasis handler, given what the scan behind the marker came to. If that scan found
/// the closing marker, the pending line and the emphasis are emitted and the scan goes on
/// behind the closing marker; if not, the marker is literal text.
pub open spec fn emphasis_step(state: ScanState, inner: Outcome) -> Step {
    if inner.stopped {
        Step {
            state: state.flush_line().emit(emphasis_token(inner.tokens)),
            consumed: inner.consumed + 1,
        }
    } else {
        Step { state: state.push_char('*'), consumed: 0 }
    }
}

/// The handlers of the scan.
pub enum Handler {
    Heading,
    Newline,
    Emphasis,
    Text,
}

/// The handler that takes the character at `pos`, met in `state`.
pub open spec fn handler(input: Seq<char>, pos: int, state: ScanState) -> Handler
    recommends
        0 <= pos < input.len(),
{
    let ch = input[pos];
    if ch == '#' && !state.is_inline && opens_heading(input, pos + 1, state) {
        Handler::Heading
    } else if ch == '\n' && !state.is_inline {
        Handler::Newline
    } else if ch == '*' && opens_emphasis(input, pos + 1) {
        Handler::Emphasis
    } else {
        Handler::Text
    }
}

/// The characters left from `pos` on.
pub open spec fn remaining(input: Seq<char>, pos: int) -> nat {
    if pos < input.len() {
        (input.len() - pos) as nat
    } else {
        0
    }
}

/// What the handler of the character at `pos` does, met in `state`. A handler other than
/// that of the heading first forgets the heading markers counted. The emphasis handler
/// rests on a scan of its own: an inline scan behind the marker, up to the closing marker.
pub open spec fn step_at(input: Seq<char>, pos: int, state: ScanState) -> Step
    decreases remaining(input, pos), 0nat,
    when 0 <= pos < input.len()
{
    match handler(input, pos, state) {
        Handler::Heading => heading_step(input, pos + 1, state),
        Handler::Newline => newline_step(input, pos + 1, state.without_count()),
        Handler::Emphasis => emphasis_step(
            state.without_count(),
            scan(input, pos + 1, ScanState::fresh(true), StopRule::AtCloser),
        ),
        Handler::Text => Step {
            state: state.without_count().push_char(input[pos]),
            consumed: 0,
        },
    }
}

/// Whether a scan in `state` ends at `pos`: at the end of the text, at a newline if it is
/// an inline scan, or where `rule` holds.
pub open spec fn ends_at(input: Seq<char>, pos: int, state: ScanState, rule: StopRule) -> bool {
    match char_at(input, pos) {
        None => true,
        Some(ch) => (state.is_inline && ch == '\n') || rule.holds(ch, state),
    }
}

/// The scan of `input` from `pos` on, started in `state`. Where it ends, the pending line
/// is emitted. Otherwise the character at `pos` goes to its handler, and the scan goes on
/// behind what the handler read.
pub open spec fn scan(input: Seq<char>, pos: int, state: ScanState, rule: StopRule) -> Outcome
    decreases remaining(input, pos), 1nat,
{
    if ends_at(input, pos, state, rule) {
        Outcome {
            tokens: state.flush_line().tokens,
            stopped: match char_at(input, pos) {
                None => state.has_stop_with_predicate,
                Some(ch) => rule.holds(ch, state),
            },
            consumed: 0,
        }
    } else {
        let step = step_at(input, pos, state);
        scan(input, pos + 1 + step.consumed, step.state, rule).after(1 + step.consumed)
    }
}

/// A point of a scan: the position that is read next, and the state there.
pub struct ScanPoint {
    pub pos: int,
    pub state: ScanState,
}

/// The point that the scan of the document `input` has come to when `steps` handlers have
/// run. Where the scan has ended, the point stays.
pub open spec fn document_point(input: Seq<char>, steps: nat) -> ScanPoint
    decreases steps,
{
    if steps == 0 {
        ScanPoint { pos: 0, state: ScanState::fresh(false) }
    } else {
        let point = document_point(input, (steps - 1) as nat);
        if ends_at(input, point.pos, point.state, StopRule::Never) {
            point
        } else {
            let step = step_at(input, point.pos, point.state);
            ScanPoint { pos: point.pos + 1 + step.consumed, state: step.state }
        }
    }
}

/// Whether a line starts at `pos`: the text starts there, or a newline stands before it.
pub open spec fn at_line_start(input: Seq<char>, pos: int) -> bool {
    pos == 0 || char_at(input, pos - 1) == Some('\n')
}

/// The scan that starts where `cursor` reads next, in a fresh state.
pub open spec fn scan_from(cursor: Cursor, is_inline: bool, rule: StopRule) -> Outcome {
    scan(cursor.contents, cursor.upcoming(), ScanState::fresh(is_inline), rule)
}

/// The tokens of a document.
pub open spec fn tokens_of(input: Seq<char>) -> Seq<TokenView> {
    scan(input, 0, ScanState::fresh(false), StopRule::Never).tokens
}

} // verus!
