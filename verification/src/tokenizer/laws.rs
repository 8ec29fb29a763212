//! What holds of every scan and of every document of a given shape.
use vstd::prelude::*;
use crate::reader::char_at;
use crate::text::{has_hard_break, is_blank, is_one_line, is_white_space, trim};
use crate::text::lemma_trim_of_visible_ends;
use crate::tokenizer::lemmas::{
    lemma_emit_joins_paragraph, lemma_emit_opens_paragraph, lemma_last_line,
    lemma_no_marker_no_closer, lemma_open_paragraph, lemma_push_child, lemma_run_len,
    after_heading_line, lemma_document_point, lemma_line_is_one_line, lemma_marker_run_scan,
    lemma_run_ends, lemma_scan_well_formed, lemma_step_bound, lemma_text_run,
};
use crate::tokenizer::model::{
    at_line_start, document_point, emphasis_step, next_heading_size, emphasis_token, ends_at, heading_step, line_len, marker_run, newline_run,
    newline_step, open_paragraph, push_child, remaining, scan, step_at, tokens_of,
    well_formed_tokens, Outcome, ScanState, Step,
};
use crate::tokenizer::{StopRule, TokenView};

verus! {

/// The scan of a whole document reads every character once: it ends at the end of the
/// text and nowhere before, and the stop rule has not ended it.
pub proof fn lemma_document_scan_reads_all(input: Seq<char>, pos: int, state: ScanState)
    requires
        0 <= pos,
        !state.is_inline,
        !state.has_stop_with_predicate,
    ensures
        scan(input, pos, state, StopRule::Never).consumed == remaining(input, pos),
        !scan(input, pos, state, StopRule::Never).stopped,
    decreases remaining(input, pos),
{
    if !ends_at(input, pos, state, StopRule::Never) {
        let step = step_at(input, pos, state);
        lemma_step_bound(input, pos, state);
        lemma_document_scan_reads_all(input, pos + 1 + step.consumed, step.state);
    }
}

/// The tokens of every document are headings and paragraphs, each well formed: levels and
/// strengths are positive, texts are trimmed, not empty and on one line, and paragraphs
/// and emphases hold only what may stand inside them.
pub proof fn lemma_document_is_well_formed(input: Seq<char>)
    ensures
        well_formed_tokens(tokens_of(input), false),
{
    lemma_scan_well_formed(input, 0, ScanState::fresh(false), StopRule::Never);
}

/// A line of plain text: no newline and no marker of a heading or of an emphasis.
pub open spec fn is_plain_line(line: Seq<char>) -> bool {
    forall|i: int|
        0 <= i < line.len() ==> (#[trigger] line[i]) != '\n' && line[i] != '#' && line[i] != '*'
}

/// What the first line of a document leaves in its paragraph: its text, and a hard break
/// where the line asks for one and no blank line follows.
pub open spec fn first_line_tokens(line: Seq<char>, blank_line_follows: bool) -> Seq<TokenView> {
    if has_hard_break(line) && !blank_line_follows {
        seq![TokenView::Text(trim(line)), TokenView::Newline]
    } else {
        seq![TokenView::Text(trim(line))]
    }
}

/// The state of a document scan behind its first line and the newlines after it: one
/// paragraph, and a new one due exactly where a blank line followed.
pub open spec fn after_first_line(line: Seq<char>, blank_line_follows: bool) -> ScanState {
    ScanState {
        tokens: seq![TokenView::Paragraph(first_line_tokens(line, blank_line_follows))],
        should_start_new_paragraph: blank_line_follows,
        ..ScanState::fresh(false)
    }
}

/// The number of newlines that end a line: two where a blank line follows, else one.
pub open spec fn separator_len(blank_line_follows: bool) -> nat {
    if blank_line_follows {
        2
    } else {
        1
    }
}

/// The block transition at the end of the first line of a document.
pub proof fn lemma_first_line_closed(line: Seq<char>, blank_line_follows: bool)
    requires
        !is_blank(line),
    ensures
        (ScanState { current_line: line, ..ScanState::fresh(false) }).close_line(
            blank_line_follows,
        ) == (ScanState {
            tokens: seq![TokenView::Paragraph(first_line_tokens(line, blank_line_follows))],
            should_start_new_paragraph: false,
            ..ScanState::fresh(false)
        }),
{
    let text = TokenView::Text(trim(line));
    let none = Seq::<TokenView>::empty();
    lemma_push_child(none, none, text);
    lemma_push_child(none, seq![text], TokenView::Newline);
    assert(none.push(text) =~= seq![text]);
    assert(seq![text].push(TokenView::Newline) =~= seq![text, TokenView::Newline]);
    assert(none.push(TokenView::Paragraph(seq![text])) =~= seq![TokenView::Paragraph(seq![text])]);
    assert(none.push(TokenView::Paragraph(seq![text, TokenView::Newline])) =~= seq![
        TokenView::Paragraph(seq![text, TokenView::Newline]),
    ]);
}

/// The scan of a document that starts with a line of plain text, one or two newlines and
/// another character goes on behind the newlines with the first line in its paragraph.
pub proof fn lemma_first_line_scan(input: Seq<char>, line: Seq<char>, blank_line_follows: bool)
    requires
        is_plain_line(line),
        !is_blank(line),
        line.len() + 1 < input.len(),
        input.subrange(0, line.len() as int) == line,
        input[line.len() as int] == '\n',
        blank_line_follows ==> input[line.len() as int + 1] == '\n' && line.len() + 2
            < input.len() && input[line.len() as int + 2] != '\n',
        !blank_line_follows ==> input[line.len() as int + 1] != '\n',
    ensures
        scan(input, 0, ScanState::fresh(false), StopRule::Never) == scan(
            input,
            (line.len() + separator_len(blank_line_follows)) as int,
            after_first_line(line, blank_line_follows),
            StopRule::Never,
        ).after(line.len() + separator_len(blank_line_follows)),
{
    let n = line.len() as int;
    let start = ScanState::fresh(false);
    let rule = StopRule::Never;
    assert forall|i: int| 0 <= i < n implies (#[trigger] input[i]) != '*' && input[i] != '\n'
        && input[i] != '#' by {
        assert(input[i] == line[i]);
    }
    lemma_text_run(input, 0, line.len(), start, rule);
    let read = ScanState { current_line: line, ..start };
    assert(start.current_line + input.subrange(0, n) =~= line);
    assert(scan(input, 0, start, rule) == scan(input, n, read, rule).after(line.len()));

    lemma_first_line_closed(line, blank_line_follows);
    let closed = read.close_line(blank_line_follows);
    let step = step_at(input, n, read);
    assert(step == newline_step(input, n + 1, read));
    assert(step.state == after_first_line(line, blank_line_follows)) by {
        assert(closed.tokens.last() is Paragraph);
    }
    assert(step.consumed == if blank_line_follows { 1nat } else { 0nat }) by {
        if blank_line_follows {
            assert(newline_run(input, n + 2) == 0);
        }
    }
    assert(!ends_at(input, n, read, rule));
}

/// In every scan of a document, what follows a line of text and one newline joins the
/// paragraph of that line.
pub proof fn lemma_soft_wrap_keeps_paragraph(
    input: Seq<char>,
    pos: int,
    state: ScanState,
    token: TokenView,
)
    requires
        !state.is_inline,
        !is_blank(state.current_line),
        char_at(input, pos) != Some('\n'),
    ensures
        newline_step(input, pos, state).state.emit(token).tokens == push_child(
            state.close_line(false).tokens,
            token,
        ),
{
    let closed = state.close_line(false);
    lemma_open_paragraph(state.tokens, state.should_start_new_paragraph);
    let opened = open_paragraph(state.tokens, state.should_start_new_paragraph);
    let text = TokenView::Text(trim(state.current_line));
    lemma_push_child(opened.drop_last(), opened.last()->Paragraph_0, text);
    lemma_push_child(
        opened.drop_last(),
        opened.last()->Paragraph_0.push(text),
        TokenView::Newline,
    );
    assert(closed.tokens.last() is Paragraph);
}

/// In every scan of a document, what follows a line of text and a blank line opens a
/// paragraph of its own, and the line leaves no hard break.
pub proof fn lemma_blank_line_opens_paragraph(
    input: Seq<char>,
    pos: int,
    state: ScanState,
    token: TokenView,
)
    requires
        !state.is_inline,
        !is_blank(state.current_line),
        char_at(input, pos) == Some('\n'),
    ensures
        newline_step(input, pos, state).state.emit(token).tokens == push_child(
            open_paragraph(state.tokens, state.should_start_new_paragraph),
            TokenView::Text(trim(state.current_line)),
        ).push(TokenView::Paragraph(seq![token])),
{
    let closed = state.close_line(true);
    lemma_open_paragraph(state.tokens, state.should_start_new_paragraph);
    let opened = open_paragraph(state.tokens, state.should_start_new_paragraph);
    let text = TokenView::Text(trim(state.current_line));
    lemma_push_child(opened.drop_last(), opened.last()->Paragraph_0, text);
    assert(closed.tokens.last() is Paragraph);
    lemma_emit_opens_paragraph(newline_step(input, pos, state).state, token);
}

/// Two lines of plain text with one newline between them, the first without a hard break,
/// make one paragraph of two texts.
pub proof fn lemma_soft_wrap_joins_lines(first: Seq<char>, second: Seq<char>)
    requires
        is_plain_line(first),
        is_plain_line(second),
        !is_blank(first),
        !is_blank(second),
        !has_hard_break(first),
    ensures
        tokens_of(first + seq!['\n'] + second) == seq![
            TokenView::Paragraph(seq![TokenView::Text(trim(first)), TokenView::Text(trim(second))]),
        ],
{
    let input = first + seq!['\n'] + second;
    let n = first.len() as int;
    assert(second.len() > 0);
    assert(input[n + 1] == second[0]);
    assert(input.subrange(0, n) =~= first);
    lemma_first_line_scan(input, first, false);

    let state = after_first_line(first, false);
    assert forall|i: int| n + 1 <= i < input.len() implies (#[trigger] input[i]) != '*'
        && input[i] != '\n' && input[i] != '#' by {
        assert(input[i] == second[i - n - 1]);
    }
    lemma_last_line(input, n + 1, state, StopRule::Never);
    assert(state.current_line + input.subrange(n + 1, input.len() as int) =~= second);
    let text = TokenView::Text(trim(second));
    let children = seq![TokenView::Text(trim(first))];
    assert(state.tokens =~= Seq::empty().push(TokenView::Paragraph(children)));
    lemma_emit_joins_paragraph(state, Seq::empty(), children, text);
    assert(children.push(text) =~= seq![TokenView::Text(trim(first)), text]);
    assert(Seq::<TokenView>::empty().push(TokenView::Paragraph(children.push(text))) =~= seq![
        TokenView::Paragraph(seq![TokenView::Text(trim(first)), text]),
    ]);
}

/// Two lines of plain text with a blank line between them make two paragraphs. A hard
/// break at the end of the first line leaves no token.
pub proof fn lemma_blank_line_separates_paragraphs(first: Seq<char>, second: Seq<char>)
    requires
        is_plain_line(first),
        is_plain_line(second),
        !is_blank(first),
        !is_blank(second),
    ensures
        tokens_of(first + seq!['\n', '\n'] + second) == seq![
            TokenView::Paragraph(seq![TokenView::Text(trim(first))]),
            TokenView::Paragraph(seq![TokenView::Text(trim(second))]),
        ],
{
    let input = first + seq!['\n', '\n'] + second;
    let n = first.len() as int;
    assert(second.len() > 0);
    assert(input[n] == '\n');
    assert(input[n + 1] == '\n');
    assert(input[n + 2] == second[0]);
    assert(input.subrange(0, n) =~= first);
    lemma_first_line_scan(input, first, true);

    let state = after_first_line(first, true);
    assert forall|i: int| n + 2 <= i < input.len() implies (#[trigger] input[i]) != '*'
        && input[i] != '\n' && input[i] != '#' by {
        assert(input[i] == second[i - n - 2]);
    }
    lemma_last_line(input, n + 2, state, StopRule::Never);
    assert(state.current_line + input.subrange(n + 2, input.len() as int) =~= second);
    let text = TokenView::Text(trim(second));
    lemma_emit_opens_paragraph(state, text);
    assert(state.tokens.push(TokenView::Paragraph(seq![text])) =~= seq![
        TokenView::Paragraph(seq![TokenView::Text(trim(first))]),
        TokenView::Paragraph(seq![text]),
    ]);
}

/// A line of plain text that ends in two spaces, with one newline and another line of
/// plain text behind it, makes one paragraph with a hard break between the two texts.
pub proof fn lemma_hard_break_between_lines(first: Seq<char>, second: Seq<char>)
    requires
        is_plain_line(first),
        is_plain_line(second),
        !is_blank(first),
        !is_blank(second),
        has_hard_break(first),
    ensures
        tokens_of(first + seq!['\n'] + second) == seq![
            TokenView::Paragraph(
                seq![
                    TokenView::Text(trim(first)),
                    TokenView::Newline,
                    TokenView::Text(trim(second)),
                ],
            ),
        ],
{
    let input = first + seq!['\n'] + second;
    let n = first.len() as int;
    assert(second.len() > 0);
    assert(input[n + 1] == second[0]);
    assert(input.subrange(0, n) =~= first);
    lemma_first_line_scan(input, first, false);

    let state = after_first_line(first, false);
    assert forall|i: int| n + 1 <= i < input.len() implies (#[trigger] input[i]) != '*'
        && input[i] != '\n' && input[i] != '#' by {
        assert(input[i] == second[i - n - 1]);
    }
    lemma_last_line(input, n + 1, state, StopRule::Never);
    assert(state.current_line + input.subrange(n + 1, input.len() as int) =~= second);
    let text = TokenView::Text(trim(second));
    let children = seq![TokenView::Text(trim(first)), TokenView::Newline];
    assert(state.tokens =~= Seq::empty().push(TokenView::Paragraph(children)));
    lemma_emit_joins_paragraph(state, Seq::empty(), children, text);
    assert(children.push(text) =~= seq![
        TokenView::Text(trim(first)),
        TokenView::Newline,
        text,
    ]);
    assert(Seq::<TokenView>::empty().push(TokenView::Paragraph(children.push(text))) =~= seq![
        TokenView::Paragraph(seq![TokenView::Text(trim(first)), TokenView::Newline, text]),
    ]);
}

/// The heading handler before a space and a text that is not blank: it adds the heading,
/// of the level counted and the trimmed rest of the line, forgets the count, leaves the
/// pending line, and reads up to the newline or the end of the text.
pub proof fn lemma_heading_handler_emits_heading(input: Seq<char>, pos: int, state: ScanState)
    requires
        char_at(input, pos) == Some(' '),
        !is_blank(input.subrange(pos + 1, pos + 1 + line_len(input, pos + 1))),
    ensures
        heading_step(input, pos, state) == (Step {
            state: ScanState {
                tokens: state.tokens.push(
                    TokenView::Heading(
                        next_heading_size(state.current_heading_size),
                        trim(input.subrange(pos + 1, pos + 1 + line_len(input, pos + 1))),
                    ),
                ),
                current_heading_size: None,
                ..state
            },
            consumed: 1 + line_len(input, pos + 1),
        }),
        is_one_line(input.subrange(pos + 1, pos + 1 + line_len(input, pos + 1))),
        char_at(input, pos + 1 + line_len(input, pos + 1)) is None || char_at(
            input,
            pos + 1 + line_len(input, pos + 1),
        ) == Some('\n'),
{
    lemma_line_is_one_line(input, pos + 1);
    lemma_run_ends(input, pos + 1, |c: char| c != '\n');
}

/// The heading handler before a space and a blank rest of the line: it adds no token,
/// leaves the markers counted as the pending line, forgets the count, and reads up to the
/// newline or the end of the text.
pub proof fn lemma_heading_handler_keeps_markers(input: Seq<char>, pos: int, state: ScanState)
    requires
        char_at(input, pos) == Some(' '),
        is_blank(input.subrange(pos + 1, pos + 1 + line_len(input, pos + 1))),
    ensures
        heading_step(input, pos, state) == (Step {
            state: ScanState {
                current_line: marker_run(next_heading_size(state.current_heading_size)),
                current_heading_size: None,
                ..state
            },
            consumed: 1 + line_len(input, pos + 1),
        }),
        char_at(input, pos + 1 + line_len(input, pos + 1)) is None || char_at(
            input,
            pos + 1 + line_len(input, pos + 1),
        ) == Some('\n'),
{
    lemma_run_ends(input, pos + 1, |c: char| c != '\n');
}

/// At the start of a line, with no marker counted, `n` heading markers and a space make a
/// heading line: its level is `n`, its text is the rest of the line, and the scan goes on
/// at the end of the line.
pub proof fn lemma_heading_line_scan(
    input: Seq<char>,
    pos: int,
    n: nat,
    state: ScanState,
    rule: StopRule,
)
    requires
        n >= 1,
        !state.is_inline,
        state.current_line.len() == 0,
        state.current_heading_size is None,
        0 <= pos,
        pos + n < input.len(),
        forall|i: int| pos <= i < pos + n ==> #[trigger] input[i] == '#',
        input[pos + n] == ' ',
    ensures
        scan(input, pos, state, rule) == scan(
            input,
            pos + n + 1 + line_len(input, pos + n + 1),
            after_heading_line(
                state,
                n,
                input.subrange(pos + n + 1, pos + n + 1 + line_len(input, pos + n + 1)),
            ),
            rule,
        ).after(n + 1 + line_len(input, pos + n + 1)),
{
    lemma_marker_run_scan(input, pos, n, state, rule);
}

/// At every line start that the scan of a document comes to, no heading marker is counted
/// and no text is pending.
pub proof fn lemma_line_start_is_clean(input: Seq<char>, steps: nat)
    requires
        at_line_start(input, document_point(input, steps).pos),
    ensures
        document_point(input, steps).state.current_heading_size is None,
        document_point(input, steps).state.current_line.len() == 0,
        !document_point(input, steps).state.is_inline,
{
    lemma_document_point(input, steps);
}

/// Wherever in a document a line starts with `n` heading markers and a space, the line is
/// a heading line of level `n`: with text that is not blank it adds the heading of level
/// `n` and the trimmed text to the tokens, and the scan of the document goes on at the end
/// of the line.
pub proof fn lemma_heading_line_in_document(input: Seq<char>, steps: nat, n: nat)
    requires
        n >= 1,
        at_line_start(input, document_point(input, steps).pos),
        document_point(input, steps).pos + n < input.len(),
        forall|i: int|
            document_point(input, steps).pos <= i < document_point(input, steps).pos + n
                ==> #[trigger] input[i] == '#',
        input[document_point(input, steps).pos + n] == ' ',
    ensures
        ({
            let point = document_point(input, steps);
            let from = point.pos + n + 1;
            let text = input.subrange(from, from + line_len(input, from));
            &&& tokens_of(input) == scan(
                input,
                from + line_len(input, from),
                after_heading_line(point.state, n, text),
                StopRule::Never,
            ).tokens
            &&& !is_blank(text) ==> after_heading_line(point.state, n, text).tokens
                == point.state.tokens.push(TokenView::Heading(n, trim(text)))
        }),
{
    let point = document_point(input, steps);
    lemma_document_point(input, steps);
    lemma_heading_line_scan(input, point.pos, n, point.state, StopRule::Never);
}

/// A document of one line, made of `level` markers, a space and a text that is not blank,
/// is a heading of that level with the trimmed text.
pub proof fn lemma_heading_level(level: nat, text: Seq<char>)
    requires
        level >= 1,
        is_one_line(text),
        !is_blank(text),
    ensures
        tokens_of(marker_run(level) + seq![' '] + text) == seq![
            TokenView::Heading(level, trim(text)),
        ],
{
    let input = marker_run(level) + seq![' '] + text;
    let start = ScanState::fresh(false);
    let rule = StopRule::Never;
    let from = level as int + 1;
    assert(input[from - 1] == ' ');
    assert forall|i: int| from <= i < input.len() implies (#[trigger] char_at(input, i))
        is Some && input[i] != '\n' by {
        assert(input[i] == text[i - from]);
    }
    lemma_run_len(input, from, input.len() as int, |c: char| c != '\n');
    assert(input.subrange(from, input.len() as int) =~= text);
    lemma_heading_line_scan(input, 0, level, start, rule);
    let done = after_heading_line(start, level, text);
    assert(ends_at(input, input.len() as int, done, rule));
    assert(done.flush_line().tokens =~= seq![TokenView::Heading(level, trim(text))]);
}

/// A document of one line, made of `level` markers, a space and a blank text, is no
/// heading: it is a paragraph whose text is the markers.
pub proof fn lemma_blank_heading_is_text(level: nat, text: Seq<char>)
    requires
        level >= 1,
        is_one_line(text),
        is_blank(text),
    ensures
        tokens_of(marker_run(level) + seq![' '] + text) == seq![
            TokenView::Paragraph(seq![TokenView::Text(marker_run(level))]),
        ],
{
    let input = marker_run(level) + seq![' '] + text;
    let start = ScanState::fresh(false);
    let rule = StopRule::Never;
    let from = level as int + 1;
    assert(input[from - 1] == ' ');
    assert forall|i: int| from <= i < input.len() implies (#[trigger] char_at(input, i))
        is Some && input[i] != '\n' by {
        assert(input[i] == text[i - from]);
    }
    lemma_run_len(input, from, input.len() as int, |c: char| c != '\n');
    assert(input.subrange(from, input.len() as int) =~= text);
    lemma_heading_line_scan(input, 0, level, start, rule);
    let done = after_heading_line(start, level, text);
    assert(ends_at(input, input.len() as int, done, rule));
    let markers = marker_run(level);
    assert(markers[0] == '#');
    assert(!is_blank(markers));
    lemma_trim_of_visible_ends(markers);
    let cleared = ScanState { current_line: Seq::empty(), ..done };
    lemma_emit_opens_paragraph(cleared, TokenView::Text(markers));
    assert(Seq::<TokenView>::empty().push(TokenView::Paragraph(seq![TokenView::Text(markers)]))
        =~= seq![TokenView::Paragraph(seq![TokenView::Text(markers)])]);
}

/// `n` emphasis markers in a row.
pub open spec fn emphasis_run(n: nat) -> Seq<char> {
    Seq::new(n, |i: int| '*')
}

/// A text that `n` markers on each side make an emphasis of: it is on one line and holds
/// no marker, it does not start with a space and does not end in white space.
pub open spec fn is_emphasis_text(text: Seq<char>) -> bool {
    &&& text.len() > 0
    &&& text[0] != ' '
    &&& !is_white_space(text.last())
    &&& forall|i: int| 0 <= i < text.len() ==> (#[trigger] text[i]) != '*' && text[i] != '\n'
}

/// What lies inside `depth` markers on each side of `text`: the text itself at depth zero,
/// one emphasis of strength `depth` above that.
pub open spec fn emphasis_at_depth(depth: nat, text: Seq<char>) -> TokenView {
    if depth == 0 {
        TokenView::Text(trim(text))
    } else {
        TokenView::Emphasis(depth, seq![TokenView::Text(trim(text))])
    }
}

/// The inline scan behind the `k`-th of `n` opening markers finds the text, the markers
/// around it collapsed into one emphasis, and stops at the closing marker that matches it.
pub proof fn lemma_scan_inside_markers(n: nat, text: Seq<char>, k: nat)
    requires
        1 <= k <= n,
        is_emphasis_text(text),
    ensures
        scan(
            emphasis_run(n) + text + emphasis_run(n),
            k as int,
            ScanState::fresh(true),
            StopRule::AtCloser,
        ) == (Outcome {
            tokens: seq![emphasis_at_depth((n - k) as nat, text)],
            stopped: true,
            consumed: (2 * (n - k) + text.len()) as nat,
        }),
    decreases n - k,
{
    let input = emphasis_run(n) + text + emphasis_run(n);
    let start = ScanState::fresh(true);
    let rule = StopRule::AtCloser;
    let len = text.len() as int;
    let text_token = TokenView::Text(trim(text));
    assert forall|i: int| n <= i < n + len implies #[trigger] input[i] == text[i - n] by {}
    if k == n {
        lemma_text_run(input, n as int, text.len(), start, rule);
        let with_text = ScanState { current_line: text, ..start };
        assert(start.current_line + input.subrange(n as int, n + len) =~= text);
        assert(input[n + len] == '*');
        assert(ends_at(input, n + len, with_text, rule));
        assert(!is_blank(text));
        assert(with_text.flush_line().tokens =~= seq![text_token]);
        let end = scan(input, n + len, with_text, rule);
        assert(end.stopped);
        assert(end.consumed == 0);
        assert(end.tokens == seq![text_token]);
        assert(scan(input, n as int, start, rule) == end.after(text.len()));
    } else {
        let at = k as int;
        assert(input[at] == '*');
        assert(!ends_at(input, at, start, rule));
        assert(input[at + 1] != ' ') by {
            if at + 1 < n {
                assert(input[at + 1] == '*');
            } else {
                assert(input[at + 1] == text[0]);
            }
        }
        lemma_scan_inside_markers(n, text, k + 1);
        let inner = scan(input, at + 1, start, rule);
        let step = step_at(input, at, start);
        assert(step == emphasis_step(start, inner));
        let emphasis = emphasis_at_depth((n - k) as nat, text);
        assert(emphasis_token(inner.tokens) == emphasis);
        let emitted = ScanState { tokens: seq![emphasis], ..start };
        assert(step.state.tokens =~= seq![emphasis]);
        assert(step.state == emitted);
        let next = at + 1 + step.consumed;
        assert(next == 2 * n - k + len);
        assert(input[next] == '*');
        assert(ends_at(input, next, emitted, rule));
        assert(emitted.flush_line().tokens =~= seq![emphasis]);
        let end = scan(input, next, emitted, rule);
        assert(end.stopped);
        assert(end.consumed == 0);
        assert(end.tokens == seq![emphasis]);
        assert(scan(input, at, start, rule) == end.after(1 + step.consumed));
    }
}

/// A text between `n` opening and `n` closing markers is one emphasis of strength `n`
/// around the trimmed text, not `n` emphases inside each other.
pub proof fn lemma_emphasis_strength(n: nat, text: Seq<char>)
    requires
        n >= 1,
        is_emphasis_text(text),
    ensures
        tokens_of(emphasis_run(n) + text + emphasis_run(n)) == seq![
            TokenView::Paragraph(
                seq![TokenView::Emphasis(n, seq![TokenView::Text(trim(text))])],
            ),
        ],
{
    let input = emphasis_run(n) + text + emphasis_run(n);
    let start = ScanState::fresh(false);
    let rule = StopRule::Never;
    let len = text.len() as int;
    assert(input[0] == '*');
    assert(!ends_at(input, 0, start, rule));
    assert(input[1] != ' ') by {
        if 1 < n {
            assert(input[1] == '*');
        } else {
            assert(input[1] == text[0]);
        }
    }
    lemma_scan_inside_markers(n, text, 1);
    let inner = scan(input, 1, ScanState::fresh(true), StopRule::AtCloser);
    let step = step_at(input, 0, start);
    assert(step == emphasis_step(start, inner));
    let emphasis = TokenView::Emphasis(n, seq![TokenView::Text(trim(text))]);
    assert(emphasis_token(inner.tokens) == emphasis);
    lemma_emit_opens_paragraph(start, emphasis);
    let paragraph = seq![TokenView::Paragraph(seq![emphasis])];
    assert(Seq::<TokenView>::empty().push(TokenView::Paragraph(seq![emphasis])) =~= paragraph);
    assert(start.flush_line() == start);
    assert(step.state.tokens == paragraph);
    let emitted = ScanState { tokens: paragraph, should_start_new_paragraph: false, ..start };
    assert(step.state == emitted);
    assert(1 + step.consumed == input.len());
    assert(ends_at(input, input.len() as int, emitted, rule));
    assert(emitted.flush_line().tokens =~= paragraph);
    let end = scan(input, input.len() as int, emitted, rule);
    assert(end.tokens == paragraph);
    assert(scan(input, 0, start, rule) == end.after(1 + step.consumed));
}

/// In every scan, an emphasis marker with no marker behind it in the text is literal
/// text: it joins the pending line, and nothing else changes.
pub proof fn lemma_last_marker_is_text(input: Seq<char>, pos: int, state: ScanState)
    requires
        0 <= pos < input.len(),
        input[pos] == '*',
        forall|i: int| pos < i < input.len() ==> #[trigger] input[i] != '*',
    ensures
        step_at(input, pos, state) == (Step {
            state: state.without_count().push_char('*'),
            consumed: 0,
        }),
{
    lemma_no_marker_no_closer(input, pos + 1, ScanState::fresh(true));
}

/// An emphasis marker with nothing to close it is literal text: a line of plain text with
/// one marker in it is a paragraph whose text is the whole line, marker included.
pub proof fn lemma_unmatched_marker_is_text(before: Seq<char>, after: Seq<char>)
    requires
        is_plain_line(before),
        is_plain_line(after),
    ensures
        tokens_of(before + seq!['*'] + after) == seq![
            TokenView::Paragraph(seq![TokenView::Text(trim(before + seq!['*'] + after))]),
        ],
{
    let input = before + seq!['*'] + after;
    let n = before.len() as int;
    let start = ScanState::fresh(false);
    let rule = StopRule::Never;
    assert(input[n] == '*');
    assert forall|i: int| n + 1 <= i < input.len() implies #[trigger] input[i] == after[i - n
        - 1] by {}

    lemma_text_run(input, 0, before.len(), start, rule);
    let with_before = ScanState { current_line: before, ..start };
    assert(start.current_line + input.subrange(0, n) =~= before);

    assert(!ends_at(input, n, with_before, rule));
    lemma_no_marker_no_closer(input, n + 1, ScanState::fresh(true));
    let step = step_at(input, n, with_before);
    let with_marker = with_before.push_char('*');
    assert(step.state == with_marker);
    assert(step.consumed == 0);

    lemma_last_line(input, n + 1, with_marker, rule);
    assert(with_marker.current_line + input.subrange(n + 1, input.len() as int) =~= input);
    assert(!is_white_space(input[n]));
    assert(!is_blank(input));
    let cleared = ScanState { current_line: Seq::empty(), ..start };
    lemma_emit_opens_paragraph(cleared, TokenView::Text(trim(input)));
    assert(Seq::<TokenView>::empty().push(
        TokenView::Paragraph(seq![TokenView::Text(trim(input))]),
    ) =~= seq![TokenView::Paragraph(seq![TokenView::Text(trim(input))])]);
}

} // verus!
