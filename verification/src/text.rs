//! Characters and lines: white space as Unicode defines it, blank lines, trimming and
//! hard line breaks.
use vstd::prelude::*;

verus! {

/// Whether `c` is white space as Unicode defines it: the characters marked `White_Space`.
pub open spec fn is_white_space(c: char) -> bool {
    ||| '\u{9}' <= c <= '\u{d}'
    ||| c == ' '
    ||| c == '\u{85}'
    ||| c == '\u{a0}'
    ||| c == '\u{1680}'
    ||| '\u{2000}' <= c <= '\u{200a}'
    ||| c == '\u{2028}'
    ||| c == '\u{2029}'
    ||| c == '\u{202f}'
    ||| c == '\u{205f}'
    ||| c == '\u{3000}'
}

/// A line is blank when it holds nothing but white space; the empty line is blank.
pub open spec fn is_blank(s: Seq<char>) -> bool {
    forall|i: int| 0 <= i < s.len() ==> is_white_space(#[trigger] s[i])
}

/// `s` without its leading white space.
pub open spec fn trim_start(s: Seq<char>) -> Seq<char>
    decreases s.len(),
{
    if s.len() > 0 && is_white_space(s.first()) {
        trim_start(s.drop_first())
    } else {
        s
    }
}

/// `s` without its trailing white space.
pub open spec fn trim_end(s: Seq<char>) -> Seq<char>
    decreases s.len(),
{
    if s.len() > 0 && is_white_space(s.last()) {
        trim_end(s.drop_last())
    } else {
        s
    }
}

/// `s` without its leading and trailing white space.
pub open spec fn trim(s: Seq<char>) -> Seq<char> {
    trim_end(trim_start(s))
}

/// A line asks for a hard break when it ends in two spaces.
pub open spec fn has_hard_break(s: Seq<char>) -> bool {
    s.len() >= 2 && s[s.len() - 1] == ' ' && s[s.len() - 2] == ' '
}

/// Whether the last character of `s` exists and is not white space.
pub open spec fn ends_in_non_space(s: Seq<char>) -> bool {
    s.len() > 0 && !is_white_space(s.last())
}

/// No character of `s` is a newline.
pub open spec fn is_one_line(s: Seq<char>) -> bool {
    forall|i: int| 0 <= i < s.len() ==> #[trigger] s[i] != '\n'
}

/// A text is trimmed when it neither starts nor ends in white space; the empty text is.
pub open spec fn is_trimmed(s: Seq<char>) -> bool {
    s.len() == 0 || (!is_white_space(s.first()) && !is_white_space(s.last()))
}

/// What is left without the leading white space starts with none, and is empty exactly
/// where the text is blank.
pub proof fn lemma_trim_start(s: Seq<char>)
    ensures
        trim_start(s).len() > 0 ==> !is_white_space(trim_start(s).first()),
        trim_start(s).len() == 0 <==> is_blank(s),
        is_one_line(s) ==> is_one_line(trim_start(s)),
    decreases s.len(),
{
    if s.len() > 0 && is_white_space(s.first()) {
        let rest = s.drop_first();
        lemma_trim_start(rest);
        if is_blank(rest) {
            assert forall|i: int| 0 <= i < s.len() implies is_white_space(#[trigger] s[i]) by {
                if i > 0 {
                    assert(s[i] == rest[i - 1]);
                }
            }
        }
        if is_blank(s) {
            assert forall|i: int| 0 <= i < rest.len() implies is_white_space(
                #[trigger] rest[i],
            ) by {
                assert(rest[i] == s[i + 1]);
            }
        }
        if is_one_line(s) {
            assert forall|i: int| 0 <= i < rest.len() implies #[trigger] rest[i] != '\n' by {
                assert(rest[i] == s[i + 1]);
            }
        }
    } else if s.len() > 0 {
        assert(!is_white_space(s[0]));
    }
}

/// What is left without the trailing white space ends in none, is empty exactly where
/// the text is blank, and starts as the text does.
pub proof fn lemma_trim_end(s: Seq<char>)
    ensures
        trim_end(s).len() > 0 ==> !is_white_space(trim_end(s).last()) && trim_end(s).first()
            == s.first(),
        trim_end(s).len() == 0 <==> is_blank(s),
        is_one_line(s) ==> is_one_line(trim_end(s)),
    decreases s.len(),
{
    if s.len() > 0 && is_white_space(s.last()) {
        let rest = s.drop_last();
        lemma_trim_end(rest);
        if is_blank(rest) {
            assert forall|i: int| 0 <= i < s.len() implies is_white_space(#[trigger] s[i]) by {
                if i < rest.len() {
                    assert(s[i] == rest[i]);
                }
            }
        }
        if is_blank(s) {
            assert forall|i: int| 0 <= i < rest.len() implies is_white_space(
                #[trigger] rest[i],
            ) by {
                assert(rest[i] == s[i]);
            }
        }
        if is_one_line(s) {
            assert forall|i: int| 0 <= i < rest.len() implies #[trigger] rest[i] != '\n' by {
                assert(rest[i] == s[i]);
            }
        }
    } else if s.len() > 0 {
        assert(!is_white_space(s[s.len() - 1]));
    }
}

/// A trimmed text is trimmed, is empty exactly where the text is blank, and has no newline
/// where the text has none.
pub proof fn lemma_trim(s: Seq<char>)
    ensures
        is_trimmed(trim(s)),
        trim(s).len() == 0 <==> is_blank(s),
        is_one_line(s) ==> is_one_line(trim(s)),
{
    lemma_trim_start(s);
    lemma_trim_end(trim_start(s));
}

/// Trimming leaves a text alone that neither starts nor ends in white space.
pub proof fn lemma_trim_of_visible_ends(s: Seq<char>)
    requires
        s.len() > 0,
        !is_white_space(s.first()),
        !is_white_space(s.last()),
    ensures
        trim(s) == s,
{
}

/// Whether `c` is white space.
pub fn is_whitespace(c: char) -> (b: bool)
    ensures
        b == is_white_space(c),
{
    ('\u{9}' <= c && c <= '\u{d}') || c == ' ' || c == '\u{85}' || c == '\u{a0}' || c == '\u{1680}'
        || ('\u{2000}' <= c && c <= '\u{200a}') || c == '\u{2028}' || c == '\u{2029}' || c
        == '\u{202f}' || c == '\u{205f}' || c == '\u{3000}'
}

/// Taken on trust from the standard library: `String::push` appends the character to the
/// end of the string.
pub assume_specification[ String::push ](s: &mut String, ch: char)
    ensures
        final(s)@ == old(s)@.push(ch),
;

/// The characters of `s`, in order.
pub fn chars_of(s: &str) -> (chars: Vec<char>)
    ensures
        chars@ == s@,
{
    let mut chars: Vec<char> = Vec::new();
    for c in it: s.chars()
        invariant
            it.seq() == s@,
            chars@ =~= s@.take(it.index()),
    {
        chars.push(c);
    }
    chars
}

/// The string made of `chars[from..to]`.
pub fn string_from(chars: &Vec<char>, from: usize, to: usize) -> (s: String)
    requires
        from <= to <= chars.len(),
    ensures
        s@ == chars@.subrange(from as int, to as int),
{
    let mut s = String::new();
    let mut i: usize = from;
    while i < to
        invariant
            from <= i <= to <= chars.len(),
            s@ =~= chars@.subrange(from as int, i as int),
        decreases to - i,
    {
        s.push(chars[i]);
        i += 1;
    }
    s
}

/// Whether `line` holds nothing but white space.
pub fn line_is_blank(line: &str) -> (b: bool)
    ensures
        b == is_blank(line@),
{
    let chars = chars_of(line);
    let mut i: usize = 0;
    while i < chars.len()
        invariant
            i <= chars.len(),
            chars@ == line@,
            forall|j: int| 0 <= j < i ==> is_white_space(#[trigger] line@[j]),
        decreases chars.len() - i,
    {
        if !is_whitespace(chars[i]) {
            assert(!is_white_space(line@[i as int]));
            return false;
        }
        i += 1;
    }
    true
}

/// Whether `line` ends in two spaces.
pub fn ends_with_hard_break(line: &str) -> (b: bool)
    ensures
        b == has_hard_break(line@),
{
    let chars = chars_of(line);
    let n = chars.len();
    n >= 2 && chars[n - 1] == ' ' && chars[n - 2] == ' '
}

/// The text of `line` without the white space around it.
pub fn trimmed(line: &str) -> (text: String)
    ensures
        text@ == trim(line@),
{
    let chars = chars_of(line);
    let n = chars.len();
    let mut start: usize = 0;
    assert(line@.subrange(0, n as int) =~= line@);
    while start < n && is_whitespace(chars[start])
        invariant
            start <= n == chars.len(),
            chars@ == line@,
            trim_start(line@) == trim_start(line@.subrange(start as int, n as int)),
        decreases n - start,
    {
        proof {
            let rest = line@.subrange(start as int, n as int);
            assert(rest.drop_first() =~= line@.subrange(start + 1, n as int));
        }
        start += 1;
    }
    let mut end: usize = n;
    while end > start && is_whitespace(chars[end - 1])
        invariant
            start <= end <= n == chars.len(),
            chars@ == line@,
            trim(line@) == trim_end(line@.subrange(start as int, end as int)),
        decreases end - start,
    {
        proof {
            let rest = line@.subrange(start as int, end as int);
            assert(rest.drop_last() =~= line@.subrange(start as int, end - 1));
        }
        end -= 1;
    }
    string_from(&chars, start, end)
}

} // verus!
