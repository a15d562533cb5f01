//! From the text of a program to its lines.
//!
//! A program has one command per line. White space around a line does not
//! count, and neither do blank lines and lines that start with `//`.

use vstd::prelude::*;
use crate::text::{chars_of, string_of};

verus! {

/// Whether `c` is white space as Unicode defines it.
pub open spec fn is_whitespace(c: char) -> bool {
    ||| '\u{9}' <= c <= '\u{D}'
    ||| c == ' '
    ||| c == '\u{85}'
    ||| c == '\u{A0}'
    ||| c == '\u{1680}'
    ||| '\u{2000}' <= c <= '\u{200A}'
    ||| c == '\u{2028}'
    ||| c == '\u{2029}'
    ||| c == '\u{202F}'
    ||| c == '\u{205F}'
    ||| c == '\u{3000}'
}

/// `text` without the white space at its start.
pub open spec fn trim_start(text: Seq<char>) -> Seq<char>
    decreases text.len(),
{
    if text.len() > 0 && is_whitespace(text.first()) {
        trim_start(text.drop_first())
    } else {
        text
    }
}

/// `text` without the white space at its end.
pub open spec fn trim_end(text: Seq<char>) -> Seq<char>
    decreases text.len(),
{
    if text.len() > 0 && is_whitespace(text.last()) {
        trim_end(text.drop_last())
    } else {
        text
    }
}

/// `text` without the white space around it.
pub open spec fn trim(text: Seq<char>) -> Seq<char> {
    trim_end(trim_start(text))
}

/// The lines of `text`: what stands between its line feeds. A text with `n`
/// line feeds has `n + 1` lines, the last of them what follows the last line
/// feed.
pub open spec fn split_lines(text: Seq<char>) -> Seq<Seq<char>>
    decreases text.len(),
{
    if text.len() == 0 {
        seq![Seq::empty()]
    } else {
        let before = split_lines(text.drop_last());
        if text.last() == '\n' {
            before.push(Seq::empty())
        } else {
            before.drop_last().push(before.last().push(text.last()))
        }
    }
}

/// Whether a line is a comment: it starts with `//`.
pub open spec fn is_comment(line: Seq<char>) -> bool {
    line.len() >= 2 && line[0] == '/' && line[1] == '/'
}

/// Whether a line, trimmed, is left out of the program: it is empty or a
/// comment.
pub open spec fn is_ignored(line: Seq<char>) -> bool {
    line.len() == 0 || is_comment(line)
}

/// The lines of a program among `lines`: each line trimmed, without those
/// that are then empty or a comment.
pub open spec fn program_lines(lines: Seq<Seq<char>>) -> Seq<Seq<char>>
    decreases lines.len(),
{
    if lines.len() == 0 {
        Seq::empty()
    } else if is_ignored(trim(lines.last())) {
        program_lines(lines.drop_last())
    } else {
        program_lines(lines.drop_last()).push(trim(lines.last()))
    }
}

/// The lines of the program that `text` holds.
pub open spec fn source_lines_of(text: Seq<char>) -> Seq<Seq<char>> {
    program_lines(split_lines(text))
}

/// A text has at least one line.
pub proof fn lemma_split_lines_nonempty(text: Seq<char>)
    ensures
        split_lines(text).len() > 0,
    decreases text.len(),
{
    if text.len() > 0 {
        lemma_split_lines_nonempty(text.drop_last());
    }
}

/// Trimming the start leaves what follows the first `n` characters, when
/// these are white space and the next one is not.
pub proof fn lemma_trim_start(text: Seq<char>, n: int)
    requires
        0 <= n <= text.len(),
        forall|i: int| 0 <= i < n ==> is_whitespace(#[trigger] text[i]),
        n < text.len() ==> !is_whitespace(text[n]),
    ensures
        trim_start(text) == text.subrange(n, text.len() as int),
    decreases text.len(),
{
    if n > 0 {
        lemma_trim_start(text.drop_first(), n - 1);
    }
}

/// Trimming the end leaves the first `n` characters, when all after them
/// are white space and the last of them is not.
pub proof fn lemma_trim_end(text: Seq<char>, n: int)
    requires
        0 <= n <= text.len(),
        forall|i: int| n <= i < text.len() ==> is_whitespace(#[trigger] text[i]),
        n > 0 ==> !is_whitespace(text[n - 1]),
    ensures
        trim_end(text) == text.take(n),
    decreases text.len(),
{
    if n < text.len() {
        lemma_trim_end(text.drop_last(), n);
    }
}

/// The lines of two texts joined by a line feed are the lines of the first
/// and then those of the second.
pub proof fn lemma_split_lines_joined(first: Seq<char>, second: Seq<char>)
    ensures
        split_lines(first + seq!['\n'] + second) == split_lines(first) + split_lines(second),
    decreases second.len(),
{
    let joined = first + seq!['\n'] + second;
    if second.len() == 0 {
        assert(joined.drop_last() == first);
    } else {
        assert(joined.drop_last() == first + seq!['\n'] + second.drop_last());
        lemma_split_lines_joined(first, second.drop_last());
        lemma_split_lines_nonempty(second.drop_last());
    }
}

/// A text without a line feed is one line.
pub proof fn lemma_split_lines_single(line: Seq<char>)
    requires
        !line.contains('\n'),
    ensures
        split_lines(line) == seq![line],
    decreases line.len(),
{
    if line.len() > 0 {
        assert forall|i: int| 0 <= i < line.drop_last().len() implies line.drop_last()[i]
            != '\n' by {}
        lemma_split_lines_single(line.drop_last());
        assert(line.drop_last().push(line.last()) == line);
    } else {
        assert(line == Seq::<char>::empty());
    }
}

/// The program lines of two runs of lines are those of the first and then
/// those of the second.
pub proof fn lemma_program_lines_joined(first: Seq<Seq<char>>, second: Seq<Seq<char>>)
    ensures
        program_lines(first + second) == program_lines(first) + program_lines(second),
    decreases second.len(),
{
    if second.len() > 0 {
        assert((first + second).drop_last() == first + second.drop_last());
        lemma_program_lines_joined(first, second.drop_last());
    }
}

/// A blank line or a comment can be put into a text anywhere, between two
/// lines, before the first or after the last: the lines of the program stay
/// the same.
pub proof fn lemma_ignored_line(before: Seq<char>, line: Seq<char>, after: Seq<char>)
    requires
        !line.contains('\n'),
        is_ignored(trim(line)),
    ensures
        source_lines_of(before + seq!['\n'] + line + seq!['\n'] + after) == source_lines_of(
            before + seq!['\n'] + after,
        ),
        source_lines_of(line + seq!['\n'] + after) == source_lines_of(after),
        source_lines_of(before + seq!['\n'] + line) == source_lines_of(before),
{
    lemma_split_lines_single(line);
    assert(program_lines(seq![line]) == Seq::<Seq<char>>::empty()) by {
        assert(program_lines(seq![line].drop_last()) == Seq::<Seq<char>>::empty());
    }
    lemma_split_lines_joined(before, line);
    lemma_split_lines_joined(before + seq!['\n'] + line, after);
    lemma_split_lines_joined(before, after);
    lemma_split_lines_joined(line, after);
    lemma_program_lines_joined(split_lines(before), split_lines(line));
    lemma_program_lines_joined(split_lines(before) + split_lines(line), split_lines(after));
    lemma_program_lines_joined(split_lines(before), split_lines(after));
    lemma_program_lines_joined(split_lines(line), split_lines(after));
}

/// Whether `c` is white space as Unicode defines it.
pub fn is_whitespace_char(c: char) -> (r: bool)
    ensures
        r == is_whitespace(c),
{
    ('\u{9}' <= c && c <= '\u{D}') || c == ' ' || c == '\u{85}' || c == '\u{A0}' || c
        == '\u{1680}' || ('\u{2000}' <= c && c <= '\u{200A}') || c == '\u{2028}' || c
        == '\u{2029}' || c == '\u{202F}' || c == '\u{205F}' || c == '\u{3000}'
}

/// The part of `chars` without the white space around it.
pub fn trim_chars(chars: &[char]) -> (trimmed: &[char])
    ensures
        trimmed@ == trim(chars@),
{
    let mut start: usize = 0;
    while start < chars.len() && is_whitespace_char(chars[start])
        invariant
            start <= chars.len(),
            forall|i: int| 0 <= i < start ==> is_whitespace(#[trigger] chars@[i]),
        decreases chars.len() - start,
    {
        start = start + 1;
    }
    let rest = &chars[start..chars.len()];
    let mut end: usize = rest.len();
    while end > 0 && is_whitespace_char(rest[end - 1])
        invariant
            end <= rest.len(),
            forall|i: int| end <= i < rest.len() ==> is_whitespace(#[trigger] rest@[i]),
        decreases end,
    {
        end = end - 1;
    }
    proof {
        lemma_trim_start(chars@, start as int);
        lemma_trim_end(rest@, end as int);
    }
    &rest[0..end]
}

/// Adds the line `raw` to `lines`, trimmed, unless it is then empty or a
/// comment.
fn keep_program_line(lines: &mut Vec<String>, raw: &[char])
    ensures
        final(lines).deep_view() == if is_ignored(trim(raw@)) {
            old(lines).deep_view()
        } else {
            old(lines).deep_view().push(trim(raw@))
        },
{
    let line = trim_chars(raw);
    if line.len() == 0 {
        return ;
    }
    if line.len() >= 2 && line[0] == '/' && line[1] == '/' {
        return ;
    }
    lines.push(string_of(line));
}

/// The lines of the program that `input` holds: its lines, each without the
/// white space around it, but for those that are then empty or start with
/// `//`.
pub fn source_lines(input: &str) -> (lines: Vec<String>)
    ensures
        lines.deep_view() == source_lines_of(input@),
{
    let chars = chars_of(input);
    let text = chars.as_slice();
    let mut lines: Vec<String> = Vec::new();
    let ghost mut finished: Seq<Seq<char>> = Seq::empty();
    let mut start: usize = 0;
    let mut i: usize = 0;
    assert(text@.take(0) == Seq::<char>::empty());
    while i < text.len()
        invariant
            start <= i <= text.len(),
            split_lines(text@.take(i as int)) == finished.push(
                text@.subrange(start as int, i as int),
            ),
            lines.deep_view() == program_lines(finished),
        decreases text.len() - i,
    {
        proof {
            assert(text@.take(i + 1).drop_last() == text@.take(i as int));
        }
        if text[i] == '\n' {
            keep_program_line(&mut lines, &text[start..i]);
            proof {
                let line = text@.subrange(start as int, i as int);
                assert(finished.push(line).drop_last() == finished);
                finished = finished.push(line);
                assert(text@.subrange(i + 1, i + 1) == Seq::<char>::empty());
            }
            start = i + 1;
        } else {
            assert(text@.subrange(start as int, i as int).push(text@[i as int])
                == text@.subrange(start as int, i + 1));
        }
        i = i + 1;
    }
    keep_program_line(&mut lines, &text[start..i]);
    proof {
        assert(text@.take(i as int) == text@);
        let line = text@.subrange(start as int, i as int);
        assert(finished.push(line).drop_last() == finished);
    }
    lines
}

} // verus!
