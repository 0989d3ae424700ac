//! Centring of marked lines.
//!
//! A line that opens with the marker loses the marker, is trimmed, and is
//! moved to the middle of the document's longest line by spaces on its left.
//! Every other line is kept as it is. Widths count characters.

use vstd::prelude::*;
use crate::failure::Failure;
use crate::lines::{
    copy_range, has_crlf, has_newline, join, join_lines, lemma_join_of_lines,
    lemma_line_count_of_join, lemma_lines_have_no_newline, lines, split_lines, views,
};
use crate::text::{
    chars_of, extend_chars, has_prefix, is_whitespace, lemma_trim_is_subrange,
    lemma_trim_opens_without_whitespace, starts_with, string_of, trim, trim_bounds, trim_start,
};

verus! {

/// The marker of a centred line where none is given: `->`.
pub open spec fn default_marker() -> Seq<char> {
    seq!['-', '>']
}

/// The width by which `line` counts towards the longest line: its length,
/// less the marker's where it opens with the marker.
pub open spec fn measured_width(line: Seq<char>, marker: Seq<char>) -> int {
    if starts_with(line, marker) {
        line.len() - marker.len()
    } else {
        line.len() as int
    }
}

/// The greatest measured width among `ls`; 0 where there is no line.
pub open spec fn longest_width(ls: Seq<Seq<char>>, marker: Seq<char>) -> int
    decreases ls.len(),
{
    if ls.len() == 0 {
        0
    } else {
        let rest = longest_width(ls.drop_last(), marker);
        let w = measured_width(ls.last(), marker);
        if w > rest {
            w
        } else {
            rest
        }
    }
}

/// The width of a marked line's content: the length of the trimmed line,
/// less the marker's, and never below 0.
pub open spec fn trimmed_width(line: Seq<char>, marker: Seq<char>) -> int {
    let w = trim(line).len() - marker.len();
    if w < 0 {
        0
    } else {
        w
    }
}

/// Half of what `longest` exceeds `width` by, rounded up; 0 where it does
/// not exceed it.
pub open spec fn padding(longest: int, width: int) -> int {
    if width <= longest {
        (longest - width + 1) / 2
    } else {
        0
    }
}

/// `n` spaces.
pub open spec fn spaces(n: int) -> Seq<char> {
    Seq::new(
        if n < 0 {
            0
        } else {
            n as nat
        },
        |i: int| ' ',
    )
}

/// What becomes of `line` in a document whose longest line is `longest` wide.
pub open spec fn centered_line(line: Seq<char>, marker: Seq<char>, longest: int) -> Seq<char> {
    if starts_with(line, marker) {
        spaces(padding(longest, trimmed_width(line, marker))) + trim(
            line.skip(marker.len() as int),
        )
    } else {
        line
    }
}

/// What becomes of each of `ls`.
pub open spec fn centered_lines(ls: Seq<Seq<char>>, marker: Seq<char>, longest: int) -> Seq<
    Seq<char>,
> {
    Seq::new(ls.len(), |i: int| centered_line(ls[i], marker, longest))
}

/// The document `text` with its marked lines centred.
pub open spec fn centered_text(text: Seq<char>, marker: Seq<char>) -> Seq<char> {
    let ls = lines(text);
    join_lines(centered_lines(ls, marker, longest_width(ls, marker)))
}

/// What centring gives: the centred document, or an error where the
/// document has no line.
pub open spec fn centering(text: Seq<char>, marker: Seq<char>) -> Result<Seq<char>, Failure> {
    if lines(text).len() == 0 {
        Err(Failure::EmptyDocument)
    } else {
        Ok(centered_text(text, marker))
    }
}

/// Spaces before a text that does not open with whitespace are its leading
/// whitespace.
pub proof fn lemma_trim_start_of_padded(n: int, content: Seq<char>)
    requires
        0 <= n,
        content.len() > 0 ==> !is_whitespace(content[0]),
    ensures
        trim_start(spaces(n) + content) == content,
    decreases n,
{
    let padded = spaces(n) + content;
    if n == 0 {
        assert(padded == content);
    } else {
        assert(padded[0] == ' ');
        assert(padded.drop_first() == spaces(n - 1) + content);
        lemma_trim_start_of_padded(n - 1, content);
    }
}

/// A marked line whose content is no wider than the longest line gets half
/// of what it lacks, rounded up, as spaces on its left, and after them its
/// content, trimmed: the spaces are all of its leading whitespace.
pub proof fn lemma_left_padding_of_marked_line(line: Seq<char>, marker: Seq<char>, longest: int)
    requires
        starts_with(line, marker),
        trimmed_width(line, marker) <= longest,
    ensures
        ({
            let lack = longest - trimmed_width(line, marker);
            let pad = padding(longest, trimmed_width(line, marker));
            let out = centered_line(line, marker, longest);
            &&& lack % 2 == 0 ==> 2 * pad == lack
            &&& lack % 2 == 1 ==> 2 * pad == lack + 1
            &&& out.len() == pad + trim(line.skip(marker.len() as int)).len()
            &&& out.take(pad) == spaces(pad)
            &&& out.skip(pad) == trim(line.skip(marker.len() as int))
            &&& trim_start(out) == trim(line.skip(marker.len() as int))
        }),
{
    let pad = padding(longest, trimmed_width(line, marker));
    let content = trim(line.skip(marker.len() as int));
    let out = centered_line(line, marker, longest);
    assert(out == spaces(pad) + content);
    assert(out.take(pad) =~= spaces(pad));
    assert(out.skip(pad) =~= content);
    lemma_trim_opens_without_whitespace(line.skip(marker.len() as int));
    lemma_trim_start_of_padded(pad, content);
}

/// No line is measured wider than the longest.
pub proof fn lemma_longest_width_bounds(ls: Seq<Seq<char>>, marker: Seq<char>, i: int)
    requires
        0 <= i < ls.len(),
    ensures
        0 <= measured_width(ls[i], marker) <= longest_width(ls, marker),
    decreases ls.len(),
{
    if i < ls.len() - 1 {
        lemma_longest_width_bounds(ls.drop_last(), marker, i);
    }
}

/// In a document, the content of a marked line is no wider than the longest
/// line: the line gets its padding by the rule, never by the clamp.
pub proof fn lemma_content_fits_longest(ls: Seq<Seq<char>>, marker: Seq<char>, i: int)
    requires
        0 <= i < ls.len(),
        starts_with(ls[i], marker),
    ensures
        trimmed_width(ls[i], marker) <= longest_width(ls, marker),
{
    lemma_longest_width_bounds(ls, marker, i);
    let bounds = lemma_trim_is_subrange(ls[i]);
}

/// A line without a line feed has none after centring.
pub proof fn lemma_centered_line_has_no_newline(line: Seq<char>, marker: Seq<char>, longest: int)
    requires
        !has_newline(line),
    ensures
        !has_newline(centered_line(line, marker, longest)),
{
    if starts_with(line, marker) {
        let pad = spaces(padding(longest, trimmed_width(line, marker)));
        let rest = line.skip(marker.len() as int);
        let bounds = lemma_trim_is_subrange(rest);
        let out = centered_line(line, marker, longest);
        assert forall|i: int| 0 <= i < out.len() implies out[i] != '\n' by {
            if i >= pad.len() {
                let j = i - pad.len();
                assert(out[i] == trim(rest)[j]);
                assert(trim(rest)[j] == line[marker.len() + bounds.0 + j]);
            }
        }
    }
}

/// Centring leaves a document as many lines as it had, where the last line
/// is not empty after centring.
///
/// A last line that centring leaves empty is not a line of the result any
/// more: a document does not end in an empty line.
pub proof fn lemma_centering_keeps_line_count(text: Seq<char>, marker: Seq<char>)
    requires
        centering(text, marker) is Ok,
        centered_lines(lines(text), marker, longest_width(lines(text), marker)).last().len() > 0,
    ensures
        lines(centering(text, marker)->Ok_0).len() == lines(text).len(),
{
    let ls = lines(text);
    let longest = longest_width(ls, marker);
    let done = centered_lines(ls, marker, longest);
    lemma_lines_have_no_newline(text);
    assert forall|i: int| 0 <= i < done.len() implies !has_newline(#[trigger] done[i]) by {
        lemma_centered_line_has_no_newline(ls[i], marker, longest);
    }
    lemma_line_count_of_join(done);
}

/// Lines of which none opens with the marker are all kept as they are.
pub proof fn lemma_unmarked_lines_are_kept(ls: Seq<Seq<char>>, marker: Seq<char>, longest: int)
    requires
        forall|i: int| 0 <= i < ls.len() ==> !starts_with(#[trigger] ls[i], marker),
    ensures
        centered_lines(ls, marker, longest) == ls,
{
    assert(centered_lines(ls, marker, longest) =~= ls);
}

/// Centring changes nothing in a document of which no line opens with the
/// marker, where the document ends in no line feed and has no carriage
/// return before a line feed.
///
/// Line endings are not kept as they were written: the result has a line
/// feed between each two lines and none at its end.
pub proof fn lemma_centering_without_marked_lines(text: Seq<char>, marker: Seq<char>)
    requires
        text.len() > 0,
        text.last() != '\n',
        !has_crlf(text),
        forall|i: int| 0 <= i < lines(text).len() ==> !starts_with(#[trigger] lines(text)[i], marker),
    ensures
        centering(text, marker) == Ok::<Seq<char>, Failure>(text),
{
    let ls = lines(text);
    lemma_unmarked_lines_are_kept(ls, marker, longest_width(ls, marker));
    lemma_join_of_lines(text);
}

/// The number of spaces to the left of a line whose content is `width` wide,
/// in a document whose longest line is `longest` wide.
pub fn left_padding(longest: usize, width: usize) -> (pad: usize)
    ensures
        pad == padding(longest as int, width as int),
        width <= longest ==> 2 * pad == longest - width || 2 * pad == longest - width + 1,
        width > longest ==> pad == 0,
{
    if width > longest {
        0
    } else {
        let gap: usize = longest - width;
        gap / 2 + gap % 2
    }
}

/// The width by which `line` counts towards the longest line.
pub fn line_width(line: &Vec<char>, marker: &Vec<char>) -> (w: usize)
    ensures
        w == measured_width(line@, marker@),
{
    if has_prefix(line, marker) {
        line.len() - marker.len()
    } else {
        line.len()
    }
}

/// The greatest measured width among `ls`.
pub fn longest_line(ls: &Vec<Vec<char>>, marker: &Vec<char>) -> (longest: usize)
    ensures
        longest == longest_width(views(ls@), marker@),
{
    let mut longest: usize = 0;
    let mut i: usize = 0;
    while i < ls.len()
        invariant
            i <= ls.len(),
            longest == longest_width(views(ls@).take(i as int), marker@),
        decreases ls.len() - i,
    {
        proof {
            let done = views(ls@).take(i + 1);
            assert(done.drop_last() == views(ls@).take(i as int));
            assert(done.last() == ls@[i as int]@);
        }
        let w: usize = line_width(&ls[i], marker);
        if w > longest {
            longest = w;
        }
        i += 1;
    }
    assert(views(ls@).take(ls.len() as int) == views(ls@));
    longest
}

/// Centres `line` where it opens with `marker`, and copies it where not.
pub fn center_line(line: &Vec<char>, marker: &Vec<char>, longest: usize) -> (out: Vec<char>)
    ensures
        out@ == centered_line(line@, marker@, longest as int),
{
    if !has_prefix(line, marker) {
        return copy_range(line, 0, line.len());
    }
    let whole = trim_bounds(line);
    let kept: usize = whole.1 - whole.0;
    let width: usize = if kept >= marker.len() {
        kept - marker.len()
    } else {
        0
    };
    let pad: usize = left_padding(longest, width);
    let mut out: Vec<char> = Vec::new();
    let mut i: usize = 0;
    while i < pad
        invariant
            i <= pad,
            out@ == spaces(i as int),
        decreases pad - i,
    {
        out.push(' ');
        i += 1;
    }
    let rest = copy_range(line, marker.len(), line.len());
    assert(rest@ == line@.skip(marker.len() as int));
    let inner = trim_bounds(&rest);
    let content = copy_range(&rest, inner.0, inner.1);
    extend_chars(&mut out, &content);
    out
}

/// Centres the marked lines of `text`.
///
/// A document without lines is refused; every other document is centred.
pub fn center_lines_with(text: &str, marker: &str) -> (out: Result<String, Failure>)
    ensures
        match out {
            Ok(s) => centering(text@, marker@) == Ok::<Seq<char>, Failure>(s@),
            Err(e) => centering(text@, marker@) == Err::<Seq<char>, Failure>(e),
        },
{
    let body = chars_of(text);
    let mark = chars_of(marker);
    let ls = split_lines(&body);
    if ls.len() == 0 {
        return Err(Failure::EmptyDocument);
    }
    let longest: usize = longest_line(&ls, &mark);
    let mut done: Vec<Vec<char>> = Vec::new();
    let mut i: usize = 0;
    while i < ls.len()
        invariant
            i <= ls.len(),
            views(done@) == centered_lines(views(ls@), mark@, longest as int).take(i as int),
        decreases ls.len() - i,
    {
        let line = center_line(&ls[i], &mark, longest);
        assert(views(done@.push(line)) == views(done@).push(line@));
        done.push(line);
        i += 1;
    }
    assert(centered_lines(views(ls@), mark@, longest as int).take(ls.len() as int)
        == centered_lines(views(ls@), mark@, longest as int));
    let joined = join(&done);
    Ok(string_of(&joined))
}

/// Centres the lines of `text` that open with `->`.
pub fn center_lines(text: &str) -> (out: Result<String, Failure>)
    ensures
        match out {
            Ok(s) => centering(text@, default_marker()) == Ok::<Seq<char>, Failure>(s@),
            Err(e) => centering(text@, default_marker()) == Err::<Seq<char>, Failure>(e),
        },
{
    proof {
        reveal_strlit("->");
        assert("->"@ == default_marker());
    }
    center_lines_with(text, "->")
}

} // verus!
