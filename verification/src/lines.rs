//! The lines of a document.
//!
//! A document is split at line feeds. A carriage return directly before a
//! line feed belongs to the line ending; a final line needs no line ending,
//! and a document that ends in a line feed has no empty line after it.

use vstd::prelude::*;

verus! {

/// The index of the first line feed in `s`, or `s.len()` if it has none.
pub open spec fn first_newline(s: Seq<char>) -> nat
    decreases s.len(),
{
    if s.len() == 0 || s[0] == '\n' {
        0
    } else {
        1 + first_newline(s.drop_first())
    }
}

/// `s` without one trailing carriage return.
pub open spec fn strip_cr(s: Seq<char>) -> Seq<char> {
    if s.len() > 0 && s.last() == '\r' {
        s.drop_last()
    } else {
        s
    }
}

/// The lines of `s`, without their line endings.
pub open spec fn lines(s: Seq<char>) -> Seq<Seq<char>>
    decreases s.len(),
{
    if s.len() == 0 {
        Seq::empty()
    } else {
        let k = first_newline(s);
        if k >= s.len() {
            seq![s]
        } else {
            seq![strip_cr(s.take(k as int))] + lines(s.skip(k as int + 1))
        }
    }
}

/// The lines `ls`, with one line feed between each two neighbours.
pub open spec fn join_lines(ls: Seq<Seq<char>>) -> Seq<char>
    decreases ls.len(),
{
    if ls.len() == 0 {
        Seq::empty()
    } else if ls.len() == 1 {
        ls[0]
    } else {
        join_lines(ls.drop_last()) + seq!['\n'] + ls.last()
    }
}

/// The character sequences that the vectors of `v` hold.
pub open spec fn views(v: Seq<Vec<char>>) -> Seq<Seq<char>> {
    Seq::new(v.len(), |i: int| v[i]@)
}

/// Whether `s` holds a line feed.
pub open spec fn has_newline(s: Seq<char>) -> bool {
    exists|i: int| 0 <= i < s.len() && s[i] == '\n'
}

/// `first_newline` finds a line feed, and none stands before it.
pub proof fn lemma_first_newline(s: Seq<char>)
    ensures
        first_newline(s) <= s.len(),
        forall|i: int| 0 <= i < first_newline(s) ==> s[i] != '\n',
        first_newline(s) < s.len() ==> s[first_newline(s) as int] == '\n',
    decreases s.len(),
{
    if s.len() == 0 || s[0] == '\n' {
    } else {
        let t = s.drop_first();
        lemma_first_newline(t);
        assert forall|i: int| 0 <= i < first_newline(s) implies s[i] != '\n' by {
            if i > 0 {
                assert(s[i] == t[i - 1]);
            }
        }
        if first_newline(s) < s.len() {
            assert(s[first_newline(s) as int] == t[first_newline(t) as int]);
        }
    }
}

/// The first line feed is where `k` says, if none stands before `k` and `k`
/// is a line feed or the end.
pub proof fn lemma_first_newline_is(s: Seq<char>, k: int)
    requires
        0 <= k <= s.len(),
        forall|i: int| 0 <= i < k ==> s[i] != '\n',
        k < s.len() ==> s[k] == '\n',
    ensures
        first_newline(s) == k,
{
    lemma_first_newline(s);
    let f = first_newline(s) as int;
    if f < k {
        assert(s[f] == '\n');
    } else if f > k {
        assert(s[k] != '\n');
    }
}

/// A document has a line exactly if it has a character.
pub proof fn lemma_lines_len(s: Seq<char>)
    ensures
        lines(s).len() == 0 <==> s.len() == 0,
{
}

/// No line holds a line feed.
pub proof fn lemma_lines_have_no_newline(s: Seq<char>)
    ensures
        forall|i: int| 0 <= i < lines(s).len() ==> !has_newline(#[trigger] lines(s)[i]),
    decreases s.len(),
{
    if s.len() > 0 {
        lemma_first_newline(s);
        let k = first_newline(s) as int;
        if k < s.len() {
            let head = strip_cr(s.take(k));
            let tail = lines(s.skip(k + 1));
            lemma_lines_have_no_newline(s.skip(k + 1));
            assert forall|i: int| 0 <= i < lines(s).len() implies !has_newline(
                #[trigger] lines(s)[i],
            ) by {
                if i == 0 {
                    assert(lines(s)[0] == head);
                    assert forall|j: int| 0 <= j < head.len() implies head[j] != '\n' by {
                        assert(head[j] == s[j]);
                    }
                } else {
                    assert(lines(s)[i] == tail[i - 1]);
                }
            }
        }
    }
}

/// The lines of two documents in a row are the lines of the first followed
/// by those of the second, where the first ends in a line feed or is empty.
pub proof fn lemma_lines_concat(p: Seq<char>, q: Seq<char>)
    requires
        p.len() == 0 || p.last() == '\n',
    ensures
        lines(p + q) == lines(p) + lines(q),
    decreases p.len(),
{
    if p.len() == 0 {
        assert(p + q == q);
    } else {
        lemma_first_newline(p);
        let k = first_newline(p) as int;
        assert(k < p.len()) by {
            if k == p.len() {
                assert(p[p.len() - 1] != '\n');
            }
        }
        let whole = p + q;
        assert forall|i: int| 0 <= i < k implies whole[i] != '\n' by {
            assert(whole[i] == p[i]);
        }
        lemma_first_newline_is(whole, k);
        assert(whole.take(k) == p.take(k));
        assert(whole.skip(k + 1) == p.skip(k + 1) + q);
        let rest = p.skip(k + 1);
        if rest.len() > 0 {
            assert(rest.last() == p.last());
        }
        lemma_lines_concat(rest, q);
        assert(lines(whole) == seq![strip_cr(p.take(k))] + (lines(rest) + lines(q)));
        assert(lines(p) == seq![strip_cr(p.take(k))] + lines(rest));
    }
}

/// A line without a line feed, followed by one, is one line.
pub proof fn lemma_lines_of_terminated_line(l: Seq<char>)
    requires
        !has_newline(l),
    ensures
        lines(l + seq!['\n']) == seq![strip_cr(l)],
{
    let s = l + seq!['\n'];
    assert forall|i: int| 0 <= i < l.len() implies s[i] != '\n' by {
        assert(s[i] == l[i]);
    }
    lemma_first_newline_is(s, l.len() as int);
    assert(s.take(l.len() as int) == l);
    let rest = s.skip(l.len() as int + 1);
    assert(rest.len() == 0);
    assert(lines(rest) == Seq::<Seq<char>>::empty());
    assert(seq![strip_cr(l)] + Seq::<Seq<char>>::empty() == seq![strip_cr(l)]);
}

/// A nonempty line without a line feed is the one line of itself.
pub proof fn lemma_lines_of_single_line(l: Seq<char>)
    requires
        l.len() > 0,
        !has_newline(l),
    ensures
        lines(l) == seq![l],
{
    lemma_first_newline_is(l, l.len() as int);
}

/// Joined lines, followed by a line feed, split into as many lines as were
/// joined.
pub proof fn lemma_line_count_of_terminated_join(ls: Seq<Seq<char>>)
    requires
        ls.len() > 0,
        forall|i: int| 0 <= i < ls.len() ==> !has_newline(#[trigger] ls[i]),
    ensures
        lines(join_lines(ls) + seq!['\n']).len() == ls.len(),
    decreases ls.len(),
{
    if ls.len() == 1 {
        lemma_lines_of_terminated_line(ls[0]);
    } else {
        let init = ls.drop_last();
        assert forall|i: int| 0 <= i < init.len() implies !has_newline(#[trigger] init[i]) by {
            assert(init[i] == ls[i]);
        }
        lemma_line_count_of_terminated_join(init);
        let p = join_lines(init) + seq!['\n'];
        let q = ls.last() + seq!['\n'];
        assert(join_lines(ls) + seq!['\n'] == p + q);
        lemma_lines_concat(p, q);
        lemma_lines_of_terminated_line(ls.last());
    }
}

/// Joined lines split into as many lines as were joined, where none holds a
/// line feed and the last is not empty.
pub proof fn lemma_line_count_of_join(ls: Seq<Seq<char>>)
    requires
        ls.len() > 0,
        forall|i: int| 0 <= i < ls.len() ==> !has_newline(#[trigger] ls[i]),
        ls.last().len() > 0,
    ensures
        lines(join_lines(ls)).len() == ls.len(),
{
    if ls.len() == 1 {
        lemma_lines_of_single_line(ls[0]);
    } else {
        let init = ls.drop_last();
        assert forall|i: int| 0 <= i < init.len() implies !has_newline(#[trigger] init[i]) by {
            assert(init[i] == ls[i]);
        }
        lemma_line_count_of_terminated_join(init);
        let p = join_lines(init) + seq!['\n'];
        assert(join_lines(ls) == p + ls.last());
        lemma_lines_concat(p, ls.last());
        lemma_lines_of_single_line(ls.last());
    }
}

/// Joining a line in front of others puts it and a line feed before their
/// join.
pub proof fn lemma_join_prepend(first: Seq<char>, rest: Seq<Seq<char>>)
    requires
        rest.len() > 0,
    ensures
        join_lines(seq![first] + rest) == first + seq!['\n'] + join_lines(rest),
    decreases rest.len(),
{
    let all = seq![first] + rest;
    assert(all.drop_last() == seq![first] + rest.drop_last());
    assert(all.last() == rest.last());
    if rest.len() == 1 {
        assert(all.drop_last() == seq![first]);
        assert(join_lines(all.drop_last()) == first);
    } else {
        lemma_join_prepend(first, rest.drop_last());
        assert(join_lines(all) == (first + seq!['\n'] + join_lines(rest.drop_last())) + seq!['\n']
            + rest.last());
        assert(join_lines(rest) == join_lines(rest.drop_last()) + seq!['\n'] + rest.last());
    }
}

/// Whether a carriage return stands at `i` in `s`, and a line feed after it.
pub open spec fn crlf_at(s: Seq<char>, i: int) -> bool {
    0 <= i && i + 1 < s.len() && s[i] == '\r' && s[i + 1] == '\n'
}

/// Whether a carriage return stands directly before a line feed in `s`.
pub open spec fn has_crlf(s: Seq<char>) -> bool {
    exists|i: int| crlf_at(s, i)
}

/// Splitting and joining gives the document back, where it is not empty,
/// does not end in a line feed, and has no carriage return before a line
/// feed.
pub proof fn lemma_join_of_lines(s: Seq<char>)
    requires
        s.len() > 0,
        s.last() != '\n',
        !has_crlf(s),
    ensures
        join_lines(lines(s)) == s,
    decreases s.len(),
{
    lemma_first_newline(s);
    let k = first_newline(s) as int;
    if k < s.len() {
        let head = s.take(k);
        let rest = s.skip(k + 1);
        assert(strip_cr(head) == head) by {
            if k > 0 && head.last() == '\r' {
                assert(crlf_at(s, k - 1));
            }
        }
        assert(rest.len() > 0);
        assert(rest.last() == s.last());
        assert(!has_crlf(rest)) by {
            if has_crlf(rest) {
                let i = choose|i: int| crlf_at(rest, i);
                assert(crlf_at(s, i + k + 1));
            }
        }
        lemma_join_of_lines(rest);
        lemma_lines_len(rest);
        lemma_join_prepend(head, lines(rest));
        assert(head + seq!['\n'] + rest == s);
    }
}

/// A copy of the characters of `v` from `from` up to `to`.
pub fn copy_range(v: &Vec<char>, from: usize, to: usize) -> (out: Vec<char>)
    requires
        from <= to <= v.len(),
    ensures
        out@ == v@.subrange(from as int, to as int),
{
    let mut out: Vec<char> = Vec::new();
    let mut i: usize = from;
    while i < to
        invariant
            from <= i <= to <= v.len(),
            out@ == v@.subrange(from as int, i as int),
        decreases to - i,
    {
        out.push(v[i]);
        i += 1;
    }
    out
}

/// Splits `text` into its lines.
pub fn split_lines(text: &Vec<char>) -> (out: Vec<Vec<char>>)
    ensures
        views(out@) == lines(text@),
{
    let mut out: Vec<Vec<char>> = Vec::new();
    let mut start: usize = 0;
    let mut i: usize = 0;
    assert(text@.skip(0) == text@);
    while i < text.len()
        invariant
            start <= i <= text.len(),
            forall|j: int| start <= j < i ==> text@[j] != '\n',
            lines(text@) == views(out@) + lines(text@.skip(start as int)),
        decreases text.len() - i,
    {
        if text[i] == '\n' {
            let mut end: usize = i;
            if end > start && text[end - 1] == '\r' {
                end -= 1;
            }
            let line = copy_range(text, start, end);
            proof {
                let rest = text@.skip(start as int);
                lemma_first_newline_is(rest, i - start);
                assert(rest.take(i - start) == text@.subrange(start as int, i as int));
                assert(strip_cr(rest.take(i - start)) == line@);
                assert(rest.skip(i - start + 1) == text@.skip(i + 1));
                assert(views(out@.push(line)) == views(out@) + seq![line@]);
            }
            out.push(line);
            start = i + 1;
        }
        i += 1;
    }
    if start < text.len() {
        let line = copy_range(text, start, text.len());
        proof {
            let rest = text@.skip(start as int);
            lemma_first_newline_is(rest, rest.len() as int);
            assert(rest == line@);
            assert(views(out@.push(line)) == views(out@) + seq![line@]);
        }
        out.push(line);
    } else {
        assert(lines(text@.skip(start as int)) == Seq::<Seq<char>>::empty());
    }
    out
}

/// Joins `parts` with one line feed between each two neighbours.
pub fn join(parts: &Vec<Vec<char>>) -> (out: Vec<char>)
    ensures
        out@ == join_lines(views(parts@)),
{
    let mut out: Vec<char> = Vec::new();
    let mut i: usize = 0;
    while i < parts.len()
        invariant
            i <= parts.len(),
            out@ == join_lines(views(parts@).take(i as int)),
        decreases parts.len() - i,
    {
        proof {
            let done = views(parts@).take(i + 1);
            assert(done.drop_last() == views(parts@).take(i as int));
            assert(done.last() == parts@[i as int]@);
        }
        if i > 0 {
            out.push('\n');
        }
        let ghost before = out@;
        let part = &parts[i];
        let mut j: usize = 0;
        while j < part.len()
            invariant
                j <= part.len(),
                out@ == before + part@.take(j as int),
            decreases part.len() - j,
        {
            out.push(part[j]);
            j += 1;
        }
        assert(part@.take(part.len() as int) == part@);
        i += 1;
    }
    assert(views(parts@).take(parts.len() as int) == views(parts@));
    out
}

} // verus!
