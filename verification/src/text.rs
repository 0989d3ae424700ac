//! Character sequences: conversion between strings and vectors of
//! characters, whitespace, trimming, and prefixes.

use vstd::prelude::*;

verus! {

/// Appends one character to the end of `text`.
///
/// Wraps `String::push`, which the standard library documents as appending
/// the given character to the end of the string. Nothing else is claimed.
#[verifier::external_body]
fn push_char(text: &mut String, c: char)
    ensures
        final(text)@ == old(text)@.push(c),
{
    text.push(c)
}

/// The characters of `text`, in order.
pub fn chars_of(text: &str) -> (out: Vec<char>)
    ensures
        out@ == text@,
{
    let mut out: Vec<char> = Vec::new();
    for c in it: text.chars()
        invariant
            out@ == it.seq().take(it.index() as int),
            it.seq() == text@,
    {
        out.push(c);
    }
    out
}

/// The string made of `chars`, in order.
pub fn string_of(chars: &Vec<char>) -> (out: String)
    ensures
        out@ == chars@,
{
    let mut out: String = String::new();
    let mut i: usize = 0;
    while i < chars.len()
        invariant
            i <= chars.len(),
            out@ == chars@.take(i as int),
        decreases chars.len() - i,
    {
        push_char(&mut out, chars[i]);
        i += 1;
    }
    out
}

/// Appends the characters of `tail` to `head`.
pub fn extend_chars(head: &mut Vec<char>, tail: &Vec<char>)
    ensures
        final(head)@ == old(head)@ + tail@,
{
    let mut i: usize = 0;
    while i < tail.len()
        invariant
            i <= tail.len(),
            head@ == old(head)@ + tail@.take(i as int),
        decreases tail.len() - i,
    {
        head.push(tail[i]);
        i += 1;
    }
}

/// The code points that Unicode gives the property `White_Space`.
pub open spec fn is_whitespace(c: char) -> bool {
    let n = c as u32;
    ||| 0x09 <= n <= 0x0D
    ||| n == 0x20
    ||| n == 0x85
    ||| n == 0xA0
    ||| n == 0x1680
    ||| 0x2000 <= n <= 0x200A
    ||| n == 0x2028
    ||| n == 0x2029
    ||| n == 0x202F
    ||| n == 0x205F
    ||| n == 0x3000
}

/// Whether `c` is a whitespace character.
pub fn whitespace(c: char) -> (b: bool)
    ensures
        b == is_whitespace(c),
{
    let n: u32 = c as u32;
    (0x09 <= n && n <= 0x0D) || n == 0x20 || n == 0x85 || n == 0xA0 || n == 0x1680 || (0x2000 <= n
        && n <= 0x200A) || n == 0x2028 || n == 0x2029 || n == 0x202F || n == 0x205F || n == 0x3000
}

/// `s` without its leading whitespace.
pub open spec fn trim_start(s: Seq<char>) -> Seq<char>
    decreases s.len(),
{
    if s.len() > 0 && is_whitespace(s[0]) {
        trim_start(s.drop_first())
    } else {
        s
    }
}

/// `s` without its trailing whitespace.
pub open spec fn trim_end(s: Seq<char>) -> Seq<char>
    decreases s.len(),
{
    if s.len() > 0 && is_whitespace(s.last()) {
        trim_end(s.drop_last())
    } else {
        s
    }
}

/// `s` without its leading and trailing whitespace.
pub open spec fn trim(s: Seq<char>) -> Seq<char> {
    trim_end(trim_start(s))
}

/// Where the leading whitespace of `s` ends: `trim_start(s) == s.skip(from)`.
pub proof fn lemma_trim_start_is_suffix(s: Seq<char>) -> (from: int)
    ensures
        0 <= from <= s.len(),
        trim_start(s) == s.skip(from),
    decreases s.len(),
{
    if s.len() > 0 && is_whitespace(s[0]) {
        let inner = lemma_trim_start_is_suffix(s.drop_first());
        assert(s.drop_first().skip(inner) == s.skip(inner + 1));
        inner + 1
    } else {
        assert(s.skip(0) == s);
        0
    }
}

/// Where the trailing whitespace of `s` begins: `trim_end(s) == s.take(to)`.
pub proof fn lemma_trim_end_is_prefix(s: Seq<char>) -> (to: int)
    ensures
        0 <= to <= s.len(),
        trim_end(s) == s.take(to),
    decreases s.len(),
{
    if s.len() > 0 && is_whitespace(s.last()) {
        let inner = lemma_trim_end_is_prefix(s.drop_last());
        assert(s.drop_last().take(inner) == s.take(inner));
        inner
    } else {
        assert(s.take(s.len() as int) == s);
        s.len() as int
    }
}

/// Trimming keeps a stretch of `s`: `trim(s) == s.subrange(from, to)`.
pub proof fn lemma_trim_is_subrange(s: Seq<char>) -> (bounds: (int, int))
    ensures
        0 <= bounds.0 <= bounds.1 <= s.len(),
        trim(s) == s.subrange(bounds.0, bounds.1),
{
    let from = lemma_trim_start_is_suffix(s);
    let to = lemma_trim_end_is_prefix(s.skip(from));
    assert(s.skip(from).take(to) == s.subrange(from, from + to));
    (from, from + to)
}

/// What is left of `s` after trimming does not open with whitespace.
pub proof fn lemma_trim_opens_without_whitespace(s: Seq<char>)
    ensures
        trim(s).len() > 0 ==> !is_whitespace(trim(s)[0]),
{
    lemma_trim_start_opens_without_whitespace(s);
    let to = lemma_trim_end_is_prefix(trim_start(s));
    assert(trim(s) == trim_start(s).take(to));
}

/// What is left of `s` without its leading whitespace does not open with
/// whitespace.
pub proof fn lemma_trim_start_opens_without_whitespace(s: Seq<char>)
    ensures
        trim_start(s).len() > 0 ==> !is_whitespace(trim_start(s)[0]),
    decreases s.len(),
{
    if s.len() > 0 && is_whitespace(s[0]) {
        lemma_trim_start_opens_without_whitespace(s.drop_first());
    }
}

/// Whether `s` opens with `prefix`.
pub open spec fn starts_with(s: Seq<char>, prefix: Seq<char>) -> bool {
    prefix.len() <= s.len() && s.take(prefix.len() as int) == prefix
}

/// Whether `line` opens with `prefix`.
pub fn has_prefix(line: &Vec<char>, prefix: &Vec<char>) -> (b: bool)
    ensures
        b == starts_with(line@, prefix@),
{
    if prefix.len() > line.len() {
        return false;
    }
    let mut i: usize = 0;
    while i < prefix.len()
        invariant
            i <= prefix.len() <= line.len(),
            line@.take(i as int) == prefix@.take(i as int),
        decreases prefix.len() - i,
    {
        if line[i] != prefix[i] {
            assert(line@.take(prefix.len() as int)[i as int] != prefix@[i as int]);
            return false;
        }
        assert(line@.take(i + 1) == line@.take(i as int).push(line@[i as int]));
        assert(prefix@.take(i + 1) == prefix@.take(i as int).push(prefix@[i as int]));
        i += 1;
    }
    assert(prefix@ == prefix@.take(prefix.len() as int));
    true
}

/// The bounds of `trim(s)` within `s`: `trim(s) == s.subrange(from, to)`.
pub fn trim_bounds(s: &Vec<char>) -> (bounds: (usize, usize))
    ensures
        bounds.0 <= bounds.1 <= s.len(),
        trim(s@) == s@.subrange(bounds.0 as int, bounds.1 as int),
{
    let mut from: usize = 0;
    assert(s@.skip(0) == s@);
    while from < s.len() && whitespace(s[from])
        invariant
            from <= s.len(),
            trim_start(s@) == trim_start(s@.skip(from as int)),
        decreases s.len() - from,
    {
        assert(s@.skip(from as int).drop_first() == s@.skip(from + 1));
        from += 1;
    }
    let ghost rest = s@.skip(from as int);
    assert(trim_start(s@) == rest);
    let mut to: usize = s.len();
    assert(rest.take(to - from) == rest);
    while to > from && whitespace(s[to - 1])
        invariant
            from <= to <= s.len(),
            rest == s@.skip(from as int),
            trim_end(rest) == trim_end(rest.take(to - from)),
        decreases to,
    {
        assert(rest.take(to - from).drop_last() == rest.take(to - from - 1));
        to -= 1;
    }
    assert(rest.take(to - from) == s@.subrange(from as int, to as int));
    (from, to)
}

} // verus!
