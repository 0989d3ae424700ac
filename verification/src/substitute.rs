//! Substitution of placeholders.
//!
//! A placeholder is a variable's name between braces. The template is read
//! once from left to right: where a placeholder of a variable stands, the
//! variable's value is written in its place and reading goes on behind the
//! placeholder; every other character is copied. A value is never read
//! again, so a placeholder inside a value stays as it is.

use vstd::prelude::*;
use crate::failure::Failure;
use crate::text::{chars_of, extend_chars, string_of};
use crate::variables::{all_text, Binding, Value, VariableSet};

verus! {

/// The placeholder of `name`: the name between braces.
pub open spec fn placeholder(name: Seq<char>) -> Seq<char> {
    seq!['{'] + name + seq!['}']
}

/// Whether the placeholder of `name` stands at `at` in `t`.
pub open spec fn occurs_at(t: Seq<char>, at: int, name: Seq<char>) -> bool {
    0 <= at && at + name.len() + 2 <= t.len() && t.subrange(at, at + name.len() + 2)
        == placeholder(name)
}

/// The index of the first variable of `vars` whose placeholder stands at
/// `at` in `t`, or `vars.len()` if there is none.
pub open spec fn first_occurring(t: Seq<char>, at: int, vars: Seq<Binding>) -> nat
    decreases vars.len(),
{
    if vars.len() == 0 || occurs_at(t, at, vars[0].0) {
        0
    } else {
        1 + first_occurring(t, at, vars.drop_first())
    }
}

/// The characters of a value; none for a value that is not text.
pub open spec fn value_text(value: Option<Seq<char>>) -> Seq<char> {
    match value {
        Some(s) => s,
        None => Seq::empty(),
    }
}

/// The number of characters of `t` from `at` on.
pub open spec fn remaining(t: Seq<char>, at: int) -> nat {
    if 0 <= at < t.len() {
        (t.len() - at) as nat
    } else {
        0
    }
}

/// What becomes of `t` from `at` on.
pub open spec fn substituted_from(t: Seq<char>, at: int, vars: Seq<Binding>) -> Seq<char>
    decreases remaining(t, at),
{
    if at < 0 || at >= t.len() {
        Seq::empty()
    } else {
        let j = first_occurring(t, at, vars) as int;
        if j < vars.len() {
            value_text(vars[j].1) + substituted_from(t, at + vars[j].0.len() + 2, vars)
        } else {
            seq![t[at]] + substituted_from(t, at + 1, vars)
        }
    }
}

/// The template `t` with the placeholders of `vars` replaced by their values.
pub open spec fn substituted(t: Seq<char>, vars: Seq<Binding>) -> Seq<char> {
    substituted_from(t, 0, vars)
}

/// What substitution gives: the substituted template, or an error where a
/// value is not text.
pub open spec fn substitution(t: Seq<char>, vars: Seq<Binding>) -> Result<Seq<char>, Failure> {
    if all_text(vars) {
        Ok(substituted(t, vars))
    } else {
        Err(Failure::NonStringVariable)
    }
}

/// `first_occurring` finds a variable whose placeholder stands there, and
/// no earlier variable's does.
pub proof fn lemma_first_occurring(t: Seq<char>, at: int, vars: Seq<Binding>)
    ensures
        first_occurring(t, at, vars) <= vars.len(),
        forall|i: int| 0 <= i < first_occurring(t, at, vars) ==> !occurs_at(t, at, (#[trigger] vars[i]).0),
        first_occurring(t, at, vars) < vars.len() ==> occurs_at(
            t,
            at,
            vars[first_occurring(t, at, vars) as int].0,
        ),
    decreases vars.len(),
{
    if vars.len() == 0 || occurs_at(t, at, vars[0].0) {
    } else {
        let rest = vars.drop_first();
        lemma_first_occurring(t, at, rest);
        assert forall|i: int| 0 <= i < first_occurring(t, at, vars) implies !occurs_at(
            t,
            at,
            (#[trigger] vars[i]).0,
        ) by {
            if i > 0 {
                assert(vars[i] == rest[i - 1]);
            }
        }
        if first_occurring(t, at, vars) < vars.len() {
            assert(vars[first_occurring(t, at, vars) as int] == rest[first_occurring(
                t,
                at,
                rest,
            ) as int]);
        }
    }
}

/// The first variable whose placeholder stands at `at` is the one at `k`,
/// if no earlier one's does and `k` is such a variable or the end.
pub proof fn lemma_first_occurring_is(t: Seq<char>, at: int, vars: Seq<Binding>, k: int)
    requires
        0 <= k <= vars.len(),
        forall|i: int| 0 <= i < k ==> !occurs_at(t, at, (#[trigger] vars[i]).0),
        k < vars.len() ==> occurs_at(t, at, vars[k].0),
    ensures
        first_occurring(t, at, vars) == k,
{
    lemma_first_occurring(t, at, vars);
    let f = first_occurring(t, at, vars) as int;
    if f < k {
        assert(occurs_at(t, at, vars[f].0));
    } else if f > k {
        assert(!occurs_at(t, at, vars[k].0));
    }
}

/// Whether no placeholder of a variable of `vars` stands anywhere in `t`.
pub open spec fn free_of_placeholders(t: Seq<char>, vars: Seq<Binding>) -> bool {
    forall|p: int, i: int| 0 <= i < vars.len() ==> !#[trigger] occurs_at(t, p, vars[i].0)
}

/// From any place on, a template in which no placeholder of a variable
/// stands is copied.
pub proof fn lemma_copied_from(t: Seq<char>, at: int, vars: Seq<Binding>)
    requires
        0 <= at <= t.len(),
        free_of_placeholders(t, vars),
    ensures
        substituted_from(t, at, vars) == t.skip(at),
    decreases t.len() - at,
{
    if at < t.len() {
        lemma_first_occurring(t, at, vars);
        let j = first_occurring(t, at, vars) as int;
        if j < vars.len() {
            assert(!occurs_at(t, at, vars[j].0));
        }
        lemma_copied_from(t, at + 1, vars);
        assert(seq![t[at]] + t.skip(at + 1) == t.skip(at));
    } else {
        assert(t.skip(at) == Seq::<char>::empty());
    }
}

/// Substitution gives the template back where no placeholder of a variable
/// stands in it and every value is text.
pub proof fn lemma_substitute_without_placeholders(t: Seq<char>, vars: Seq<Binding>)
    requires
        all_text(vars),
        free_of_placeholders(t, vars),
    ensures
        substitution(t, vars) == Ok::<Seq<char>, Failure>(t),
{
    lemma_copied_from(t, 0, vars);
    assert(t.skip(0) == t);
}

/// Without variables, substitution gives every template back: a placeholder
/// that no variable names stays as it is written.
pub proof fn lemma_substitute_without_variables(t: Seq<char>)
    ensures
        substitution(t, Seq::<Binding>::empty()) == Ok::<Seq<char>, Failure>(t),
{
    lemma_substitute_without_placeholders(t, Seq::<Binding>::empty());
}

/// Whether the placeholder of `name` stands at `at` in `t`.
pub fn placeholder_at(t: &Vec<char>, at: usize, name: &Vec<char>) -> (found: bool)
    requires
        at < t.len(),
    ensures
        found == occurs_at(t@, at as int, name@),
{
    let room: usize = t.len() - at;
    if room < 2 || name.len() > room - 2 {
        return false;
    }
    let ghost piece = t@.subrange(at as int, at + name.len() + 2);
    let ghost wanted = placeholder(name@);
    if t[at] != '{' {
        assert(piece[0] != wanted[0]);
        return false;
    }
    let mut i: usize = 0;
    while i < name.len()
        invariant
            i <= name.len(),
            at + name.len() + 2 <= t.len(),
            piece == t@.subrange(at as int, at + name.len() + 2),
            wanted == placeholder(name@),
            forall|j: int| 0 <= j < i ==> t@[at + 1 + j] == name@[j],
        decreases name.len() - i,
    {
        if t[at + 1 + i] != name[i] {
            assert(piece[1 + i] != wanted[1 + i]);
            return false;
        }
        i += 1;
    }
    if t[at + 1 + name.len()] != '}' {
        assert(piece[1 + name.len()] != wanted[1 + name.len()]);
        return false;
    }
    assert(piece =~= wanted);
    true
}

/// The index of the first of `names` whose placeholder stands at `at` in
/// `t`, or their number if there is none.
fn first_placeholder_at(
    t: &Vec<char>,
    at: usize,
    names: &Vec<Vec<char>>,
    Ghost(vars): Ghost<Seq<Binding>>,
) -> (j: usize)
    requires
        at < t.len(),
        names@.len() == vars.len(),
        forall|i: int| 0 <= i < vars.len() ==> (#[trigger] names@[i])@ == vars[i].0,
    ensures
        j == first_occurring(t@, at as int, vars),
{
    let mut j: usize = 0;
    while j < names.len()
        invariant
            j <= names.len(),
            at < t.len(),
            names@.len() == vars.len(),
            forall|i: int| 0 <= i < vars.len() ==> (#[trigger] names@[i])@ == vars[i].0,
            forall|i: int| 0 <= i < j ==> !occurs_at(t@, at as int, (#[trigger] vars[i]).0),
        decreases names.len() - j,
    {
        if placeholder_at(t, at, &names[j]) {
            proof {
                lemma_first_occurring_is(t@, at as int, vars, j as int);
            }
            return j;
        }
        j += 1;
    }
    proof {
        lemma_first_occurring_is(t@, at as int, vars, j as int);
    }
    j
}

/// Replaces the placeholders of `vars` in `template` by their values.
///
/// Fails exactly if some value of `vars` is not text, whether or not its
/// placeholder stands in the template.
pub fn substitute(template: &str, vars: &VariableSet) -> (out: Result<String, Failure>)
    ensures
        match out {
            Ok(s) => substitution(template@, vars@) == Ok::<Seq<char>, Failure>(s@),
            Err(e) => substitution(template@, vars@) == Err::<Seq<char>, Failure>(e),
        },
{
    let count: usize = vars.len();
    let mut names: Vec<Vec<char>> = Vec::new();
    let mut values: Vec<Vec<char>> = Vec::new();
    let mut k: usize = 0;
    while k < count
        invariant
            k <= count,
            count == vars@.len(),
            names@.len() == k,
            values@.len() == k,
            forall|i: int| 0 <= i < k ==> (#[trigger] names@[i])@ == vars@[i].0,
            forall|i: int| 0 <= i < k ==> vars@[i].1 == Some((#[trigger] values@[i])@),
        decreases count - k,
    {
        let entry = vars.entry(k);
        match &entry.value {
            Value::Text(s) => {
                names.push(chars_of(entry.name.as_str()));
                values.push(chars_of(s.as_str()));
            },
            Value::Opaque => {
                assert(vars@[k as int].1 is None);
                return Err(Failure::NonStringVariable);
            },
        }
        k += 1;
    }
    assert(all_text(vars@)) by {
        assert forall|i: int| 0 <= i < vars@.len() implies (#[trigger] vars@[i]).1 is Some by {
            assert(vars@[i].1 == Some(values@[i]@));
        }
    }
    let t = chars_of(template);
    let mut out: Vec<char> = Vec::new();
    let mut at: usize = 0;
    while at < t.len()
        invariant
            at <= t.len(),
            t@ == template@,
            names@.len() == vars@.len(),
            values@.len() == vars@.len(),
            forall|i: int| 0 <= i < vars@.len() ==> (#[trigger] names@[i])@ == vars@[i].0,
            forall|i: int| 0 <= i < vars@.len() ==> vars@[i].1 == Some((#[trigger] values@[i])@),
            substituted(t@, vars@) == out@ + substituted_from(t@, at as int, vars@),
        decreases t.len() - at,
    {
        let j: usize = first_placeholder_at(&t, at, &names, Ghost(vars@));
        proof {
            lemma_first_occurring(t@, at as int, vars@);
        }
        let ghost tail = substituted_from(t@, at as int, vars@);
        if j < names.len() {
            assert(vars@[j as int].1 == Some(values@[j as int]@));
            let ghost next = substituted_from(t@, at + names@[j as int]@.len() + 2, vars@);
            assert(tail == values@[j as int]@ + next);
            assert(out@ + tail == (out@ + values@[j as int]@) + next);
            extend_chars(&mut out, &values[j]);
            at = at + names[j].len() + 2;
        } else {
            let ghost next = substituted_from(t@, at + 1, vars@);
            assert(tail == seq![t@[at as int]] + next);
            assert(out@ + tail == out@.push(t@[at as int]) + next);
            out.push(t[at]);
            at += 1;
        }
    }
    assert(out@ + Seq::<char>::empty() == out@);
    Ok(string_of(&out))
}

} // verus!
