//! The variables of one run: placeholder names and their values.

use vstd::prelude::*;

verus! {

/// What a placeholder's name stands for: plain text, or something that is
/// not text and cannot be put into a document.
#[derive(Debug, PartialEq, Eq)]
pub enum Value {
    Text(String),
    Opaque,
}

impl View for Value {
    type V = Option<Seq<char>>;

    open spec fn view(&self) -> Option<Seq<char>> {
        match self {
            Value::Text(s) => Some(s@),
            Value::Opaque => None,
        }
    }
}

impl Value {
    /// The value that holds `text`.
    pub fn text(text: &str) -> (v: Value)
        ensures
            v@ == Some(text@),
    {
        Value::Text(text.to_owned())
    }

    /// A value equal to this one.
    pub fn duplicate(&self) -> (v: Value)
        ensures
            v@ == self@,
    {
        match self {
            Value::Text(s) => Value::Text(s.clone()),
            Value::Opaque => Value::Opaque,
        }
    }
}

/// A name and its value, as sequences of characters.
pub type Binding = (Seq<char>, Option<Seq<char>>);

/// The index of the first binding of `name` in `vars`, or `vars.len()` if
/// there is none.
pub open spec fn position(vars: Seq<Binding>, name: Seq<char>) -> nat
    decreases vars.len(),
{
    if vars.len() == 0 || vars[0].0 == name {
        0
    } else {
        1 + position(vars.drop_first(), name)
    }
}

/// Whether `vars` binds `name`.
pub open spec fn binds(vars: Seq<Binding>, name: Seq<char>) -> bool {
    position(vars, name) < vars.len()
}

/// The value that `vars` gives to `name`.
pub open spec fn lookup(vars: Seq<Binding>, name: Seq<char>) -> Option<Option<Seq<char>>> {
    if binds(vars, name) {
        Some(vars[position(vars, name) as int].1)
    } else {
        None
    }
}

/// `vars` with `name` bound to `value`: in the place of its old binding, or
/// at the end where it had none.
pub open spec fn with_binding(vars: Seq<Binding>, name: Seq<char>, value: Option<Seq<char>>) -> Seq<
    Binding,
> {
    if binds(vars, name) {
        vars.update(position(vars, name) as int, (name, value))
    } else {
        vars.push((name, value))
    }
}

/// Whether no name is bound twice in `vars`.
pub open spec fn distinct_names(vars: Seq<Binding>) -> bool {
    forall|i: int, j: int| 0 <= i < j < vars.len() ==> (#[trigger] vars[i]).0 != (#[trigger] vars[j]).0
}

/// Whether every value in `vars` is text.
pub open spec fn all_text(vars: Seq<Binding>) -> bool {
    forall|i: int| 0 <= i < vars.len() ==> (#[trigger] vars[i]).1 is Some
}

/// `position` finds a binding of the name, and none stands before it.
pub proof fn lemma_position(vars: Seq<Binding>, name: Seq<char>)
    ensures
        position(vars, name) <= vars.len(),
        forall|i: int| 0 <= i < position(vars, name) ==> (#[trigger] vars[i]).0 != name,
        binds(vars, name) ==> vars[position(vars, name) as int].0 == name,
    decreases vars.len(),
{
    if vars.len() == 0 || vars[0].0 == name {
    } else {
        let t = vars.drop_first();
        lemma_position(t, name);
        assert forall|i: int| 0 <= i < position(vars, name) implies (#[trigger] vars[i]).0
            != name by {
            if i > 0 {
                assert(vars[i] == t[i - 1]);
            }
        }
        if binds(vars, name) {
            assert(vars[position(vars, name) as int] == t[position(t, name) as int]);
        }
    }
}

/// The first binding of `name` is at `k`, if none stands before `k` and `k`
/// binds it or is the end.
pub proof fn lemma_position_is(vars: Seq<Binding>, name: Seq<char>, k: int)
    requires
        0 <= k <= vars.len(),
        forall|i: int| 0 <= i < k ==> (#[trigger] vars[i]).0 != name,
        k < vars.len() ==> vars[k].0 == name,
    ensures
        position(vars, name) == k,
{
    lemma_position(vars, name);
    let f = position(vars, name) as int;
    if f < k {
        assert(vars[f].0 == name);
    } else if f > k {
        assert(vars[k].0 != name);
    }
}

/// Binding a name keeps the names distinct, gives the name its new value,
/// and leaves every other name what it had.
pub proof fn lemma_with_binding(vars: Seq<Binding>, name: Seq<char>, value: Option<Seq<char>>)
    requires
        distinct_names(vars),
    ensures
        distinct_names(with_binding(vars, name, value)),
        lookup(with_binding(vars, name, value), name) == Some(value),
        forall|other: Seq<char>|
            other != name ==> lookup(with_binding(vars, name, value), other) == lookup(
                vars,
                other,
            ),
{
    let out = with_binding(vars, name, value);
    let k = position(vars, name) as int;
    lemma_position(vars, name);
    assert(distinct_names(out)) by {
        assert forall|i: int, j: int| 0 <= i < j < out.len() implies (#[trigger] out[i]).0 != (
        #[trigger] out[j]).0 by {
            if binds(vars, name) {
                assert(out[i].0 == vars[i].0);
                assert(out[j].0 == vars[j].0);
            } else {
                if j < vars.len() {
                    assert(out[i] == vars[i] && out[j] == vars[j]);
                } else {
                    assert(out[i] == vars[i]);
                }
            }
        }
    }
    assert forall|i: int| 0 <= i < k implies (#[trigger] out[i]).0 != name by {
        assert(out[i] == vars[i]);
    }
    lemma_position_is(out, name, k);
    assert forall|other: Seq<char>| other != name implies lookup(out, other) == lookup(
        vars,
        other,
    ) by {
        lemma_position(vars, other);
        let p = position(vars, other) as int;
        assert forall|i: int| 0 <= i < p implies (#[trigger] out[i]).0 != other by {
            if i < vars.len() {
                assert(out[i].0 == vars[i].0);
            }
        }
        if p < vars.len() {
            assert(out[p] == vars[p]);
            lemma_position_is(out, other, p);
        } else {
            assert forall|i: int| 0 <= i < out.len() implies (#[trigger] out[i]).0 != other by {
                if i < vars.len() {
                    assert(out[i].0 == vars[i].0);
                }
            }
            lemma_position_is(out, other, out.len() as int);
        }
    }
}

/// One variable: a name and its value.
#[derive(Debug, PartialEq, Eq)]
pub struct Variable {
    pub name: String,
    pub value: Value,
}

impl View for Variable {
    type V = Binding;

    open spec fn view(&self) -> Binding {
        (self.name@, self.value@)
    }
}

/// A set of variables in a fixed order, none of them named twice.
#[derive(Debug)]
pub struct VariableSet {
    entries: Vec<Variable>,
}

impl View for VariableSet {
    type V = Seq<Binding>;

    closed spec fn view(&self) -> Seq<Binding> {
        Seq::new(self.entries@.len(), |i: int| self.entries@[i]@)
    }
}

impl VariableSet {
    #[verifier::type_invariant]
    spec fn unique(self) -> bool {
        distinct_names(self@)
    }

    /// The set without variables.
    pub fn new() -> (vars: VariableSet)
        ensures
            vars@ == Seq::<Binding>::empty(),
    {
        let vars = VariableSet { entries: Vec::new() };
        assert(vars@ =~= Seq::<Binding>::empty());
        vars
    }

    /// The number of variables. No two of them have one name.
    pub fn len(&self) -> (n: usize)
        ensures
            n == self@.len(),
            distinct_names(self@),
    {
        proof {
            use_type_invariant(self);
        }
        self.entries.len()
    }

    /// The variable at `i`.
    pub fn entry(&self, i: usize) -> (v: &Variable)
        requires
            i < self@.len(),
        ensures
            v@ == self@[i as int],
    {
        &self.entries[i]
    }

    /// The index of the variable named `name`, if there is one.
    pub fn find(&self, name: &str) -> (at: Option<usize>)
        ensures
            match at {
                Some(i) => binds(self@, name@) && i == position(self@, name@),
                None => !binds(self@, name@),
            },
    {
        let key: String = name.to_owned();
        let mut i: usize = 0;
        while i < self.entries.len()
            invariant
                i <= self.entries.len(),
                key@ == name@,
                forall|j: int| 0 <= j < i ==> (#[trigger] self@[j]).0 != name@,
            decreases self.entries.len() - i,
        {
            assert(self@[i as int] == self.entries@[i as int]@);
            if self.entries[i].name == key {
                proof {
                    lemma_position_is(self@, name@, i as int);
                }
                return Some(i);
            }
            i += 1;
        }
        proof {
            lemma_position_is(self@, name@, self@.len() as int);
        }
        None
    }

    /// The value of the variable named `name`, if there is one.
    pub fn get(&self, name: &str) -> (value: Option<&Value>)
        ensures
            match value {
                Some(v) => lookup(self@, name@) == Some(v@),
                None => lookup(self@, name@) is None,
            },
    {
        match self.find(name) {
            Some(i) => {
                assert(self@[i as int] == self.entries@[i as int]@);
                Some(&self.entries[i].value)
            },
            None => None,
        }
    }

    /// Binds `name` to `value`: in the place of its old binding, or at the
    /// end where it had none.
    pub fn set(&mut self, name: &str, value: Value)
        ensures
            final(self)@ == with_binding(old(self)@, name@, value@),
    {
        proof {
            use_type_invariant(&*self);
            lemma_with_binding(self@, name@, value@);
        }
        let ghost before = self@;
        let fresh = Variable { name: name.to_owned(), value };
        let found = self.find(name);
        assert(self@.len() == self.entries@.len());
        assert(forall|i: int| 0 <= i < self@.len() ==> self@[i] == self.entries@[i]@);
        let mut entries: Vec<Variable> = Vec::new();
        core::mem::swap(&mut self.entries, &mut entries);
        match found {
            Some(i) => {
                entries.set(i, fresh);
            },
            None => {
                entries.push(fresh);
            },
        }
        assert(Seq::new(entries@.len(), |i: int| entries@[i]@) =~= with_binding(
            before,
            name@,
            value@,
        ));
        self.entries = entries;
    }
}

} // verus!
