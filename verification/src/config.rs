//! The configuration: a JSON object of names and values, read and written
//! by the `serde_json` crate.

use vstd::prelude::*;
use crate::failure::Failure;
use crate::resolver::{bind_all, bind_variables, bindings, lemma_bind_all, names};
use crate::variables::{
    distinct_names, lemma_position_is, lookup, Binding, Value, Variable, VariableSet,
};

verus! {

/// The error of `serde_json`. Nothing is known of a value of it.
#[verifier::external_type_specification]
#[verifier::external_body]
pub struct ExJsonError(serde_json::Error);

/// A member of a JSON object: its name, and its value where that is a
/// string.
pub type Member = (String, Option<String>);

/// The variables that the members `members` stand for: a member whose value
/// is no string stands for a value that is not text.
pub open spec fn member_bindings(members: Seq<Member>) -> Seq<Binding> {
    Seq::new(
        members.len(),
        |i: int|
            (
                members[i].0@,
                match members[i].1 {
                    Some(s) => Some(s@),
                    None => None,
                },
            ),
    )
}

/// The names and values that `entries` holds, as sequences of characters.
pub open spec fn pairs(entries: Seq<(String, String)>) -> Seq<(Seq<char>, Seq<char>)> {
    Seq::new(entries.len(), |i: int| (entries[i].0@, entries[i].1@))
}

/// What `serde_json` writes for the object that has the members `entries`
/// in this order, each value a string, where each level is indented by
/// `indent`.
pub uninterp spec fn pretty_object(entries: Seq<(Seq<char>, Seq<char>)>, indent: Seq<char>) -> Seq<
    char,
>;

/// What `serde_json` reads from `text`: the members of the JSON object that
/// `text` is, by their names, each with its value where that is a string
/// and with nothing where it is of another kind; or nothing at all where
/// `text` is no JSON object.
pub uninterp spec fn json_object(text: Seq<char>) -> Option<Map<Seq<char>, Option<Seq<char>>>>;

/// Whether `members` are the members of `object`, each of them once.
pub open spec fn members_of(
    members: Seq<Binding>,
    object: Map<Seq<char>, Option<Seq<char>>>,
) -> bool {
    &&& distinct_names(members)
    &&& forall|i: int|
        0 <= i < members.len() ==> object.dom().contains((#[trigger] members[i]).0)
            && object[members[i].0] == members[i].1
    &&& forall|name: Seq<char>| object.dom().contains(name) ==> names(members, name)
}

/// Reads a JSON object.
///
/// Calls `serde_json::from_str` for a `HashMap` from `String` to
/// `serde_json::Value` and hands out the map's entries, each value as
/// `Value::as_str` gives it: the string, or nothing for a value of another
/// kind. The contract gives what was read a name, by which it depends on
/// `text` alone, and claims that the entries are the members of it, each
/// name once, as the keys of a map are. The order of the entries is the
/// order in which the map is walked: nothing is claimed of it.
#[verifier::external_body]
fn read_object(text: &str) -> (out: Result<Vec<Member>, serde_json::Error>)
    ensures
        match out {
            Ok(members) => json_object(text@) is Some && members_of(
                member_bindings(members@),
                json_object(text@)->Some_0,
            ),
            Err(_) => json_object(text@) is None,
        },
{
    let parsed: std::collections::HashMap<String, serde_json::Value> = serde_json::from_str(text)?;
    Ok(parsed.into_iter().map(|(name, value)| (name, value.as_str().map(str::to_owned))).collect())
}

/// Writes a JSON object.
///
/// Writes the members `entries` as one map (`serde::Serializer::collect_map`)
/// through a `serde_json::Serializer` with a `PrettyFormatter` that indents
/// by `indent`. The contract gives the text a name and claims no more than
/// that the text depends on these two arguments alone.
#[verifier::external_body]
fn write_object(entries: &Vec<(String, String)>, indent: &str) -> (out: String)
    ensures
        out@ == pretty_object(pairs(entries@), indent@),
{
    let formatter = serde_json::ser::PrettyFormatter::with_indent(indent.as_bytes());
    let mut buffer: Vec<u8> = Vec::new();
    let mut serializer = serde_json::Serializer::with_formatter(&mut buffer, formatter);
    let members = entries.iter().map(|entry| (&entry.0, &entry.1));
    serde::Serializer::collect_map(&mut serializer, members).unwrap();
    String::from_utf8(buffer).unwrap()
}

/// The variables for what was read of a configuration: the members bound in
/// turn, a later member of a name taking the place of an earlier one; a
/// failure to read is a `ConfigParseError`.
pub fn variables_of(parsed: Result<Vec<Member>, serde_json::Error>) -> (out: Result<
    VariableSet,
    Failure,
>)
    ensures
        match out {
            Ok(vars) => parsed is Ok && vars@ == bind_all(
                Seq::<Binding>::empty(),
                member_bindings(parsed->Ok_0@),
            ),
            Err(e) => parsed is Err && e == Failure::ConfigParseError,
        },
{
    match parsed {
        Err(_) => Err(Failure::ConfigParseError),
        Ok(members) => {
            let mut entries: Vec<Variable> = Vec::new();
            let mut i: usize = 0;
            while i < members.len()
                invariant
                    i <= members.len(),
                    bindings(entries@) == member_bindings(members@).take(i as int),
                decreases members.len() - i,
            {
                let value = match &members[i].1 {
                    Some(s) => Value::Text(s.clone()),
                    None => Value::Opaque,
                };
                let entry = Variable { name: members[i].0.clone(), value };
                assert(entry@ == member_bindings(members@)[i as int]);
                assert(bindings(entries@.push(entry)) =~= bindings(entries@).push(entry@));
                assert(member_bindings(members@).take(i + 1) =~= member_bindings(members@).take(
                    i as int,
                ).push(entry@));
                entries.push(entry);
                i += 1;
            }
            assert(member_bindings(members@).take(members.len() as int) =~= member_bindings(
                members@,
            ));
            Ok(bind_variables(VariableSet::new(), &entries))
        },
    }
}

/// What the variables of a configuration are: every member of the object
/// by its name, and no other name.
pub open spec fn holds_object(vars: Seq<Binding>, object: Map<Seq<char>, Option<Seq<char>>>) -> bool {
    &&& vars.len() == object.dom().len()
    &&& forall|name: Seq<char>|
        lookup(vars, name) == if object.dom().contains(name) {
            Some(object[name])
        } else {
            None
        }
}

/// Variables bound from the members of an object hold the object.
pub proof fn lemma_members_hold_object(
    members: Seq<Binding>,
    object: Map<Seq<char>, Option<Seq<char>>>,
)
    requires
        members_of(members, object),
    ensures
        bind_all(Seq::<Binding>::empty(), members) == members,
        holds_object(members, object),
{
    lemma_members_bound(members);
    lemma_bind_all(Seq::<Binding>::empty(), members);
    assert forall|name: Seq<char>|
        lookup(members, name) == if object.dom().contains(name) {
            Some(object[name])
        } else {
            None
        } by {
        let bound = bind_all(Seq::<Binding>::empty(), members);
        if object.dom().contains(name) {
            assert(names(members, name));
            let i = choose|i: int| 0 <= i < members.len() && (#[trigger] members[i]).0 == name;
            assert(lookup(bound, members[i].0) == Some(members[i].1));
            assert(object[members[i].0] == members[i].1);
        } else {
            assert(!names(members, name)) by {
                if names(members, name) {
                    let i = choose|i: int|
                        0 <= i < members.len() && (#[trigger] members[i]).0 == name;
                    assert(object.dom().contains(members[i].0));
                }
            }
            assert(lookup(bound, name) == lookup(Seq::<Binding>::empty(), name));
        }
    }
    lemma_members_count(members, object);
}

/// Bindings of which no name occurs twice, bound in turn over nothing, are
/// the bindings themselves.
pub proof fn lemma_members_bound(members: Seq<Binding>)
    requires
        distinct_names(members),
    ensures
        bind_all(Seq::<Binding>::empty(), members) == members,
    decreases members.len(),
{
    if members.len() > 0 {
        let init = members.drop_last();
        let last = members.last();
        assert forall|i: int, j: int| 0 <= i < j < init.len() implies (#[trigger] init[i]).0 != (
        #[trigger] init[j]).0 by {
            assert(init[i] == members[i] && init[j] == members[j]);
        }
        lemma_members_bound(init);
        assert forall|i: int| 0 <= i < init.len() implies (#[trigger] init[i]).0 != last.0 by {
            assert(init[i] == members[i]);
            assert(last == members[members.len() - 1]);
        }
        lemma_position_is(init, last.0, init.len() as int);
        assert(init.push(last) =~= members);
    } else {
        assert(bind_all(Seq::<Binding>::empty(), members) =~= members);
    }
}

/// An object has as many members as a list of them that names each once.
pub proof fn lemma_members_count(members: Seq<Binding>, object: Map<Seq<char>, Option<Seq<char>>>)
    requires
        members_of(members, object),
    ensures
        object.dom().finite(),
        object.dom().len() == members.len(),
    decreases members.len(),
{
    if members.len() == 0 {
        assert(object.dom() =~= Set::<Seq<char>>::empty()) by {
            assert forall|name: Seq<char>| !object.dom().contains(name) by {
                if object.dom().contains(name) {
                    assert(names(members, name));
                }
            }
        }
    } else {
        let init = members.drop_last();
        let last = members.last();
        let rest = object.remove(last.0);
        assert(members_of(init, rest)) by {
            assert forall|i: int, j: int| 0 <= i < j < init.len() implies (#[trigger] init[i]).0
                != (#[trigger] init[j]).0 by {
                assert(init[i] == members[i] && init[j] == members[j]);
            }
            assert forall|i: int| 0 <= i < init.len() implies rest.dom().contains(
                (#[trigger] init[i]).0,
            ) && rest[init[i].0] == init[i].1 by {
                assert(init[i] == members[i]);
                assert(last == members[members.len() - 1]);
            }
            assert forall|name: Seq<char>| rest.dom().contains(name) implies names(
                init,
                name,
            ) by {
                assert(names(members, name));
                let i = choose|i: int| 0 <= i < members.len() && (#[trigger] members[i]).0 == name;
                assert(init[i] == members[i]);
            }
        }
        lemma_members_count(init, rest);
        assert(members[members.len() - 1] == last);
        assert(object.dom() =~= rest.dom().insert(last.0));
    }
}

/// The variables of the configuration `text`.
///
/// It is for `serde_json` to say whether `text` is a JSON object and what
/// its members are. Where it is one, the variables are its members: one
/// for each name, with the member's value where that is a string and a
/// value that is not text where not. Where it is none, the error is a
/// `ConfigParseError`.
pub fn parse_variables(text: &str) -> (out: Result<VariableSet, Failure>)
    ensures
        match out {
            Ok(vars) => json_object(text@) is Some && holds_object(
                vars@,
                json_object(text@)->Some_0,
            ),
            Err(e) => json_object(text@) is None && e == Failure::ConfigParseError,
        },
{
    let parsed = read_object(text);
    proof {
        if parsed is Ok {
            lemma_members_hold_object(member_bindings(parsed->Ok_0@), json_object(text@)->Some_0);
        }
    }
    variables_of(parsed)
}

/// The members of the default configuration.
pub open spec fn default_members() -> Seq<(Seq<char>, Seq<char>)> {
    seq![("name"@, "John Doe"@)]
}

/// The default configuration: an object that gives `name` a value, indented
/// by four spaces.
pub fn default_document() -> (out: String)
    ensures
        out@ == pretty_object(default_members(), "    "@),
{
    let mut entries: Vec<(String, String)> = Vec::new();
    entries.push(("name".to_owned(), "John Doe".to_owned()));
    assert(pairs(entries@) =~= default_members());
    write_object(&entries, "    ")
}

/// What initialisation writes: the default configuration, or nothing and
/// an error where a configuration exists already.
pub fn initialize(exists: bool) -> (out: Result<String, Failure>)
    ensures
        match out {
            Ok(document) => !exists && document@ == pretty_object(default_members(), "    "@),
            Err(e) => exists && e == Failure::AlreadyInitialized,
        },
{
    if exists {
        Err(Failure::AlreadyInitialized)
    } else {
        Ok(default_document())
    }
}

} // verus!
