//! The variables of a run: the configured ones, and over them the
//! description of the run and what the calendar gives for its moment.

use vstd::prelude::*;
use crate::decimal::{decimal, decimal_text};
use crate::moment::{formatted, rfc3339, Field, Moment};
use crate::variables::{
    distinct_names, lemma_with_binding, lookup, with_binding, Binding, Value, Variable,
    VariableSet,
};

verus! {

/// The computed bindings of a run, in the order in which they are bound:
/// the description, ten fields of the calendar, the seconds and the
/// milliseconds from the epoch in decimal notation, and the timestamp of
/// RFC 3339.
pub open spec fn computed(description: Seq<char>, seconds: int, nanos: int, offset: int) -> Seq<
    Binding,
> {
    seq![
        ("description"@, Some(description)),
        ("year"@, Some(formatted(seconds, nanos, offset, Field::Year.pattern_text()))),
        ("month"@, Some(formatted(seconds, nanos, offset, Field::Month.pattern_text()))),
        ("day"@, Some(formatted(seconds, nanos, offset, Field::Day.pattern_text()))),
        ("hour"@, Some(formatted(seconds, nanos, offset, Field::Hour.pattern_text()))),
        ("minute"@, Some(formatted(seconds, nanos, offset, Field::Minute.pattern_text()))),
        ("second"@, Some(formatted(seconds, nanos, offset, Field::Second.pattern_text()))),
        ("microsecond"@, Some(formatted(seconds, nanos, offset, Field::Fraction.pattern_text()))),
        ("weekday"@, Some(formatted(seconds, nanos, offset, Field::Weekday.pattern_text()))),
        ("weekdayName"@, Some(formatted(seconds, nanos, offset, Field::WeekdayName.pattern_text()))),
        ("monthName"@, Some(formatted(seconds, nanos, offset, Field::MonthName.pattern_text()))),
        ("timestamp"@, Some(decimal_text(seconds))),
        ("timestampMs"@, Some(decimal_text(seconds * 1000 + nanos / 1_000_000))),
        ("timestampISO"@, Some(rfc3339(seconds, nanos, offset))),
    ]
}

/// `vars` with each of `extra` bound in turn.
pub open spec fn bind_all(vars: Seq<Binding>, extra: Seq<Binding>) -> Seq<Binding>
    decreases extra.len(),
{
    if extra.len() == 0 {
        vars
    } else {
        with_binding(bind_all(vars, extra.drop_last()), extra.last().0, extra.last().1)
    }
}

/// The variables of a run: the configured ones with the computed ones bound
/// over them.
pub open spec fn resolved(
    config: Seq<Binding>,
    description: Seq<char>,
    seconds: int,
    nanos: int,
    offset: int,
) -> Seq<Binding> {
    bind_all(config, computed(description, seconds, nanos, offset))
}

/// The bindings that the variables of `v` stand for.
pub open spec fn bindings(v: Seq<Variable>) -> Seq<Binding> {
    Seq::new(v.len(), |i: int| v[i]@)
}

/// Whether `extra` binds `name`.
pub open spec fn names(extra: Seq<Binding>, name: Seq<char>) -> bool {
    exists|i: int| 0 <= i < extra.len() && (#[trigger] extra[i]).0 == name
}

/// After binding `extra`, whose names differ from each other, over `vars`:
/// no name is bound twice, each name of `extra` has the value that `extra`
/// gives it, and every other name has what it had in `vars`.
pub proof fn lemma_bind_all(vars: Seq<Binding>, extra: Seq<Binding>)
    requires
        distinct_names(vars),
        distinct_names(extra),
    ensures
        distinct_names(bind_all(vars, extra)),
        forall|i: int|
            0 <= i < extra.len() ==> lookup(bind_all(vars, extra), (#[trigger] extra[i]).0) == Some(
                extra[i].1,
            ),
        forall|name: Seq<char>|
            !names(extra, name) ==> lookup(bind_all(vars, extra), name) == lookup(vars, name),
    decreases extra.len(),
{
    if extra.len() > 0 {
        let init = extra.drop_last();
        let last = extra.last();
        assert forall|i: int, j: int| 0 <= i < j < init.len() implies (#[trigger] init[i]).0 != (
        #[trigger] init[j]).0 by {
            assert(init[i] == extra[i] && init[j] == extra[j]);
        }
        lemma_bind_all(vars, init);
        let mid = bind_all(vars, init);
        lemma_with_binding(mid, last.0, last.1);
        let out = bind_all(vars, extra);
        assert forall|i: int| 0 <= i < extra.len() implies lookup(out, (#[trigger] extra[i]).0)
            == Some(extra[i].1) by {
            if i < init.len() {
                assert(init[i] == extra[i]);
                assert(extra[i].0 != extra[extra.len() - 1].0);
            }
        }
        assert forall|name: Seq<char>| !names(extra, name) implies lookup(out, name) == lookup(
            vars,
            name,
        ) by {
            assert(extra[extra.len() - 1].0 != name);
            assert(!names(init, name)) by {
                if names(init, name) {
                    let i = choose|i: int| 0 <= i < init.len() && (#[trigger] init[i]).0 == name;
                    assert(extra[i].0 == name);
                }
            }
        }
    }
}

/// The names of the computed bindings differ from each other.
pub proof fn lemma_computed_names_differ(
    description: Seq<char>,
    seconds: int,
    nanos: int,
    offset: int,
)
    ensures
        distinct_names(computed(description, seconds, nanos, offset)),
        computed(description, seconds, nanos, offset).len() == 14,
{
    reveal_strlit("description");
    reveal_strlit("year");
    reveal_strlit("month");
    reveal_strlit("day");
    reveal_strlit("hour");
    reveal_strlit("minute");
    reveal_strlit("second");
    reveal_strlit("microsecond");
    reveal_strlit("weekday");
    reveal_strlit("weekdayName");
    reveal_strlit("monthName");
    reveal_strlit("timestamp");
    reveal_strlit("timestampMs");
    reveal_strlit("timestampISO");
    let c = computed(description, seconds, nanos, offset);
    // Each name is told from the others by its length and its first character.
    assert(c[0].0.len() == 11 && c[0].0[0] == 'd');
    assert(c[1].0.len() == 4 && c[1].0[0] == 'y');
    assert(c[2].0.len() == 5 && c[2].0[0] == 'm');
    assert(c[3].0.len() == 3 && c[3].0[0] == 'd');
    assert(c[4].0.len() == 4 && c[4].0[0] == 'h');
    assert(c[5].0.len() == 6 && c[5].0[0] == 'm');
    assert(c[6].0.len() == 6 && c[6].0[0] == 's');
    assert(c[7].0.len() == 11 && c[7].0[0] == 'm');
    assert(c[8].0.len() == 7 && c[8].0[0] == 'w');
    assert(c[9].0.len() == 11 && c[9].0[0] == 'w');
    assert(c[10].0.len() == 9 && c[10].0[0] == 'm');
    assert(c[11].0.len() == 9 && c[11].0[0] == 't');
    assert(c[12].0.len() == 11 && c[12].0[0] == 't');
    assert(c[13].0.len() == 12 && c[13].0[0] == 't');
    assert forall|i: int, j: int| 0 <= i < j < c.len() implies (#[trigger] c[i]).0 != (
    #[trigger] c[j]).0 by {
        if c[i].0 == c[j].0 {
            assert(c[i].0.len() == c[j].0.len());
            assert(c[i].0[0] == c[j].0[0]);
        }
    }
}

/// The variables of a run hold every computed name with its computed
/// value, whatever the configuration held under that name; the description
/// is the one that was given, character for character; and every other
/// name has what the configuration gave it.
pub proof fn lemma_resolved(
    config: Seq<Binding>,
    description: Seq<char>,
    seconds: int,
    nanos: int,
    offset: int,
)
    requires
        distinct_names(config),
    ensures
        distinct_names(resolved(config, description, seconds, nanos, offset)),
        forall|i: int|
            0 <= i < 14 ==> lookup(
                resolved(config, description, seconds, nanos, offset),
                (#[trigger] computed(description, seconds, nanos, offset)[i]).0,
            ) == Some(computed(description, seconds, nanos, offset)[i].1),
        lookup(resolved(config, description, seconds, nanos, offset), "description"@) == Some(
            Some(description),
        ),
        forall|name: Seq<char>|
            !names(computed(description, seconds, nanos, offset), name) ==> lookup(
                resolved(config, description, seconds, nanos, offset),
                name,
            ) == lookup(config, name),
{
    let extra = computed(description, seconds, nanos, offset);
    lemma_computed_names_differ(description, seconds, nanos, offset);
    lemma_bind_all(config, extra);
    assert(extra[0].0 == "description"@);
}

/// The computed variables of a run.
pub fn computed_variables(description: &str, now: &Moment) -> (out: Vec<Variable>)
    ensures
        bindings(out@) == computed(description@, now@.0, now@.1, now@.2),
{
    let mut out: Vec<Variable> = Vec::new();
    out.push(Variable { name: "description".to_owned(), value: Value::text(description) });
    out.push(Variable { name: "year".to_owned(), value: Value::Text(now.field(Field::Year)) });
    out.push(Variable { name: "month".to_owned(), value: Value::Text(now.field(Field::Month)) });
    out.push(Variable { name: "day".to_owned(), value: Value::Text(now.field(Field::Day)) });
    out.push(Variable { name: "hour".to_owned(), value: Value::Text(now.field(Field::Hour)) });
    out.push(Variable { name: "minute".to_owned(), value: Value::Text(now.field(Field::Minute)) });
    out.push(Variable { name: "second".to_owned(), value: Value::Text(now.field(Field::Second)) });
    out.push(
        Variable { name: "microsecond".to_owned(), value: Value::Text(now.field(Field::Fraction)) },
    );
    out.push(
        Variable { name: "weekday".to_owned(), value: Value::Text(now.field(Field::Weekday)) },
    );
    out.push(
        Variable {
            name: "weekdayName".to_owned(),
            value: Value::Text(now.field(Field::WeekdayName)),
        },
    );
    out.push(
        Variable { name: "monthName".to_owned(), value: Value::Text(now.field(Field::MonthName)) },
    );
    out.push(
        Variable { name: "timestamp".to_owned(), value: Value::Text(decimal(now.timestamp())) },
    );
    out.push(
        Variable {
            name: "timestampMs".to_owned(),
            value: Value::Text(decimal(now.timestamp_millis())),
        },
    );
    out.push(Variable { name: "timestampISO".to_owned(), value: Value::Text(now.to_rfc3339()) });
    assert(bindings(out@) =~= computed(description@, now@.0, now@.1, now@.2));
    out
}

/// Binds each of `extra` in turn over `config`.
pub fn bind_variables(config: VariableSet, extra: &Vec<Variable>) -> (vars: VariableSet)
    ensures
        vars@ == bind_all(config@, bindings(extra@)),
{
    let mut vars = config;
    let mut i: usize = 0;
    assert(bindings(extra@).take(0) =~= Seq::<Binding>::empty());
    while i < extra.len()
        invariant
            i <= extra.len(),
            vars@ == bind_all(config@, bindings(extra@).take(i as int)),
        decreases extra.len() - i,
    {
        proof {
            let done = bindings(extra@).take(i + 1);
            assert(done.drop_last() =~= bindings(extra@).take(i as int));
            assert(done.last() == extra@[i as int]@);
        }
        let entry = &extra[i];
        vars.set(entry.name.as_str(), entry.value.duplicate());
        i += 1;
    }
    assert(bindings(extra@).take(extra.len() as int) =~= bindings(extra@));
    vars
}

/// The variables of a run: those of `config`, and over them the computed
/// ones, which take the place of configured ones of the same name.
pub fn resolve(config: VariableSet, description: &str, now: &Moment) -> (vars: VariableSet)
    ensures
        vars@ == resolved(config@, description@, now@.0, now@.1, now@.2),
        forall|i: int|
            0 <= i < 14 ==> lookup(
                vars@,
                (#[trigger] computed(description@, now@.0, now@.1, now@.2)[i]).0,
            ) == Some(computed(description@, now@.0, now@.1, now@.2)[i].1),
        lookup(vars@, "description"@) == Some(Some(description@)),
        forall|name: Seq<char>|
            !names(computed(description@, now@.0, now@.1, now@.2), name) ==> lookup(vars@, name)
                == lookup(config@, name),
{
    let ghost before = config@;
    // The length comes with the fact that no name is bound twice.
    let _count: usize = config.len();
    let extra = computed_variables(description, now);
    proof {
        lemma_resolved(before, description@, now@.0, now@.1, now@.2);
    }
    bind_variables(config, &extra)
}

} // verus!
