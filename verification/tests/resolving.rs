use bhg::decimal::{decimal, digit_char};
use bhg::moment::{Field, Moment};
use bhg::pipeline::generate;
use bhg::resolver::{bind_variables, computed_variables, resolve};
use bhg::variables::{Value, Variable, VariableSet};

const NAMES: [&str; 14] = [
    "description",
    "year",
    "month",
    "day",
    "hour",
    "minute",
    "second",
    "microsecond",
    "weekday",
    "weekdayName",
    "monthName",
    "timestamp",
    "timestampMs",
    "timestampISO",
];

// Friday, 15 May 2015, 00:00:00.026490 UTC.
fn friday() -> Moment {
    Moment::new(1_431_648_000, 26_490_000, 0).unwrap()
}

fn text_of(vars: &VariableSet, name: &str) -> String {
    match vars.get(name) {
        Some(Value::Text(s)) => s.clone(),
        other => panic!("{} is {:?}", name, other),
    }
}

#[test]
fn resolved_set_holds_every_computed_name() {
    let vars = resolve(VariableSet::new(), "a description", &friday());
    assert_eq!(vars.len(), 14);
    for (i, name) in NAMES.iter().enumerate() {
        assert_eq!(vars.find(name), Some(i), "{}", name);
    }
}

#[test]
fn description_is_kept_character_for_character() {
    let description = "  two  spaces, punctuation: {year}!\t-> ünïcödé ";
    let vars = resolve(VariableSet::new(), description, &friday());
    assert_eq!(text_of(&vars, "description"), description);
    let empty = resolve(VariableSet::new(), "", &friday());
    assert_eq!(text_of(&empty, "description"), "");
}

#[test]
fn computed_values_of_a_known_moment() {
    let vars = resolve(VariableSet::new(), "d", &friday());
    assert_eq!(text_of(&vars, "year"), "2015");
    assert_eq!(text_of(&vars, "month"), "05");
    assert_eq!(text_of(&vars, "day"), "15");
    assert_eq!(text_of(&vars, "hour"), "00");
    assert_eq!(text_of(&vars, "minute"), "00");
    assert_eq!(text_of(&vars, "second"), "00");
    assert_eq!(text_of(&vars, "microsecond"), "026490000");
    assert_eq!(text_of(&vars, "weekday"), "5");
    assert_eq!(text_of(&vars, "weekdayName"), "Friday");
    assert_eq!(text_of(&vars, "monthName"), "May");
    assert_eq!(text_of(&vars, "timestamp"), "1431648000");
    assert_eq!(text_of(&vars, "timestampMs"), "1431648000026");
    assert_eq!(text_of(&vars, "timestampISO"), "2015-05-15T00:00:00.026490+00:00");
}

#[test]
fn computed_values_follow_the_offset() {
    // 23:30:05 UTC on 31 December 2023 is 01:15:05 on Monday, 1 January
    // 2024, an hour and three quarters east.
    let now = Moment::new(1_704_065_405, 0, 6300).unwrap();
    let vars = resolve(VariableSet::new(), "", &now);
    assert_eq!(text_of(&vars, "year"), "2024");
    assert_eq!(text_of(&vars, "month"), "01");
    assert_eq!(text_of(&vars, "day"), "01");
    assert_eq!(text_of(&vars, "hour"), "01");
    assert_eq!(text_of(&vars, "minute"), "15");
    assert_eq!(text_of(&vars, "second"), "05");
    assert_eq!(text_of(&vars, "microsecond"), "000000000");
    assert_eq!(text_of(&vars, "weekday"), "1");
    assert_eq!(text_of(&vars, "weekdayName"), "Monday");
    assert_eq!(text_of(&vars, "monthName"), "January");
    assert_eq!(text_of(&vars, "timestamp"), "1704065405");
    assert_eq!(text_of(&vars, "timestampMs"), "1704065405000");
    assert_eq!(text_of(&vars, "timestampISO"), "2024-01-01T01:15:05+01:45");
}

#[test]
fn computed_values_before_the_epoch() {
    let now = Moment::new(-1, 500_000_000, -3600).unwrap();
    let vars = resolve(VariableSet::new(), "", &now);
    assert_eq!(text_of(&vars, "year"), "1969");
    assert_eq!(text_of(&vars, "hour"), "22");
    assert_eq!(text_of(&vars, "second"), "59");
    assert_eq!(text_of(&vars, "weekdayName"), "Wednesday");
    assert_eq!(text_of(&vars, "timestamp"), "-1");
    assert_eq!(text_of(&vars, "timestampMs"), "-500");
    assert_eq!(text_of(&vars, "timestampISO"), "1969-12-31T22:59:59.500-01:00");
}

#[test]
fn computed_values_shadow_configured_ones() {
    let mut config = VariableSet::new();
    config.set("year", Value::text("configured"));
    config.set("name", Value::text("Ada"));
    config.set("description", Value::Opaque);
    let vars = resolve(config, "given", &friday());
    assert_eq!(text_of(&vars, "year"), "2015");
    assert_eq!(text_of(&vars, "description"), "given");
    assert_eq!(text_of(&vars, "name"), "Ada");
    assert_eq!(vars.len(), 15);
    // A shadowed name keeps its place, a new one goes to the end.
    assert_eq!(vars.find("year"), Some(0));
    assert_eq!(vars.find("name"), Some(1));
    assert_eq!(vars.find("description"), Some(2));
    assert_eq!(vars.find("month"), Some(3));
}

#[test]
fn configured_values_are_kept_as_they_are() {
    let mut config = VariableSet::new();
    config.set("n", Value::Opaque);
    config.set("Year", Value::text("not the year"));
    let vars = resolve(config, "", &friday());
    assert_eq!(vars.get("n"), Some(&Value::Opaque));
    assert_eq!(text_of(&vars, "Year"), "not the year");
}

#[test]
fn computed_variables_come_in_their_order() {
    let computed = computed_variables("words of a run", &friday());
    assert_eq!(computed.len(), 14);
    for (i, name) in NAMES.iter().enumerate() {
        assert_eq!(computed[i].name, *name);
    }
    assert_eq!(computed[0].value, Value::Text("words of a run".to_string()));
}

#[test]
fn variables_are_bound_in_turn() {
    let extra = vec![
        Variable { name: "a".to_string(), value: Value::text("1") },
        Variable { name: "b".to_string(), value: Value::text("2") },
        Variable { name: "a".to_string(), value: Value::text("3") },
    ];
    let vars = bind_variables(VariableSet::new(), &extra);
    assert_eq!(vars.len(), 2);
    assert_eq!(vars.get("a"), Some(&Value::Text("3".to_string())));
    assert_eq!(vars.find("b"), Some(1));
}

#[test]
fn field_of_a_moment() {
    let now = friday();
    assert_eq!(now.field(Field::Year), "2015");
    assert_eq!(now.field(Field::Month), "05");
    assert_eq!(now.field(Field::Day), "15");
    assert_eq!(now.field(Field::Hour), "00");
    assert_eq!(now.field(Field::Minute), "00");
    assert_eq!(now.field(Field::Second), "00");
    assert_eq!(now.field(Field::Fraction), "026490000");
    assert_eq!(now.field(Field::Weekday), "5");
    assert_eq!(now.field(Field::WeekdayName), "Friday");
    assert_eq!(now.field(Field::MonthName), "May");
}

#[test]
fn patterns_of_the_fields() {
    assert_eq!(Field::Year.pattern(), "%Y");
    assert_eq!(Field::Month.pattern(), "%m");
    assert_eq!(Field::Day.pattern(), "%d");
    assert_eq!(Field::Hour.pattern(), "%H");
    assert_eq!(Field::Minute.pattern(), "%M");
    assert_eq!(Field::Second.pattern(), "%S");
    assert_eq!(Field::Fraction.pattern(), "%f");
    assert_eq!(Field::Weekday.pattern(), "%u");
    assert_eq!(Field::WeekdayName.pattern(), "%A");
    assert_eq!(Field::MonthName.pattern(), "%B");
}

#[test]
fn moment_gives_its_numbers_back() {
    let now = Moment::new(-5, 7, -9).unwrap();
    assert_eq!(now.timestamp(), -5);
    assert_eq!(now.nanos(), 7);
    assert_eq!(now.offset(), -9);
}

#[test]
fn milliseconds_of_a_moment() {
    assert_eq!(friday().timestamp_millis(), 1_431_648_000_026);
    assert_eq!(Moment::new(1, 999_999_999, 0).unwrap().timestamp_millis(), 1_999);
    assert_eq!(Moment::new(-1, 0, 0).unwrap().timestamp_millis(), -1_000);
    assert_eq!(Moment::new(59, 1_500_000_000, 0).unwrap().timestamp_millis(), 60_500);
}

#[test]
fn rfc3339_of_a_moment() {
    assert_eq!(Moment::new(0, 0, 0).unwrap().to_rfc3339(), "1970-01-01T00:00:00+00:00");
    assert_eq!(
        Moment::new(0, 123_456_789, 19_800).unwrap().to_rfc3339(),
        "1970-01-01T05:30:00.123456789+05:30"
    );
}

#[test]
fn leap_second_is_the_sixtieth() {
    let leap = Moment::new(1_483_228_799, 1_250_000_000, 0).unwrap();
    assert_eq!(leap.field(Field::Second), "60");
    assert_eq!(leap.field(Field::Minute), "59");
    assert_eq!(leap.to_rfc3339(), "2016-12-31T23:59:60.250+00:00");
}

#[test]
fn moment_out_of_range_is_refused() {
    assert_eq!(Moment::new(8_000_000_000_001, 0, 0), None);
    assert_eq!(Moment::new(-8_000_000_000_001, 0, 0), None);
    assert_eq!(Moment::new(i64::MAX, 0, 0), None);
    assert_eq!(Moment::new(i64::MIN, 0, 0), None);
    assert_eq!(Moment::new(0, 2_000_000_000, 0), None);
    assert_eq!(Moment::new(0, u32::MAX, 0), None);
    assert_eq!(Moment::new(0, 0, 86_400), None);
    assert_eq!(Moment::new(0, 0, -86_400), None);
    assert_eq!(Moment::new(0, 0, i32::MIN), None);
}

#[test]
fn leap_second_is_refused_inside_a_minute() {
    assert_eq!(Moment::new(58, 1_000_000_000, 0), None);
    assert_eq!(Moment::new(0, 1_000_000_000, 0), None);
    assert_eq!(Moment::new(-2, 1_000_000_000, 0), None);
    assert!(Moment::new(59, 1_999_999_999, 0).is_some());
    assert!(Moment::new(-1, 1_000_000_000, 0).is_some());
    assert!(Moment::new(-61, 1_000_000_000, 0).is_some());
}

#[test]
fn moments_at_the_edges_are_formatted() {
    let last = Moment::new(8_000_000_000_000, 999_999_999, 86_399).unwrap();
    assert_eq!(last.field(Field::Year), "+255479");
    assert_eq!(last.timestamp_millis(), 8_000_000_000_000_999);
    let first = Moment::new(-8_000_000_000_000, 0, -86_399).unwrap();
    assert_eq!(first.field(Field::Year), "-251540");
    assert!(first.to_rfc3339().starts_with("-251540-"));
}

#[test]
fn whole_numbers_in_decimal_notation() {
    assert_eq!(decimal(0), "0");
    assert_eq!(decimal(7), "7");
    assert_eq!(decimal(10), "10");
    assert_eq!(decimal(1005), "1005");
    assert_eq!(decimal(-1), "-1");
    assert_eq!(decimal(-120), "-120");
    assert_eq!(decimal(i64::MAX), "9223372036854775807");
    assert_eq!(decimal(i64::MIN), "-9223372036854775808");
}

#[test]
fn digits_as_characters() {
    let digits: String = (0u8..10).map(digit_char).collect();
    assert_eq!(digits, "0123456789");
}

#[test]
fn document_of_a_run() {
    let mut config = VariableSet::new();
    config.set("name", Value::text("Ada"));
    let template = "{name}: {description} at {hour}:{minute}\n->{weekdayName}, {day} {monthName} {year}\n{timestamp}";
    let out = generate(config, "a whole run", &friday(), template);
    // 25 characters in the first line, 19 in the content of the second.
    assert_eq!(
        out,
        Ok("Ada: a whole run at 00:00\n   Friday, 15 May 2015\n1431648000".to_string())
    );
}
