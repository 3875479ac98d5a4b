use chrono::{DateTime, NaiveDateTime, TimeZone, Utc};
use serde_arrow::array::Array;
use serde_arrow::descriptor::schema_from_value;
use serde_arrow::deserializer::deserialize;
use serde_arrow::event::Event;
use serde_arrow::schema::Field;
use serde_arrow::serializer::serialize;
use serde_arrow::tracer::{trace_schema, TracingOptions};
use serde_arrow::value::Value;

/// The tree of a JSON value.
fn tree(json: &serde_json::Value) -> Value {
    match json {
        serde_json::Value::Null => Value::Leaf(Event::Null),
        serde_json::Value::Bool(flag) => Value::Leaf(Event::Bool(*flag)),
        serde_json::Value::Number(number) => {
            if let Some(n) = number.as_u64() {
                Value::Leaf(Event::U64(n))
            } else if let Some(n) = number.as_i64() {
                Value::Leaf(Event::I64(n))
            } else {
                Value::Leaf(Event::F64(number.as_f64().unwrap().to_bits()))
            }
        }
        serde_json::Value::String(text) => Value::Leaf(Event::Str(text.clone())),
        serde_json::Value::Array(items) => Value::Sequence(items.iter().map(tree).collect()),
        serde_json::Value::Object(entries) => Value::Mapping(
            entries
                .iter()
                .map(|(key, value)| (Value::Leaf(Event::Str(key.clone())), tree(value)))
                .collect(),
        ),
    }
}

fn schema(json: &str) -> Result<Vec<Field>, serde_arrow::error::Error> {
    schema_from_value(&tree(&serde_json::from_str(json).unwrap()))
}

/// The event of a scalar as the value protocol hands it out.
fn scalar<T: serde::Serialize>(value: &T) -> Event {
    match serde_json::to_value(value).unwrap() {
        serde_json::Value::String(text) => Event::Str(text),
        serde_json::Value::Null => Event::Null,
        other => panic!("unexpected value {other}"),
    }
}

/// The events of records with the single field `item`.
fn items(values: Vec<Event>) -> Vec<Event> {
    let mut events = Vec::new();
    for value in values {
        events.push(Event::StartStruct);
        events.push(Event::Str(String::from("item")));
        events.push(value);
        events.push(Event::EndStruct);
    }
    events
}

struct Test {
    schema: Vec<Field>,
    arrays: Vec<Array>,
}

impl Test {
    fn with_schema(json: &str) -> Test {
        Test { schema: schema(json).unwrap(), arrays: Vec::new() }
    }

    fn trace_schema_from_samples(self, events: &Vec<Event>, options: TracingOptions) -> Test {
        assert_eq!(trace_schema(events, &options).unwrap(), self.schema);
        self
    }

    fn serialize(mut self, events: &Vec<Event>) -> Test {
        self.arrays = serialize(&self.schema, events).unwrap();
        self
    }

    fn deserialize(self, events: &Vec<Event>) -> Test {
        assert_eq!(&deserialize(&self.schema, &self.arrays).unwrap(), events);
        self
    }

    fn check_nulls(self, nulls: &[&[bool]]) -> Test {
        assert_eq!(self.arrays.len(), nulls.len());
        for (array, expected) in self.arrays.iter().zip(nulls) {
            let validity = match array {
                Array::Primitive { validity, .. } => validity,
                Array::Binary { validity, .. } => validity,
                other => panic!("unexpected column {other:?}"),
            };
            let actual: Vec<bool> = validity.iter().map(|set| !set).collect();
            assert_eq!(&actual[..], *expected);
        }
        self
    }
}

fn naive(millis: i64) -> NaiveDateTime {
    DateTime::from_timestamp_millis(millis).unwrap().naive_utc()
}

#[test]
fn utc_as_str() {
    let items = items(vec![
        scalar(&Utc.with_ymd_and_hms(2020, 12, 24, 8, 30, 0).unwrap()),
        scalar(&Utc.with_ymd_and_hms(2023, 5, 5, 16, 6, 0).unwrap()),
    ]);

    Test::with_schema(r#"[{"name": "item", "data_type": "LargeUtf8"}]"#)
        .trace_schema_from_samples(&items, TracingOptions::default())
        .serialize(&items)
        .deserialize(&items)
        .check_nulls(&[&[false, false]]);
}

#[test]
fn naive_as_str() {
    let items = items(vec![scalar(&naive(1662921288000)), scalar(&naive(-2208936075000))]);

    Test::with_schema(r#"[{"name": "item", "data_type": "LargeUtf8"}]"#)
        .trace_schema_from_samples(&items, TracingOptions::default())
        .serialize(&items)
        .deserialize(&items)
        .check_nulls(&[&[false, false]]);
}

#[test]
fn utc_as_date64() {
    let items = items(vec![
        scalar(&Utc.with_ymd_and_hms(2020, 12, 24, 8, 30, 0).unwrap()),
        scalar(&Utc.with_ymd_and_hms(2023, 5, 5, 16, 6, 0).unwrap()),
    ]);

    let test = Test::with_schema(
        r#"[{"name": "item", "data_type": "Date64", "strategy": "UtcStrAsDate64"}]"#,
    )
    .trace_schema_from_samples(&items, TracingOptions::default().guess_dates(true))
    .serialize(&items)
    .deserialize(&items)
    .check_nulls(&[&[false, false]]);
    assert_eq!(
        test.arrays,
        vec![Array::Primitive {
            values: serde_arrow::array::Buffer::I64(vec![1608798600000, 1683302760000]),
            validity: vec![true, true],
        }]
    );
}

#[test]
fn naive_as_date64() {
    let items = items(vec![scalar(&naive(1662921288000)), scalar(&naive(-2208936075000))]);

    let test = Test::with_schema(
        r#"[{"name": "item", "data_type": "Date64", "strategy": "NaiveStrAsDate64"}]"#,
    )
    .trace_schema_from_samples(&items, TracingOptions::default().guess_dates(true))
    .serialize(&items)
    .deserialize(&items)
    .check_nulls(&[&[false, false]]);
    assert_eq!(
        test.arrays,
        vec![Array::Primitive {
            values: serde_arrow::array::Buffer::I64(vec![1662921288000, -2208936075000]),
            validity: vec![true, true],
        }]
    );
}

#[test]
fn i32_as_date32() {
    let items =
        items(vec![Event::I32(i32::MIN), Event::I32(0), Event::I32(100), Event::I32(i32::MAX)]);

    Test::with_schema(r#"[{"name": "item", "data_type": "Date32"}]"#)
        .serialize(&items)
        .deserialize(&items)
        .check_nulls(&[&[false, false, false, false]]);
}

#[test]
fn i64_as_time64_nanoseconds() {
    let items =
        items(vec![Event::I64(i64::MIN), Event::I64(0), Event::I64(100), Event::I64(i64::MAX)]);

    Test::with_schema(r#"[{"name": "item", "data_type": "Time64(Nanosecond)"}]"#)
        .serialize(&items)
        .deserialize(&items)
        .check_nulls(&[&[false, false, false, false]]);
}

#[test]
fn i64_as_time64_microseconds() {
    let items =
        items(vec![Event::I64(i64::MIN), Event::I64(0), Event::I64(100), Event::I64(i64::MAX)]);

    Test::with_schema(r#"[{"name": "item", "data_type": "Time64(Microseconds)"}]"#)
        .serialize(&items)
        .deserialize(&items)
        .check_nulls(&[&[false, false, false, false]]);
}

#[test]
fn time64_type_invalid_units() {
    let Err(err) = schema(r#"[{"name": "item", "data_type": "Time64(Millisecond)"}]"#) else {
        panic!("Expected error");
    };
    assert!(
        err.to_string().contains("Error: expected valid time unit (Microsecond or Nanosecond)"),
        "Unexpected error: {err:?}",
    );

    let Err(err) = schema(r#"[{"name": "item", "data_type": "Time64(Second)"}]"#) else {
        panic!("Expected error");
    };
    assert!(
        err.to_string().contains("Error: expected valid time unit (Microsecond or Nanosecond)"),
        "Unexpected error: {err:?}",
    );
}

#[test]
fn utc_as_date64_as_millis() {
    let items = items(vec![
        Event::I64(Utc.with_ymd_and_hms(2020, 12, 24, 8, 30, 0).unwrap().timestamp_millis()),
        Event::I64(Utc.with_ymd_and_hms(2023, 5, 5, 16, 6, 0).unwrap().timestamp_millis()),
    ]);

    Test::with_schema(r#"[{"name": "item", "data_type": "Date64"}]"#)
        .serialize(&items)
        .deserialize(&items)
        .check_nulls(&[&[false, false]]);
}

#[test]
fn utc_str_as_date64_as_timestamp() {
    let items = items(vec![
        scalar(&Utc.with_ymd_and_hms(2020, 12, 24, 8, 30, 0).unwrap()),
        scalar(&Utc.with_ymd_and_hms(2023, 5, 5, 16, 6, 0).unwrap()),
    ]);

    Test::with_schema(
        r#"[{
            "name": "item",
            "data_type": "Timestamp(Millisecond, Some(\"Utc\"))",
            "strategy": "UtcStrAsDate64"
        }]"#,
    )
    .serialize(&items)
    .deserialize(&items)
    .check_nulls(&[&[false, false]]);
}

#[test]
fn naive_as_timestamp() {
    let items = items(vec![scalar(&naive(1662921288000)), scalar(&naive(-2208936075000))]);

    Test::with_schema(
        r#"[{
            "name": "item",
            "data_type": "Timestamp(Millisecond, None)",
            "strategy": "NaiveStrAsDate64"
        }]"#,
    )
    .serialize(&items)
    .deserialize(&items)
    .check_nulls(&[&[false, false]]);
}

#[test]
fn utc_as_date64_tracing_string_only() {
    let items = items(vec![
        scalar(&String::from("2015-09-18T23:56:04Z")),
        scalar(&String::from("2023-08-14T17:00:04Z")),
    ]);

    Test::with_schema(
        r#"[{"name": "item", "data_type": "Date64", "strategy": "UtcStrAsDate64"}]"#,
    )
    .trace_schema_from_samples(&items, TracingOptions::default().guess_dates(true))
    .serialize(&items)
    .deserialize(&items)
    .check_nulls(&[&[false, false]]);
}

#[test]
fn utc_as_date64_tracing_string_nullable() {
    let items = items(vec![
        scalar(&Some(String::from("2015-09-18T23:56:04Z"))),
        scalar(&None::<String>),
        scalar(&Some(String::from("2023-08-14T17:00:04Z"))),
    ]);

    Test::with_schema(
        r#"[{
            "name": "item",
            "data_type": "Date64",
            "strategy": "UtcStrAsDate64",
            "nullable": true
        }]"#,
    )
    .trace_schema_from_samples(&items, TracingOptions::default().guess_dates(true))
    .serialize(&items)
    .deserialize(&items)
    .check_nulls(&[&[false, true, false]]);
}

#[test]
fn utc_as_date64_tracing_string_only_with_invalid() {
    let items = items(vec![
        scalar(&String::from("2015-09-18T23:56:04Z")),
        scalar(&String::from("2023-08-14T17:00:04Z")),
        scalar(&String::from("not a date")),
    ]);

    Test::with_schema(r#"[{"name": "item", "data_type": "LargeUtf8"}]"#)
        .trace_schema_from_samples(&items, TracingOptions::default().guess_dates(true))
        .serialize(&items)
        .deserialize(&items)
        .check_nulls(&[&[false, false, false]]);
}

#[test]
fn naive_as_date64_tracing_string_only() {
    let items = items(vec![
        scalar(&String::from("2015-09-18T23:56:04")),
        scalar(&String::from("2023-08-14T17:00:04")),
    ]);

    Test::with_schema(
        r#"[{"name": "item", "data_type": "Date64", "strategy": "NaiveStrAsDate64"}]"#,
    )
    .trace_schema_from_samples(&items, TracingOptions::default().guess_dates(true))
    .serialize(&items)
    .deserialize(&items)
    .check_nulls(&[&[false, false]]);
}

#[test]
fn naive_as_date64_tracing_string_nullable() {
    let items = items(vec![
        scalar(&Some(String::from("2015-09-18T23:56:04"))),
        scalar(&None::<String>),
        scalar(&Some(String::from("2023-08-14T17:00:04"))),
    ]);

    Test::with_schema(
        r#"[{
            "name": "item",
            "data_type": "Date64",
            "strategy": "NaiveStrAsDate64",
            "nullable": true
        }]"#,
    )
    .trace_schema_from_samples(&items, TracingOptions::default().guess_dates(true))
    .serialize(&items)
    .deserialize(&items)
    .check_nulls(&[&[false, true, false]]);
}

#[test]
fn naive_as_date64_tracing_string_with_invalid() {
    let items = items(vec![
        scalar(&String::from("2015-09-18T23:56:04")),
        scalar(&String::from("2023-08-14T17:00:04")),
        scalar(&String::from("not a date")),
    ]);

    Test::with_schema(r#"[{"name": "item", "data_type": "LargeUtf8"}]"#)
        .trace_schema_from_samples(&items, TracingOptions::default().guess_dates(true))
        .serialize(&items)
        .deserialize(&items)
        .check_nulls(&[&[false, false, false]]);
}

#[test]
fn incompatible_date_formats_tracing() {
    let items = items(vec![
        scalar(&String::from("2015-09-18T23:56:04")),
        scalar(&String::from("2023-08-14T17:00:04Z")),
    ]);

    Test::with_schema(r#"[{"name": "item", "data_type": "LargeUtf8"}]"#)
        .trace_schema_from_samples(&items, TracingOptions::default().guess_dates(true))
        .serialize(&items)
        .deserialize(&items)
        .check_nulls(&[&[false, false]]);
}
