use serde_arrow::deserializer::deserialize;
use serde_arrow::error::ErrorKind;
use serde_arrow::event::Event;
use serde_arrow::schema::{DataType, Field, IntegerType, Strategy, UnionMode};
use serde_arrow::serializer::serialize;
use serde_arrow::tracer::{trace_schema, unify_fields, TracingOptions};

fn field(name: &str, data_type: DataType, nullable: bool) -> Field {
    Field {
        name: name.to_string(),
        data_type,
        nullable,
        strategy: None,
        metadata: Vec::new(),
        children: Vec::new(),
    }
}

fn with_children(mut parent: Field, children: Vec<Field>) -> Field {
    parent.children = children;
    parent
}

fn text(s: &str) -> Event {
    Event::Str(s.to_string())
}

fn record(fields: Vec<(&str, Vec<Event>)>) -> Vec<Event> {
    let mut events = vec![Event::StartStruct];
    for (name, value) in fields {
        events.push(text(name));
        events.extend(value);
    }
    events.push(Event::EndStruct);
    events
}

fn stream(records: Vec<Vec<Event>>) -> Vec<Event> {
    records.into_iter().flatten().collect()
}

#[test]
fn scalars_are_traced_by_their_width() {
    let events = stream(vec![record(vec![
        ("a", vec![Event::I8(1)]),
        ("b", vec![Event::U32(1)]),
        ("c", vec![Event::F32(0)]),
        ("d", vec![Event::Bool(true)]),
        ("e", vec![Event::Bytes(vec![1])]),
        ("f", vec![text("x")]),
    ])]);
    let schema = trace_schema(&events, &TracingOptions::default()).unwrap();
    assert_eq!(
        schema,
        vec![
            field("a", DataType::Int8, false),
            field("b", DataType::UInt32, false),
            field("c", DataType::Float32, false),
            field("d", DataType::Bool, false),
            field("e", DataType::LargeBinary, false),
            field("f", DataType::LargeUtf8, false),
        ]
    );
}

#[test]
fn integers_widen_within_their_kind() {
    let events = stream(vec![
        record(vec![("a", vec![Event::I8(1)])]),
        record(vec![("a", vec![Event::I32(1)])]),
        record(vec![("a", vec![Event::I16(1)])]),
    ]);
    let schema = trace_schema(&events, &TracingOptions::default()).unwrap();
    assert_eq!(schema, vec![field("a", DataType::Int32, false)]);
}

#[test]
fn numbers_of_different_kinds_need_coercion() {
    let events = stream(vec![
        record(vec![("a", vec![Event::I8(1)])]),
        record(vec![("a", vec![Event::U8(1)])]),
    ]);
    let err = trace_schema(&events, &TracingOptions::default()).unwrap_err();
    assert_eq!(err.kind, ErrorKind::SchemaMismatch);
    let schema = trace_schema(&events, &TracingOptions::default().coerce_numbers(true)).unwrap();
    assert_eq!(schema, vec![field("a", DataType::Float64, false)]);
    let arrays = serialize(&schema, &events).unwrap();
    let read = deserialize(&schema, &arrays).unwrap();
    let options = TracingOptions::default().coerce_numbers(true);
    assert_eq!(trace_schema(&read, &options).unwrap(), schema);
    let mixed = stream(vec![
        record(vec![("a", vec![Event::I64(1)])]),
        record(vec![("a", vec![Event::F32(0)])]),
    ]);
    let schema = trace_schema(&mixed, &TracingOptions::default().coerce_numbers(true)).unwrap();
    assert_eq!(schema, vec![field("a", DataType::Float64, false)]);
}

#[test]
fn nulls_and_missing_fields_make_a_field_nullable() {
    let events = stream(vec![
        record(vec![("a", vec![Event::Null]), ("b", vec![Event::U8(1)])]),
        record(vec![("a", vec![Event::I64(1)])]),
        record(vec![("a", vec![Event::I64(2)]), ("c", vec![Event::Null])]),
    ]);
    let schema = trace_schema(&events, &TracingOptions::default()).unwrap();
    assert_eq!(
        schema,
        vec![
            field("a", DataType::Int64, true),
            field("b", DataType::UInt8, true),
            field("c", DataType::Null, true),
        ]
    );
}

#[test]
fn fields_without_values_are_nullable_where_allowed() {
    let events = stream(vec![record(vec![("a", vec![Event::StartSequence, Event::EndSequence])])]);
    let item = |nullable| {
        with_children(
            field("a", DataType::LargeList, false),
            vec![field("item", DataType::Null, nullable)],
        )
    };
    let schema = trace_schema(&events, &TracingOptions::default()).unwrap();
    assert_eq!(schema, vec![item(false)]);
    let schema = trace_schema(&events, &TracingOptions::default().allow_null_fields(true)).unwrap();
    assert_eq!(schema, vec![item(true)]);
}

#[test]
fn strings_are_dictionary_encoded_on_request() {
    let events = stream(vec![record(vec![("a", vec![text("x")])])]);
    let options = TracingOptions::default().string_dictionary_encoding(true);
    let schema = trace_schema(&events, &options).unwrap();
    assert_eq!(
        schema,
        vec![field(
            "a",
            DataType::Dictionary(IntegerType::UInt32, Box::new(DataType::Utf8), false),
            false
        )]
    );
}

#[test]
fn nested_values_are_traced() {
    let events = stream(vec![record(vec![
        ("list", vec![Event::StartSequence, Event::I8(1), Event::Null, Event::EndSequence]),
        ("pair", vec![Event::StartTuple, Event::Bool(true), text("x"), Event::EndTuple]),
        ("inner", record(vec![("x", vec![Event::U8(1)])])),
        (
            "map",
            vec![Event::StartMap, Event::Item, text("k"), Event::I64(1), Event::EndMap],
        ),
    ])]);
    let schema = trace_schema(&events, &TracingOptions::default()).unwrap();
    let mut pair = with_children(
        field("pair", DataType::Struct, false),
        vec![field("0", DataType::Bool, false), field("1", DataType::LargeUtf8, false)],
    );
    pair.strategy = Some(Strategy::TupleAsStruct);
    let expected = vec![
        with_children(field("list", DataType::LargeList, false), vec![field("item", DataType::Int8, true)]),
        pair,
        with_children(field("inner", DataType::Struct, false), vec![field("x", DataType::UInt8, false)]),
        with_children(
            field("map", DataType::Mapping(false), false),
            vec![with_children(
                field("entries", DataType::Struct, false),
                vec![field("keys", DataType::LargeUtf8, false), field("values", DataType::Int64, false)],
            )],
        ),
    ];
    assert_eq!(schema, expected);

    let arrays = serialize(&schema, &events).unwrap();
    let read = deserialize(&schema, &arrays).unwrap();
    assert_eq!(trace_schema(&read, &TracingOptions::default()).unwrap(), schema);

    let as_struct = trace_schema(&events, &TracingOptions::default().map_as_struct(true)).unwrap();
    let mut map = with_children(
        field("map", DataType::Struct, false),
        vec![field("k", DataType::Int64, false)],
    );
    map.strategy = Some(Strategy::MapAsStruct);
    assert_eq!(as_struct[3], map);
    let arrays = serialize(&as_struct, &events).unwrap();
    assert_eq!(deserialize(&as_struct, &arrays).unwrap(), events);
}

#[test]
fn variants_are_traced_at_their_place() {
    let events = stream(vec![
        record(vec![("e", vec![Event::Variant("B".to_string(), 1), Event::U8(1)])]),
        record(vec![("e", vec![Event::Variant("C".to_string(), 2), Event::Null])]),
    ]);
    let schema = trace_schema(&events, &TracingOptions::default()).unwrap();
    let mut unknown = field("", DataType::Null, true);
    unknown.strategy = Some(Strategy::UnknownVariant);
    assert_eq!(
        schema,
        vec![with_children(
            field("e", DataType::Union(UnionMode::Dense), false),
            vec![unknown, field("B", DataType::UInt8, false), field("C", DataType::Null, true)],
        )]
    );
    let more = stream(vec![record(vec![("e", vec![Event::Variant("A".to_string(), 0), text("x")])])]);
    let other = trace_schema(&more, &TracingOptions::default()).unwrap();
    let joined = unify_fields(&schema[0], &other[0], &TracingOptions::default()).unwrap();
    assert_eq!(joined.children[0], field("A", DataType::LargeUtf8, false));
    assert_eq!(joined.children[1], field("B", DataType::UInt8, false));
}

#[test]
fn tracing_is_stable_under_a_round_trip() {
    let events = stream(vec![
        record(vec![("a", vec![Event::I16(1)]), ("b", vec![text("2020-01-01T00:00:00Z")])]),
        record(vec![("a", vec![Event::Null]), ("b", vec![text("2021-06-30T12:30:00.5Z")])]),
    ]);
    let options = TracingOptions::default().guess_dates(true);
    let schema = trace_schema(&events, &options).unwrap();
    let arrays = serialize(&schema, &events).unwrap();
    let read = deserialize(&schema, &arrays).unwrap();
    assert_eq!(trace_schema(&read, &options).unwrap(), schema);
}

#[test]
fn samples_must_be_records() {
    let events = vec![Event::I8(1)];
    assert_eq!(
        trace_schema(&events, &TracingOptions::default()).unwrap_err().kind,
        ErrorKind::SchemaMismatch
    );
    let events = vec![Event::StartStruct];
    assert_eq!(
        trace_schema(&events, &TracingOptions::default()).unwrap_err().kind,
        ErrorKind::StructuralError
    );
    assert_eq!(trace_schema(&[], &TracingOptions::default()).unwrap(), Vec::<Field>::new());
}
