use serde_arrow::array::{Array, Buffer};
use serde_arrow::bitmap::{pack_bits, unpack_bits};
use serde_arrow::deserializer::deserialize;
use serde_arrow::error::ErrorKind;
use serde_arrow::event::Event;
use serde_arrow::finish::{check_limits, ArrayBuilder};
use serde_arrow::parser::parse_events;
use serde_arrow::schema::{DataType, Field, IntegerType, Strategy, UnionMode};
use serde_arrow::serializer::serialize;
use serde_arrow::sources::build_record_source;
use serde_arrow::value::{write_events, Value};

fn field(name: &str, data_type: DataType, nullable: bool) -> Field {
    Field::new(name, data_type, nullable)
}

fn with_children(mut parent: Field, children: Vec<Field>) -> Field {
    parent.children = children;
    parent
}

fn text(s: &str) -> Event {
    Event::Str(s.to_string())
}

fn items(values: Vec<Vec<Event>>) -> Vec<Event> {
    let mut events = Vec::new();
    for value in values {
        events.push(Event::StartStruct);
        events.push(text("item"));
        events.extend(value);
        events.push(Event::EndStruct);
    }
    events
}

#[test]
fn decimals_are_stored_unscaled() {
    let fields = vec![field("item", DataType::Decimal128(5, 2), true)];
    let events = items(vec![
        vec![text("1.23")],
        vec![text("4.56")],
        vec![text("-0.05")],
        vec![Event::Null],
        vec![text("999.99")],
    ]);
    let arrays = serialize(&fields, &events).unwrap();
    assert_eq!(
        arrays,
        vec![Array::Primitive {
            values: Buffer::I128(vec![123, 456, -5, 0, 99999]),
            validity: vec![true, true, true, false, true],
        }]
    );
    assert_eq!(deserialize(&fields, &arrays).unwrap(), events);

    let cut = serialize(&fields, &items(vec![vec![text("1.239")], vec![text("7")], vec![Event::I8(-3)]]))
        .unwrap();
    assert_eq!(
        cut,
        vec![Array::Primitive { values: Buffer::I128(vec![123, 700, -300]), validity: vec![true; 3] }]
    );
    assert_eq!(
        deserialize(&fields, &cut).unwrap(),
        items(vec![vec![text("1.23")], vec![text("7.00")], vec![text("-3.00")]])
    );
}

#[test]
fn decimals_beyond_the_precision_are_refused() {
    let fields = vec![field("item", DataType::Decimal128(5, 2), false)];
    for (input, kind) in [
        (text("1234.56"), ErrorKind::OutOfRange),
        (text("1000"), ErrorKind::OutOfRange),
        (Event::I16(1000), ErrorKind::OutOfRange),
        (text("1e3"), ErrorKind::Parse),
        (text(""), ErrorKind::Parse),
        (text("1."), ErrorKind::Parse),
        (Event::F64(0), ErrorKind::SchemaMismatch),
    ] {
        assert_eq!(serialize(&fields, &items(vec![vec![input]])).unwrap_err().kind, kind);
    }
}

#[test]
fn unparsable_dates_are_refused() {
    let mut date = field("item", DataType::Date64, false);
    date.strategy = Some(Strategy::UtcStrAsDate64);
    let fields = vec![date];
    for (input, kind) in [
        (text("2020-12-24T08:30:00"), ErrorKind::Parse),
        (text("2020-13-24T08:30:00Z"), ErrorKind::Parse),
        (Event::I64(0), ErrorKind::SchemaMismatch),
    ] {
        assert_eq!(serialize(&fields, &items(vec![vec![input]])).unwrap_err().kind, kind);
    }
    let beyond = vec![Array::Primitive { values: Buffer::I64(vec![i64::MAX]), validity: vec![true] }];
    assert_eq!(deserialize(&fields, &beyond).unwrap_err().kind, ErrorKind::SchemaMismatch);
}

#[test]
fn maps_hold_their_entries_in_a_struct() {
    let fields = vec![with_children(
        field("item", DataType::Mapping(false), false),
        vec![with_children(
            field("entries", DataType::Struct, false),
            vec![field("keys", DataType::Utf8, false), field("values", DataType::Int32, true)],
        )],
    )];
    let events = items(vec![
        vec![
            Event::StartMap,
            Event::Item,
            text("a"),
            Event::I32(1),
            Event::Item,
            text("b"),
            Event::Null,
            Event::EndMap,
        ],
        vec![Event::StartMap, Event::EndMap],
    ]);
    let arrays = serialize(&fields, &events).unwrap();
    assert_eq!(
        arrays,
        vec![Array::List {
            offsets: vec![0, 2, 2],
            child: Box::new(Array::Struct {
                children: vec![
                    Array::Binary { offsets: vec![0, 1, 2], data: vec![97, 98], validity: vec![true; 2] },
                    Array::Primitive { values: Buffer::I32(vec![1, 0]), validity: vec![true, false] },
                ],
                validity: vec![true; 2],
            }),
            validity: vec![true; 2],
        }]
    );
    assert_eq!(deserialize(&fields, &arrays).unwrap(), events);
    let wrong = items(vec![vec![Event::StartSequence, Event::EndSequence]]);
    assert_eq!(serialize(&fields, &wrong).unwrap_err().kind, ErrorKind::SchemaMismatch);
}

#[test]
fn lists_of_fixed_size_take_exactly_that_many_items() {
    let fields = vec![with_children(
        field("item", DataType::FixedSizeList(2), true),
        vec![field("item", DataType::UInt8, false)],
    )];
    let events = items(vec![
        vec![Event::StartSequence, Event::U8(1), Event::U8(2), Event::EndSequence],
        vec![Event::Null],
        vec![Event::StartSequence, Event::U8(3), Event::U8(4), Event::EndSequence],
    ]);
    let arrays = serialize(&fields, &events).unwrap();
    assert_eq!(
        arrays,
        vec![Array::List {
            offsets: vec![0, 2, 4, 6],
            child: Box::new(Array::Primitive {
                values: Buffer::U8(vec![1, 2, 0, 0, 3, 4]),
                validity: vec![true; 6],
            }),
            validity: vec![true, false, true],
        }]
    );
    assert_eq!(deserialize(&fields, &arrays).unwrap(), events);
    for wrong in [
        vec![Event::StartSequence, Event::U8(1), Event::EndSequence],
        vec![Event::StartSequence, Event::U8(1), Event::U8(2), Event::U8(3), Event::EndSequence],
    ] {
        assert_eq!(
            serialize(&fields, &items(vec![wrong])).unwrap_err().kind,
            ErrorKind::StructuralError
        );
    }
    let uneven = vec![Array::List {
        offsets: vec![0, 1],
        child: Box::new(Array::Primitive { values: Buffer::U8(vec![1]), validity: vec![true] }),
        validity: vec![true],
    }];
    assert_eq!(deserialize(&fields, &uneven).unwrap_err().kind, ErrorKind::SchemaMismatch);
}

#[test]
fn sparse_unions_fill_the_other_children() {
    let fields = vec![with_children(
        field("item", DataType::Union(UnionMode::Sparse), false),
        vec![field("A", DataType::Null, true), field("B", DataType::Int8, false)],
    )];
    let events = items(vec![
        vec![Event::Variant("B".to_string(), 1), Event::I8(5)],
        vec![Event::Variant("A".to_string(), 0), Event::Null],
    ]);
    let arrays = serialize(&fields, &events).unwrap();
    assert_eq!(
        arrays,
        vec![Array::Union {
            type_codes: vec![1, 0],
            offsets: vec![0, 1],
            children: vec![
                Array::Null(vec![(), ()]),
                Array::Primitive { values: Buffer::I8(vec![5, 0]), validity: vec![true, true] },
            ],
        }]
    );
    assert_eq!(deserialize(&fields, &arrays).unwrap(), events);
}

#[test]
fn null_structs_fill_their_children() {
    let fields = vec![with_children(
        field("item", DataType::Struct, true),
        vec![
            field("a", DataType::Utf8, false),
            with_children(
                field("b", DataType::List, true),
                vec![field("item", DataType::Bool, false)],
            ),
        ],
    )];
    let events = items(vec![
        vec![Event::Null],
        vec![
            Event::StartStruct,
            text("a"),
            text("x"),
            text("b"),
            Event::StartSequence,
            Event::Bool(true),
            Event::EndSequence,
            Event::EndStruct,
        ],
        vec![Event::Default],
    ]);
    let arrays = serialize(&fields, &events).unwrap();
    let read = deserialize(&fields, &arrays).unwrap();
    let mut expected = events.clone();
    let last = expected.len() - 2;
    expected[last] = Event::Null;
    assert_eq!(read, expected);
    match &arrays[0] {
        Array::Struct { children, validity } => {
            assert_eq!(validity, &vec![false, true, false]);
            assert_eq!(children[0].len(), 3);
            assert_eq!(children[1].len(), 3);
        }
        other => panic!("unexpected column {other:?}"),
    }
}

#[test]
fn columns_with_invalid_text_are_refused() {
    let fields = vec![field("item", DataType::Utf8, false)];
    let broken = vec![Array::Binary { offsets: vec![0, 1], data: vec![0xff], validity: vec![true] }];
    assert_eq!(deserialize(&fields, &broken).unwrap_err().kind, ErrorKind::SchemaMismatch);
    let falling = vec![Array::Binary { offsets: vec![0, 2, 1], data: vec![97], validity: vec![true; 2] }];
    assert_eq!(deserialize(&fields, &falling).unwrap_err().kind, ErrorKind::SchemaMismatch);
    let bytes = vec![field("item", DataType::Binary, false)];
    assert_eq!(
        deserialize(&bytes, &broken).unwrap(),
        items(vec![vec![Event::Bytes(vec![0xff])]])
    );
}

#[test]
fn the_source_hands_out_events_one_by_one() {
    let fields = vec![field("item", DataType::Int8, true)];
    let arrays = vec![Array::Primitive { values: Buffer::I8(vec![1, 0]), validity: vec![true, false] }];
    let mut source = build_record_source(&fields, &arrays).unwrap();
    let mut events = Vec::new();
    while let Some(event) = source.next() {
        events.push(event);
    }
    assert_eq!(events, items(vec![vec![Event::I8(1)], vec![Event::Null]]));
    assert_eq!(source.next(), None);
}

#[test]
fn builders_append_single_values() {
    let list = with_children(
        field("list", DataType::LargeList, false),
        vec![field("item", DataType::Utf8, true)],
    );
    let mut builder = ArrayBuilder::new(&list).unwrap();
    assert_eq!(builder.len(), 0);
    let value = Value::Sequence(vec![Value::Leaf(text("a")), Value::Leaf(Event::Null)]);
    builder.push(&value).unwrap();
    builder.push(&Value::Tuple(vec![])).unwrap();
    assert_eq!(builder.len(), 2);
    let array = builder.finish().unwrap();
    assert_eq!(
        array,
        Array::List {
            offsets: vec![0, 2, 2],
            child: Box::new(Array::Binary {
                offsets: vec![0, 1, 1],
                data: vec![97],
                validity: vec![true, false],
            }),
            validity: vec![true; 2],
        }
    );
    let unsupported = field("x", DataType::Float16, false);
    assert_eq!(ArrayBuilder::new(&unsupported).unwrap_err().kind, ErrorKind::Unsupported);
    let invalid = field("x", DataType::Time32(serde_arrow::schema::TimeUnit::Nanosecond), false);
    assert_eq!(ArrayBuilder::new(&invalid).unwrap_err().kind, ErrorKind::SchemaInvalid);
}

#[test]
fn dictionaries_must_fit_their_index_type() {
    let fields = vec![field(
        "item",
        DataType::Dictionary(IntegerType::Int8, Box::new(DataType::Utf8), false),
        false,
    )];
    let few: Vec<Vec<Event>> = (0..128).map(|i| vec![text(&i.to_string())]).collect();
    let arrays = serialize(&fields, &items(few)).unwrap();
    assert!(check_limits(&fields, &arrays).is_ok());
    let many: Vec<Vec<Event>> = (0..129).map(|i| vec![text(&i.to_string())]).collect();
    let arrays = serialize(&fields, &items(many)).unwrap();
    assert_eq!(check_limits(&fields, &arrays).unwrap_err().kind, ErrorKind::OutOfRange);
}

#[test]
fn reading_a_stream_inverts_writing_it() {
    let value = Value::Struct(vec![
        ("a".to_string(), Value::Tuple(vec![Value::Leaf(Event::U8(1)), Value::Leaf(text("x"))])),
        (
            "b".to_string(),
            Value::Mapping(vec![(
                Value::Leaf(Event::I8(1)),
                Value::Variant("V".to_string(), 3, Box::new(Value::Sequence(vec![]))),
            )]),
        ),
    ]);
    let mut events = Vec::new();
    write_events(&value, &mut events);
    assert_eq!(events.len(), 15);
    assert_eq!(parse_events(&events).unwrap(), vec![value]);
    assert_eq!(parse_events(&events[..14]).unwrap_err().kind, ErrorKind::StructuralError);
    assert_eq!(parse_events(&[Event::Item]).unwrap_err().kind, ErrorKind::StructuralError);
}

#[test]
fn bits_are_packed_from_the_lowest_bit() {
    let bits = vec![true, false, false, true, false, false, false, false, true, true];
    let bytes = pack_bits(&bits);
    assert_eq!(bytes, vec![0b0000_1001, 0b0000_0011]);
    assert_eq!(unpack_bits(&bytes, bits.len()), bits);
    assert_eq!(pack_bits(&Vec::new()), Vec::<u8>::new());
}

#[test]
fn builders_take_events_one_by_one() {
    let list = with_children(
        field("list", DataType::List, true),
        vec![field("item", DataType::Int16, false)],
    );
    let mut builder = serde_arrow::finish::EventBuilder::new(&list).unwrap();
    for event in [
        Event::StartSequence,
        Event::I16(1),
        Event::I16(2),
        Event::EndSequence,
        Event::Null,
        Event::StartSequence,
    ] {
        builder.append(event).unwrap();
    }
    assert_eq!(builder.len(), 2);
    builder.append(Event::EndSequence).unwrap();
    assert_eq!(builder.len(), 3);
    let array = builder.finish().unwrap();
    assert_eq!(
        array,
        Array::List {
            offsets: vec![0, 2, 2, 2],
            child: Box::new(Array::Primitive {
                values: Buffer::I16(vec![1, 2]),
                validity: vec![true; 2],
            }),
            validity: vec![true, false, true],
        }
    );

    let mut builder = serde_arrow::finish::EventBuilder::new(&list).unwrap();
    assert_eq!(builder.append(Event::EndSequence).unwrap_err().kind, ErrorKind::StructuralError);
    let mut builder = serde_arrow::finish::EventBuilder::new(&list).unwrap();
    builder.append(Event::StartSequence).unwrap();
    assert_eq!(builder.finish().unwrap_err().kind, ErrorKind::StructuralError);
    let mut builder = serde_arrow::finish::EventBuilder::new(&list).unwrap();
    assert_eq!(builder.append(Event::Bool(true)).unwrap_err().kind, ErrorKind::SchemaMismatch);
}

#[test]
fn sources_hand_out_rows_one_by_one() {
    let column = field("item", DataType::UInt16, false);
    let array = Array::Primitive { values: Buffer::U16(vec![7, 8]), validity: vec![true; 2] };
    let mut source = serde_arrow::sources::build_dynamic_source(&column, &array).unwrap();
    assert_eq!(source.next_value(), Some(Value::Leaf(Event::U16(7))));
    assert_eq!(source.next_value(), Some(Value::Leaf(Event::U16(8))));
    assert_eq!(source.next_value(), None);
    let wrong = serde_arrow::sources::build_dynamic_primitive_source(
        &column,
        &array,
        serde_arrow::array::PrimitiveType::I16,
    );
    assert_eq!(wrong.unwrap_err().kind, ErrorKind::SchemaMismatch);
    let no_struct = serde_arrow::sources::build_dynamic_struct_source(&column, &array);
    assert_eq!(no_struct.unwrap_err().kind, ErrorKind::SchemaMismatch);
}

#[test]
fn bytes_of_fixed_size_take_exactly_that_many_bytes() {
    let fields = vec![field("item", DataType::FixedSizeBinary(2), true)];
    let events = items(vec![
        vec![Event::Bytes(vec![1, 2])],
        vec![Event::Null],
        vec![Event::Bytes(vec![3, 4])],
    ]);
    let arrays = serialize(&fields, &events).unwrap();
    assert_eq!(
        arrays,
        vec![Array::Binary {
            offsets: vec![0, 2, 4, 6],
            data: vec![1, 2, 0, 0, 3, 4],
            validity: vec![true, false, true],
        }]
    );
    assert_eq!(deserialize(&fields, &arrays).unwrap(), events);
    let short = items(vec![vec![Event::Bytes(vec![1])]]);
    assert_eq!(serialize(&fields, &short).unwrap_err().kind, ErrorKind::StructuralError);
    let text = items(vec![vec![text("ab")]]);
    assert_eq!(serialize(&fields, &text).unwrap_err().kind, ErrorKind::SchemaMismatch);
}
