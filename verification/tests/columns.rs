use serde_arrow::array::{Array, Buffer};
use serde_arrow::deserializer::deserialize;
use serde_arrow::error::ErrorKind;
use serde_arrow::event::Event;
use serde_arrow::schema::{DataType, Field, IntegerType, Strategy, UnionMode};
use serde_arrow::serializer::serialize;

fn field(name: &str, data_type: DataType, nullable: bool) -> Field {
    Field {
        name: name.to_string(),
        data_type,
        nullable,
        strategy: None,
        metadata: Vec::new(),
        children: Vec::new(),
    }
}

fn text(s: &str) -> Event {
    Event::Str(s.to_string())
}

/// One record for each value: a struct with the single child `item`.
fn items(values: Vec<Vec<Event>>) -> Vec<Event> {
    let mut events = Vec::new();
    for value in values {
        events.push(Event::StartStruct);
        events.push(text("item"));
        events.extend(value);
        events.push(Event::EndStruct);
    }
    events
}

fn round_trip(fields: &Vec<Field>, events: &Vec<Event>) -> Vec<Array> {
    let arrays = serialize(fields, events).unwrap();
    assert_eq!(&deserialize(fields, &arrays).unwrap(), events);
    arrays
}

#[test]
fn integers_round_trip_at_their_bounds() {
    let fields = vec![field("item", DataType::Int32, false)];
    let events = items(vec![
        vec![Event::I32(i32::MIN)],
        vec![Event::I32(0)],
        vec![Event::I32(100)],
        vec![Event::I32(i32::MAX)],
    ]);
    let arrays = round_trip(&fields, &events);
    assert_eq!(
        arrays,
        vec![Array::Primitive {
            values: Buffer::I32(vec![i32::MIN, 0, 100, i32::MAX]),
            validity: vec![true; 4],
        }]
    );
}

#[test]
fn integers_are_converted_where_they_fit() {
    let fields = vec![field("item", DataType::Int8, false)];
    let arrays = serialize(&fields, &items(vec![vec![Event::U64(127)], vec![Event::I64(-128)]]))
        .unwrap();
    assert_eq!(
        arrays,
        vec![Array::Primitive { values: Buffer::I8(vec![127, -128]), validity: vec![true; 2] }]
    );
    let err = serialize(&fields, &items(vec![vec![Event::I16(128)]])).unwrap_err();
    assert_eq!(err.kind, ErrorKind::OutOfRange);
    let err = serialize(&fields, &items(vec![vec![text("1")]])).unwrap_err();
    assert_eq!(err.kind, ErrorKind::SchemaMismatch);
}

#[test]
fn nulls_need_a_nullable_field() {
    let events = items(vec![vec![Event::Bool(true)], vec![Event::Null], vec![Event::Bool(false)]]);
    let strict = vec![field("item", DataType::Bool, false)];
    assert_eq!(serialize(&strict, &events).unwrap_err().kind, ErrorKind::SchemaMismatch);
    let fields = vec![field("item", DataType::Bool, true)];
    let arrays = round_trip(&fields, &events);
    assert_eq!(
        arrays,
        vec![Array::Boolean {
            values: vec![true, false, false],
            validity: vec![true, false, true],
        }]
    );
}

#[test]
fn strings_are_stored_behind_offsets() {
    let fields = vec![field("item", DataType::LargeUtf8, true)];
    let events = items(vec![vec![text("ab")], vec![Event::Null], vec![text("")], vec![text("çd")]]);
    let arrays = round_trip(&fields, &events);
    assert_eq!(
        arrays,
        vec![Array::Binary {
            offsets: vec![0, 2, 2, 2, 5],
            data: "abçd".as_bytes().to_vec(),
            validity: vec![true, false, true, true],
        }]
    );
}

#[test]
fn lists_hold_their_items_in_the_child() {
    let mut list = field("item", DataType::List, false);
    list.children.push(field("element", DataType::UInt8, false));
    let fields = vec![list];
    let events = items(vec![
        vec![Event::StartSequence, Event::U8(1), Event::U8(2), Event::EndSequence],
        vec![Event::StartSequence, Event::EndSequence],
        vec![Event::StartSequence, Event::U8(3), Event::EndSequence],
    ]);
    let arrays = round_trip(&fields, &events);
    assert_eq!(
        arrays,
        vec![Array::List {
            offsets: vec![0, 2, 2, 3],
            child: Box::new(Array::Primitive {
                values: Buffer::U8(vec![1, 2, 3]),
                validity: vec![true; 3],
            }),
            validity: vec![true; 3],
        }]
    );
}

#[test]
fn structs_take_their_children_by_name() {
    let mut point = field("item", DataType::Struct, false);
    point.children.push(field("x", DataType::Int16, false));
    point.children.push(field("y", DataType::Int16, true));
    let fields = vec![point];
    let given = items(vec![
        vec![
            Event::StartStruct,
            text("y"),
            Event::I16(2),
            text("ignored"),
            Event::Bool(true),
            text("x"),
            Event::I16(1),
            Event::EndStruct,
        ],
        vec![Event::StartStruct, text("x"), Event::I16(3), Event::EndStruct],
    ]);
    let arrays = serialize(&fields, &given).unwrap();
    let expected = items(vec![
        vec![Event::StartStruct, text("x"), Event::I16(1), text("y"), Event::I16(2), Event::EndStruct],
        vec![Event::StartStruct, text("x"), Event::I16(3), text("y"), Event::Null, Event::EndStruct],
    ]);
    assert_eq!(deserialize(&fields, &arrays).unwrap(), expected);

    let missing = items(vec![vec![Event::StartStruct, text("y"), Event::I16(2), Event::EndStruct]]);
    assert_eq!(serialize(&fields, &missing).unwrap_err().kind, ErrorKind::StructuralError);
    let twice = items(vec![vec![
        Event::StartStruct,
        text("x"),
        Event::I16(1),
        text("x"),
        Event::I16(1),
        Event::EndStruct,
    ]]);
    assert_eq!(serialize(&fields, &twice).unwrap_err().kind, ErrorKind::StructuralError);
}

#[test]
fn unbalanced_streams_are_refused() {
    let fields = vec![field("item", DataType::Int32, false)];
    let events = vec![Event::StartStruct, text("item"), Event::I32(1)];
    assert_eq!(serialize(&fields, &events).unwrap_err().kind, ErrorKind::StructuralError);
    let events = vec![Event::EndStruct];
    assert_eq!(serialize(&fields, &events).unwrap_err().kind, ErrorKind::StructuralError);
}

#[test]
fn dictionary_keys_are_reused() {
    let fields = vec![field(
        "item",
        DataType::Dictionary(IntegerType::UInt32, Box::new(DataType::Utf8), false),
        false,
    )];
    let events =
        items(vec![vec![text("a")], vec![text("b")], vec![text("a")], vec![text("a")], vec![text("c")]]);
    let arrays = round_trip(&fields, &events);
    assert_eq!(
        arrays,
        vec![Array::Dictionary {
            keys: vec![0, 1, 0, 0, 2],
            validity: vec![true; 5],
            values: Box::new(Array::Binary {
                offsets: vec![0, 1, 2, 3],
                data: "abc".as_bytes().to_vec(),
                validity: vec![true; 3],
            }),
        }]
    );
}

#[test]
fn union_rows_go_to_the_child_of_their_variant() {
    let mut pair = field("Pair", DataType::Struct, false);
    pair.strategy = Some(Strategy::TupleAsStruct);
    pair.children.push(field("0", DataType::UInt32, false));
    pair.children.push(field("1", DataType::UInt32, false));
    let mut new_type = field("NewType", DataType::Struct, false);
    new_type.children.push(field("a", DataType::Float32, false));
    new_type.children.push(field("b", DataType::Float32, false));
    let mut union = field("item", DataType::Union(UnionMode::Dense), false);
    union.children.push(field("VariantWithoutData", DataType::Null, true));
    union.children.push(pair);
    union.children.push(new_type);
    let fields = vec![union];
    let one = 1.0f32.to_bits();
    let two = 2.0f32.to_bits();
    let events = items(vec![
        vec![Event::Variant("VariantWithoutData".to_string(), 0), Event::Null],
        vec![
            Event::Variant("Pair".to_string(), 1),
            Event::StartTuple,
            Event::U32(7),
            Event::U32(9),
            Event::EndTuple,
        ],
        vec![
            Event::Variant("NewType".to_string(), 2),
            Event::StartStruct,
            text("a"),
            Event::F32(one),
            text("b"),
            Event::F32(two),
            Event::EndStruct,
        ],
    ]);
    let arrays = round_trip(&fields, &events);
    assert_eq!(
        arrays,
        vec![Array::Union {
            type_codes: vec![0, 1, 2],
            offsets: vec![0, 0, 0],
            children: vec![
                Array::Null(vec![()]),
                Array::Struct {
                    children: vec![
                        Array::Primitive { values: Buffer::U32(vec![7]), validity: vec![true] },
                        Array::Primitive { values: Buffer::U32(vec![9]), validity: vec![true] },
                    ],
                    validity: vec![true],
                },
                Array::Struct {
                    children: vec![
                        Array::Primitive { values: Buffer::F32(vec![one]), validity: vec![true] },
                        Array::Primitive { values: Buffer::F32(vec![two]), validity: vec![true] },
                    ],
                    validity: vec![true],
                },
            ],
        }]
    );
    let unknown = items(vec![vec![Event::Variant("Other".to_string(), 3), Event::Null]]);
    assert_eq!(serialize(&fields, &unknown).unwrap_err().kind, ErrorKind::SchemaMismatch);
}

#[test]
fn column_lengths_equal_the_number_of_records() {
    let fields = vec![field("a", DataType::UInt8, false), field("b", DataType::Utf8, true)];
    let mut events = Vec::new();
    for i in 0..7u8 {
        events.push(Event::StartStruct);
        events.push(text("a"));
        events.push(Event::U8(i));
        if i % 2 == 0 {
            events.push(text("b"));
            events.push(text("even"));
        }
        events.push(Event::EndStruct);
    }
    let arrays = serialize(&fields, &events).unwrap();
    assert_eq!(arrays.len(), 2);
    assert_eq!(arrays[0].len(), 7);
    assert_eq!(arrays[1].len(), 7);
}

#[test]
fn mismatched_columns_are_refused() {
    let fields = vec![field("item", DataType::Int32, false)];
    let wrong_type = vec![Array::Boolean { values: vec![true], validity: vec![true] }];
    assert_eq!(deserialize(&fields, &wrong_type).unwrap_err().kind, ErrorKind::SchemaMismatch);
    let wrong_length =
        vec![Array::Primitive { values: Buffer::I32(vec![1, 2]), validity: vec![true] }];
    assert_eq!(deserialize(&fields, &wrong_length).unwrap_err().kind, ErrorKind::SchemaMismatch);
    let unsupported = vec![field("item", DataType::Float16, false)];
    assert_eq!(deserialize(&unsupported, &wrong_type).unwrap_err().kind, ErrorKind::Unsupported);
    let invalid = vec![field("item", DataType::Decimal128(39, 0), false)];
    assert_eq!(deserialize(&invalid, &wrong_type).unwrap_err().kind, ErrorKind::SchemaInvalid);
    assert_eq!(deserialize(&fields, &[]).unwrap_err().kind, ErrorKind::SchemaMismatch);
}

#[test]
fn floats_are_widened_to_the_column() {
    let samples = [
        0.0f32,
        -0.0,
        1.0,
        -2.5,
        f32::MIN_POSITIVE,
        f32::MIN_POSITIVE / 2.0,
        f32::from_bits(1),
        f32::from_bits(0x007f_ffff),
        f32::MAX,
        f32::MIN,
        f32::EPSILON,
        f32::INFINITY,
        f32::NEG_INFINITY,
        f32::NAN,
        3.1415927,
    ];
    for sample in samples {
        assert_eq!(
            serde_arrow::float::widen(sample.to_bits()),
            f64::from(sample).to_bits(),
            "{sample}"
        );
    }
    let fields = vec![field("item", DataType::Float64, false)];
    let events = items(vec![vec![Event::F32(1.5f32.to_bits())], vec![Event::F64(2.5f64.to_bits())]]);
    let arrays = serialize(&fields, &events).unwrap();
    assert_eq!(
        arrays,
        vec![Array::Primitive {
            values: Buffer::F64(vec![1.5f64.to_bits(), 2.5f64.to_bits()]),
            validity: vec![true; 2],
        }]
    );
    let narrow = vec![field("item", DataType::Float32, false)];
    let err = serialize(&narrow, &items(vec![vec![Event::F64(0)]])).unwrap_err();
    assert_eq!(err.kind, ErrorKind::SchemaMismatch);
}

#[test]
fn floats_round_trip_as_their_bit_patterns() {
    let fields = vec![field("item", DataType::Float64, true)];
    let events = items(vec![
        vec![Event::F64(0.0f64.to_bits())],
        vec![Event::F64((-0.0f64).to_bits())],
        vec![Event::F64(f64::MIN_POSITIVE.to_bits())],
        vec![Event::F64(1)],
        vec![Event::F64(f64::MAX.to_bits())],
        vec![Event::F64(f64::INFINITY.to_bits())],
        vec![Event::Null],
        vec![Event::F64(f64::NAN.to_bits())],
    ]);
    round_trip(&fields, &events);
    let fields = vec![field("item", DataType::Float32, false)];
    let events = items(vec![
        vec![Event::F32((-0.0f32).to_bits())],
        vec![Event::F32(1)],
        vec![Event::F32(f32::MIN.to_bits())],
    ]);
    round_trip(&fields, &events);
}

#[test]
fn unsigned_integers_round_trip_at_their_bounds() {
    let fields = vec![
        field("a", DataType::UInt8, false),
        field("b", DataType::UInt64, false),
        field("c", DataType::Int64, false),
        field("d", DataType::Duration(serde_arrow::schema::TimeUnit::Second), true),
    ];
    let mut events = Vec::new();
    for (a, b, c) in [(0u8, 0u64, i64::MIN), (u8::MAX, u64::MAX, i64::MAX)] {
        events.push(Event::StartStruct);
        events.push(text("a"));
        events.push(Event::U8(a));
        events.push(text("b"));
        events.push(Event::U64(b));
        events.push(text("c"));
        events.push(Event::I64(c));
        events.push(text("d"));
        events.push(Event::Null);
        events.push(Event::EndStruct);
    }
    round_trip(&fields, &events);
    let beyond = vec![Event::StartStruct, text("a"), Event::U16(256), Event::EndStruct];
    assert_eq!(serialize(&fields, &beyond).unwrap_err().kind, ErrorKind::OutOfRange);
    let negative = vec![
        Event::StartStruct,
        text("a"),
        Event::U8(0),
        text("b"),
        Event::I8(-1),
        Event::EndStruct,
    ];
    assert_eq!(serialize(&fields, &negative).unwrap_err().kind, ErrorKind::OutOfRange);
}

#[test]
fn errors_name_the_record_and_the_field() {
    let mut point = field("point", DataType::Struct, false);
    point.children.push(field("x", DataType::Int8, false));
    let fields = vec![point];
    let events = vec![
        Event::StartStruct,
        text("point"),
        Event::StartStruct,
        text("x"),
        Event::I8(1),
        Event::EndStruct,
        Event::EndStruct,
        Event::StartStruct,
        text("point"),
        Event::StartStruct,
        text("x"),
        Event::I16(300),
        Event::EndStruct,
        Event::EndStruct,
    ];
    let err = serialize(&fields, &events).unwrap_err();
    assert_eq!(err.kind, ErrorKind::OutOfRange);
    assert_eq!(
        err.to_string(),
        "Error: record 1: point: x: the number does not fit the column"
    );
}

#[test]
fn integers_are_stored_as_floats_where_they_are_exact() {
    for n in [0i64, 1, -1, 2, 3, 255, -1024, 123_456_789, (1 << 53) - 1, 1 << 53, -(1 << 53), 1 << 52] {
        assert_eq!(
            serde_arrow::float::integer_to_bits(n as i128),
            Some((n as f64).to_bits()),
            "{n}"
        );
    }
    assert_eq!(serde_arrow::float::integer_to_bits((1 << 53) + 1), None);
    let fields = vec![field("item", DataType::Float64, false)];
    let events = items(vec![vec![Event::U8(3)], vec![Event::F32(0.5f32.to_bits())]]);
    let arrays = serialize(&fields, &events).unwrap();
    assert_eq!(
        deserialize(&fields, &arrays).unwrap(),
        items(vec![vec![Event::F64(3.0f64.to_bits())], vec![Event::F64(0.5f64.to_bits())]])
    );
    let beyond = items(vec![vec![Event::U64(u64::MAX)]]);
    assert_eq!(serialize(&fields, &beyond).unwrap_err().kind, ErrorKind::OutOfRange);
}
