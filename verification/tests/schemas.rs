use serde_arrow::descriptor::{schema_from_value, strategy_from_metadata, strategy_to_metadata};
use serde_arrow::dsl::parse_data_type;
use serde_arrow::error::ErrorKind;
use serde_arrow::event::Event;
use serde_arrow::schema::{DataType, Field, IntegerType, Strategy, TimeUnit, UnionMode};
use serde_arrow::value::Value;

fn text(s: &str) -> Value {
    Value::Leaf(Event::Str(s.to_string()))
}

fn descriptor(entries: Vec<(&str, Value)>) -> Value {
    Value::Struct(entries.into_iter().map(|(key, value)| (key.to_string(), value)).collect())
}

fn parsed(s: &str) -> DataType {
    let (data_type, children) = parse_data_type(s).unwrap();
    assert!(children.is_empty());
    data_type
}

#[test]
fn data_types_are_read_from_their_names() {
    assert_eq!(parsed("Int32"), DataType::Int32);
    assert_eq!(parsed(" LargeUtf8 "), DataType::LargeUtf8);
    assert_eq!(parsed("Bool"), DataType::Bool);
    assert_eq!(parsed("Boolean"), DataType::Bool);
    assert_eq!(parsed("Map"), DataType::Mapping(false));
    assert_eq!(parsed("Union"), DataType::Union(UnionMode::Dense));
    assert_eq!(parsed("Union(Sparse)"), DataType::Union(UnionMode::Sparse));
    assert_eq!(parse_data_type("Int33").unwrap_err().kind, ErrorKind::SchemaInvalid);
    assert_eq!(parse_data_type("").unwrap_err().kind, ErrorKind::SchemaInvalid);
    assert_eq!(parse_data_type("Int32(").unwrap_err().kind, ErrorKind::SchemaInvalid);
}

#[test]
fn data_types_with_arguments_are_read() {
    assert_eq!(parsed("Decimal128(5, 2)"), DataType::Decimal128(5, 2));
    assert_eq!(parsed("Decimal128(38,-3)"), DataType::Decimal128(38, -3));
    assert_eq!(parsed("Time32(Second)"), DataType::Time32(TimeUnit::Second));
    assert_eq!(parsed("Time64( Nanosecond )"), DataType::Time64(TimeUnit::Nanosecond));
    assert_eq!(parsed("Duration(Milliseconds)"), DataType::Duration(TimeUnit::Millisecond));
    assert_eq!(
        parsed("Timestamp(Millisecond, Some(\"Utc\"))"),
        DataType::Timestamp(TimeUnit::Millisecond, Some("Utc".to_string()))
    );
    assert_eq!(
        parsed("Timestamp(Millisecond, None)"),
        DataType::Timestamp(TimeUnit::Millisecond, None)
    );
    assert_eq!(
        parsed("Dictionary(UInt32, Utf8)"),
        DataType::Dictionary(IntegerType::UInt32, Box::new(DataType::Utf8), false)
    );
    assert_eq!(parsed("FixedSizeBinary(16)"), DataType::FixedSizeBinary(16));
    for invalid in [
        "Decimal128(39, 2)",
        "Decimal128(0, 0)",
        "Decimal128(5, 6)",
        "Decimal128(5)",
        "Time32(Microsecond)",
        "Time64(Millisecond)",
        "Timestamp(Millisecond)",
        "Timestamp(Millisecond, Utc)",
        "Dictionary(Float32, Utf8)",
        "Dictionary(UInt32, List(Int8))",
        "FixedSizeBinary(0)",
        "FixedSizeBinary(x)",
        "Union(Other)",
    ] {
        assert_eq!(parse_data_type(invalid).unwrap_err().kind, ErrorKind::SchemaInvalid, "{invalid}");
    }
}

#[test]
fn lists_carry_their_item_inline() {
    let (data_type, children) = parse_data_type("List(LargeList(Int32))").unwrap();
    assert_eq!(data_type, DataType::List);
    assert_eq!(children.len(), 1);
    assert_eq!(children[0].name, "item");
    assert_eq!(children[0].data_type, DataType::LargeList);
    assert_eq!(children[0].children[0].data_type, DataType::Int32);
    assert_eq!(parse_data_type("List(Unknown)").unwrap_err().kind, ErrorKind::SchemaInvalid);
}

#[test]
fn schemas_are_read_from_descriptors() {
    let value = Value::Sequence(vec![
        descriptor(vec![("name", text("a")), ("data_type", text("UInt8"))]),
        descriptor(vec![
            ("data_type", text("Struct")),
            ("nullable", Value::Leaf(Event::Bool(true))),
            ("name", text("b")),
            (
                "children",
                Value::Sequence(vec![descriptor(vec![
                    ("name", text("c")),
                    ("data_type", text("Date64")),
                    ("strategy", text("NaiveStrAsDate64")),
                    ("metadata", descriptor(vec![("origin", text("test"))])),
                ])]),
            ),
        ]),
    ]);
    let schema = schema_from_value(&value).unwrap();
    assert_eq!(schema.len(), 2);
    assert_eq!(schema[0], Field::new("a", DataType::UInt8, false));
    assert_eq!(schema[1].name, "b");
    assert!(schema[1].nullable);
    let child = &schema[1].children[0];
    assert_eq!(child.strategy, Some(Strategy::NaiveStrAsDate64));
    assert_eq!(child.metadata, vec![("origin".to_string(), "test".to_string())]);
}

#[test]
fn malformed_descriptors_are_refused() {
    let invalid = [
        descriptor(vec![("name", text("a"))]),
        descriptor(vec![("data_type", text("Int8"))]),
        descriptor(vec![("name", text("a")), ("data_type", text("Int8")), ("nullable", text("yes"))]),
        descriptor(vec![("name", text("a")), ("data_type", text("Int8")), ("strategy", text("Other"))]),
        descriptor(vec![("name", text("a")), ("data_type", text("List"))]),
        descriptor(vec![
            ("name", text("a")),
            ("data_type", text("Int8")),
            ("strategy", text("TupleAsStruct")),
        ]),
        descriptor(vec![
            ("name", text("a")),
            ("data_type", text("List(Int8)")),
            ("children", Value::Sequence(vec![])),
        ]),
        text("a"),
    ];
    for value in invalid {
        let err = schema_from_value(&Value::Sequence(vec![value])).unwrap_err();
        assert_eq!(err.kind, ErrorKind::SchemaInvalid);
    }
    assert_eq!(schema_from_value(&text("a")).unwrap_err().kind, ErrorKind::SchemaInvalid);
}

#[test]
fn strategies_are_named_in_metadata() {
    let entry = strategy_to_metadata(Strategy::MapAsStruct);
    assert_eq!(entry, ("SERDE_ARROW:strategy".to_string(), "MapAsStruct".to_string()));
    let metadata = vec![("other".to_string(), "x".to_string()), entry];
    assert_eq!(strategy_from_metadata(&metadata).unwrap(), Some(Strategy::MapAsStruct));
    assert_eq!(strategy_from_metadata(&metadata[..1].to_vec()).unwrap(), None);
    let wrong = vec![("SERDE_ARROW:strategy".to_string(), "x".to_string())];
    assert_eq!(strategy_from_metadata(&wrong).unwrap_err().kind, ErrorKind::SchemaInvalid);
}
