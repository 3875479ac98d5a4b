//! Schema tracing: inferring the fields of a schema from sample records.
use vstd::prelude::*;
use crate::builders::{all_keys_named, key_name, keys_are_names};
use crate::decimal::{natural_digits, push_natural};
use crate::parser::{parse_all, parse_events};
use crate::event::events_view;
use crate::value::{entries_view, fields_view, lemma_view_parts, values_view, Value};
use crate::error::{Error, ErrorKind};
use crate::event::{Event, EventView};
use crate::schema::{
    fields_model, lemma_children_model, DataType, DataTypeView, Field, FieldView, IntegerType,
    Strategy, UnionMode,
};
use crate::temporal::parse_millis;
use crate::value::ValueView;

verus! {

/// What the tracer may assume of the samples.
#[derive(Clone, Copy, Debug, PartialEq, Eq, Structural)]
pub struct TracingOptions {
    /// Strings that spell a date and a time are traced as instants.
    pub guess_dates: bool,
    /// Strings are traced as dictionary-encoded columns.
    pub string_dictionary_encoding: bool,
    /// Maps with string keys are traced as structs.
    pub map_as_struct: bool,
    /// Fields of which no value was seen are nullable.
    pub allow_null_fields: bool,
    /// Numbers of different kinds are traced as 64-bit floats.
    pub coerce_numbers: bool,
}

impl TracingOptions {
    /// The options with nothing set.
    pub fn new() -> (options: TracingOptions)
        ensures
            options == (TracingOptions {
                guess_dates: false,
                string_dictionary_encoding: false,
                map_as_struct: false,
                allow_null_fields: false,
                coerce_numbers: false,
            }),
    {
        TracingOptions {
            guess_dates: false,
            string_dictionary_encoding: false,
            map_as_struct: false,
            allow_null_fields: false,
            coerce_numbers: false,
        }
    }

    /// The options with the guessing of dates set to `value`.
    pub fn guess_dates(self, value: bool) -> (options: TracingOptions)
        ensures
            options == (TracingOptions { guess_dates: value, ..self }),
    {
        TracingOptions { guess_dates: value, ..self }
    }

    /// The options with the dictionary encoding of strings set to `value`.
    pub fn string_dictionary_encoding(self, value: bool) -> (options: TracingOptions)
        ensures
            options == (TracingOptions { string_dictionary_encoding: value, ..self }),
    {
        TracingOptions { string_dictionary_encoding: value, ..self }
    }

    /// The options with the tracing of maps as structs set to `value`.
    pub fn map_as_struct(self, value: bool) -> (options: TracingOptions)
        ensures
            options == (TracingOptions { map_as_struct: value, ..self }),
    {
        TracingOptions { map_as_struct: value, ..self }
    }

    /// The options with the allowing of fields without values set to `value`.
    pub fn allow_null_fields(self, value: bool) -> (options: TracingOptions)
        ensures
            options == (TracingOptions { allow_null_fields: value, ..self }),
    {
        TracingOptions { allow_null_fields: value, ..self }
    }

    /// The options with the coercion of numbers set to `value`.
    pub fn coerce_numbers(self, value: bool) -> (options: TracingOptions)
        ensures
            options == (TracingOptions { coerce_numbers: value, ..self }),
    {
        TracingOptions { coerce_numbers: value, ..self }
    }
}

impl Default for TracingOptions {
    fn default() -> (options: TracingOptions)
        ensures
            options == (TracingOptions {
                guess_dates: false,
                string_dictionary_encoding: false,
                map_as_struct: false,
                allow_null_fields: false,
                coerce_numbers: false,
            }),
    {
        TracingOptions::new()
    }
}

/// The name of the child of a traced list.
pub open spec fn element_name() -> Seq<char> {
    seq!['i', 't', 'e', 'm']
}

/// The name of the child of a traced map.
pub open spec fn entries_name() -> Seq<char> {
    seq!['e', 'n', 't', 'r', 'i', 'e', 's']
}

/// The name of the keys of a traced map.
pub open spec fn keys_name() -> Seq<char> {
    seq!['k', 'e', 'y', 's']
}

/// The name of the values of a traced map.
pub open spec fn values_name() -> Seq<char> {
    seq!['v', 'a', 'l', 'u', 'e', 's']
}

/// A field of which no value was seen yet.
pub open spec fn unknown(name: Seq<char>, nullable: bool) -> FieldView {
    FieldView {
        name,
        data_type: DataTypeView::Null,
        nullable,
        strategy: None,
        children: Seq::empty(),
    }
}

/// A field without children that is not nullable.
pub open spec fn leaf(name: Seq<char>, data_type: DataTypeView, strategy: Option<Strategy>) -> FieldView {
    FieldView { name, data_type, nullable: false, strategy, children: Seq::empty() }
}

/// A field with children that is not nullable.
pub open spec fn node(
    name: Seq<char>,
    data_type: DataTypeView,
    strategy: Option<Strategy>,
    children: Seq<FieldView>,
) -> FieldView {
    FieldView { name, data_type, nullable: false, strategy, children }
}

/// The type of dictionary-encoded strings.
pub open spec fn dictionary_type() -> DataTypeView {
    DataTypeView::Dictionary(IntegerType::UInt32, Box::new(DataTypeView::Utf8), false)
}

/// The type that strings are traced as, where they are not taken for dates.
pub open spec fn plain_text(options: TracingOptions) -> DataTypeView {
    if options.string_dictionary_encoding {
        dictionary_type()
    } else {
        DataTypeView::LargeUtf8
    }
}

/// The field that a string is traced as: an instant where dates are guessed
/// and the string spells a date and a time, with or without a trailing `Z`.
pub open spec fn text_field(name: Seq<char>, text: Seq<char>, options: TracingOptions) -> FieldView {
    if options.guess_dates && parse_millis(text, true) is Some {
        leaf(name, DataTypeView::Date64, Some(Strategy::UtcStrAsDate64))
    } else if options.guess_dates && parse_millis(text, false) is Some {
        leaf(name, DataTypeView::Date64, Some(Strategy::NaiveStrAsDate64))
    } else {
        leaf(name, plain_text(options), None)
    }
}

/// The field that a scalar is traced as. A null and a default tell nothing
/// of the type; a null makes the field nullable.
pub open spec fn scalar_field(name: Seq<char>, event: EventView, options: TracingOptions) -> Result<
    FieldView,
    ErrorKind,
> {
    match event {
        EventView::Null => Ok(unknown(name, true)),
        EventView::Default => Ok(unknown(name, false)),
        EventView::Bool(_) => Ok(leaf(name, DataTypeView::Bool, None)),
        EventView::I8(_) => Ok(leaf(name, DataTypeView::Int8, None)),
        EventView::I16(_) => Ok(leaf(name, DataTypeView::Int16, None)),
        EventView::I32(_) => Ok(leaf(name, DataTypeView::Int32, None)),
        EventView::I64(_) => Ok(leaf(name, DataTypeView::Int64, None)),
        EventView::U8(_) => Ok(leaf(name, DataTypeView::UInt8, None)),
        EventView::U16(_) => Ok(leaf(name, DataTypeView::UInt16, None)),
        EventView::U32(_) => Ok(leaf(name, DataTypeView::UInt32, None)),
        EventView::U64(_) => Ok(leaf(name, DataTypeView::UInt64, None)),
        EventView::F32(_) => Ok(leaf(name, DataTypeView::Float32, None)),
        EventView::F64(_) => Ok(leaf(name, DataTypeView::Float64, None)),
        EventView::Str(text) => Ok(text_field(name, text, options)),
        EventView::Bytes(_) => Ok(leaf(name, DataTypeView::LargeBinary, None)),
        _ => Err(ErrorKind::StructuralError),
    }
}

/// The kinds of numbers.
#[derive(Clone, Copy, Debug, PartialEq, Eq, Structural)]
pub enum NumberKind {
    Signed,
    Unsigned,
    Float,
}

/// The kind and the width in bits of a number type.
pub open spec fn number_class(data_type: DataTypeView) -> Option<(NumberKind, u8)> {
    match data_type {
        DataTypeView::Int8 => Some((NumberKind::Signed, 8u8)),
        DataTypeView::Int16 => Some((NumberKind::Signed, 16u8)),
        DataTypeView::Int32 => Some((NumberKind::Signed, 32u8)),
        DataTypeView::Int64 => Some((NumberKind::Signed, 64u8)),
        DataTypeView::UInt8 => Some((NumberKind::Unsigned, 8u8)),
        DataTypeView::UInt16 => Some((NumberKind::Unsigned, 16u8)),
        DataTypeView::UInt32 => Some((NumberKind::Unsigned, 32u8)),
        DataTypeView::UInt64 => Some((NumberKind::Unsigned, 64u8)),
        DataTypeView::Float32 => Some((NumberKind::Float, 32u8)),
        DataTypeView::Float64 => Some((NumberKind::Float, 64u8)),
        _ => None,
    }
}

/// The number type of a kind and a width.
pub open spec fn number_type(kind: NumberKind, width: u8) -> DataTypeView {
    match kind {
        NumberKind::Signed => if width <= 8 {
            DataTypeView::Int8
        } else if width <= 16 {
            DataTypeView::Int16
        } else if width <= 32 {
            DataTypeView::Int32
        } else {
            DataTypeView::Int64
        },
        NumberKind::Unsigned => if width <= 8 {
            DataTypeView::UInt8
        } else if width <= 16 {
            DataTypeView::UInt16
        } else if width <= 32 {
            DataTypeView::UInt32
        } else {
            DataTypeView::UInt64
        },
        NumberKind::Float => if width <= 32 {
            DataTypeView::Float32
        } else {
            DataTypeView::Float64
        },
    }
}

/// The number type that holds the numbers of two types: the wider of two of
/// one kind; for two of different kinds the 64-bit float where numbers are
/// coerced, and none where they are not.
pub open spec fn number_join(a: (NumberKind, u8), b: (NumberKind, u8), coerce: bool) -> Option<
    DataTypeView,
> {
    if a.0 == b.0 {
        Some(
            number_type(
                a.0,
                if a.1 >= b.1 {
                    a.1
                } else {
                    b.1
                },
            ),
        )
    } else if coerce {
        Some(DataTypeView::Float64)
    } else {
        None
    }
}

/// The forms in which strings are traced.
#[derive(Clone, Copy, Debug, PartialEq, Eq, Structural)]
pub enum TextKind {
    Plain,
    Dictionary,
    UtcDate,
    NaiveDate,
}

/// The form of a traced string field, where the field is one.
pub open spec fn text_class(field: FieldView) -> Option<TextKind> {
    match (field.data_type, field.strategy) {
        (DataTypeView::LargeUtf8, None) => Some(TextKind::Plain),
        (DataTypeView::Dictionary(_, _, _), None) => Some(TextKind::Dictionary),
        (DataTypeView::Date64, Some(Strategy::UtcStrAsDate64)) => Some(TextKind::UtcDate),
        (DataTypeView::Date64, Some(Strategy::NaiveStrAsDate64)) => Some(TextKind::NaiveDate),
        _ => None,
    }
}

/// The types without numbers and strings that the tracer tells apart.
#[derive(Clone, Copy, Debug, PartialEq, Eq, Structural)]
pub enum ShapeKind {
    Bool,
    Bytes,
    List,
    Struct,
    Union,
    Mapping,
}

/// The shape of a traced type that is neither a number nor a string.
pub open spec fn shape_class(data_type: DataTypeView) -> Option<ShapeKind> {
    match data_type {
        DataTypeView::Bool => Some(ShapeKind::Bool),
        DataTypeView::LargeBinary => Some(ShapeKind::Bytes),
        DataTypeView::LargeList => Some(ShapeKind::List),
        DataTypeView::Struct => Some(ShapeKind::Struct),
        DataTypeView::Union(_) => Some(ShapeKind::Union),
        DataTypeView::Mapping(_) => Some(ShapeKind::Mapping),
        _ => None,
    }
}

/// The first field from `from` on that has the given name.
pub open spec fn first_with_name(fields: Seq<FieldView>, name: Seq<char>, from: int) -> Option<int>
    decreases fields.len() - from,
{
    if from < 0 || from >= fields.len() {
        None
    } else if fields[from].name == name {
        Some(from)
    } else {
        first_with_name(fields, name, from + 1)
    }
}

/// The field with another nullability.
pub open spec fn with_nullable(field: FieldView, nullable: bool) -> FieldView {
    FieldView { nullable, ..field }
}

/// The field that describes what the two fields describe, where there is one.
///
/// The place of a variant that was not seen yields to the other field as it
/// is. Else the result is nullable where one of the two is. A field of which
/// no value was seen yields to the other. Numbers join as `number_join` tells.
/// Strings in two different forms become plain strings, or dictionary-encoded
/// strings where one of the forms is that. Lists join their children, tuples
/// of one length their children by position, unions their variants by
/// position. Structs and maps join their children by name; a child that only
/// one of the two has becomes nullable. Anything else is a `SchemaMismatch`.
pub open spec fn unify(a: FieldView, b: FieldView, options: TracingOptions) -> Result<
    FieldView,
    ErrorKind,
>
    decreases a, 0nat,
{
    let nullable = a.nullable || b.nullable;
    if a.strategy == Some(Strategy::UnknownVariant) {
        Ok(b)
    } else if b.strategy == Some(Strategy::UnknownVariant) {
        Ok(a)
    } else if a.data_type == DataTypeView::Null {
        Ok(with_nullable(b, nullable))
    } else if b.data_type == DataTypeView::Null {
        Ok(with_nullable(a, nullable))
    } else if number_class(a.data_type) is Some && number_class(b.data_type) is Some {
        match number_join(
            number_class(a.data_type)->0,
            number_class(b.data_type)->0,
            options.coerce_numbers,
        ) {
            Some(data_type) => Ok(with_nullable(leaf(a.name, data_type, None), nullable)),
            None => Err(ErrorKind::SchemaMismatch),
        }
    } else if text_class(a) is Some && text_class(b) is Some {
        if text_class(a) == text_class(b) {
            Ok(with_nullable(a, nullable))
        } else if text_class(a) == Some(TextKind::Dictionary) || text_class(b) == Some(
            TextKind::Dictionary,
        ) {
            Ok(with_nullable(leaf(a.name, dictionary_type(), None), nullable))
        } else {
            Ok(with_nullable(leaf(a.name, DataTypeView::LargeUtf8, None), nullable))
        }
    } else if shape_class(a.data_type) != shape_class(b.data_type) || a.strategy != b.strategy {
        Err(ErrorKind::SchemaMismatch)
    } else {
        match a.data_type {
            DataTypeView::Bool | DataTypeView::LargeBinary => Ok(with_nullable(a, nullable)),
            DataTypeView::LargeList | DataTypeView::Mapping(_) => if a.children.len() == 1
                && b.children.len() == 1 {
                match unify(a.children[0], b.children[0], options) {
                    Ok(child) => Ok(
                        with_nullable(
                            node(a.name, a.data_type, a.strategy, seq![child]),
                            nullable,
                        ),
                    ),
                    Err(kind) => Err(kind),
                }
            } else {
                Err(ErrorKind::SchemaMismatch)
            },
            DataTypeView::Union(_) => match unify_by_position(
                a.children,
                b.children,
                options,
                if a.children.len() >= b.children.len() {
                    a.children.len()
                } else {
                    b.children.len()
                },
            ) {
                Ok(children) => Ok(
                    with_nullable(node(a.name, a.data_type, a.strategy, children), nullable),
                ),
                Err(kind) => Err(kind),
            },
            DataTypeView::Struct => if a.strategy == Some(Strategy::TupleAsStruct) {
                if a.children.len() == b.children.len() {
                    match unify_by_position(a.children, b.children, options, a.children.len()) {
                        Ok(children) => Ok(
                            with_nullable(
                                node(a.name, a.data_type, a.strategy, children),
                                nullable,
                            ),
                        ),
                        Err(kind) => Err(kind),
                    }
                } else {
                    Err(ErrorKind::SchemaMismatch)
                }
            } else {
                match unify_by_name(a.children, b.children, options, a.children.len()) {
                    Ok(children) => Ok(
                        with_nullable(
                            node(
                                a.name,
                                a.data_type,
                                a.strategy,
                                children + only_in_second(a.children, b.children, b.children.len()),
                            ),
                            nullable,
                        ),
                    ),
                    Err(kind) => Err(kind),
                }
            },
            _ => Err(ErrorKind::SchemaMismatch),
        }
    }
}

/// The first `upto` places of the two lists of fields, joined place by
/// place; at a place that only one list has, the field of that list.
pub open spec fn unify_by_position(
    xs: Seq<FieldView>,
    ys: Seq<FieldView>,
    options: TracingOptions,
    upto: nat,
) -> Result<Seq<FieldView>, ErrorKind>
    decreases xs, upto,
{
    if upto == 0 {
        Ok(Seq::empty())
    } else {
        match unify_by_position(xs, ys, options, (upto - 1) as nat) {
            Ok(done) => {
                let k = upto - 1;
                if k < xs.len() && k < ys.len() {
                    match unify(xs[k], ys[k], options) {
                        Ok(field) => Ok(done.push(field)),
                        Err(kind) => Err(kind),
                    }
                } else if k < xs.len() {
                    Ok(done.push(xs[k]))
                } else if k < ys.len() {
                    Ok(done.push(ys[k]))
                } else {
                    Ok(done)
                }
            },
            Err(kind) => Err(kind),
        }
    }
}

/// The first `upto` fields of the first list, each joined with the first
/// field of its name in the second list, or nullable where there is none.
pub open spec fn unify_by_name(
    xs: Seq<FieldView>,
    ys: Seq<FieldView>,
    options: TracingOptions,
    upto: nat,
) -> Result<Seq<FieldView>, ErrorKind>
    decreases xs, upto,
{
    if upto == 0 || upto > xs.len() {
        Ok(Seq::empty())
    } else {
        match unify_by_name(xs, ys, options, (upto - 1) as nat) {
            Ok(done) => {
                let x = xs[upto - 1];
                match first_with_name(ys, x.name, 0) {
                    Some(at) => match unify(x, ys[at], options) {
                        Ok(field) => Ok(done.push(field)),
                        Err(kind) => Err(kind),
                    },
                    None => Ok(done.push(with_nullable(x, true))),
                }
            },
            Err(kind) => Err(kind),
        }
    }
}

/// Those of the first `upto` fields of the second list whose name no field
/// of the first list has, made nullable.
pub open spec fn only_in_second(xs: Seq<FieldView>, ys: Seq<FieldView>, upto: nat) -> Seq<FieldView>
    decreases upto,
{
    if upto == 0 || upto > ys.len() {
        Seq::empty()
    } else {
        let done = only_in_second(xs, ys, (upto - 1) as nat);
        let y = ys[upto - 1];
        if first_with_name(xs, y.name, 0) is None {
            done.push(with_nullable(y, true))
        } else {
            done
        }
    }
}

/// The kind and the width in bits of a number type.
pub fn number_class_of(data_type: &DataType) -> (class: Option<(NumberKind, u8)>)
    ensures
        class == number_class(data_type@),
{
    match data_type {
        DataType::Int8 => Some((NumberKind::Signed, 8)),
        DataType::Int16 => Some((NumberKind::Signed, 16)),
        DataType::Int32 => Some((NumberKind::Signed, 32)),
        DataType::Int64 => Some((NumberKind::Signed, 64)),
        DataType::UInt8 => Some((NumberKind::Unsigned, 8)),
        DataType::UInt16 => Some((NumberKind::Unsigned, 16)),
        DataType::UInt32 => Some((NumberKind::Unsigned, 32)),
        DataType::UInt64 => Some((NumberKind::Unsigned, 64)),
        DataType::Float32 => Some((NumberKind::Float, 32)),
        DataType::Float64 => Some((NumberKind::Float, 64)),
        _ => None,
    }
}

/// The number type of a kind and a width.
pub fn number_type_of(kind: NumberKind, width: u8) -> (data_type: DataType)
    ensures
        data_type@ == number_type(kind, width),
{
    match kind {
        NumberKind::Signed => if width <= 8 {
            DataType::Int8
        } else if width <= 16 {
            DataType::Int16
        } else if width <= 32 {
            DataType::Int32
        } else {
            DataType::Int64
        },
        NumberKind::Unsigned => if width <= 8 {
            DataType::UInt8
        } else if width <= 16 {
            DataType::UInt16
        } else if width <= 32 {
            DataType::UInt32
        } else {
            DataType::UInt64
        },
        NumberKind::Float => if width <= 32 {
            DataType::Float32
        } else {
            DataType::Float64
        },
    }
}

/// The form of a traced string field, where the field is one.
pub fn text_class_of(field: &Field) -> (class: Option<TextKind>)
    ensures
        class == text_class(field@),
{
    match (&field.data_type, field.strategy) {
        (DataType::LargeUtf8, None) => Some(TextKind::Plain),
        (DataType::Dictionary(_, _, _), None) => Some(TextKind::Dictionary),
        (DataType::Date64, Some(Strategy::UtcStrAsDate64)) => Some(TextKind::UtcDate),
        (DataType::Date64, Some(Strategy::NaiveStrAsDate64)) => Some(TextKind::NaiveDate),
        _ => None,
    }
}

/// The shape of a traced type that is neither a number nor a string.
pub fn shape_class_of(data_type: &DataType) -> (class: Option<ShapeKind>)
    ensures
        class == shape_class(data_type@),
{
    match data_type {
        DataType::Bool => Some(ShapeKind::Bool),
        DataType::LargeBinary => Some(ShapeKind::Bytes),
        DataType::LargeList => Some(ShapeKind::List),
        DataType::Struct => Some(ShapeKind::Struct),
        DataType::Union(_) => Some(ShapeKind::Union),
        DataType::Mapping(_) => Some(ShapeKind::Mapping),
        _ => None,
    }
}

/// Tells whether two strategies are the same.
pub fn same_strategy(a: Option<Strategy>, b: Option<Strategy>) -> (same: bool)
    ensures
        same == (a == b),
{
    match (a, b) {
        (None, None) => true,
        (Some(x), Some(y)) => x == y,
        _ => false,
    }
}

/// The type of dictionary-encoded strings.
pub fn dictionary() -> (data_type: DataType)
    ensures
        data_type@ == dictionary_type(),
{
    proof {
        reveal_with_fuel(DataType::model, 2);
    }
    DataType::Dictionary(IntegerType::UInt32, Box::new(DataType::Utf8), false)
}

/// A field without metadata.
pub fn make_field(
    name: String,
    data_type: DataType,
    nullable: bool,
    strategy: Option<Strategy>,
    children: Vec<Field>,
) -> (field: Field)
    ensures
        field@ == (FieldView {
            name: name@,
            data_type: data_type@,
            nullable,
            strategy,
            children: fields_model(children@),
        }),
        field.metadata@.len() == 0,
{
    let field = Field { name, data_type, nullable, strategy, metadata: Vec::new(), children };
    proof {
        lemma_children_model(field);
    }
    field
}

/// A field without children and metadata.
pub fn make_leaf(name: String, data_type: DataType, nullable: bool, strategy: Option<Strategy>) -> (field:
    Field)
    ensures
        field@ == with_nullable(leaf(name@, data_type@, strategy), nullable),
        field.metadata@.len() == 0,
{
    let children: Vec<Field> = Vec::new();
    assert(fields_model(children@) =~= Seq::<FieldView>::empty());
    make_field(name, data_type, nullable, strategy, children)
}

/// A copy of the field with another nullability.
pub fn copy_with_nullable(field: &Field, nullable: bool) -> (copy: Field)
    ensures
        copy@ == with_nullable(field@, nullable),
        copy.metadata@.len() == 0,
{
    let mut copy = field.duplicate();
    proof {
        lemma_children_model(copy);
    }
    copy.nullable = nullable;
    proof {
        lemma_children_model(copy);
    }
    copy
}

/// The first field from `from` on that has the given name.
pub fn find_field(fields: &Vec<Field>, name: &String, from: usize) -> (r: Option<usize>)
    ensures
        match r {
            Some(at) => first_with_name(fields_model(fields@), name@, from as int) == Some(
                at as int,
            ) && from <= at < fields@.len(),
            None => first_with_name(fields_model(fields@), name@, from as int) is None,
        },
{
    let n: usize = fields.len();
    let mut i: usize = from;
    while i < n
        invariant
            from <= i,
            n == fields@.len(),
            first_with_name(fields_model(fields@), name@, from as int) == first_with_name(
                fields_model(fields@),
                name@,
                i as int,
            ),
        decreases n - i,
    {
        if fields[i].name == *name {
            return Some(i);
        }
        i += 1;
    }
    None
}

/// A failure to join among the first places is the failure of all places.
pub proof fn lemma_unify_by_position_error(
    xs: Seq<FieldView>,
    ys: Seq<FieldView>,
    options: TracingOptions,
    upto: nat,
    all: nat,
)
    requires
        upto <= all,
        unify_by_position(xs, ys, options, upto) is Err,
    ensures
        unify_by_position(xs, ys, options, all) == unify_by_position(xs, ys, options, upto),
    decreases all - upto,
{
    if upto < all {
        lemma_unify_by_position_error(xs, ys, options, upto + 1, all);
    }
}

/// A failure to join among the first fields is the failure of all fields.
pub proof fn lemma_unify_by_name_error(
    xs: Seq<FieldView>,
    ys: Seq<FieldView>,
    options: TracingOptions,
    upto: nat,
)
    requires
        upto <= xs.len(),
        unify_by_name(xs, ys, options, upto) is Err,
    ensures
        unify_by_name(xs, ys, options, xs.len()) == unify_by_name(xs, ys, options, upto),
    decreases xs.len() - upto,
{
    if upto < xs.len() {
        lemma_unify_by_name_error(xs, ys, options, upto + 1);
    }
}

/// What joining two fields reports, against what the rules give.
pub open spec fn joined(expected: Result<FieldView, ErrorKind>, r: Result<Field, Error>) -> bool {
    match r {
        Ok(field) => expected == Ok::<FieldView, ErrorKind>(field@),
        Err(e) => expected == Err::<FieldView, ErrorKind>(e.kind),
    }
}

/// What joining two lists of fields reports, against what the rules give.
pub open spec fn joined_all(
    expected: Result<Seq<FieldView>, ErrorKind>,
    r: Result<Vec<Field>, Error>,
) -> bool {
    match r {
        Ok(fields) => expected == Ok::<Seq<FieldView>, ErrorKind>(fields_model(fields@)),
        Err(e) => expected == Err::<Seq<FieldView>, ErrorKind>(e.kind),
    }
}

/// Joins two fields that describe the same values.
pub fn unify_fields(a: &Field, b: &Field, options: &TracingOptions) -> (r: Result<Field, Error>)
    ensures
        joined(unify(a@, b@, *options), r),
    decreases *a, 0nat,
{
    proof {
        lemma_children_model(*a);
        lemma_children_model(*b);
    }
    let nullable = a.nullable || b.nullable;
    if matches!(a.strategy, Some(Strategy::UnknownVariant)) {
        return Ok(b.duplicate());
    }
    if matches!(b.strategy, Some(Strategy::UnknownVariant)) {
        return Ok(a.duplicate());
    }
    if matches!(a.data_type, DataType::Null) {
        return Ok(copy_with_nullable(b, nullable));
    }
    if matches!(b.data_type, DataType::Null) {
        return Ok(copy_with_nullable(a, nullable));
    }
    match (number_class_of(&a.data_type), number_class_of(&b.data_type)) {
        (Some(x), Some(y)) => {
            if matches!(x.0, NumberKind::Signed) && matches!(y.0, NumberKind::Signed) || matches!(
                x.0,
                NumberKind::Unsigned
            ) && matches!(y.0, NumberKind::Unsigned) || matches!(x.0, NumberKind::Float)
                && matches!(y.0, NumberKind::Float) {
                let width = if x.1 >= y.1 {
                    x.1
                } else {
                    y.1
                };
                return Ok(make_leaf(a.name.clone(), number_type_of(x.0, width), nullable, None));
            } else if options.coerce_numbers {
                return Ok(make_leaf(a.name.clone(), DataType::Float64, nullable, None));
            } else {
                return Err(Error::new(ErrorKind::SchemaMismatch, "numbers of different kinds"));
            }
        },
        _ => {},
    }
    match (text_class_of(a), text_class_of(b)) {
        (Some(x), Some(y)) => {
            if x == y {
                return Ok(copy_with_nullable(a, nullable));
            } else if matches!(x, TextKind::Dictionary) || matches!(y, TextKind::Dictionary) {
                return Ok(make_leaf(a.name.clone(), dictionary(), nullable, None));
            } else {
                return Ok(make_leaf(a.name.clone(), DataType::LargeUtf8, nullable, None));
            }
        },
        _ => {},
    }
    let shape = match (shape_class_of(&a.data_type), shape_class_of(&b.data_type)) {
        (Some(x), Some(y)) => {
            if x == y && same_strategy(a.strategy, b.strategy) {
                x
            } else {
                return Err(Error::new(ErrorKind::SchemaMismatch, "values of different types"));
            }
        },
        (None, None) => {
            if same_strategy(a.strategy, b.strategy) {
                return Err(Error::new(ErrorKind::SchemaMismatch, "values of an untraced type"));
            } else {
                return Err(Error::new(ErrorKind::SchemaMismatch, "values of different types"));
            }
        },
        _ => {
            return Err(Error::new(ErrorKind::SchemaMismatch, "values of different types"));
        },
    };
    match shape {
        ShapeKind::Bool | ShapeKind::Bytes => Ok(copy_with_nullable(a, nullable)),
        ShapeKind::List | ShapeKind::Mapping => {
            if a.children.len() == 1 && b.children.len() == 1 {
                match unify_fields(&a.children[0], &b.children[0], options) {
                    Ok(child) => {
                        let mut children: Vec<Field> = Vec::new();
                        children.push(child);
                        assert(fields_model(children@) =~= seq![child@]);
                        Ok(
                            make_field(
                                a.name.clone(),
                                a.data_type.duplicate(),
                                nullable,
                                a.strategy,
                                children,
                            ),
                        )
                    },
                    Err(e) => Err(e),
                }
            } else {
                Err(Error::new(ErrorKind::SchemaMismatch, "expected one child"))
            }
        },
        ShapeKind::Union => {
            let places = if a.children.len() >= b.children.len() {
                a.children.len()
            } else {
                b.children.len()
            };
            match unify_positions(&a.children, &b.children, options, places) {
                Ok(children) => Ok(
                    make_field(
                        a.name.clone(),
                        a.data_type.duplicate(),
                        nullable,
                        a.strategy,
                        children,
                    ),
                ),
                Err(e) => Err(e),
            }
        },
        ShapeKind::Struct => {
            if matches!(a.strategy, Some(Strategy::TupleAsStruct)) {
                if a.children.len() != b.children.len() {
                    return Err(Error::new(ErrorKind::SchemaMismatch, "tuples of different lengths"));
                }
                match unify_positions(&a.children, &b.children, options, a.children.len()) {
                    Ok(children) => Ok(
                        make_field(
                            a.name.clone(),
                            a.data_type.duplicate(),
                            nullable,
                            a.strategy,
                            children,
                        ),
                    ),
                    Err(e) => Err(e),
                }
            } else {
                match unify_names(&a.children, &b.children, options) {
                    Ok(mut children) => {
                        let mut others = missing_in_first(&a.children, &b.children);
                        let ghost first = fields_model(children@);
                        let ghost second = fields_model(others@);
                        children.append(&mut others);
                        assert(fields_model(children@) =~= first + second);
                        Ok(
                            make_field(
                                a.name.clone(),
                                a.data_type.duplicate(),
                                nullable,
                                a.strategy,
                                children,
                            ),
                        )
                    },
                    Err(e) => Err(e),
                }
            }
        },
    }
}

/// Joins the first `upto` places of two lists of fields, place by place.
pub fn unify_positions(xs: &Vec<Field>, ys: &Vec<Field>, options: &TracingOptions, upto: usize) -> (r:
    Result<Vec<Field>, Error>)
    ensures
        joined_all(
            unify_by_position(fields_model(xs@), fields_model(ys@), *options, upto as nat),
            r,
        ),
    decreases *xs, 1nat,
{
    let mut out: Vec<Field> = Vec::new();
    let mut k: usize = 0;
    assert(fields_model(out@) =~= Seq::<FieldView>::empty());
    while k < upto
        invariant
            k <= upto,
            unify_by_position(fields_model(xs@), fields_model(ys@), *options, k as nat) == Ok::<
                Seq<FieldView>,
                ErrorKind,
            >(fields_model(out@)),
        decreases upto - k,
    {
        let ghost before = fields_model(out@);
        if k < xs.len() && k < ys.len() {
            match unify_fields(&xs[k], &ys[k], options) {
                Ok(field) => {
                    out.push(field);
                    assert(fields_model(out@) =~= before.push(field@));
                },
                Err(e) => {
                    proof {
                        lemma_unify_by_position_error(
                            fields_model(xs@),
                            fields_model(ys@),
                            *options,
                            (k + 1) as nat,
                            upto as nat,
                        );
                    }
                    return Err(e);
                },
            }
        } else if k < xs.len() {
            let field = xs[k].duplicate();
            out.push(field);
            assert(fields_model(out@) =~= before.push(field@));
        } else if k < ys.len() {
            let field = ys[k].duplicate();
            out.push(field);
            assert(fields_model(out@) =~= before.push(field@));
        }
        k += 1;
    }
    Ok(out)
}

/// Joins each field of the first list with the first field of its name in
/// the second list.
pub fn unify_names(xs: &Vec<Field>, ys: &Vec<Field>, options: &TracingOptions) -> (r: Result<
    Vec<Field>,
    Error,
>)
    ensures
        joined_all(
            unify_by_name(fields_model(xs@), fields_model(ys@), *options, xs@.len()),
            r,
        ),
    decreases *xs, 1nat,
{
    let n: usize = xs.len();
    let mut out: Vec<Field> = Vec::new();
    let mut k: usize = 0;
    assert(fields_model(out@) =~= Seq::<FieldView>::empty());
    while k < n
        invariant
            k <= n,
            n == xs@.len(),
            unify_by_name(fields_model(xs@), fields_model(ys@), *options, k as nat) == Ok::<
                Seq<FieldView>,
                ErrorKind,
            >(fields_model(out@)),
        decreases n - k,
    {
        let ghost before = fields_model(out@);
        match find_field(ys, &xs[k].name, 0) {
            Some(at) => match unify_fields(&xs[k], &ys[at], options) {
                Ok(field) => {
                    out.push(field);
                    assert(fields_model(out@) =~= before.push(field@));
                },
                Err(e) => {
                    proof {
                        lemma_unify_by_name_error(
                            fields_model(xs@),
                            fields_model(ys@),
                            *options,
                            (k + 1) as nat,
                        );
                    }
                    return Err(e);
                },
            },
            None => {
                let field = copy_with_nullable(&xs[k], true);
                out.push(field);
                assert(fields_model(out@) =~= before.push(field@));
            },
        }
        k += 1;
    }
    Ok(out)
}

/// The fields of the second list whose name no field of the first list has,
/// made nullable.
pub fn missing_in_first(xs: &Vec<Field>, ys: &Vec<Field>) -> (out: Vec<Field>)
    ensures
        fields_model(out@) == only_in_second(fields_model(xs@), fields_model(ys@), ys@.len()),
{
    let n: usize = ys.len();
    let mut out: Vec<Field> = Vec::new();
    let mut k: usize = 0;
    assert(fields_model(out@) =~= Seq::<FieldView>::empty());
    while k < n
        invariant
            k <= n,
            n == ys@.len(),
            fields_model(out@) == only_in_second(fields_model(xs@), fields_model(ys@), k as nat),
        decreases n - k,
    {
        let ghost before = fields_model(out@);
        if find_field(xs, &ys[k].name, 0).is_none() {
            let field = copy_with_nullable(&ys[k], true);
            out.push(field);
            assert(fields_model(out@) =~= before.push(field@));
        }
        k += 1;
    }
    out
}

/// The places of a union before a variant of which no value was seen.
pub open spec fn unknown_variants(count: nat) -> Seq<FieldView> {
    Seq::new(
        count,
        |i: int|
            FieldView {
                name: Seq::empty(),
                data_type: DataTypeView::Null,
                nullable: true,
                strategy: Some(Strategy::UnknownVariant),
                children: Seq::empty(),
            },
    )
}

/// The field, under the given name, that describes one sample.
///
/// A sequence is a large list of the join of its items, a tuple a struct of
/// its items by position, a struct a struct of its children, a variant a
/// dense union with the payload at the place of the variant. A map is a map
/// of the joins of its keys and of its values, or, where maps are traced as
/// structs and all its keys are strings, a struct of its values under the keys.
pub open spec fn observe(name: Seq<char>, value: ValueView, options: TracingOptions) -> Result<
    FieldView,
    ErrorKind,
>
    decreases value, 0nat,
{
    match value {
        ValueView::Leaf(event) => scalar_field(name, event, options),
        ValueView::Sequence(items) => match observe_items(
            items,
            options,
            0,
            unknown(element_name(), false),
        ) {
            Ok(child) => Ok(node(name, DataTypeView::LargeList, None, seq![child])),
            Err(kind) => Err(kind),
        },
        ValueView::Tuple(items) => match observe_places(items, options, 0, Seq::empty()) {
            Ok(children) => Ok(
                node(name, DataTypeView::Struct, Some(Strategy::TupleAsStruct), children),
            ),
            Err(kind) => Err(kind),
        },
        ValueView::Struct(entries) => match observe_named(entries, options, 0, Seq::empty()) {
            Ok(children) => Ok(node(name, DataTypeView::Struct, None, children)),
            Err(kind) => Err(kind),
        },
        ValueView::Mapping(entries) => if options.map_as_struct && all_keys_named(entries) {
            match observe_keyed(entries, options, 0, Seq::empty()) {
                Ok(children) => Ok(
                    node(name, DataTypeView::Struct, Some(Strategy::MapAsStruct), children),
                ),
                Err(kind) => Err(kind),
            }
        } else {
            match observe_sides(entries, options, true, 0, unknown(keys_name(), false)) {
                Ok(keys) => match observe_sides(
                    entries,
                    options,
                    false,
                    0,
                    unknown(values_name(), false),
                ) {
                    Ok(values) => Ok(
                        node(
                            name,
                            DataTypeView::Mapping(false),
                            None,
                            seq![
                                node(entries_name(), DataTypeView::Struct, None, seq![keys, values]),
                            ],
                        ),
                    ),
                    Err(kind) => Err(kind),
                },
                Err(kind) => Err(kind),
            }
        },
        ValueView::Variant(variant, index, payload) => match observe(variant, *payload, options) {
            Ok(child) => Ok(
                node(
                    name,
                    DataTypeView::Union(UnionMode::Dense),
                    None,
                    unknown_variants(index as nat).push(child),
                ),
            ),
            Err(kind) => Err(kind),
        },
    }
}

/// The join of `so_far` with the fields that describe the items from `from` on.
pub open spec fn observe_items(
    items: Seq<ValueView>,
    options: TracingOptions,
    from: nat,
    so_far: FieldView,
) -> Result<FieldView, ErrorKind>
    decreases items, items.len() - from,
{
    if from >= items.len() {
        Ok(so_far)
    } else {
        match observe(element_name(), items[from as int], options) {
            Ok(field) => match unify(so_far, field, options) {
                Ok(next) => observe_items(items, options, from + 1, next),
                Err(kind) => Err(kind),
            },
            Err(kind) => Err(kind),
        }
    }
}

/// The fields `done`, and the fields that describe the items of a tuple from
/// `from` on, each under its position as its name.
pub open spec fn observe_places(
    items: Seq<ValueView>,
    options: TracingOptions,
    from: nat,
    done: Seq<FieldView>,
) -> Result<Seq<FieldView>, ErrorKind>
    decreases items, items.len() - from,
{
    if from >= items.len() {
        Ok(done)
    } else {
        match observe(natural_digits(from as int), items[from as int], options) {
            Ok(field) => observe_places(items, options, from + 1, done.push(field)),
            Err(kind) => Err(kind),
        }
    }
}

/// The fields `done`, and the fields that describe the children of a struct
/// from `from` on.
pub open spec fn observe_named(
    entries: Seq<(Seq<char>, ValueView)>,
    options: TracingOptions,
    from: nat,
    done: Seq<FieldView>,
) -> Result<Seq<FieldView>, ErrorKind>
    decreases entries, entries.len() - from,
{
    if from >= entries.len() {
        Ok(done)
    } else {
        match observe(entries[from as int].0, entries[from as int].1, options) {
            Ok(field) => observe_named(entries, options, from + 1, done.push(field)),
            Err(kind) => Err(kind),
        }
    }
}

/// The fields `done`, and the fields that describe the values of a map with
/// string keys from `from` on, each under its key as its name.
pub open spec fn observe_keyed(
    entries: Seq<(ValueView, ValueView)>,
    options: TracingOptions,
    from: nat,
    done: Seq<FieldView>,
) -> Result<Seq<FieldView>, ErrorKind>
    decreases entries, entries.len() - from,
{
    if from >= entries.len() {
        Ok(done)
    } else {
        match observe(key_name(entries[from as int].0)->0, entries[from as int].1, options) {
            Ok(field) => observe_keyed(entries, options, from + 1, done.push(field)),
            Err(kind) => Err(kind),
        }
    }
}

/// The join of `so_far` with the fields that describe the keys, or the
/// values, of the entries of a map from `from` on.
pub open spec fn observe_sides(
    entries: Seq<(ValueView, ValueView)>,
    options: TracingOptions,
    keys: bool,
    from: nat,
    so_far: FieldView,
) -> Result<FieldView, ErrorKind>
    decreases entries, entries.len() - from,
{
    if from >= entries.len() {
        Ok(so_far)
    } else {
        match observe(
            so_far.name,
            if keys {
                entries[from as int].0
            } else {
                entries[from as int].1
            },
            options,
        ) {
            Ok(field) => match unify(so_far, field, options) {
                Ok(next) => observe_sides(entries, options, keys, from + 1, next),
                Err(kind) => Err(kind),
            },
            Err(kind) => Err(kind),
        }
    }
}

/// The join of `so_far` with the fields that describe the records from `from` on.
pub open spec fn trace_records(
    records: Seq<ValueView>,
    options: TracingOptions,
    from: nat,
    so_far: FieldView,
) -> Result<FieldView, ErrorKind>
    decreases records.len() - from,
{
    if from >= records.len() {
        Ok(so_far)
    } else {
        match observe(Seq::empty(), records[from as int], options) {
            Ok(field) => match unify(so_far, field, options) {
                Ok(next) => trace_records(records, options, from + 1, next),
                Err(kind) => Err(kind),
            },
            Err(kind) => Err(kind),
        }
    }
}

/// The field as it stands in the schema: a field of which no value was seen
/// is nullable where a null was seen, or where the options allow such fields.
pub open spec fn finalize(field: FieldView, options: TracingOptions) -> FieldView
    decreases field,
{
    FieldView {
        name: field.name,
        data_type: field.data_type,
        nullable: field.nullable || (options.allow_null_fields && field.data_type
            == DataTypeView::Null),
        strategy: field.strategy,
        children: Seq::new(
            field.children.len(),
            |i: int|
                if 0 <= i < field.children.len() {
                    finalize(field.children[i], options)
                } else {
                    arbitrary()
                },
        ),
    }
}

/// The schema of the records: the children of the struct that joins them.
/// No records, or nothing but nulls, give the empty schema; records that are
/// no structs are a `SchemaMismatch`.
pub open spec fn traced(records: Seq<ValueView>, options: TracingOptions) -> Result<
    Seq<FieldView>,
    ErrorKind,
> {
    match trace_records(records, options, 0, unknown(Seq::empty(), false)) {
        Err(kind) => Err(kind),
        Ok(root) => if root.data_type == DataTypeView::Struct && root.strategy is None {
            Ok(finalize(root, options).children)
        } else if root.data_type == DataTypeView::Null {
            Ok(Seq::empty())
        } else {
            Err(ErrorKind::SchemaMismatch)
        },
    }
}

/// The schema of the records of an event stream; an unbalanced stream is a
/// `StructuralError`.
pub open spec fn traced_events(events: Seq<EventView>, options: TracingOptions) -> Result<
    Seq<FieldView>,
    ErrorKind,
> {
    match parse_all(events) {
        None => Err(ErrorKind::StructuralError),
        Some(records) => traced(records, options),
    }
}

/// The decimal digits of a position, as the name of a tuple's child.
pub fn index_name(index: usize) -> (name: String)
    ensures
        name@ == natural_digits(index as int),
{
    let mut name = String::new();
    push_natural(&mut name, index as u128);
    assert(name@ =~= natural_digits(index as int));
    name
}

/// A name from a literal.
pub fn fixed_name(literal: &str) -> (name: String)
    ensures
        name@ == literal@,
{
    literal.to_owned()
}

/// A field of which no value was seen yet.
pub fn unknown_field(name: String, nullable: bool) -> (field: Field)
    ensures
        field@ == unknown(name@, nullable),
{
    make_leaf(name, DataType::Null, nullable, None)
}

/// The field that a scalar is traced as.
pub fn observe_scalar(name: String, event: &Event, options: &TracingOptions) -> (r: Result<
    Field,
    Error,
>)
    ensures
        joined(scalar_field(name@, event@, *options), r),
{
    let data_type = match event {
        Event::Null => {
            return Ok(unknown_field(name, true));
        },
        Event::Default => {
            return Ok(unknown_field(name, false));
        },
        Event::Bool(_) => DataType::Bool,
        Event::I8(_) => DataType::Int8,
        Event::I16(_) => DataType::Int16,
        Event::I32(_) => DataType::Int32,
        Event::I64(_) => DataType::Int64,
        Event::U8(_) => DataType::UInt8,
        Event::U16(_) => DataType::UInt16,
        Event::U32(_) => DataType::UInt32,
        Event::U64(_) => DataType::UInt64,
        Event::F32(_) => DataType::Float32,
        Event::F64(_) => DataType::Float64,
        Event::Bytes(_) => DataType::LargeBinary,
        Event::Str(text) => {
            if options.guess_dates && crate::temporal::parse_timestamp(text.as_str(), true).is_some() {
                return Ok(make_leaf(name, DataType::Date64, false, Some(Strategy::UtcStrAsDate64)));
            }
            if options.guess_dates && crate::temporal::parse_timestamp(text.as_str(), false).is_some() {
                return Ok(make_leaf(name, DataType::Date64, false, Some(Strategy::NaiveStrAsDate64)));
            }
            if options.string_dictionary_encoding {
                return Ok(make_leaf(name, dictionary(), false, None));
            }
            DataType::LargeUtf8
        },
        _ => {
            return Err(Error::new(ErrorKind::StructuralError, "a marker stands where a scalar must"));
        },
    };
    Ok(make_leaf(name, data_type, false, None))
}

/// The field, under the given name, that describes one sample.
pub fn observe_value(name: String, value: &Value, options: &TracingOptions) -> (r: Result<
    Field,
    Error,
>)
    ensures
        joined(observe(name@, value@, *options), r),
    decreases *value, 0nat,
{
    proof {
        lemma_view_parts(*value);
        reveal_strlit("item");
        reveal_strlit("entries");
        reveal_strlit("keys");
        reveal_strlit("values");
        assert("item"@ =~= element_name());
        assert("entries"@ =~= entries_name());
        assert("keys"@ =~= keys_name());
        assert("values"@ =~= values_name());
    }
    match value {
        Value::Leaf(event) => observe_scalar(name, event, options),
        Value::Sequence(items) => match join_items(
            items,
            options,
            unknown_field(fixed_name("item"), false),
        ) {
            Ok(child) => {
                let mut children: Vec<Field> = Vec::new();
                children.push(child);
                assert(fields_model(children@) =~= seq![child@]);
                Ok(make_field(name, DataType::LargeList, false, None, children))
            },
            Err(e) => Err(e),
        },
        Value::Tuple(items) => match observe_tuple(items, options) {
            Ok(children) => Ok(
                make_field(name, DataType::Struct, false, Some(Strategy::TupleAsStruct), children),
            ),
            Err(e) => Err(e),
        },
        Value::Struct(entries) => match observe_struct(entries, options) {
            Ok(children) => Ok(make_field(name, DataType::Struct, false, None, children)),
            Err(e) => Err(e),
        },
        Value::Mapping(entries) => {
            if options.map_as_struct && keys_are_names(entries) {
                match observe_map_struct(entries, options) {
                    Ok(children) => Ok(
                        make_field(
                            name,
                            DataType::Struct,
                            false,
                            Some(Strategy::MapAsStruct),
                            children,
                        ),
                    ),
                    Err(e) => Err(e),
                }
            } else {
                let keys = match join_sides(
                    entries,
                    options,
                    true,
                    unknown_field(fixed_name("keys"), false),
                ) {
                    Ok(keys) => keys,
                    Err(e) => {
                        return Err(e);
                    },
                };
                let values = match join_sides(
                    entries,
                    options,
                    false,
                    unknown_field(fixed_name("values"), false),
                ) {
                    Ok(values) => values,
                    Err(e) => {
                        return Err(e);
                    },
                };
                let mut sides: Vec<Field> = Vec::new();
                sides.push(keys);
                sides.push(values);
                assert(fields_model(sides@) =~= seq![keys@, values@]);
                let inner = make_field(fixed_name("entries"), DataType::Struct, false, None, sides);
                let mut children: Vec<Field> = Vec::new();
                children.push(inner);
                assert(fields_model(children@) =~= seq![inner@]);
                Ok(make_field(name, DataType::Mapping(false), false, None, children))
            }
        },
        Value::Variant(variant, index, payload) => match observe_value(
            variant.clone(),
            payload,
            options,
        ) {
            Ok(child) => {
                let mut children = unseen_variants(*index);
                let ghost before = fields_model(children@);
                children.push(child);
                assert(fields_model(children@) =~= before.push(child@));
                Ok(make_field(name, DataType::Union(UnionMode::Dense), false, None, children))
            },
            Err(e) => Err(e),
        },
    }
}

/// The places of a union before a variant of which no value was seen.
pub fn unseen_variants(count: usize) -> (fields: Vec<Field>)
    ensures
        fields_model(fields@) == unknown_variants(count as nat),
{
    let mut fields: Vec<Field> = Vec::new();
    let mut i: usize = 0;
    while i < count
        invariant
            i <= count,
            fields@.len() == i,
            forall|k: int| 0 <= k < i ==> (#[trigger] fields[k])@ == unknown_variants(count as nat)[k],
        decreases count - i,
    {
        let field = make_leaf(String::new(), DataType::Null, true, Some(Strategy::UnknownVariant));
        fields.push(field);
        i += 1;
    }
    assert(fields_model(fields@) =~= unknown_variants(count as nat));
    fields
}

/// Joins `start` with the fields that describe the items.
pub fn join_items(items: &Vec<Value>, options: &TracingOptions, start: Field) -> (r: Result<
    Field,
    Error,
>)
    requires
        start@.name == element_name(),
    ensures
        joined(observe_items(values_view(items@), *options, 0, start@), r),
    decreases *items, 1nat,
{
    let n: usize = items.len();
    let mut so_far = start;
    let mut k: usize = 0;
    proof {
        reveal_strlit("item");
        assert("item"@ =~= element_name());
    }
    while k < n
        invariant
            k <= n,
            n == items@.len(),
            "item"@ == element_name(),
            observe_items(values_view(items@), *options, 0, start@) == observe_items(
                values_view(items@),
                *options,
                k as nat,
                so_far@,
            ),
        decreases n - k,
    {
        let field = match observe_value(fixed_name("item"), &items[k], options) {
            Ok(field) => field,
            Err(e) => {
                return Err(e);
            },
        };
        so_far = match unify_fields(&so_far, &field, options) {
            Ok(next) => next,
            Err(e) => {
                return Err(e);
            },
        };
        k += 1;
    }
    Ok(so_far)
}

/// The fields that describe the items of a tuple.
pub fn observe_tuple(items: &Vec<Value>, options: &TracingOptions) -> (r: Result<Vec<Field>, Error>)
    ensures
        joined_all(observe_places(values_view(items@), *options, 0, Seq::empty()), r),
    decreases *items, 1nat,
{
    let n: usize = items.len();
    let mut done: Vec<Field> = Vec::new();
    let mut k: usize = 0;
    assert(fields_model(done@) =~= Seq::<FieldView>::empty());
    while k < n
        invariant
            k <= n,
            n == items@.len(),
            observe_places(values_view(items@), *options, 0, Seq::empty()) == observe_places(
                values_view(items@),
                *options,
                k as nat,
                fields_model(done@),
            ),
        decreases n - k,
    {
        let ghost before = fields_model(done@);
        match observe_value(index_name(k), &items[k], options) {
            Ok(field) => {
                done.push(field);
                assert(fields_model(done@) =~= before.push(field@));
            },
            Err(e) => {
                return Err(e);
            },
        }
        k += 1;
    }
    Ok(done)
}

/// The fields that describe the children of a struct.
pub fn observe_struct(entries: &Vec<(String, Value)>, options: &TracingOptions) -> (r: Result<
    Vec<Field>,
    Error,
>)
    ensures
        joined_all(observe_named(fields_view(entries@), *options, 0, Seq::empty()), r),
    decreases *entries, 1nat,
{
    let n: usize = entries.len();
    let mut done: Vec<Field> = Vec::new();
    let mut k: usize = 0;
    assert(fields_model(done@) =~= Seq::<FieldView>::empty());
    while k < n
        invariant
            k <= n,
            n == entries@.len(),
            observe_named(fields_view(entries@), *options, 0, Seq::empty()) == observe_named(
                fields_view(entries@),
                *options,
                k as nat,
                fields_model(done@),
            ),
        decreases n - k,
    {
        let ghost before = fields_model(done@);
        match observe_value(entries[k].0.clone(), &entries[k].1, options) {
            Ok(field) => {
                done.push(field);
                assert(fields_model(done@) =~= before.push(field@));
            },
            Err(e) => {
                return Err(e);
            },
        }
        k += 1;
    }
    Ok(done)
}

/// The fields that describe the values of a map whose keys are strings.
pub fn observe_map_struct(entries: &Vec<(Value, Value)>, options: &TracingOptions) -> (r: Result<
    Vec<Field>,
    Error,
>)
    requires
        all_keys_named(entries_view(entries@)),
    ensures
        joined_all(observe_keyed(entries_view(entries@), *options, 0, Seq::empty()), r),
    decreases *entries, 1nat,
{
    let n: usize = entries.len();
    let mut done: Vec<Field> = Vec::new();
    let mut k: usize = 0;
    assert(fields_model(done@) =~= Seq::<FieldView>::empty());
    while k < n
        invariant
            k <= n,
            n == entries@.len(),
            all_keys_named(entries_view(entries@)),
            observe_keyed(entries_view(entries@), *options, 0, Seq::empty()) == observe_keyed(
                entries_view(entries@),
                *options,
                k as nat,
                fields_model(done@),
            ),
        decreases n - k,
    {
        let ghost before = fields_model(done@);
        proof {
            lemma_view_parts(entries[k as int].0);
            assert(key_name(entries_view(entries@)[k as int].0) is Some);
        }
        let name = match &entries[k].0 {
            Value::Leaf(Event::Str(key)) => key.clone(),
            _ => String::new(),
        };
        match observe_value(name, &entries[k].1, options) {
            Ok(field) => {
                done.push(field);
                assert(fields_model(done@) =~= before.push(field@));
            },
            Err(e) => {
                return Err(e);
            },
        }
        k += 1;
    }
    Ok(done)
}

/// Joins `start` with the fields that describe the keys, or the values, of a map.
pub fn join_sides(
    entries: &Vec<(Value, Value)>,
    options: &TracingOptions,
    keys: bool,
    start: Field,
) -> (r: Result<Field, Error>)
    ensures
        joined(observe_sides(entries_view(entries@), *options, keys, 0, start@), r),
    decreases *entries, 1nat,
{
    let n: usize = entries.len();
    let mut so_far = start;
    let mut k: usize = 0;
    while k < n
        invariant
            k <= n,
            n == entries@.len(),
            observe_sides(entries_view(entries@), *options, keys, 0, start@) == observe_sides(
                entries_view(entries@),
                *options,
                keys,
                k as nat,
                so_far@,
            ),
        decreases n - k,
    {
        let side = if keys {
            &entries[k].0
        } else {
            &entries[k].1
        };
        let field = match observe_value(so_far.name.clone(), side, options) {
            Ok(field) => field,
            Err(e) => {
                return Err(e);
            },
        };
        so_far = match unify_fields(&so_far, &field, options) {
            Ok(next) => next,
            Err(e) => {
                return Err(e);
            },
        };
        k += 1;
    }
    Ok(so_far)
}

/// The field as it stands in the schema.
pub fn finalize_field(field: &Field, options: &TracingOptions) -> (done: Field)
    ensures
        done@ == finalize(field@, *options),
    decreases *field, 1nat,
{
    proof {
        lemma_children_model(*field);
    }
    let children = finalize_fields(&field.children, options);
    let done = make_field(
        field.name.clone(),
        field.data_type.duplicate(),
        field.nullable || (options.allow_null_fields && matches!(field.data_type, DataType::Null)),
        field.strategy,
        children,
    );
    assert(done@.children =~= finalize(field@, *options).children);
    done
}

/// The fields as they stand in the schema.
pub fn finalize_fields(fields: &Vec<Field>, options: &TracingOptions) -> (done: Vec<Field>)
    ensures
        done@.len() == fields@.len(),
        forall|k: int| 0 <= k < fields@.len() ==> (#[trigger] done[k])@ == finalize(fields[k]@, *options),
    decreases *fields, 0nat,
{
    let n: usize = fields.len();
    let mut done: Vec<Field> = Vec::new();
    let mut k: usize = 0;
    while k < n
        invariant
            k <= n,
            n == fields@.len(),
            done@.len() == k,
            forall|j: int| 0 <= j < k ==> (#[trigger] done[j])@ == finalize(fields[j]@, *options),
        decreases n - k,
    {
        done.push(finalize_field(&fields[k], options));
        k += 1;
    }
    done
}

/// The schema of sample records.
pub fn trace_values(records: &Vec<Value>, options: &TracingOptions) -> (r: Result<Vec<Field>, Error>)
    ensures
        joined_all(traced(values_view(records@), *options), r),
{
    let n: usize = records.len();
    let mut so_far = unknown_field(String::new(), false);
    let ghost start = so_far@;
    let mut k: usize = 0;
    while k < n
        invariant
            k <= n,
            n == records@.len(),
            start == unknown(Seq::empty(), false),
            trace_records(values_view(records@), *options, 0, start) == trace_records(
                values_view(records@),
                *options,
                k as nat,
                so_far@,
            ),
        decreases n - k,
    {
        let field = match observe_value(String::new(), &records[k], options) {
            Ok(field) => field,
            Err(e) => {
                return Err(e);
            },
        };
        so_far = match unify_fields(&so_far, &field, options) {
            Ok(next) => next,
            Err(e) => {
                return Err(e);
            },
        };
        k += 1;
    }
    if matches!(so_far.data_type, DataType::Struct) && so_far.strategy.is_none() {
        let done = finalize_field(&so_far, options);
        proof {
            lemma_children_model(done);
        }
        Ok(done.children)
    } else if matches!(so_far.data_type, DataType::Null) {
        let empty: Vec<Field> = Vec::new();
        assert(fields_model(empty@) =~= Seq::<FieldView>::empty());
        Ok(empty)
    } else {
        Err(Error::new(ErrorKind::SchemaMismatch, "a record must be a struct"))
    }
}

/// Traces the schema of the sample records of an event stream.
pub fn trace_schema(events: &[Event], options: &TracingOptions) -> (r: Result<Vec<Field>, Error>)
    ensures
        joined_all(traced_events(events_view(events@), *options), r),
{
    match parse_events(events) {
        Ok(records) => trace_values(&records, options),
        Err(e) => Err(e),
    }
}

} // verus!
