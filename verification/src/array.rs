//! Columns: the buffers of each layout, their invariants, and the rows they hold.
use vstd::prelude::*;
use vstd::utf8::*;
use crate::decimal::format_decimal;
use crate::event::EventView;
use crate::schema::{DataType, Field, Strategy, UnionMode};
use crate::temporal::{format_millis, MAX_MILLIS, MIN_MILLIS};
use crate::text::pow10;
use crate::value::ValueView;

verus! {

/// The values of a fixed-width column. Floats are held as their bit patterns.
#[derive(Debug, PartialEq, Eq)]
pub enum Buffer {
    I8(Vec<i8>),
    I16(Vec<i16>),
    I32(Vec<i32>),
    I64(Vec<i64>),
    U8(Vec<u8>),
    U16(Vec<u16>),
    U32(Vec<u32>),
    U64(Vec<u64>),
    F32(Vec<u32>),
    F64(Vec<u64>),
    I128(Vec<i128>),
}

/// The element type of a [`Buffer`].
#[derive(Clone, Copy, Debug, PartialEq, Eq, Structural)]
pub enum PrimitiveType {
    I8,
    I16,
    I32,
    I64,
    U8,
    U16,
    U32,
    U64,
    F32,
    F64,
    I128,
}

impl Buffer {
    /// The number of values.
    pub open spec fn count(self) -> int {
        match self {
            Buffer::I8(v) => v@.len() as int,
            Buffer::I16(v) => v@.len() as int,
            Buffer::I32(v) => v@.len() as int,
            Buffer::I64(v) => v@.len() as int,
            Buffer::U8(v) => v@.len() as int,
            Buffer::U16(v) => v@.len() as int,
            Buffer::U32(v) => v@.len() as int,
            Buffer::U64(v) => v@.len() as int,
            Buffer::F32(v) => v@.len() as int,
            Buffer::F64(v) => v@.len() as int,
            Buffer::I128(v) => v@.len() as int,
        }
    }

    /// The element type.
    pub open spec fn kind(self) -> PrimitiveType {
        match self {
            Buffer::I8(_) => PrimitiveType::I8,
            Buffer::I16(_) => PrimitiveType::I16,
            Buffer::I32(_) => PrimitiveType::I32,
            Buffer::I64(_) => PrimitiveType::I64,
            Buffer::U8(_) => PrimitiveType::U8,
            Buffer::U16(_) => PrimitiveType::U16,
            Buffer::U32(_) => PrimitiveType::U32,
            Buffer::U64(_) => PrimitiveType::U64,
            Buffer::F32(_) => PrimitiveType::F32,
            Buffer::F64(_) => PrimitiveType::F64,
            Buffer::I128(_) => PrimitiveType::I128,
        }
    }

    /// The value at `i` as a number; for floats, the number of its bit pattern.
    pub open spec fn number(self, i: int) -> int {
        match self {
            Buffer::I8(v) => v@[i] as int,
            Buffer::I16(v) => v@[i] as int,
            Buffer::I32(v) => v@[i] as int,
            Buffer::I64(v) => v@[i] as int,
            Buffer::U8(v) => v@[i] as int,
            Buffer::U16(v) => v@[i] as int,
            Buffer::U32(v) => v@[i] as int,
            Buffer::U64(v) => v@[i] as int,
            Buffer::F32(v) => v@[i] as int,
            Buffer::F64(v) => v@[i] as int,
            Buffer::I128(v) => v@[i] as int,
        }
    }

    /// The numbers of all values, in order.
    pub open spec fn numbers(self) -> Seq<int> {
        Seq::new(self.count() as nat, |i: int| self.number(i))
    }
}

/// The element type that stores a data type, where it is a fixed-width one.
pub open spec fn primitive_type(data_type: DataType) -> Option<PrimitiveType> {
    match data_type {
        DataType::Int8 => Some(PrimitiveType::I8),
        DataType::Int16 => Some(PrimitiveType::I16),
        DataType::Int32 | DataType::Date32 | DataType::Time32(_) => Some(PrimitiveType::I32),
        DataType::Int64 | DataType::Date64 | DataType::Time64(_) | DataType::Timestamp(_, _)
        | DataType::Duration(_) => Some(PrimitiveType::I64),
        DataType::UInt8 => Some(PrimitiveType::U8),
        DataType::UInt16 => Some(PrimitiveType::U16),
        DataType::UInt32 => Some(PrimitiveType::U32),
        DataType::UInt64 => Some(PrimitiveType::U64),
        DataType::Float32 => Some(PrimitiveType::F32),
        DataType::Float64 => Some(PrimitiveType::F64),
        DataType::Decimal128(_, _) => Some(PrimitiveType::I128),
        _ => None,
    }
}

/// The data type holds text or bytes behind offsets.
pub open spec fn is_binary_type(data_type: DataType) -> bool {
    data_type == DataType::Utf8 || data_type == DataType::LargeUtf8 || data_type
        == DataType::Binary || data_type == DataType::LargeBinary || data_type is FixedSizeBinary
}

/// The data type holds text.
pub open spec fn is_text_type(data_type: DataType) -> bool {
    data_type == DataType::Utf8 || data_type == DataType::LargeUtf8
}

/// The field stores strings as instants.
pub open spec fn stores_date_text(field: Field) -> bool {
    field.strategy == Some(Strategy::UtcStrAsDate64) || field.strategy == Some(
        Strategy::NaiveStrAsDate64,
    )
}

/// The builders and sources handle the field and all fields below it.
pub open spec fn supported(field: Field) -> bool
    decreases field,
{
    &&& match field.data_type {
        DataType::Float16 => false,
        DataType::Mapping(_) => field.children@.len() > 0 && field.children[0].strategy is None,
        DataType::Decimal128(_, scale) => scale >= 0,
        DataType::Dictionary(_, value, _) => is_text_type(*value),
        _ => true,
    }
    &&& forall|i: int| 0 <= i < field.children@.len() ==> supported(#[trigger] field.children[i])
}

/// Offsets start at zero, never fall, and end at the length of what they index.
pub open spec fn offsets_fit(offsets: Seq<usize>, rows: int, total: int) -> bool {
    &&& offsets.len() == rows + 1
    &&& offsets[0] == 0
    &&& offsets[rows] == total
    &&& forall|i: int| 0 <= i < rows ==> offsets[i] <= #[trigger] offsets[i + 1]
}

/// No offset exceeds the length of what the offsets index.
pub proof fn lemma_offsets_bounded(offsets: Seq<usize>, rows: int, total: int, i: int)
    requires
        offsets_fit(offsets, rows, total),
        0 <= i <= rows,
    ensures
        0 <= offsets[i] <= total,
    decreases rows - i,
{
    if i < rows {
        lemma_offsets_bounded(offsets, rows, total, i + 1);
    }
}

/// The bytes of slot `i`.
pub open spec fn slot(offsets: Seq<usize>, data: Seq<u8>, i: int) -> Seq<u8> {
    data.subrange(offsets[i] as int, offsets[i + 1] as int)
}

/// The buffers of a text or bytes column are consistent.
pub open spec fn binary_fits(
    offsets: Seq<usize>,
    data: Seq<u8>,
    validity: Seq<bool>,
    text: bool,
) -> bool {
    &&& offsets_fit(offsets, validity.len() as int, data.len() as int)
    &&& text ==> forall|i: int|
        0 <= i < validity.len() ==> valid_utf8(#[trigger] slot(offsets, data, i))
}

/// The physical layouts of columns.
#[derive(Clone, Copy, Debug, PartialEq, Eq, Structural)]
pub enum Layout {
    Null,
    Boolean,
    Primitive,
    Binary,
    List,
    Struct,
    Union,
    Dictionary,
}

/// A column: the buffers of one of the physical layouts.
#[derive(Debug, PartialEq, Eq)]
#[allow(inconsistent_fields)]
pub enum Array {
    /// A column of nulls, with one unit for each row.
    Null(Vec<()>),
    Boolean { values: Vec<bool>, validity: Vec<bool> },
    Primitive { values: Buffer, validity: Vec<bool> },
    /// Text or bytes: slot `i` is `data[offsets[i]..offsets[i + 1]]`.
    Binary { offsets: Vec<usize>, data: Vec<u8>, validity: Vec<bool> },
    /// Row `i` holds the rows `offsets[i]..offsets[i + 1]` of the child.
    List { offsets: Vec<usize>, child: Box<Array>, validity: Vec<bool> },
    Struct { children: Vec<Array>, validity: Vec<bool> },
    /// A union: row `i` is row `offsets[i]` of child `type_codes[i]`. In a
    /// sparse union `offsets[i]` is `i`.
    Union { type_codes: Vec<i8>, offsets: Vec<usize>, children: Vec<Array> },
    /// Row `i` is slot `keys[i]` of the values, a text column.
    Dictionary { keys: Vec<usize>, validity: Vec<bool>, values: Box<Array> },
}

impl Array {
    /// The number of rows.
    pub open spec fn rows(self) -> int {
        match self {
            Array::Null(units) => units@.len() as int,
            Array::Boolean { values, validity } => validity@.len() as int,
            Array::Primitive { values, validity } => validity@.len() as int,
            Array::Binary { offsets, data, validity } => validity@.len() as int,
            Array::List { offsets, child, validity } => validity@.len() as int,
            Array::Struct { children, validity } => validity@.len() as int,
            Array::Union { type_codes, offsets, children } => type_codes@.len() as int,
            Array::Dictionary { keys, validity, values } => validity@.len() as int,
        }
    }

    /// Row `i` holds a value, not a null.
    pub open spec fn is_set(self, i: int) -> bool {
        match self {
            Array::Null(n) => false,
            Array::Boolean { values, validity } => validity@[i],
            Array::Primitive { values, validity } => validity@[i],
            Array::Binary { offsets, data, validity } => validity@[i],
            Array::List { offsets, child, validity } => validity@[i],
            Array::Struct { children, validity } => validity@[i],
            Array::Union { type_codes, offsets, children } => true,
            Array::Dictionary { keys, validity, values } => validity@[i],
        }
    }

    /// The column has the layout of `field`, and its buffers are consistent.
    pub open spec fn wf(self, field: Field) -> bool
        decreases field,
    {
        match self {
            Array::Null(n) => field.data_type == DataType::Null,
            Array::Boolean { values, validity } => field.data_type == DataType::Bool
                && values@.len() == validity@.len(),
            Array::Primitive { values, validity } => primitive_fits(field, values, validity@),
            Array::Binary { offsets, data, validity } => {
                &&& is_binary_type(field.data_type)
                &&& binary_fits(offsets@, data@, validity@, is_text_type(field.data_type))
                &&& field.data_type matches DataType::FixedSizeBinary(size) ==> runs_of(
                    offsets@,
                    validity@.len() as int,
                    size as int,
                )
            },
            Array::List { offsets, child, validity } => {
                &&& is_list_type(field.data_type)
                &&& field.data_type matches DataType::FixedSizeList(size) ==> runs_of(
                    offsets@,
                    validity@.len() as int,
                    size as int,
                )
                &&& field.children@.len() == 1
                &&& child.wf(field.children[0])
                &&& offsets_fit(offsets@, validity@.len() as int, child.rows())
            },
            Array::Struct { children, validity } => {
                &&& field.data_type == DataType::Struct
                &&& children@.len() == field.children@.len()
                &&& forall|k: int|
                    0 <= k < field.children@.len() ==> (#[trigger] children[k]).wf(
                        field.children[k],
                    ) && children[k].rows() == validity@.len()
            },
            Array::Union { type_codes, offsets, children } => {
                &&& field.data_type is Union
                &&& field.data_type == DataType::Union(UnionMode::Sparse) ==> sparse_fits(
                    offsets@,
                    children@,
                    type_codes@.len() as int,
                )
                &&& children@.len() == field.children@.len()
                &&& offsets@.len() == type_codes@.len()
                &&& forall|k: int|
                    0 <= k < field.children@.len() ==> (#[trigger] children[k]).wf(
                        field.children[k],
                    )
                &&& forall|i: int|
                    0 <= i < type_codes@.len() ==> 0 <= (#[trigger] type_codes[i])
                        < children@.len() && offsets[i] < children[type_codes[i] as int].rows()
            },
            Array::Dictionary { keys, validity, values } => {
                &&& field.data_type matches DataType::Dictionary(_, value, _)
                &&& is_text_type(*value)
                &&& keys@.len() == validity@.len()
                &&& *values matches Array::Binary { offsets, data, validity: set }
                &&& binary_fits(offsets@, data@, set@, true)
                &&& forall|i: int|
                    0 <= i < keys@.len() && validity[i] ==> (#[trigger] keys[i]) < set@.len()
            },
        }
    }

    /// Row `i` of the column as a tree.
    pub open spec fn row(self, field: Field, i: int) -> ValueView
        decreases field, 0nat,
    {
        if !self.is_set(i) {
            ValueView::Leaf(EventView::Null)
        } else {
            match self {
                Array::Null(n) => ValueView::Leaf(EventView::Null),
                Array::Boolean { values, validity } => ValueView::Leaf(EventView::Bool(values[i])),
                Array::Primitive { values, validity } => ValueView::Leaf(
                    scalar_event(field, values, i),
                ),
                Array::Binary { offsets, data, validity } => ValueView::Leaf(
                    binary_event(is_text_type(field.data_type), slot(offsets@, data@, i)),
                ),
                Array::List { offsets, child, validity } => if field.children@.len() > 0 {
                    list_value(
                        field.data_type,
                        item_rows(
                            field.children[0],
                            *child,
                            offsets[i] as int,
                            offsets[i + 1] as int,
                        ),
                    )
                } else {
                    arbitrary()
                },
                Array::Struct { children, validity } => struct_value(
                    field.strategy,
                    child_rows(field.children@, children@, i),
                ),
                Array::Union { type_codes, offsets, children } => {
                    let code = type_codes[i] as int;
                    if 0 <= code < field.children@.len() {
                        ValueView::Variant(
                            field.children[code].name@,
                            code as usize,
                            Box::new(children[code].row(field.children[code], offsets[i] as int)),
                        )
                    } else {
                        arbitrary()
                    }
                },
                Array::Dictionary { keys, validity, values } => match *values {
                    Array::Binary { offsets, data, validity: set } => ValueView::Leaf(
                        binary_event(true, slot(offsets@, data@, keys[i] as int)),
                    ),
                    _ => arbitrary(),
                },
            }
        }
    }

    /// The physical layout of the column.
    pub open spec fn layout(self) -> Layout {
        match self {
            Array::Null(_) => Layout::Null,
            Array::Boolean { .. } => Layout::Boolean,
            Array::Primitive { .. } => Layout::Primitive,
            Array::Binary { .. } => Layout::Binary,
            Array::List { .. } => Layout::List,
            Array::Struct { .. } => Layout::Struct,
            Array::Union { .. } => Layout::Union,
            Array::Dictionary { .. } => Layout::Dictionary,
        }
    }

    /// All rows of the column, in order.
    pub open spec fn values(self, field: Field) -> Seq<ValueView> {
        Seq::new(self.rows() as nat, |i: int| self.row(field, i))
    }
}

/// The buffers of a sparse union: each child has as many rows as the union,
/// and the offset of each row is its own place.
pub open spec fn sparse_fits(offsets: Seq<usize>, children: Seq<Array>, rows: int) -> bool {
    &&& forall|i: int| 0 <= i < rows && i < offsets.len() ==> #[trigger] offsets[i] == i
    &&& forall|k: int| 0 <= k < children.len() ==> (#[trigger] children[k]).rows() == rows
}

/// The data type holds its rows as runs of rows of one child.
pub open spec fn is_list_type(data_type: DataType) -> bool {
    data_type == DataType::List || data_type == DataType::LargeList || data_type is Mapping
        || data_type is FixedSizeList
}

/// Each of the first `rows` runs between two offsets has the length `size`.
pub open spec fn runs_of(offsets: Seq<usize>, rows: int, size: int) -> bool {
    forall|i: int| 0 <= i < rows ==> #[trigger] offsets[i + 1] - offsets[i] == size
}

/// The key and the value of an entry of a map: the first and the second
/// child of a struct with two children.
pub open spec fn entry_pair(row: ValueView) -> (ValueView, ValueView) {
    match row {
        ValueView::Struct(fields) => if fields.len() == 2 {
            (fields[0].1, fields[1].1)
        } else {
            (ValueView::Leaf(EventView::Null), ValueView::Leaf(EventView::Null))
        },
        _ => (ValueView::Leaf(EventView::Null), ValueView::Leaf(EventView::Null)),
    }
}

/// The keys and the values of the entries of a map.
pub open spec fn entry_pairs(rows: Seq<ValueView>) -> Seq<(ValueView, ValueView)> {
    Seq::new(rows.len(), |j: int| entry_pair(rows[j]))
}

/// The tree of a row of a list or a map column, given the rows of the child
/// that the row holds: a sequence of them, or the map of their entries.
pub open spec fn list_value(data_type: DataType, rows: Seq<ValueView>) -> ValueView {
    match data_type {
        DataType::Mapping(_) => ValueView::Mapping(entry_pairs(rows)),
        _ => ValueView::Sequence(rows),
    }
}

/// The rows `start..end` of a column.
pub open spec fn item_rows(field: Field, array: Array, start: int, end: int) -> Seq<ValueView>
    decreases field, 1nat,
{
    Seq::new((end - start) as nat, |j: int| array.row(field, start + j))
}

/// Rows that are the rows `start..end` of a column are its item rows.
pub proof fn lemma_item_rows(field: Field, array: Array, start: int, end: int, rows: Seq<ValueView>)
    requires
        start <= end,
        rows.len() == end - start,
        forall|j: int| 0 <= j < rows.len() ==> #[trigger] rows[j] == array.row(field, start + j),
    ensures
        item_rows(field, array, start, end) == rows,
{
    assert(item_rows(field, array, start, end) =~= rows);
}

/// Row `i` of each column, behind the name of its field.
pub open spec fn child_rows(fields: Seq<Field>, arrays: Seq<Array>, i: int) -> Seq<
    (Seq<char>, ValueView),
>
    decreases fields,
{
    Seq::new(
        fields.len(),
        |k: int|
            if 0 <= k < fields.len() {
                (fields[k].name@, arrays[k].row(fields[k], i))
            } else {
                arbitrary()
            },
    )
}

/// Rows that stand behind the names of the fields, and that are the rows `i`
/// of the columns, are the rows `i` of all the columns.
pub proof fn lemma_child_rows(
    fields: Seq<Field>,
    arrays: Seq<Array>,
    i: int,
    rows: Seq<(Seq<char>, ValueView)>,
)
    requires
        rows.len() == fields.len(),
        forall|k: int|
            0 <= k < fields.len() ==> (#[trigger] rows[k]).0 == fields[k].name@ && rows[k].1
                == arrays[k].row(fields[k], i),
    ensures
        child_rows(fields, arrays, i) == rows,
{
    assert(child_rows(fields, arrays, i) =~= rows);
}

/// The buffers of a fixed-width column suit `field`: the element type is the
/// one of the data type, instants that are read as text lie in the years 0
/// to 9999, and decimals have no more digits than the precision allows.
pub open spec fn primitive_fits(field: Field, values: Buffer, validity: Seq<bool>) -> bool {
    &&& primitive_type(field.data_type) == Some(values.kind())
    &&& values.count() == validity.len()
    &&& stores_date_text(field) ==> forall|i: int|
        0 <= i < validity.len() && validity[i] ==> MIN_MILLIS <= #[trigger] values.number(i)
            <= MAX_MILLIS
    &&& field.data_type matches DataType::Decimal128(precision, _) ==> forall|i: int|
        0 <= i < validity.len() && validity[i] ==> -pow10(precision as nat)
            < #[trigger] values.number(i) < pow10(precision as nat)
}

/// The scalar of a fixed-width column of `field` for a stored number `n`.
/// Instants are read as text where the strategy says so, and decimals always.
pub open spec fn number_event(field: Field, kind: PrimitiveType, n: int) -> EventView {
    match kind {
        PrimitiveType::I8 => EventView::I8(n as i8),
        PrimitiveType::I16 => EventView::I16(n as i16),
        PrimitiveType::I32 => EventView::I32(n as i32),
        PrimitiveType::I64 => match field.strategy {
            Some(Strategy::UtcStrAsDate64) => EventView::Str(format_millis(n, true)),
            Some(Strategy::NaiveStrAsDate64) => EventView::Str(format_millis(n, false)),
            _ => EventView::I64(n as i64),
        },
        PrimitiveType::U8 => EventView::U8(n as u8),
        PrimitiveType::U16 => EventView::U16(n as u16),
        PrimitiveType::U32 => EventView::U32(n as u32),
        PrimitiveType::U64 => EventView::U64(n as u64),
        PrimitiveType::F32 => EventView::F32(n as u32),
        PrimitiveType::F64 => EventView::F64(n as u64),
        PrimitiveType::I128 => match field.data_type {
            DataType::Decimal128(_, scale) => EventView::Str(format_decimal(n, scale as nat)),
            _ => EventView::Null,
        },
    }
}

/// The scalar that row `i` of a fixed-width column holds.
pub open spec fn scalar_event(field: Field, values: Buffer, i: int) -> EventView {
    number_event(field, values.kind(), values.number(i))
}

/// The scalar of a slot: the text that the bytes encode, or the bytes.
pub open spec fn binary_event(text: bool, bytes: Seq<u8>) -> EventView {
    if text {
        EventView::Str(decode_utf8(bytes))
    } else {
        EventView::Bytes(bytes)
    }
}

/// The tree of a struct row: named children, or, by strategy, a tuple of the
/// children or a map from their names.
pub open spec fn struct_value(
    strategy: Option<Strategy>,
    fields: Seq<(Seq<char>, ValueView)>,
) -> ValueView {
    match strategy {
        Some(Strategy::TupleAsStruct) => ValueView::Tuple(
            Seq::new(fields.len(), |k: int| fields[k].1),
        ),
        Some(Strategy::MapAsStruct) => ValueView::Mapping(
            Seq::new(fields.len(), |k: int| (ValueView::Leaf(EventView::Str(fields[k].0)), fields[k].1)),
        ),
        _ => ValueView::Struct(fields),
    }
}

} // verus!
