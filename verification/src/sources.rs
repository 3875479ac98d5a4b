//! Sources: cursors over columns that hand out one row at a time.
use vstd::prelude::*;
use vstd::utf8::*;
use crate::array::{
    binary_event, binary_fits, child_rows, entry_pair, entry_pairs, is_binary_type, is_text_type,
    item_rows, lemma_child_rows, lemma_item_rows, lemma_offsets_bounded, offsets_fit,
    primitive_fits, primitive_type, runs_of, scalar_event, slot, sparse_fits, stores_date_text,
    supported, Array, Buffer, Layout, PrimitiveType,
};
use crate::decimal::{format_unscaled, power_of_ten};
use crate::error::{Error, ErrorKind};
use crate::event::{events_view, Event, EventView};
use crate::schema::{DataType, Field, Strategy, UnionMode};
use crate::temporal::{format_timestamp, MAX_MILLIS, MIN_MILLIS};
use crate::text::{lemma_pow10_38, lemma_pow10_monotonic, pow10, string_from_utf8};
use crate::value::{
    entries_view, fields_view, flatten, flatten_all, lemma_flatten_all_first, lemma_view_parts,
    values_view, write_events, Value, ValueView,
};
use vstd::slice::{slice_subrange, slice_to_vec};

verus! {

impl Buffer {
    /// The number of values.
    pub fn len(&self) -> (n: usize)
        ensures
            n == self.count(),
    {
        match self {
            Buffer::I8(v) => v.len(),
            Buffer::I16(v) => v.len(),
            Buffer::I32(v) => v.len(),
            Buffer::I64(v) => v.len(),
            Buffer::U8(v) => v.len(),
            Buffer::U16(v) => v.len(),
            Buffer::U32(v) => v.len(),
            Buffer::U64(v) => v.len(),
            Buffer::F32(v) => v.len(),
            Buffer::F64(v) => v.len(),
            Buffer::I128(v) => v.len(),
        }
    }

    /// The element type.
    pub fn element_type(&self) -> (kind: PrimitiveType)
        ensures
            kind == self.kind(),
    {
        match self {
            Buffer::I8(_) => PrimitiveType::I8,
            Buffer::I16(_) => PrimitiveType::I16,
            Buffer::I32(_) => PrimitiveType::I32,
            Buffer::I64(_) => PrimitiveType::I64,
            Buffer::U8(_) => PrimitiveType::U8,
            Buffer::U16(_) => PrimitiveType::U16,
            Buffer::U32(_) => PrimitiveType::U32,
            Buffer::U64(_) => PrimitiveType::U64,
            Buffer::F32(_) => PrimitiveType::F32,
            Buffer::F64(_) => PrimitiveType::F64,
            Buffer::I128(_) => PrimitiveType::I128,
        }
    }
}

impl Array {
    /// The physical layout of the column.
    pub fn layout_of(&self) -> (layout: Layout)
        ensures
            layout == self.layout(),
    {
        match self {
            Array::Null(_) => Layout::Null,
            Array::Boolean { .. } => Layout::Boolean,
            Array::Primitive { .. } => Layout::Primitive,
            Array::Binary { .. } => Layout::Binary,
            Array::List { .. } => Layout::List,
            Array::Struct { .. } => Layout::Struct,
            Array::Union { .. } => Layout::Union,
            Array::Dictionary { .. } => Layout::Dictionary,
        }
    }

    /// The number of rows.
    pub fn len(&self) -> (n: usize)
        ensures
            n == self.rows(),
    {
        match self {
            Array::Null(units) => units.len(),
            Array::Boolean { values, validity } => validity.len(),
            Array::Primitive { values, validity } => validity.len(),
            Array::Binary { offsets, data, validity } => validity.len(),
            Array::List { offsets, child, validity } => validity.len(),
            Array::Struct { children, validity } => validity.len(),
            Array::Union { type_codes, offsets, children } => type_codes.len(),
            Array::Dictionary { keys, validity, values } => validity.len(),
        }
    }
}

/// Tells whether the data type holds text.
pub fn holds_text(data_type: &DataType) -> (text: bool)
    ensures
        text == is_text_type(*data_type),
{
    matches!(data_type, DataType::Utf8 | DataType::LargeUtf8)
}

/// Tells whether the data type holds text or bytes behind offsets.
pub fn holds_binary(data_type: &DataType) -> (binary: bool)
    ensures
        binary == is_binary_type(*data_type),
{
    matches!(
        data_type,
        DataType::Utf8 | DataType::LargeUtf8 | DataType::Binary | DataType::LargeBinary
            | DataType::FixedSizeBinary(_)
    )
}

/// The element type that stores a data type, where it is a fixed-width one.
pub fn element_type_of(data_type: &DataType) -> (kind: Option<PrimitiveType>)
    ensures
        kind == primitive_type(*data_type),
{
    match data_type {
        DataType::Int8 => Some(PrimitiveType::I8),
        DataType::Int16 => Some(PrimitiveType::I16),
        DataType::Int32 | DataType::Date32 | DataType::Time32(_) => Some(PrimitiveType::I32),
        DataType::Int64 | DataType::Date64 | DataType::Time64(_) | DataType::Timestamp(_, _)
        | DataType::Duration(_) => Some(PrimitiveType::I64),
        DataType::UInt8 => Some(PrimitiveType::U8),
        DataType::UInt16 => Some(PrimitiveType::U16),
        DataType::UInt32 => Some(PrimitiveType::U32),
        DataType::UInt64 => Some(PrimitiveType::U64),
        DataType::Float32 => Some(PrimitiveType::F32),
        DataType::Float64 => Some(PrimitiveType::F64),
        DataType::Decimal128(_, _) => Some(PrimitiveType::I128),
        _ => None,
    }
}

/// Tells whether the builders and sources handle the field and all below it.
pub fn is_supported(field: &Field) -> (ok: bool)
    ensures
        ok == supported(*field),
    decreases *field,
{
    let here = match &field.data_type {
        DataType::Float16 => false,
        DataType::Mapping(_) => field.children.len() > 0 && field.children[0].strategy.is_none(),
        DataType::Decimal128(_, scale) => *scale >= 0,
        DataType::Dictionary(_, value, _) => holds_text(value),
        _ => true,
    };
    if !here {
        return false;
    }
    all_supported(&field.children)
}

/// Tells whether the builders and sources handle each of the fields.
pub fn all_supported(fields: &Vec<Field>) -> (ok: bool)
    ensures
        ok == forall|i: int| 0 <= i < fields@.len() ==> supported(#[trigger] fields[i]),
    decreases *fields,
{
    let n: usize = fields.len();
    let mut i: usize = 0;
    while i < n
        invariant
            i <= n,
            n == fields@.len(),
            forall|k: int| 0 <= k < i ==> supported(#[trigger] fields[k]),
        decreases n - i,
    {
        if !is_supported(&fields[i]) {
            return false;
        }
        i += 1;
    }
    true
}

/// The scalar that row `i` of a fixed-width column holds.
pub fn read_scalar(field: &Field, values: &Buffer, i: usize) -> (event: Event)
    requires
        field.valid(),
        supported(*field),
        i < values.count(),
        primitive_type(field.data_type) == Some(values.kind()),
        stores_date_text(*field) ==> crate::temporal::MIN_MILLIS <= values.number(i as int)
            <= crate::temporal::MAX_MILLIS,
        field.data_type matches DataType::Decimal128(precision, _) ==> -pow10(precision as nat)
            < values.number(i as int) < pow10(precision as nat),
    ensures
        event@ == scalar_event(*field, *values, i as int),
{
    proof {
        match field.data_type {
            DataType::Decimal128(precision, _) => {
                lemma_pow10_monotonic(precision as nat, 38);
                lemma_pow10_38();
            },
            _ => {},
        }
    }
    match values {
        Buffer::I8(v) => Event::I8(v[i]),
        Buffer::I16(v) => Event::I16(v[i]),
        Buffer::I32(v) => Event::I32(v[i]),
        Buffer::I64(v) => match field.strategy {
            Some(Strategy::UtcStrAsDate64) => Event::Str(format_timestamp(v[i], true).unwrap()),
            Some(Strategy::NaiveStrAsDate64) => Event::Str(format_timestamp(v[i], false).unwrap()),
            _ => Event::I64(v[i]),
        },
        Buffer::U8(v) => Event::U8(v[i]),
        Buffer::U16(v) => Event::U16(v[i]),
        Buffer::U32(v) => Event::U32(v[i]),
        Buffer::U64(v) => Event::U64(v[i]),
        Buffer::F32(v) => Event::F32(v[i]),
        Buffer::F64(v) => Event::F64(v[i]),
        Buffer::I128(v) => match &field.data_type {
            DataType::Decimal128(_, scale) => Event::Str(format_unscaled(v[i], *scale as u8)),
            _ => Event::Null,
        },
    }
}

/// The scalar of slot `i` of a text or bytes column.
pub fn read_slot(text: bool, offsets: &Vec<usize>, data: &Vec<u8>, i: usize) -> (event: Event)
    requires
        i + 1 < offsets@.len(),
        offsets[i as int] <= offsets[i + 1] <= data@.len(),
        text ==> valid_utf8(slot(offsets@, data@, i as int)),
    ensures
        event@ == binary_event(text, slot(offsets@, data@, i as int)),
{
    let count: usize = offsets.len();
    let bytes: Vec<u8> = slice_to_vec(slice_subrange(data.as_slice(), offsets[i], offsets[i + 1]));
    if text {
        match string_from_utf8(bytes) {
            Some(s) => {
                proof {
                    encode_utf8_decode_utf8(s@);
                }
                Event::Str(s)
            },
            None => Event::Null,
        }
    } else {
        Event::Bytes(bytes)
    }
}

/// Row `i` of a column, as a tree.
pub fn read_row(field: &Field, array: &Array, i: usize) -> (value: Value)
    requires
        field.valid(),
        supported(*field),
        array.wf(*field),
        i < array.rows(),
    ensures
        value@ == array.row(*field, i as int),
    decreases *field, 0nat,
{
    let value = match array {
        Array::Null(_) => Value::Leaf(Event::Null),
        Array::Boolean { values, validity } => {
            if validity[i] {
                Value::Leaf(Event::Bool(values[i]))
            } else {
                Value::Leaf(Event::Null)
            }
        },
        Array::Primitive { values, validity } => {
            if validity[i] {
                Value::Leaf(read_scalar(field, values, i))
            } else {
                Value::Leaf(Event::Null)
            }
        },
        Array::Binary { offsets, data, validity } => {
            if validity[i] {
                proof {
                    lemma_offsets_bounded(offsets@, validity@.len() as int, data@.len() as int, i as int);
                    lemma_offsets_bounded(offsets@, validity@.len() as int, data@.len() as int, i + 1);
                }
                Value::Leaf(read_slot(holds_text(&field.data_type), offsets, data, i))
            } else {
                Value::Leaf(Event::Null)
            }
        },
        Array::List { offsets, child, validity } => {
            if validity[i] {
                proof {
                    lemma_offsets_bounded(offsets@, validity@.len() as int, child.rows(), i as int);
                    lemma_offsets_bounded(offsets@, validity@.len() as int, child.rows(), i + 1);
                }
                let count: usize = offsets.len();
                if matches!(field.data_type, DataType::Mapping(_)) {
                    let pairs = read_pairs(&field.children[0], child, offsets[i], offsets[i + 1]);
                    proof {
                        assert(entries_view(pairs@) =~= entry_pairs(
                            item_rows(
                                field.children[0],
                                **child,
                                offsets[i as int] as int,
                                offsets[i + 1] as int,
                            ),
                        ));
                    }
                    Value::Mapping(pairs)
                } else {
                    let items = read_items(&field.children[0], child, offsets[i], offsets[i + 1]);
                    proof {
                        lemma_item_rows(
                            field.children[0],
                            **child,
                            offsets[i as int] as int,
                            offsets[i + 1] as int,
                            values_view(items@),
                        );
                    }
                    Value::Sequence(items)
                }
            } else {
                Value::Leaf(Event::Null)
            }
        },
        Array::Struct { children, validity } => {
            if validity[i] {
                match field.strategy {
                    Some(Strategy::TupleAsStruct) => {
                        let items = read_positional(&field.children, children, i);
                        proof {
                            lemma_child_rows(
                                field.children@,
                                children@,
                                i as int,
                                Seq::new(
                                    items@.len(),
                                    |k: int| (field.children[k].name@, items[k]@),
                                ),
                            );
                            assert(values_view(items@) =~= array.row(*field, i as int)->Tuple_0);
                        }
                        Value::Tuple(items)
                    },
                    Some(Strategy::MapAsStruct) => {
                        let entries = read_entries(&field.children, children, i);
                        proof {
                            lemma_child_rows(
                                field.children@,
                                children@,
                                i as int,
                                Seq::new(
                                    entries@.len(),
                                    |k: int| (field.children[k].name@, entries[k].1@),
                                ),
                            );
                            assert(entries_view(entries@) =~= array.row(
                                *field,
                                i as int,
                            )->Mapping_0);
                        }
                        Value::Mapping(entries)
                    },
                    _ => {
                        let fields = read_fields(&field.children, children, i);
                        proof {
                            lemma_child_rows(
                                field.children@,
                                children@,
                                i as int,
                                fields_view(fields@),
                            );
                        }
                        Value::Struct(fields)
                    },
                }
            } else {
                Value::Leaf(Event::Null)
            }
        },
        Array::Union { type_codes, offsets, children } => {
            let code: usize = type_codes[i] as usize;
            let payload = read_row(&field.children[code], &children[code], offsets[i]);
            Value::Variant(field.children[code].name.clone(), code, Box::new(payload))
        },
        Array::Dictionary { keys, validity, values } => {
            if validity[i] {
                match &**values {
                    Array::Binary { offsets, data, validity: set } => {
                        proof {
                            lemma_offsets_bounded(offsets@, set@.len() as int, data@.len() as int, keys[i as int] as int);
                            lemma_offsets_bounded(offsets@, set@.len() as int, data@.len() as int, keys[i as int] + 1);
                        }
                        Value::Leaf(read_slot(true, offsets, data, keys[i]))
                    },
                    _ => Value::Leaf(Event::Null),
                }
            } else {
                Value::Leaf(Event::Null)
            }
        },
    };
    proof {
        lemma_view_parts(value);
    }
    value
}

/// The rows `start..end` of a column, as trees.
pub fn read_items(field: &Field, array: &Array, start: usize, end: usize) -> (items: Vec<Value>)
    requires
        field.valid(),
        supported(*field),
        array.wf(*field),
        start <= end <= array.rows(),
    ensures
        items@.len() == end - start,
        forall|j: int| 0 <= j < end - start ==> (#[trigger] items[j])@ == array.row(*field, start + j),
    decreases *field, 1nat,
{
    let mut items: Vec<Value> = Vec::new();
    let mut at: usize = start;
    while at < end
        invariant
            field.valid(),
            supported(*field),
            array.wf(*field),
            start <= at <= end <= array.rows(),
            items@.len() == at - start,
            forall|j: int| 0 <= j < at - start ==> (#[trigger] items[j])@ == array.row(*field, start + j),
        decreases end - at,
    {
        items.push(read_row(field, array, at));
        at += 1;
    }
    items
}

/// The key and the value of an entry of a map.
pub fn into_pair(row: Value) -> (pair: (Value, Value))
    ensures
        (pair.0@, pair.1@) == entry_pair(row@),
{
    proof {
        lemma_view_parts(row);
    }
    match row {
        Value::Struct(mut fields) => {
            if fields.len() == 2 {
                let ghost before = fields@;
                let second = fields.pop();
                let first = fields.pop();
                match (first, second) {
                    (Some(key), Some(value)) => (key.1, value.1),
                    _ => (Value::Leaf(Event::Null), Value::Leaf(Event::Null)),
                }
            } else {
                (Value::Leaf(Event::Null), Value::Leaf(Event::Null))
            }
        },
        _ => (Value::Leaf(Event::Null), Value::Leaf(Event::Null)),
    }
}

/// The rows `start..end` of a column of map entries, as keys and values.
pub fn read_pairs(field: &Field, array: &Array, start: usize, end: usize) -> (pairs: Vec<
    (Value, Value),
>)
    requires
        field.valid(),
        supported(*field),
        array.wf(*field),
        start <= end <= array.rows(),
    ensures
        pairs@.len() == end - start,
        forall|j: int|
            0 <= j < end - start ==> ((#[trigger] pairs[j]).0@, pairs[j].1@) == entry_pair(
                array.row(*field, start + j),
            ),
    decreases *field, 1nat,
{
    let mut pairs: Vec<(Value, Value)> = Vec::new();
    let mut at: usize = start;
    while at < end
        invariant
            field.valid(),
            supported(*field),
            array.wf(*field),
            start <= at <= end <= array.rows(),
            pairs@.len() == at - start,
            forall|j: int|
                0 <= j < at - start ==> ((#[trigger] pairs[j]).0@, pairs[j].1@) == entry_pair(
                    array.row(*field, start + j),
                ),
        decreases end - at,
    {
        pairs.push(into_pair(read_row(field, array, at)));
        at += 1;
    }
    pairs
}

/// The fields are valid and supported, and column `k` is a column of field
/// `k` with more than `i` rows.
pub open spec fn columns_readable(fields: Seq<Field>, arrays: Seq<Array>, i: int) -> bool {
    &&& fields.len() == arrays.len()
    &&& forall|k: int|
        0 <= k < fields.len() ==> {
            &&& (#[trigger] fields[k]).valid()
            &&& supported(fields[k])
            &&& arrays[k].wf(fields[k])
            &&& 0 <= i < arrays[k].rows()
        }
}

/// Row `i` of each column, behind the name of its field.
pub fn read_fields(fields: &Vec<Field>, arrays: &Vec<Array>, i: usize) -> (out: Vec<(String, Value)>)
    requires
        columns_readable(fields@, arrays@, i as int),
    ensures
        out@.len() == fields@.len(),
        forall|k: int|
            0 <= k < fields@.len() ==> (#[trigger] out[k]).0@ == fields[k].name@ && out[k].1@
                == arrays[k].row(fields[k], i as int),
    decreases *fields,
{
    let n: usize = fields.len();
    let mut out: Vec<(String, Value)> = Vec::new();
    let mut k: usize = 0;
    while k < n
        invariant
            k <= n,
            n == fields@.len(),
            columns_readable(fields@, arrays@, i as int),
            out@.len() == k,
            forall|j: int|
                0 <= j < k ==> (#[trigger] out[j]).0@ == fields[j].name@ && out[j].1@
                    == arrays[j].row(fields[j], i as int),
        decreases n - k,
    {
        let value = read_row(&fields[k], &arrays[k], i);
        out.push((fields[k].name.clone(), value));
        k += 1;
    }
    out
}

/// Row `i` of each column, in the order of the fields.
pub fn read_positional(fields: &Vec<Field>, arrays: &Vec<Array>, i: usize) -> (out: Vec<Value>)
    requires
        columns_readable(fields@, arrays@, i as int),
    ensures
        out@.len() == fields@.len(),
        forall|k: int|
            0 <= k < fields@.len() ==> (#[trigger] out[k])@ == arrays[k].row(fields[k], i as int),
    decreases *fields,
{
    let n: usize = fields.len();
    let mut out: Vec<Value> = Vec::new();
    let mut k: usize = 0;
    while k < n
        invariant
            k <= n,
            n == fields@.len(),
            columns_readable(fields@, arrays@, i as int),
            out@.len() == k,
            forall|j: int|
                0 <= j < k ==> (#[trigger] out[j])@ == arrays[j].row(fields[j], i as int),
        decreases n - k,
    {
        let value = read_row(&fields[k], &arrays[k], i);
        out.push(value);
        k += 1;
    }
    out
}

/// Row `i` of each column, as the value of a map entry whose key is the name
/// of the field.
pub fn read_entries(fields: &Vec<Field>, arrays: &Vec<Array>, i: usize) -> (out: Vec<(Value, Value)>)
    requires
        columns_readable(fields@, arrays@, i as int),
    ensures
        out@.len() == fields@.len(),
        forall|k: int|
            0 <= k < fields@.len() ==> (#[trigger] out[k]).0@ == ValueView::Leaf(
                EventView::Str(fields[k].name@),
            ) && out[k].1@ == arrays[k].row(fields[k], i as int),
    decreases *fields,
{
    let n: usize = fields.len();
    let mut out: Vec<(Value, Value)> = Vec::new();
    let mut k: usize = 0;
    while k < n
        invariant
            k <= n,
            n == fields@.len(),
            columns_readable(fields@, arrays@, i as int),
            out@.len() == k,
            forall|j: int|
                0 <= j < k ==> (#[trigger] out[j]).0@ == ValueView::Leaf(
                    EventView::Str(fields[j].name@),
                ) && out[j].1@ == arrays[j].row(fields[j], i as int),
        decreases n - k,
    {
        let value = read_row(&fields[k], &arrays[k], i);
        out.push((Value::Leaf(Event::Str(fields[k].name.clone())), value));
        k += 1;
    }
    out
}

/// Checks that offsets start at zero, never fall and end at `total`.
#[verifier::loop_isolation(false)]
pub fn offsets_ok(offsets: &Vec<usize>, rows: usize, total: usize) -> (ok: bool)
    ensures
        ok == offsets_fit(offsets@, rows as int, total as int),
{
    let count: usize = offsets.len();
    if rows == usize::MAX || count != rows + 1 {
        return false;
    }
    if offsets[0] != 0 || offsets[rows] != total {
        return false;
    }
    let mut i: usize = 0;
    while i < rows
        invariant
            i <= rows,
            offsets@.len() == rows + 1,
            forall|k: int| 0 <= k < i ==> offsets[k] <= #[trigger] offsets[k + 1],
        decreases rows - i,
    {
        if offsets[i] > offsets[i + 1] {
            return false;
        }
        i += 1;
    }
    true
}

/// Checks that each of the first `rows` runs between two offsets has the
/// length `size`.
#[verifier::loop_isolation(false)]
pub fn runs_ok(offsets: &Vec<usize>, rows: usize, size: usize) -> (ok: bool)
    ensures
        ok == (offsets@.len() == rows + 1 && runs_of(offsets@, rows as int, size as int)),
{
    let count: usize = offsets.len();
    if rows == usize::MAX || count != rows + 1 {
        return false;
    }
    let mut i: usize = 0;
    while i < rows
        invariant
            i <= rows,
            forall|k: int| 0 <= k < i ==> #[trigger] offsets[k + 1] - offsets[k] == size,
        decreases rows - i,
    {
        if offsets[i + 1] < offsets[i] || offsets[i + 1] - offsets[i] != size {
            return false;
        }
        i += 1;
    }
    true
}

/// Checks the buffers of a text or bytes column.
#[verifier::loop_isolation(false)]
pub fn binary_ok(offsets: &Vec<usize>, data: &Vec<u8>, validity: &Vec<bool>, text: bool) -> (ok:
    bool)
    ensures
        ok == binary_fits(offsets@, data@, validity@, text),
{
    let rows: usize = validity.len();
    if !offsets_ok(offsets, rows, data.len()) {
        return false;
    }
    if !text {
        return true;
    }
    let mut i: usize = 0;
    while i < rows
        invariant
            i <= rows,
            rows == validity@.len(),
            offsets_fit(offsets@, rows as int, data@.len() as int),
            forall|k: int| 0 <= k < i ==> valid_utf8(#[trigger] slot(offsets@, data@, k)),
        decreases rows - i,
    {
        proof {
            lemma_offsets_bounded(offsets@, rows as int, data@.len() as int, i as int);
            lemma_offsets_bounded(offsets@, rows as int, data@.len() as int, i + 1);
        }
        let bytes: Vec<u8> = slice_to_vec(
            slice_subrange(data.as_slice(), offsets[i], offsets[i + 1]),
        );
        assert(bytes@ == slot(offsets@, data@, i as int));
        if string_from_utf8(bytes).is_none() {
            return false;
        }
        i += 1;
    }
    true
}

/// Checks the buffers of a fixed-width column against its field.
#[verifier::loop_isolation(false)]
pub fn primitive_ok(field: &Field, values: &Buffer, validity: &Vec<bool>) -> (ok: bool)
    requires
        field.valid(),
    ensures
        ok == primitive_fits(*field, *values, validity@),
{
    let rows: usize = validity.len();
    let kinds_agree = match element_type_of(&field.data_type) {
        Some(kind) => kind == values.element_type(),
        None => false,
    };
    if !kinds_agree || values.len() != rows {
        return false;
    }
    match values {
        Buffer::I64(v) => {
            if matches!(
                field.strategy,
                Some(Strategy::UtcStrAsDate64) | Some(Strategy::NaiveStrAsDate64)
            ) {
                let mut i: usize = 0;
                while i < rows
                    invariant
                        i <= rows,
                        rows == validity@.len(),
                        rows == v@.len(),
                        forall|k: int|
                            0 <= k < i && validity[k] ==> MIN_MILLIS <= #[trigger] v[k]
                                <= MAX_MILLIS,
                    decreases rows - i,
                {
                    if validity[i] && (v[i] < MIN_MILLIS || v[i] > MAX_MILLIS) {
                        assert(!(MIN_MILLIS <= values.number(i as int) <= MAX_MILLIS));
                        return false;
                    }
                    i += 1;
                }
                assert forall|k: int| 0 <= k < rows && validity[k] implies MIN_MILLIS
                    <= #[trigger] values.number(k) <= MAX_MILLIS by {
                    assert(values.number(k) == v[k]);
                }
            }
            true
        },
        Buffer::I128(v) => {
            match &field.data_type {
                DataType::Decimal128(precision, _) => {
                    let bound: i128 = power_of_ten(*precision) as i128;
                    let mut i: usize = 0;
                    while i < rows
                        invariant
                            i <= rows,
                            rows == validity@.len(),
                            rows == v@.len(),
                            bound == pow10(*precision as nat),
                            forall|k: int|
                                0 <= k < i && validity[k] ==> -bound < #[trigger] v[k] < bound,
                        decreases rows - i,
                    {
                        if validity[i] && (v[i] <= -bound || v[i] >= bound) {
                            assert(!(-bound < values.number(i as int) < bound));
                            return false;
                        }
                        i += 1;
                    }
                    assert forall|k: int| 0 <= k < rows && validity[k] implies -bound
                        < #[trigger] values.number(k) < bound by {
                        assert(values.number(k) == v[k]);
                    }
                    true
                },
                _ => true,
            }
        },
        _ => true,
    }
}

/// Why a column cannot be read as a column of `field`, if anything.
pub open spec fn source_error(field: Field, array: Array) -> Option<ErrorKind> {
    if !field.valid() {
        Some(ErrorKind::SchemaInvalid)
    } else if !supported(field) {
        Some(ErrorKind::Unsupported)
    } else if !array.wf(field) {
        Some(ErrorKind::SchemaMismatch)
    } else {
        None
    }
}

/// A cursor over one column.
#[derive(Debug)]
pub struct DynamicSource<'a> {
    pub field: &'a Field,
    pub array: &'a Array,
    /// The row that is handed out next.
    pub next: usize,
}

impl<'a> DynamicSource<'a> {
    /// The column is a readable column of the field, and the cursor lies within it.
    pub open spec fn wf(self) -> bool {
        &&& source_error(*self.field, *self.array) is None
        &&& self.next <= self.array.rows()
    }

    /// The rows that are still to be handed out.
    pub open spec fn remaining(self) -> Seq<ValueView> {
        self.array.values(*self.field).skip(self.next as int)
    }

    /// A cursor at the first row of a readable column.
    pub fn new(field: &'a Field, array: &'a Array) -> (source: Self)
        requires
            source_error(*field, *array) is None,
        ensures
            source.wf(),
            source.field == field,
            source.array == array,
            source.next == 0,
    {
        DynamicSource { field, array, next: 0 }
    }

    /// Hands out the row at the cursor and moves the cursor on, or tells that
    /// no row is left.
    pub fn next_value(&mut self) -> (r: Option<Value>)
        requires
            old(self).wf(),
        ensures
            final(self).wf(),
            final(self).field == old(self).field,
            final(self).array == old(self).array,
            match r {
                Some(value) => old(self).remaining().len() > 0 && value@ == old(
                    self,
                ).remaining()[0] && final(self).remaining() == old(self).remaining().skip(1)
                    && final(self).next == old(self).next + 1,
                None => old(self).remaining().len() == 0 && final(self).next == old(self).next,
            },
    {
        if self.next >= self.array.len() {
            return None;
        }
        let value = read_row(self.field, self.array, self.next);
        self.next = self.next + 1;
        assert(self.remaining() =~= old(self).remaining().skip(1));
        Some(value)
    }
}

/// What `build_dynamic_source` reports for a column.
pub open spec fn built(
    field: &Field,
    array: &Array,
    r: Result<DynamicSource, Error>,
    fits: bool,
) -> bool {
    match r {
        Ok(source) => source_error(*field, *array) is None && fits && source.field == field
            && source.array == array && source.next == 0,
        Err(e) => match source_error(*field, *array) {
            Some(kind) => e.kind == kind,
            None => !fits && e.kind == ErrorKind::SchemaMismatch,
        },
    }
}

/// A cursor over `array` as a column of `field`.
///
/// Fails with `SchemaInvalid` where the field breaks the schema invariants,
/// else with `Unsupported` where it holds a type that is not handled, else
/// with `SchemaMismatch` where the column has another layout than the field or
/// inconsistent buffers.
pub fn build_dynamic_source<'a>(field: &'a Field, array: &'a Array) -> (r: Result<
    DynamicSource<'a>,
    Error,
>)
    ensures
        built(field, array, r, true),
    decreases *field, 1nat,
{
    if !field.is_valid() {
        return Err(Error::new(ErrorKind::SchemaInvalid, "the field violates the schema invariants"));
    }
    if !is_supported(field) {
        return Err(Error::new(ErrorKind::Unsupported, "the data type is not yet supported"));
    }
    match &field.data_type {
        DataType::Int8 => build_dynamic_primitive_source(field, array, PrimitiveType::I8),
        DataType::Int16 => build_dynamic_primitive_source(field, array, PrimitiveType::I16),
        DataType::Int32 | DataType::Date32 | DataType::Time32(_) => build_dynamic_primitive_source(
            field,
            array,
            PrimitiveType::I32,
        ),
        DataType::Int64 | DataType::Date64 | DataType::Time64(_) | DataType::Timestamp(_, _)
        | DataType::Duration(_) => build_dynamic_primitive_source(field, array, PrimitiveType::I64),
        DataType::UInt8 => build_dynamic_primitive_source(field, array, PrimitiveType::U8),
        DataType::UInt16 => build_dynamic_primitive_source(field, array, PrimitiveType::U16),
        DataType::UInt32 => build_dynamic_primitive_source(field, array, PrimitiveType::U32),
        DataType::UInt64 => build_dynamic_primitive_source(field, array, PrimitiveType::U64),
        DataType::Float32 => build_dynamic_primitive_source(field, array, PrimitiveType::F32),
        DataType::Float64 => build_dynamic_primitive_source(field, array, PrimitiveType::F64),
        DataType::Decimal128(_, _) => build_dynamic_primitive_source(
            field,
            array,
            PrimitiveType::I128,
        ),
        DataType::Struct => build_dynamic_struct_source(field, array),
        _ => {
            let fits = match array {
                Array::Null(_) => matches!(field.data_type, DataType::Null),
                Array::Boolean { values, validity } => matches!(field.data_type, DataType::Bool)
                    && values.len() == validity.len(),
                Array::Binary { offsets, data, validity } => holds_binary(&field.data_type)
                    && binary_ok(offsets, data, validity, holds_text(&field.data_type)) && (match &field.data_type {
                    DataType::FixedSizeBinary(size) => runs_ok(offsets, validity.len(), *size),
                    _ => true,
                }),
                Array::List { offsets, child, validity } => {
                    (match &field.data_type {
                        DataType::List | DataType::LargeList | DataType::Mapping(_) => true,
                        DataType::FixedSizeList(size) => runs_ok(offsets, validity.len(), *size),
                        _ => false,
                    }) && build_dynamic_source(&field.children[0], child).is_ok() && offsets_ok(
                        offsets,
                        validity.len(),
                        child.len(),
                    )
                },
                Array::Union { type_codes, offsets, children } => {
                    (match &field.data_type {
                        DataType::Union(UnionMode::Dense) => true,
                        DataType::Union(UnionMode::Sparse) => sparse_ok(
                            offsets,
                            children,
                            type_codes.len(),
                        ),
                        _ => false,
                    }) && union_ok(&field.children, type_codes, offsets, children)
                },
                Array::Dictionary { keys, validity, values } => {
                    matches!(field.data_type, DataType::Dictionary(_, _, _)) && dictionary_ok(
                        keys,
                        validity,
                        values,
                    )
                },
                _ => false,
            };
            if fits {
                Ok(DynamicSource::new(field, array))
            } else {
                Err(Error::new(ErrorKind::SchemaMismatch, "mismatched types"))
            }
        },
    }
}

/// A cursor over `array` as a fixed-width column of `field` with elements of
/// type `kind`.
///
/// Fails as `build_dynamic_source` does, and with `SchemaMismatch` where the
/// field is not stored with elements of that type.
pub fn build_dynamic_primitive_source<'a>(
    field: &'a Field,
    array: &'a Array,
    kind: PrimitiveType,
) -> (r: Result<DynamicSource<'a>, Error>)
    ensures
        built(field, array, r, primitive_type(field.data_type) == Some(kind)),
{
    if !field.is_valid() {
        return Err(Error::new(ErrorKind::SchemaInvalid, "the field violates the schema invariants"));
    }
    if !is_supported(field) {
        return Err(Error::new(ErrorKind::Unsupported, "the data type is not yet supported"));
    }
    let fits = match array {
        Array::Primitive { values, validity } => primitive_ok(field, values, validity)
            && values.element_type() == kind,
        _ => false,
    };
    if fits {
        Ok(DynamicSource::new(field, array))
    } else {
        Err(Error::new(ErrorKind::SchemaMismatch, "mismatched type"))
    }
}

/// A cursor over `array` as a struct column of `field`, whose children are
/// the fields of the struct.
///
/// Fails as `build_dynamic_source` does, and with `SchemaMismatch` where the
/// field is no struct.
pub fn build_dynamic_struct_source<'a>(field: &'a Field, array: &'a Array) -> (r: Result<
    DynamicSource<'a>,
    Error,
>)
    ensures
        built(field, array, r, field.data_type == DataType::Struct),
    decreases *field, 0nat,
{
    if !field.is_valid() {
        return Err(Error::new(ErrorKind::SchemaInvalid, "the field violates the schema invariants"));
    }
    if !is_supported(field) {
        return Err(Error::new(ErrorKind::Unsupported, "the data type is not yet supported"));
    }
    let fits = match array {
        Array::Struct { children, validity } => matches!(field.data_type, DataType::Struct)
            && children_ok(&field.children, children, Some(validity.len())),
        _ => false,
    };
    if fits {
        Ok(DynamicSource::new(field, array))
    } else {
        Err(Error::new(ErrorKind::SchemaMismatch, "mismatched type"))
    }
}

/// Checks that column `k` is a readable column of field `k`, and, where a
/// length is given, that each column has that many rows.
#[verifier::loop_isolation(false)]
pub fn children_ok(fields: &Vec<Field>, arrays: &Vec<Array>, rows: Option<usize>) -> (ok: bool)
    requires
        forall|k: int| 0 <= k < fields@.len() ==> (#[trigger] fields[k]).valid() && supported(fields[k]),
    ensures
        ok == {
            &&& arrays@.len() == fields@.len()
            &&& forall|k: int|
                0 <= k < fields@.len() ==> (#[trigger] arrays[k]).wf(fields[k]) && (rows matches Some(
                    n,
                ) ==> arrays[k].rows() == n)
        },
    decreases *fields, 0nat,
{
    let n: usize = fields.len();
    if arrays.len() != n {
        return false;
    }
    let mut k: usize = 0;
    while k < n
        invariant
            k <= n,
            n == fields@.len(),
            n == arrays@.len(),
            forall|j: int| 0 <= j < fields@.len() ==> (#[trigger] fields[j]).valid() && supported(fields[j]),
            forall|j: int|
                0 <= j < k ==> (#[trigger] arrays[j]).wf(fields[j]) && (rows matches Some(n)
                    ==> arrays[j].rows() == n),
        decreases n - k,
    {
        if build_dynamic_source(&fields[k], &arrays[k]).is_err() {
            return false;
        }
        match rows {
            Some(expected) => {
                if arrays[k].len() != expected {
                    return false;
                }
            },
            None => {},
        }
        k += 1;
    }
    true
}

/// Checks the buffers that a sparse union has beyond those of a dense one.
#[verifier::loop_isolation(false)]
pub fn sparse_ok(offsets: &Vec<usize>, children: &Vec<Array>, rows: usize) -> (ok: bool)
    ensures
        ok == sparse_fits(offsets@, children@, rows as int),
{
    let mut i: usize = 0;
    while i < rows && i < offsets.len()
        invariant
            forall|j: int| 0 <= j < i ==> #[trigger] offsets[j] == j,
        decreases rows - i,
    {
        if offsets[i] != i {
            return false;
        }
        i += 1;
    }
    let n: usize = children.len();
    let mut k: usize = 0;
    while k < n
        invariant
            k <= n,
            forall|j: int| 0 <= j < k ==> (#[trigger] children[j]).rows() == rows,
        decreases n - k,
    {
        if children[k].len() != rows {
            return false;
        }
        k += 1;
    }
    true
}

/// Checks the buffers of a union column.
#[verifier::loop_isolation(false)]
pub fn union_ok(
    fields: &Vec<Field>,
    type_codes: &Vec<i8>,
    offsets: &Vec<usize>,
    children: &Vec<Array>,
) -> (ok: bool)
    requires
        forall|k: int| 0 <= k < fields@.len() ==> (#[trigger] fields[k]).valid() && supported(fields[k]),
    ensures
        ok == {
            &&& children@.len() == fields@.len()
            &&& offsets@.len() == type_codes@.len()
            &&& forall|k: int|
                0 <= k < fields@.len() ==> (#[trigger] children[k]).wf(fields[k])
            &&& forall|i: int|
                0 <= i < type_codes@.len() ==> 0 <= (#[trigger] type_codes[i]) < children@.len()
                    && offsets[i] < children[type_codes[i] as int].rows()
        },
    decreases *fields, 1nat,
{
    if !children_ok(fields, children, None) || offsets.len() != type_codes.len() {
        return false;
    }
    let rows: usize = type_codes.len();
    let mut i: usize = 0;
    while i < rows
        invariant
            i <= rows,
            rows == type_codes@.len(),
            rows == offsets@.len(),
            forall|j: int|
                0 <= j < i ==> 0 <= (#[trigger] type_codes[j]) < children@.len() && offsets[j]
                    < children[type_codes[j] as int].rows(),
        decreases rows - i,
    {
        let code: i8 = type_codes[i];
        if code < 0 || code as usize >= children.len() {
            return false;
        }
        if offsets[i] >= children[code as usize].len() {
            return false;
        }
        i += 1;
    }
    true
}

/// Checks the buffers of a dictionary column.
#[verifier::loop_isolation(false)]
pub fn dictionary_ok(keys: &Vec<usize>, validity: &Vec<bool>, values: &Array) -> (ok: bool)
    ensures
        ok == {
            &&& keys@.len() == validity@.len()
            &&& values matches Array::Binary { offsets, data, validity: set }
            &&& binary_fits(offsets@, data@, set@, true)
            &&& forall|i: int|
                0 <= i < keys@.len() && validity[i] ==> (#[trigger] keys[i]) < set@.len()
        },
{
    if keys.len() != validity.len() {
        return false;
    }
    match values {
        Array::Binary { offsets, data, validity: set } => {
            if !binary_ok(offsets, data, set, true) {
                return false;
            }
            let rows: usize = keys.len();
            let mut i: usize = 0;
            while i < rows
                invariant
                    i <= rows,
                    rows == keys@.len(),
                    rows == validity@.len(),
                    forall|j: int| 0 <= j < i && validity[j] ==> (#[trigger] keys[j]) < set@.len(),
                decreases rows - i,
            {
                if validity[i] && keys[i] >= set.len() {
                    return false;
                }
                i += 1;
            }
            true
        },
        _ => false,
    }
}

/// Row `i` of a record batch: a struct with one child per column.
pub open spec fn record_row(fields: Seq<Field>, arrays: Seq<Array>, i: int) -> ValueView {
    ValueView::Struct(child_rows(fields, arrays, i))
}

/// The first `rows` rows of a record batch.
pub open spec fn record_rows(fields: Seq<Field>, arrays: Seq<Array>, rows: int) -> Seq<ValueView> {
    Seq::new(rows as nat, |i: int| record_row(fields, arrays, i))
}

/// The number of rows of a record batch: that of its first column.
pub open spec fn record_count(arrays: Seq<Array>) -> int {
    if arrays.len() == 0 {
        0
    } else {
        arrays[0].rows()
    }
}

/// Why column `k` cannot be read as part of a record batch, if anything:
/// the column cannot be read, or it has another length than the first.
pub open spec fn column_error(fields: Seq<Field>, arrays: Seq<Array>, k: int) -> Option<ErrorKind> {
    match source_error(fields[k], arrays[k]) {
        Some(kind) => Some(kind),
        None => if arrays[k].rows() != arrays[0].rows() {
            Some(ErrorKind::SchemaMismatch)
        } else {
            None
        },
    }
}

/// The columns can be read as a record batch of the fields.
pub open spec fn record_readable(fields: Seq<Field>, arrays: Seq<Array>) -> bool {
    &&& fields.len() == arrays.len()
    &&& forall|k: int| 0 <= k < fields.len() ==> column_error(fields, arrays, k) is None
}

/// The event stream of a record batch: the rows, one after the other.
pub open spec fn record_events(fields: Seq<Field>, arrays: Seq<Array>) -> Seq<EventView> {
    flatten_all(record_rows(fields, arrays, record_count(arrays)))
}

/// Row `i` of a record batch, as a tree.
pub fn read_record(fields: &[Field], arrays: &[Array], i: usize) -> (value: Value)
    requires
        record_readable(fields@, arrays@),
        i < record_count(arrays@),
    ensures
        value@ == record_row(fields@, arrays@, i as int),
{
    let n: usize = fields.len();
    let mut out: Vec<(String, Value)> = Vec::new();
    let mut k: usize = 0;
    while k < n
        invariant
            k <= n,
            n == fields@.len(),
            record_readable(fields@, arrays@),
            i < record_count(arrays@),
            out@.len() == k,
            forall|j: int|
                0 <= j < k ==> (#[trigger] out[j]).0@ == fields[j].name@ && out[j].1@
                    == arrays[j].row(fields[j], i as int),
        decreases n - k,
    {
        assert(column_error(fields@, arrays@, k as int) is None);
        let value = read_row(&fields[k], &arrays[k], i);
        out.push((fields[k].name.clone(), value));
        k += 1;
    }
    let value = Value::Struct(out);
    proof {
        lemma_view_parts(value);
        lemma_child_rows(fields@, arrays@, i as int, fields_view(out@));
    }
    value
}

/// A cursor over a record batch that hands out its rows, or their events one
/// by one.
#[derive(Debug)]
pub struct RecordSource<'a> {
    pub fields: &'a [Field],
    pub arrays: &'a [Array],
    /// The row that is read next.
    pub next: usize,
    /// The events of the row that was read last.
    pub pending: Vec<Event>,
    /// The event of `pending` that is handed out next.
    pub cursor: usize,
}

impl<'a> RecordSource<'a> {
    /// The columns are readable, and the cursors lie within their ranges.
    pub open spec fn wf(self) -> bool {
        &&& record_readable(self.fields@, self.arrays@)
        &&& self.next <= record_count(self.arrays@)
        &&& self.cursor <= self.pending@.len()
    }

    /// The rows that are still to be read.
    pub open spec fn remaining_rows(self) -> Seq<ValueView> {
        record_rows(self.fields@, self.arrays@, record_count(self.arrays@)).skip(self.next as int)
    }

    /// The events that are still to be handed out.
    pub open spec fn remaining(self) -> Seq<EventView> {
        events_view(self.pending@.skip(self.cursor as int)) + flatten_all(self.remaining_rows())
    }

    /// Reads the next row and moves on, or tells that no row is left. Events
    /// of an earlier row that were not yet handed out are dropped.
    pub fn next_record(&mut self) -> (r: Option<Value>)
        requires
            old(self).wf(),
        ensures
            final(self).wf(),
            final(self).fields == old(self).fields,
            final(self).arrays == old(self).arrays,
            final(self).cursor == final(self).pending@.len(),
            match r {
                Some(value) => old(self).remaining_rows().len() > 0 && value@ == old(
                    self,
                ).remaining_rows()[0] && final(self).remaining_rows() == old(
                    self,
                ).remaining_rows().skip(1) && final(self).next == old(self).next + 1,
                None => old(self).remaining_rows().len() == 0 && final(self).next == old(
                    self,
                ).next,
            },
    {
        self.pending = Vec::new();
        self.cursor = 0;
        let rows: usize = if self.arrays.len() == 0 {
            0
        } else {
            self.arrays[0].len()
        };
        if self.next >= rows {
            return None;
        }
        let value = read_record(self.fields, self.arrays, self.next);
        self.next = self.next + 1;
        assert(self.remaining_rows() =~= old(self).remaining_rows().skip(1));
        Some(value)
    }

    /// Hands out the next event of the batch, or tells that none is left.
    pub fn next(&mut self) -> (r: Option<Event>)
        requires
            old(self).wf(),
        ensures
            final(self).wf(),
            final(self).fields == old(self).fields,
            final(self).arrays == old(self).arrays,
            match r {
                Some(event) => old(self).remaining() == seq![event@] + final(self).remaining(),
                None => old(self).remaining().len() == 0,
            },
    {
        if self.cursor >= self.pending.len() {
            let ghost rows_before = self.remaining_rows();
            match self.next_record() {
                Some(value) => {
                    let mut events: Vec<Event> = Vec::new();
                    write_events(&value, &mut events);
                    proof {
                        lemma_flatten_all_first(rows_before);
                        assert(events_view(events@) =~= flatten(value@));
                        assert(old(self).remaining() =~= flatten(value@) + flatten_all(
                            rows_before.skip(1),
                        ));
                    }
                    self.pending = events;
                    self.cursor = 0;
                },
                None => {
                    assert(old(self).remaining() =~= Seq::<EventView>::empty());
                    return None;
                },
            }
        }
        let ghost before = self.remaining();
        assert(before == old(self).remaining());
        let event = self.pending[self.cursor].duplicate();
        self.cursor = self.cursor + 1;
        assert(before =~= seq![event@] + self.remaining());
        Some(event)
    }
}

/// What `build_record_source` reports for a record batch.
pub open spec fn record_built(
    fields: &[Field],
    arrays: &[Array],
    r: Result<RecordSource, Error>,
) -> bool {
    match r {
        Ok(source) => {
            &&& record_readable(fields@, arrays@)
            &&& source.fields == fields
            &&& source.arrays == arrays
            &&& source.next == 0
            &&& source.cursor == 0
            &&& source.pending@.len() == 0
        },
        Err(e) => {
            ||| fields@.len() != arrays@.len() && e.kind == ErrorKind::SchemaMismatch
            ||| exists|k: int|
                0 <= k < fields@.len() && k < arrays@.len() && column_error(fields@, arrays@, k)
                    == Some(e.kind) && forall|j: int|
                    0 <= j < k ==> column_error(fields@, arrays@, j) is None
        },
    }
}

/// A cursor over the columns `arrays` as a record batch of `fields`.
///
/// Fails with `SchemaMismatch` where the numbers of fields and of columns
/// differ; else with what the first column that cannot be read fails with,
/// or with `SchemaMismatch` where it has another length than the first column.
#[verifier::loop_isolation(false)]
pub fn build_record_source<'a>(fields: &'a [Field], arrays: &'a [Array]) -> (r: Result<
    RecordSource<'a>,
    Error,
>)
    ensures
        record_built(fields, arrays, r),
{
    let n: usize = fields.len();
    if arrays.len() != n {
        return Err(Error::new(ErrorKind::SchemaMismatch, "one column is needed for each field"));
    }
    let mut k: usize = 0;
    while k < n
        invariant
            k <= n,
            forall|j: int| 0 <= j < k ==> column_error(fields@, arrays@, j) is None,
        decreases n - k,
    {
        match build_dynamic_source(&fields[k], &arrays[k]) {
            Ok(_) => {},
            Err(e) => {
                assert(column_error(fields@, arrays@, k as int) == Some(e.kind));
                return Err(e);
            },
        }
        if arrays[k].len() != arrays[0].len() {
            assert(column_error(fields@, arrays@, k as int) == Some(ErrorKind::SchemaMismatch));
            return Err(Error::new(ErrorKind::SchemaMismatch, "the columns differ in length"));
        }
        k += 1;
    }
    Ok(RecordSource { fields, arrays, next: 0, pending: Vec::new(), cursor: 0 })
}

} // verus!
