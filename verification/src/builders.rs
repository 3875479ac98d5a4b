//! Builders: appending rows to columns, directed by the schema.
use vstd::prelude::*;
use vstd::utf8::*;
use crate::array::{
    binary_event, binary_fits, child_rows, entry_pair, entry_pairs, is_text_type, item_rows,
    lemma_child_rows, lemma_item_rows, lemma_offsets_bounded, list_value, number_event, offsets_fit,
    primitive_type, slot, stores_date_text, struct_value, supported, Array, Buffer, Layout,
    PrimitiveType,
};
use crate::error::{Error, ErrorKind};
use crate::float::{integer_bits, integer_to_bits, widen, widened, EXACT_INTEGER_MAX};
use crate::event::{Event, EventView};
use crate::schema::{DataType, Field, Strategy, UnionMode};
use crate::sources::{element_type_of, holds_text};
use crate::decimal::{decimal_unscaled, lemma_pow10_add, parse_unscaled, power_of_ten};
use crate::temporal::{parse_millis, parse_timestamp, MAX_MILLIS, MIN_MILLIS};
use crate::text::{bytes_of, lemma_pow10_38, lemma_pow10_monotonic, pow10, text_bytes};
use crate::value::{entries_view, fields_view, lemma_view_parts, values_view, Value, ValueView};

verus! {

/// A column of the field can hold a null row.
pub open spec fn accepts_null(field: Field) -> bool {
    field.data_type == DataType::Null || (field.nullable && !(field.data_type matches DataType::Union(
        _,
    )))
}

/// The smallest number that a buffer of the element type holds.
pub open spec fn kind_min(kind: PrimitiveType) -> int {
    match kind {
        PrimitiveType::I8 => i8::MIN as int,
        PrimitiveType::I16 => i16::MIN as int,
        PrimitiveType::I32 => i32::MIN as int,
        PrimitiveType::I64 => i64::MIN as int,
        PrimitiveType::I128 => i128::MIN as int,
        _ => 0,
    }
}

/// The largest number that a buffer of the element type holds.
pub open spec fn kind_max(kind: PrimitiveType) -> int {
    match kind {
        PrimitiveType::I8 => i8::MAX as int,
        PrimitiveType::I16 => i16::MAX as int,
        PrimitiveType::I32 => i32::MAX as int,
        PrimitiveType::I64 => i64::MAX as int,
        PrimitiveType::U8 => u8::MAX as int,
        PrimitiveType::U16 => u16::MAX as int,
        PrimitiveType::U32 | PrimitiveType::F32 => u32::MAX as int,
        PrimitiveType::U64 | PrimitiveType::F64 => u64::MAX as int,
        PrimitiveType::I128 => i128::MAX as int,
    }
}

/// The number that a fixed-width column of `field` stores for a scalar that
/// is neither a null nor a default, or why the scalar is refused: an integer
/// must fit the element type (`OutOfRange`), a float must have the width of
/// the column or be widened to it, an integer for a column of 64-bit floats
/// must be one of the integers up to 2^53 in magnitude, which all are such
/// floats (`OutOfRange`), and where a strategy stores text as instants the
/// scalar must be a string that spells one (`Parse`). A decimal
/// column takes a string
/// that spells a decimal number (`Parse`), which is cut off behind the scale,
/// or an integer; either must have fewer digits before the point than the
/// precision leaves (`OutOfRange`).
pub open spec fn store(field: Field, kind: PrimitiveType, event: EventView) -> Result<
    int,
    ErrorKind,
> {
    match kind {
        PrimitiveType::I128 => match field.data_type {
            DataType::Decimal128(precision, scale) => match event {
                EventView::Str(text) => match decimal_unscaled(text_bytes(text), scale as nat) {
                    None => Err(ErrorKind::Parse),
                    Some(unscaled) => if -pow10(precision as nat) < unscaled < pow10(
                        precision as nat,
                    ) {
                        Ok(unscaled)
                    } else {
                        Err(ErrorKind::OutOfRange)
                    },
                },
                other => match other.as_int() {
                    Some(n) => if -pow10(precision as nat) < n * pow10(scale as nat) < pow10(
                        precision as nat,
                    ) {
                        Ok(n * pow10(scale as nat))
                    } else {
                        Err(ErrorKind::OutOfRange)
                    },
                    None => Err(ErrorKind::SchemaMismatch),
                },
            },
            _ => Err(ErrorKind::SchemaMismatch),
        },
        PrimitiveType::F32 => match event {
            EventView::F32(bits) => Ok(bits as int),
            _ => Err(ErrorKind::SchemaMismatch),
        },
        PrimitiveType::F64 => match event {
            EventView::F64(bits) => Ok(bits as int),
            EventView::F32(bits) => Ok(widened(bits) as int),
            other => match other.as_int() {
                Some(n) => if -EXACT_INTEGER_MAX <= n <= EXACT_INTEGER_MAX {
                    Ok(integer_bits(n) as int)
                } else {
                    Err(ErrorKind::OutOfRange)
                },
                None => Err(ErrorKind::SchemaMismatch),
            },
        },
        _ => if stores_date_text(field) {
            match event {
                EventView::Str(text) => match parse_millis(
                    text,
                    field.strategy == Some(Strategy::UtcStrAsDate64),
                ) {
                    Some(millis) => Ok(millis),
                    None => Err(ErrorKind::Parse),
                },
                _ => Err(ErrorKind::SchemaMismatch),
            }
        } else {
            match event.as_int() {
                Some(n) => if kind_min(kind) <= n <= kind_max(kind) {
                    Ok(n)
                } else {
                    Err(ErrorKind::OutOfRange)
                },
                None => Err(ErrorKind::SchemaMismatch),
            }
        },
    }
}

/// The row that stands for an absent value: a null where the column can
/// hold one, else the zero, the empty text or list, the struct of such rows,
/// or the first variant of a union with such a payload.
pub open spec fn filler(field: Field) -> ValueView
    decreases field,
{
    if accepts_null(field) {
        ValueView::Leaf(EventView::Null)
    } else {
        match field.data_type {
            DataType::Bool => ValueView::Leaf(EventView::Bool(false)),
            DataType::Utf8 | DataType::LargeUtf8 | DataType::Dictionary(_, _, _) => ValueView::Leaf(
                EventView::Str(Seq::empty()),
            ),
            DataType::Binary | DataType::LargeBinary => ValueView::Leaf(
                EventView::Bytes(Seq::empty()),
            ),
            DataType::FixedSizeBinary(size) => ValueView::Leaf(
                EventView::Bytes(Seq::new(size as nat, |j: int| 0u8)),
            ),
            DataType::List | DataType::LargeList => ValueView::Sequence(Seq::empty()),
            DataType::Mapping(_) => ValueView::Mapping(Seq::empty()),
            DataType::FixedSizeList(size) => if field.children@.len() > 0 {
                let item = filler(field.children[0]);
                ValueView::Sequence(Seq::new(size as nat, |j: int| item))
            } else {
                arbitrary()
            },
            DataType::Struct => struct_value(field.strategy, fillers(field.children@)),
            DataType::Union(_) => if field.children@.len() > 0 {
                ValueView::Variant(
                    field.children[0].name@,
                    0,
                    Box::new(filler(field.children[0])),
                )
            } else {
                arbitrary()
            },
            other => match primitive_type(other) {
                Some(kind) => ValueView::Leaf(number_event(field, kind, 0)),
                None => ValueView::Leaf(EventView::Null),
            },
        }
    }
}

/// The filler row of each field, behind the name of the field.
pub open spec fn fillers(fields: Seq<Field>) -> Seq<(Seq<char>, ValueView)>
    decreases fields,
{
    Seq::new(
        fields.len(),
        |k: int|
            if 0 <= k < fields.len() {
                (fields[k].name@, filler(fields[k]))
            } else {
                arbitrary()
            },
    )
}

/// What a struct column reads a row from: children by name, or by position.
pub enum StructInput {
    Named(Seq<(Seq<char>, ValueView)>),
    Positional(Seq<ValueView>),
}

/// The first entry from `from` on that has the given name.
pub open spec fn first_named(entries: Seq<(Seq<char>, ValueView)>, name: Seq<char>, from: int) -> Option<
    int,
>
    decreases entries.len() - from,
{
    if from < 0 || from >= entries.len() {
        None
    } else if entries[from].0 == name {
        Some(from)
    } else {
        first_named(entries, name, from + 1)
    }
}

/// The name that a map key gives, where the key is a string.
pub open spec fn key_name(key: ValueView) -> Option<Seq<char>> {
    match key {
        ValueView::Leaf(EventView::Str(name)) => Some(name),
        _ => None,
    }
}

/// Every key of the map is a string.
pub open spec fn all_keys_named(entries: Seq<(ValueView, ValueView)>) -> bool {
    forall|i: int| 0 <= i < entries.len() ==> key_name((#[trigger] entries[i]).0) is Some
}

/// The entries of a map with string keys, as named children.
pub open spec fn named_entries(entries: Seq<(ValueView, ValueView)>) -> Seq<(Seq<char>, ValueView)> {
    Seq::new(entries.len(), |i: int| (key_name(entries[i].0)->0, entries[i].1))
}

/// How a struct column of `field` reads `value`: a struct by the names of
/// its children; under the tuple strategy, a tuple with one item for each
/// child, by position; under the map strategy, a map whose keys are strings,
/// by the keys.
pub open spec fn struct_input(field: Field, value: ValueView) -> Result<StructInput, ErrorKind> {
    match (field.strategy, value) {
        (Some(Strategy::TupleAsStruct), ValueView::Tuple(items)) => if items.len()
            == field.children@.len() {
            Ok(StructInput::Positional(items))
        } else {
            Err(ErrorKind::StructuralError)
        },
        (None, ValueView::Struct(entries)) => Ok(StructInput::Named(entries)),
        (Some(Strategy::MapAsStruct), ValueView::Mapping(entries)) => if all_keys_named(entries) {
            Ok(StructInput::Named(named_entries(entries)))
        } else {
            Err(ErrorKind::SchemaMismatch)
        },
        _ => Err(ErrorKind::SchemaMismatch),
    }
}

/// The row that a column of `field` holds after `value` was appended, or why
/// `value` is refused.
///
/// A null needs a column that can hold one. A default stands for the filler
/// row. A scalar must suit the column (see `store`). A list takes a sequence
/// or a tuple, which for a list of fixed size must have that size
/// (`StructuralError`), as must bytes of fixed size. A map takes a map, of
/// whose entries the keys go to the first and the values to the second child
/// of its entries. A union takes the variant whose index names one of its
/// children, a struct takes its children in the order of the schema: a child
/// that is missing is null where it can be, a child that is missing otherwise
/// or that occurs twice is a `StructuralError`, and entries that name no child
/// are dropped. The first refusal in that order is reported.
pub open spec fn encode(field: Field, value: ValueView) -> Result<ValueView, ErrorKind>
    decreases field, 0nat,
{
    match value {
        ValueView::Leaf(EventView::Null) => if accepts_null(field) {
            Ok(value)
        } else {
            Err(ErrorKind::SchemaMismatch)
        },
        ValueView::Leaf(EventView::Default) => Ok(filler(field)),
        _ => match field.data_type {
            DataType::Null => Err(ErrorKind::SchemaMismatch),
            DataType::Bool => match value {
                ValueView::Leaf(EventView::Bool(_)) => Ok(value),
                _ => Err(ErrorKind::SchemaMismatch),
            },
            DataType::Utf8 | DataType::LargeUtf8 | DataType::Dictionary(_, _, _) => match value {
                ValueView::Leaf(EventView::Str(_)) => Ok(value),
                _ => Err(ErrorKind::SchemaMismatch),
            },
            DataType::Binary | DataType::LargeBinary => match value {
                ValueView::Leaf(EventView::Bytes(_)) => Ok(value),
                _ => Err(ErrorKind::SchemaMismatch),
            },
            DataType::FixedSizeBinary(size) => match value {
                ValueView::Leaf(EventView::Bytes(bytes)) => if bytes.len() == size {
                    Ok(value)
                } else {
                    Err(ErrorKind::StructuralError)
                },
                _ => Err(ErrorKind::SchemaMismatch),
            },
            DataType::List | DataType::LargeList => match value {
                ValueView::Sequence(items) | ValueView::Tuple(items) => if field.children@.len()
                    > 0 {
                    match encode_all(field.children[0], items) {
                        Ok(rows) => Ok(ValueView::Sequence(rows)),
                        Err(kind) => Err(kind),
                    }
                } else {
                    Err(ErrorKind::SchemaInvalid)
                },
                _ => Err(ErrorKind::SchemaMismatch),
            },
            DataType::FixedSizeList(size) => match value {
                ValueView::Sequence(items) | ValueView::Tuple(items) => if field.children@.len()
                    == 0 {
                    Err(ErrorKind::SchemaInvalid)
                } else if items.len() != size {
                    Err(ErrorKind::StructuralError)
                } else {
                    match encode_all(field.children[0], items) {
                        Ok(rows) => Ok(ValueView::Sequence(rows)),
                        Err(kind) => Err(kind),
                    }
                },
                _ => Err(ErrorKind::SchemaMismatch),
            },
            DataType::Mapping(_) => match value {
                ValueView::Mapping(entries) => if field.children@.len() > 0 {
                    match encode_entries(field.children[0], entries, 0, Seq::empty()) {
                        Ok(pairs) => Ok(ValueView::Mapping(pairs)),
                        Err(kind) => Err(kind),
                    }
                } else {
                    Err(ErrorKind::SchemaInvalid)
                },
                _ => Err(ErrorKind::SchemaMismatch),
            },
            DataType::Struct => match struct_input(field, value) {
                Ok(input) => match encode_fields(
                    field.children@,
                    input,
                    field.children@.len(),
                ) {
                    Ok(rows) => Ok(struct_value(field.strategy, rows)),
                    Err(kind) => Err(kind),
                },
                Err(kind) => Err(kind),
            },
            DataType::Union(_) => match value {
                ValueView::Variant(_, index, payload) => if index < field.children@.len() {
                    match encode(field.children[index as int], *payload) {
                        Ok(row) => Ok(
                            ValueView::Variant(
                                field.children[index as int].name@,
                                index,
                                Box::new(row),
                            ),
                        ),
                        Err(kind) => Err(kind),
                    }
                } else {
                    Err(ErrorKind::SchemaMismatch)
                },
                _ => Err(ErrorKind::SchemaMismatch),
            },
            other => match (primitive_type(other), value) {
                (Some(kind), ValueView::Leaf(event)) => match store(field, kind, event) {
                    Ok(n) => Ok(ValueView::Leaf(number_event(field, kind, n))),
                    Err(kind) => Err(kind),
                },
                (Some(_), _) => Err(ErrorKind::SchemaMismatch),
                (None, _) => Err(ErrorKind::Unsupported),
            },
        },
    }
}

/// The entries `done`, and the keys and values that the column of the
/// entries of a map holds after the entries from `from` on were appended: of
/// each entry the key goes to the first child and the value to the second.
pub open spec fn encode_entries(
    entries_field: Field,
    entries: Seq<(ValueView, ValueView)>,
    from: nat,
    done: Seq<(ValueView, ValueView)>,
) -> Result<Seq<(ValueView, ValueView)>, ErrorKind>
    decreases entries_field, entries.len() - from,
{
    if from >= entries.len() {
        Ok(done)
    } else {
        match encode_fields(
            entries_field.children@,
            StructInput::Positional(seq![entries[from as int].0, entries[from as int].1]),
            entries_field.children@.len(),
        ) {
            Ok(rows) => encode_entries(
                entries_field,
                entries,
                from + 1,
                done.push(entry_pair(ValueView::Struct(rows))),
            ),
            Err(kind) => Err(kind),
        }
    }
}

/// The rows that a column of `field` holds after `items` were appended in
/// order, or the first refusal.
pub open spec fn encode_all(field: Field, items: Seq<ValueView>) -> Result<
    Seq<ValueView>,
    ErrorKind,
>
    decreases field, items.len() + 1,
{
    if items.len() == 0 {
        Ok(Seq::empty())
    } else {
        match encode_all(field, items.drop_last()) {
            Ok(rows) => match encode(field, items.last()) {
                Ok(row) => Ok(rows.push(row)),
                Err(kind) => Err(kind),
            },
            Err(kind) => Err(kind),
        }
    }
}

/// The row that the column of `child` holds after a struct row was read from
/// `input`, where `child` is child `k` of the struct.
pub open spec fn encode_child(child: Field, input: StructInput, k: int) -> Result<
    ValueView,
    ErrorKind,
>
    decreases child, 1nat,
{
    match input {
        StructInput::Positional(items) => if 0 <= k < items.len() {
            encode(child, items[k])
        } else {
            Err(ErrorKind::StructuralError)
        },
        StructInput::Named(entries) => match first_named(entries, child.name@, 0) {
            None => if accepts_null(child) {
                Ok(ValueView::Leaf(EventView::Null))
            } else {
                Err(ErrorKind::StructuralError)
            },
            Some(at) => if first_named(entries, child.name@, at + 1) is Some {
                Err(ErrorKind::StructuralError)
            } else {
                encode(child, entries[at].1)
            },
        },
    }
}

/// The rows, each behind the name of its field, that the columns of the first
/// `upto` fields hold after a struct row was read from `input`, or the first
/// refusal.
pub open spec fn encode_fields(fields: Seq<Field>, input: StructInput, upto: nat) -> Result<
    Seq<(Seq<char>, ValueView)>,
    ErrorKind,
>
    decreases fields, upto,
{
    if upto == 0 || upto > fields.len() {
        Ok(Seq::empty())
    } else {
        match encode_fields(fields, input, (upto - 1) as nat) {
            Ok(rows) => match encode_child(fields[upto - 1], input, upto - 1) {
                Ok(row) => Ok(rows.push((fields[upto - 1].name@, row))),
                Err(kind) => Err(kind),
            },
            Err(kind) => Err(kind),
        }
    }
}

impl Buffer {
    /// An empty buffer of the element type.
    pub fn with_kind(kind: PrimitiveType) -> (buffer: Buffer)
        ensures
            buffer.kind() == kind,
            buffer.count() == 0,
    {
        match kind {
            PrimitiveType::I8 => Buffer::I8(Vec::new()),
            PrimitiveType::I16 => Buffer::I16(Vec::new()),
            PrimitiveType::I32 => Buffer::I32(Vec::new()),
            PrimitiveType::I64 => Buffer::I64(Vec::new()),
            PrimitiveType::U8 => Buffer::U8(Vec::new()),
            PrimitiveType::U16 => Buffer::U16(Vec::new()),
            PrimitiveType::U32 => Buffer::U32(Vec::new()),
            PrimitiveType::U64 => Buffer::U64(Vec::new()),
            PrimitiveType::F32 => Buffer::F32(Vec::new()),
            PrimitiveType::F64 => Buffer::F64(Vec::new()),
            PrimitiveType::I128 => Buffer::I128(Vec::new()),
        }
    }

    /// Appends the value with the number `n`.
    pub fn push_number(&mut self, n: i128)
        requires
            kind_min(old(self).kind()) <= n <= kind_max(old(self).kind()),
        ensures
            final(self).kind() == old(self).kind(),
            final(self).count() == old(self).count() + 1,
            final(self).number(old(self).count()) == n,
            forall|i: int|
                0 <= i < old(self).count() ==> #[trigger] final(self).number(i) == old(self).number(
                    i,
                ),
    {
        match self {
            Buffer::I8(v) => v.push(n as i8),
            Buffer::I16(v) => v.push(n as i16),
            Buffer::I32(v) => v.push(n as i32),
            Buffer::I64(v) => v.push(n as i64),
            Buffer::U8(v) => v.push(n as u8),
            Buffer::U16(v) => v.push(n as u16),
            Buffer::U32(v) => v.push(n as u32),
            Buffer::U64(v) => v.push(n as u64),
            Buffer::F32(v) => v.push(n as u32),
            Buffer::F64(v) => v.push(n as u64),
            Buffer::I128(v) => v.push(n),
        }
    }
}

/// Appends `bytes` to `data`.
pub fn append_bytes(data: &mut Vec<u8>, bytes: &[u8])
    ensures
        final(data)@ == old(data)@ + bytes@,
{
    let n: usize = bytes.len();
    let mut i: usize = 0;
    assert(data@ =~= old(data)@ + bytes@.take(0));
    while i < n
        invariant
            i <= n,
            n == bytes@.len(),
            data@ == old(data)@ + bytes@.take(i as int),
        decreases n - i,
    {
        data.push(bytes[i]);
        i += 1;
        assert(data@ =~= old(data)@ + bytes@.take(i as int));
    }
    assert(bytes@.take(n as int) =~= bytes@);
}

/// Appends one slot that holds `bytes` to a text or bytes column.
pub fn push_slot(
    offsets: &mut Vec<usize>,
    data: &mut Vec<u8>,
    validity: &mut Vec<bool>,
    bytes: &[u8],
    set: bool,
    text: bool,
)
    requires
        binary_fits(old(offsets)@, old(data)@, old(validity)@, text),
        text ==> valid_utf8(bytes@),
    ensures
        binary_fits(final(offsets)@, final(data)@, final(validity)@, text),
        final(validity)@ == old(validity)@.push(set),
        slot(final(offsets)@, final(data)@, old(validity)@.len() as int) == bytes@,
        final(offsets)@ == old(offsets)@.push((old(data)@.len() + bytes@.len()) as usize),
        forall|i: int|
            0 <= i < old(validity)@.len() ==> #[trigger] slot(final(offsets)@, final(data)@, i)
                == slot(old(offsets)@, old(data)@, i),
{
    let ghost rows = validity@.len() as int;
    append_bytes(data, bytes);
    offsets.push(data.len());
    validity.push(set);
    assert(slot(offsets@, data@, rows) =~= bytes@);
    assert forall|i: int| 0 <= i < rows implies #[trigger] slot(offsets@, data@, i) == slot(
        old(offsets)@,
        old(data)@,
        i,
    ) by {
        lemma_offsets_bounded(old(offsets)@, rows, old(data)@.len() as int, i);
        lemma_offsets_bounded(old(offsets)@, rows, old(data)@.len() as int, i + 1);
        assert(slot(offsets@, data@, i) =~= slot(old(offsets)@, old(data)@, i));
    }
    assert forall|i: int| 0 <= i < rows + 1 && text implies valid_utf8(
        #[trigger] slot(offsets@, data@, i),
    ) by {
        if i < rows {
            assert(slot(offsets@, data@, i) == slot(old(offsets)@, old(data)@, i));
        }
    }
}

/// The bytes of slot `i` of a text or bytes column.
pub open spec fn slot_of(values: Array, i: int) -> Seq<u8> {
    match values {
        Array::Binary { offsets, data, validity } => slot(offsets@, data@, i),
        _ => Seq::empty(),
    }
}

/// The column holds text behind offsets, and its buffers are consistent.
pub open spec fn is_text_column(values: Array) -> bool {
    values matches Array::Binary { offsets, data, validity } && binary_fits(
        offsets@,
        data@,
        validity@,
        true,
    )
}

/// The key of `bytes` in the values of a dictionary: the first slot that
/// holds them, or a new slot at the end.
#[verifier::loop_isolation(false)]
pub fn intern(values: &mut Array, bytes: &[u8]) -> (key: usize)
    requires
        is_text_column(*old(values)),
        valid_utf8(bytes@),
    ensures
        is_text_column(*final(values)),
        key < final(values).rows(),
        slot_of(*final(values), key as int) == bytes@,
        forall|i: int| 0 <= i < key ==> slot_of(*old(values), i) != bytes@,
        forall|i: int|
            0 <= i < old(values).rows() ==> #[trigger] slot_of(*final(values), i) == slot_of(
                *old(values),
                i,
            ),
        key < old(values).rows() ==> *final(values) == *old(values),
        key >= old(values).rows() ==> key == old(values).rows() && final(values).rows() == key + 1,
{
    match values {
        Array::Binary { offsets, data, validity } => {
            let rows: usize = validity.len();
            let mut i: usize = 0;
            while i < rows
                invariant
                    i <= rows,
                    rows == validity@.len(),
                    binary_fits(offsets@, data@, validity@, true),
                    forall|j: int| 0 <= j < i ==> slot(offsets@, data@, j) != bytes@,
                decreases rows - i,
            {
                proof {
                    lemma_offsets_bounded(offsets@, rows as int, data@.len() as int, i as int);
                    lemma_offsets_bounded(offsets@, rows as int, data@.len() as int, i + 1);
                }
                let candidate = vstd::slice::slice_subrange(
                    data.as_slice(),
                    offsets[i],
                    offsets[i + 1],
                );
                if crate::text::bytes_equal(candidate, bytes) {
                    return i;
                }
                i += 1;
            }
            push_slot(offsets, data, validity, bytes, true, true);
            rows
        },
        _ => 0,
    }
}

/// What a column gains by one more row.
pub open spec fn grown(field: Field, before: Array, after: Array, row: ValueView) -> bool {
    &&& after.wf(field)
    &&& after.rows() == before.rows() + 1
    &&& after.row(field, before.rows()) == row
    &&& forall|i: int| 0 <= i < before.rows() ==> #[trigger] after.row(field, i) == before.row(field, i)
}

/// An empty column of the field.
pub fn new_array(field: &Field) -> (array: Array)
    requires
        field.valid(),
        supported(*field),
    ensures
        array.wf(*field),
        array.rows() == 0,
    decreases *field, 0nat,
{
    match &field.data_type {
        DataType::Null => Array::Null(Vec::new()),
        DataType::Bool => Array::Boolean { values: Vec::new(), validity: Vec::new() },
        DataType::Utf8 | DataType::LargeUtf8 | DataType::Binary | DataType::LargeBinary
        | DataType::FixedSizeBinary(_) => Array::Binary {
            offsets: vec![0usize],
            data: Vec::new(),
            validity: Vec::new(),
        },
        DataType::List | DataType::LargeList | DataType::Mapping(_) | DataType::FixedSizeList(_) => Array::List {
            offsets: vec![0usize],
            child: Box::new(new_array(&field.children[0])),
            validity: Vec::new(),
        },
        DataType::Struct => Array::Struct {
            children: new_arrays(&field.children),
            validity: Vec::new(),
        },
        DataType::Union(_) => Array::Union {
            type_codes: Vec::new(),
            offsets: Vec::new(),
            children: new_arrays(&field.children),
        },
        DataType::Dictionary(_, _, _) => Array::Dictionary {
            keys: Vec::new(),
            validity: Vec::new(),
            values: Box::new(
                Array::Binary { offsets: vec![0usize], data: Vec::new(), validity: Vec::new() },
            ),
        },
        other => match element_type_of(other) {
            Some(kind) => Array::Primitive { values: Buffer::with_kind(kind), validity: Vec::new() },
            None => Array::Null(Vec::new()),
        },
    }
}

/// An empty column of each of the fields.
pub fn new_arrays(fields: &Vec<Field>) -> (arrays: Vec<Array>)
    requires
        forall|k: int| 0 <= k < fields@.len() ==> (#[trigger] fields[k]).valid() && supported(fields[k]),
    ensures
        arrays@.len() == fields@.len(),
        forall|k: int|
            0 <= k < fields@.len() ==> (#[trigger] arrays[k]).wf(fields[k]) && arrays[k].rows() == 0,
    decreases *fields,
{
    let n: usize = fields.len();
    let mut arrays: Vec<Array> = Vec::new();
    let mut k: usize = 0;
    while k < n
        invariant
            k <= n,
            n == fields@.len(),
            arrays@.len() == k,
            forall|j: int| 0 <= j < fields@.len() ==> (#[trigger] fields[j]).valid() && supported(fields[j]),
            forall|j: int| 0 <= j < k ==> (#[trigger] arrays[j]).wf(fields[j]) && arrays[j].rows() == 0,
        decreases n - k,
    {
        arrays.push(new_array(&fields[k]));
        k += 1;
    }
    arrays
}

/// Tells whether a column of the field can hold a null row.
pub fn can_be_null(field: &Field) -> (ok: bool)
    ensures
        ok == accepts_null(*field),
{
    match &field.data_type {
        DataType::Null => true,
        DataType::Union(_) => false,
        _ => field.nullable,
    }
}

/// The smallest and the largest number that a buffer of the element type holds.
pub fn kind_bounds(kind: PrimitiveType) -> (bounds: (i128, i128))
    ensures
        bounds.0 == kind_min(kind),
        bounds.1 == kind_max(kind),
{
    match kind {
        PrimitiveType::I8 => (-0x80, 0x7f),
        PrimitiveType::I16 => (-0x8000, 0x7fff),
        PrimitiveType::I32 => (-0x8000_0000, 0x7fff_ffff),
        PrimitiveType::I64 => (-0x8000_0000_0000_0000, 0x7fff_ffff_ffff_ffff),
        PrimitiveType::U8 => (0, 0xff),
        PrimitiveType::U16 => (0, 0xffff),
        PrimitiveType::U32 | PrimitiveType::F32 => (0, 0xffff_ffff),
        PrimitiveType::U64 | PrimitiveType::F64 => (0, 0xffff_ffff_ffff_ffff),
        PrimitiveType::I128 => (i128::MIN, i128::MAX),
    }
}

/// The number that a decimal column stores for a scalar.
pub fn decimal_number(precision: u8, scale: u8, event: &Event) -> (r: Result<i128, Error>)
    requires
        scale <= precision <= 38,
    ensures
        match r {
            Ok(n) => -pow10(precision as nat) < n < pow10(precision as nat) && match event@ {
                EventView::Str(text) => decimal_unscaled(text_bytes(text), scale as nat) == Some(
                    n as int,
                ),
                other => other.as_int() matches Some(m) && n == m * pow10(scale as nat),
            },
            Err(e) => match event@ {
                EventView::Str(text) => match decimal_unscaled(text_bytes(text), scale as nat) {
                    None => e.kind == ErrorKind::Parse,
                    Some(u) => e.kind == ErrorKind::OutOfRange && !(-pow10(precision as nat) < u
                        < pow10(precision as nat)),
                },
                other => match other.as_int() {
                    None => e.kind == ErrorKind::SchemaMismatch,
                    Some(m) => e.kind == ErrorKind::OutOfRange && !(-pow10(precision as nat) < m
                        * pow10(scale as nat) < pow10(precision as nat)),
                },
            },
        },
{
    match event {
        Event::Str(text) => match parse_unscaled(bytes_of(text.as_str()), precision, scale) {
            Ok(Some(unscaled)) => Ok(unscaled),
            Ok(None) => Err(
                Error::new(ErrorKind::OutOfRange, "the decimal has more digits than the precision"),
            ),
            Err(()) => Err(Error::new(ErrorKind::Parse, "expected a decimal number")),
        },
        other => match other.to_integer() {
            Some(m) => {
                let limit: i128 = power_of_ten(precision - scale) as i128;
                let unit: i128 = power_of_ten(scale) as i128;
                proof {
                    lemma_pow10_add((precision - scale) as nat, scale as nat);
                    lemma_pow10_monotonic(precision as nat, 38);
                    lemma_pow10_38();
                }
                if m <= -limit || m >= limit {
                    assert(!(-pow10(precision as nat) < m * unit < pow10(precision as nat)))
                        by (nonlinear_arith)
                        requires
                            m <= -limit || m >= limit,
                            unit > 0,
                            limit * unit == pow10(precision as nat),
                    ;
                    Err(
                        Error::new(
                            ErrorKind::OutOfRange,
                            "the number has more digits than the precision",
                        ),
                    )
                } else {
                    assert(-pow10(precision as nat) < m * unit < pow10(precision as nat))
                        by (nonlinear_arith)
                        requires
                            -limit < m < limit,
                            unit > 0,
                            limit * unit == pow10(precision as nat),
                    ;
                    Ok(m * unit)
                }
            },
            None => Err(Error::new(ErrorKind::SchemaMismatch, "expected a decimal number")),
        },
    }
}

/// The number that a fixed-width column of `field` stores for a scalar.
pub fn scalar_number(field: &Field, kind: PrimitiveType, event: &Event) -> (r: Result<i128, Error>)
    requires
        field.valid(),
        supported(*field),
    ensures
        match r {
            Ok(n) => store(*field, kind, event@) == Ok::<int, ErrorKind>(n as int) && (
            stores_date_text(*field) && kind == PrimitiveType::I64 ==> MIN_MILLIS <= n
                <= MAX_MILLIS),
            Err(e) => store(*field, kind, event@) == Err::<int, ErrorKind>(e.kind),
        },
{
    match kind {
        PrimitiveType::I128 => match &field.data_type {
            DataType::Decimal128(precision, scale) => decimal_number(*precision, *scale as u8, event),
            _ => Err(Error::new(ErrorKind::SchemaMismatch, "expected a decimal column")),
        },
        PrimitiveType::F32 => match event {
            Event::F32(bits) => Ok(*bits as i128),
            _ => Err(Error::new(ErrorKind::SchemaMismatch, "expected a 32-bit float")),
        },
        PrimitiveType::F64 => match event {
            Event::F64(bits) => Ok(*bits as i128),
            Event::F32(bits) => Ok(widen(*bits) as i128),
            other => match other.to_integer() {
                Some(n) => match integer_to_bits(n) {
                    Some(bits) => Ok(bits as i128),
                    None => Err(
                        Error::new(ErrorKind::OutOfRange, "the integer is no 64-bit float"),
                    ),
                },
                None => Err(Error::new(ErrorKind::SchemaMismatch, "expected a number")),
            },
        },
        _ => {
            let utc = matches!(field.strategy, Some(Strategy::UtcStrAsDate64));
            if utc || matches!(field.strategy, Some(Strategy::NaiveStrAsDate64)) {
                match event {
                    Event::Str(text) => match parse_timestamp(text.as_str(), utc) {
                        Some(millis) => Ok(millis as i128),
                        None => Err(Error::new(ErrorKind::Parse, "expected a date and a time")),
                    },
                    _ => Err(Error::new(ErrorKind::SchemaMismatch, "expected a string")),
                }
            } else {
                match event.to_integer() {
                    Some(n) => {
                        let (low, high) = kind_bounds(kind);
                        if low <= n && n <= high {
                            Ok(n)
                        } else {
                            Err(Error::new(ErrorKind::OutOfRange, "the number does not fit the column"))
                        }
                    },
                    None => Err(Error::new(ErrorKind::SchemaMismatch, "expected an integer")),
                }
            }
        },
    }
}

/// Appends a row to a column of nulls.
pub fn push_unit(field: &Field, array: &mut Array)
    requires
        old(array).wf(*field),
        *old(array) is Null,
    ensures
        grown(*field, *old(array), *final(array), ValueView::Leaf(EventView::Null)),
{
    match array {
        Array::Null(units) => {
            units.push(());
        },
        _ => {},
    }
}

/// Appends a row to a boolean column: `value` where `set` holds, else a null.
pub fn push_flag(field: &Field, array: &mut Array, value: bool, set: bool)
    requires
        old(array).wf(*field),
        *old(array) is Boolean,
    ensures
        grown(
            *field,
            *old(array),
            *final(array),
            if set {
                ValueView::Leaf(EventView::Bool(value))
            } else {
                ValueView::Leaf(EventView::Null)
            },
        ),
{
    match array {
        Array::Boolean { values, validity } => {
            values.push(value);
            validity.push(set);
        },
        _ => {},
    }
}

/// Appends a row to a fixed-width column: the value with the number `n`
/// where `set` holds, else a null.
pub fn push_primitive(field: &Field, array: &mut Array, n: i128, set: bool)
    requires
        field.valid(),
        supported(*field),
        old(array).wf(*field),
        *old(array) matches Array::Primitive { values, validity } && kind_min(values.kind()) <= n
            <= kind_max(values.kind()),
        set && stores_date_text(*field) ==> MIN_MILLIS <= n <= MAX_MILLIS,
        set ==> (field.data_type matches DataType::Decimal128(precision, _) ==> -pow10(
            precision as nat,
        ) < n < pow10(precision as nat)),
    ensures
        *old(array) matches Array::Primitive { values, validity } && grown(
            *field,
            *old(array),
            *final(array),
            if set {
                ValueView::Leaf(number_event(*field, values.kind(), n as int))
            } else {
                ValueView::Leaf(EventView::Null)
            },
        ),
{
    match array {
        Array::Primitive { values, validity } => {
            values.push_number(n);
            validity.push(set);
        },
        _ => {},
    }
}

/// Appends a row to a text or bytes column: `bytes` where `set` holds, else a null.
pub fn push_binary(field: &Field, array: &mut Array, bytes: &[u8], set: bool)
    requires
        old(array).wf(*field),
        *old(array) is Binary,
        is_text_type(field.data_type) ==> valid_utf8(bytes@),
        field.data_type matches DataType::FixedSizeBinary(size) ==> bytes@.len() == size,
    ensures
        grown(
            *field,
            *old(array),
            *final(array),
            if set {
                ValueView::Leaf(binary_event(is_text_type(field.data_type), bytes@))
            } else {
                ValueView::Leaf(EventView::Null)
            },
        ),
{
    let text = holds_text(&field.data_type);
    match array {
        Array::Binary { offsets, data, validity } => {
            proof {
                lemma_offsets_bounded(
                    offsets@,
                    validity@.len() as int,
                    data@.len() as int,
                    validity@.len() as int,
                );
            }
            push_slot(offsets, data, validity, bytes, set, text);
        },
        _ => {},
    }
}

/// Appends a row to a dictionary column: the key of `bytes` where `set`
/// holds, else a null.
pub fn push_key(field: &Field, array: &mut Array, bytes: &[u8], set: bool)
    requires
        old(array).wf(*field),
        *old(array) is Dictionary,
        valid_utf8(bytes@),
    ensures
        grown(
            *field,
            *old(array),
            *final(array),
            if set {
                ValueView::Leaf(binary_event(true, bytes@))
            } else {
                ValueView::Leaf(EventView::Null)
            },
        ),
{
    let ghost before = *array;
    match array {
        Array::Dictionary { keys, validity, values } => {
            let ghost values_before = **values;
            if set {
                let key = intern(values, bytes);
                keys.push(key);
            } else {
                keys.push(0);
            }
            validity.push(set);
            proof {
                assert forall|i: int| 0 <= i < before.rows() && before.is_set(i) implies slot_of(
                    **values,
                    keys[i] as int,
                ) == slot_of(values_before, keys[i] as int) by {}
            }
        },
        _ => {},
    }
    assert forall|i: int| 0 <= i < before.rows() implies #[trigger] array.row(*field, i)
        == before.row(*field, i) by {}
}

/// Appends a row to a list column whose items already stand at the end of
/// the child: the items that lie behind the last offset where `set` holds,
/// else a null, which must have no items.
pub fn close_list(offsets: &mut Vec<usize>, validity: &mut Vec<bool>, total: usize, set: bool)
    requires
        old(offsets)@.len() == old(validity)@.len() + 1,
        old(offsets)@[0] == 0,
        forall|i: int|
            0 <= i < old(validity)@.len() ==> old(offsets)@[i] <= #[trigger] old(offsets)@[i + 1],
        old(offsets)@[old(validity)@.len() as int] <= total,
    ensures
        offsets_fit(final(offsets)@, final(validity)@.len() as int, total as int),
        final(offsets)@ == old(offsets)@.push(total),
        final(validity)@ == old(validity)@.push(set),
{
    offsets.push(total);
    validity.push(set);
}

/// What a column gains by more rows at its end.
pub open spec fn extended(field: Field, before: Array, after: Array, rows: Seq<ValueView>) -> bool {
    &&& after.wf(field)
    &&& after.rows() == before.rows() + rows.len()
    &&& forall|i: int| 0 <= i < before.rows() ==> #[trigger] after.row(field, i) == before.row(field, i)
    &&& forall|i: int|
        before.rows() <= i < after.rows() ==> #[trigger] after.row(field, i) == rows[i
            - before.rows()]
}

/// A refusal among the first items is the refusal of the whole list.
pub proof fn lemma_encode_all_error(field: Field, items: Seq<ValueView>, upto: int)
    requires
        0 <= upto <= items.len(),
        encode_all(field, items.take(upto)) is Err,
    ensures
        encode_all(field, items) == encode_all(field, items.take(upto)),
    decreases items.len() - upto,
{
    if upto < items.len() {
        assert(items.take(upto + 1).drop_last() =~= items.take(upto));
        lemma_encode_all_error(field, items, upto + 1);
    } else {
        assert(items.take(upto) =~= items);
    }
}

/// A refusal among the first fields is the refusal of the whole struct.
pub proof fn lemma_encode_fields_error(fields: Seq<Field>, input: StructInput, upto: nat)
    requires
        upto <= fields.len(),
        encode_fields(fields, input, upto) is Err,
    ensures
        encode_fields(fields, input, fields.len()) == encode_fields(fields, input, upto),
    decreases fields.len() - upto,
{
    if upto < fields.len() {
        lemma_encode_fields_error(fields, input, upto + 1);
    }
}

/// The rows of a struct stand behind the names of the fields, in their order.
pub proof fn lemma_encode_fields_names(fields: Seq<Field>, input: StructInput, upto: nat)
    requires
        upto <= fields.len(),
    ensures
        encode_fields(fields, input, upto) matches Ok(rows) ==> rows.len() == upto && forall|k: int|
            0 <= k < upto ==> (#[trigger] rows[k]).0 == fields[k].name@,
    decreases upto,
{
    if upto > 0 {
        lemma_encode_fields_names(fields, input, (upto - 1) as nat);
    }
}

/// The first entry from `from` on that has the given name.
pub fn find_named(entries: &Vec<(String, Value)>, name: &String, from: usize) -> (r: Option<usize>)
    ensures
        match r {
            Some(at) => first_named(fields_view(entries@), name@, from as int) == Some(at as int)
                && from <= at < entries@.len(),
            None => first_named(fields_view(entries@), name@, from as int) is None,
        },
{
    let n: usize = entries.len();
    let mut i: usize = from;
    while i < n
        invariant
            from <= i,
            n == entries@.len(),
            first_named(fields_view(entries@), name@, from as int) == first_named(
                fields_view(entries@),
                name@,
                i as int,
            ),
        decreases n - i,
    {
        if entries[i].0 == *name {
            return Some(i);
        }
        i += 1;
    }
    None
}

/// The first entry from `from` on whose key is the given name.
pub fn find_keyed(entries: &Vec<(Value, Value)>, name: &String, from: usize) -> (r: Option<usize>)
    requires
        all_keys_named(entries_view(entries@)),
    ensures
        match r {
            Some(at) => first_named(
                named_entries(entries_view(entries@)),
                name@,
                from as int,
            ) == Some(at as int) && from <= at < entries@.len(),
            None => first_named(named_entries(entries_view(entries@)), name@, from as int) is None,
        },
{
    let n: usize = entries.len();
    let mut i: usize = from;
    while i < n
        invariant
            from <= i,
            n == entries@.len(),
            all_keys_named(entries_view(entries@)),
            first_named(named_entries(entries_view(entries@)), name@, from as int) == first_named(
                named_entries(entries_view(entries@)),
                name@,
                i as int,
            ),
        decreases n - i,
    {
        proof {
            lemma_view_parts(entries[i as int].0);
            assert(key_name(entries_view(entries@)[i as int].0) is Some);
        }
        let found = match &entries[i].0 {
            Value::Leaf(Event::Str(key)) => *key == *name,
            _ => false,
        };
        if found {
            return Some(i);
        }
        i += 1;
    }
    None
}

/// Tells whether every key of the map is a string.
pub fn keys_are_names(entries: &Vec<(Value, Value)>) -> (ok: bool)
    ensures
        ok == all_keys_named(entries_view(entries@)),
{
    let n: usize = entries.len();
    let mut i: usize = 0;
    while i < n
        invariant
            i <= n,
            n == entries@.len(),
            forall|j: int| 0 <= j < i ==> key_name((#[trigger] entries_view(entries@)[j]).0) is Some,
        decreases n - i,
    {
        proof {
            lemma_view_parts(entries[i as int].0);
        }
        let named = match &entries[i].0 {
            Value::Leaf(Event::Str(_)) => true,
            _ => false,
        };
        if !named {
            assert(key_name(entries_view(entries@)[i as int].0) is None);
            return false;
        }
        i += 1;
    }
    true
}

/// What a struct column reads a row from.
pub enum Input<'a> {
    Named(&'a Vec<(String, Value)>),
    Positional(&'a Vec<Value>),
    /// The entries of a map; every key must be a string.
    Keyed(&'a Vec<(Value, Value)>),
    /// Two children by position.
    Pair(&'a Value, &'a Value),
}

impl<'a> View for Input<'a> {
    type V = StructInput;

    open spec fn view(&self) -> StructInput {
        match self {
            Input::Named(entries) => StructInput::Named(fields_view(entries@)),
            Input::Positional(items) => StructInput::Positional(values_view(items@)),
            Input::Keyed(entries) => StructInput::Named(named_entries(entries_view(entries@))),
            Input::Pair(first, second) => StructInput::Positional(seq![first@, second@]),
        }
    }
}

/// Each column is a column of its field, and the fields are valid and supported.
pub open spec fn columns_fit(fields: Seq<Field>, arrays: Seq<Array>) -> bool {
    &&& fields.len() == arrays.len()
    &&& forall|k: int|
        0 <= k < fields.len() ==> (#[trigger] fields[k]).valid() && supported(fields[k])
            && arrays[k].wf(fields[k])
}

/// The rows of a list column stay where its child keeps its rows.
pub proof fn lemma_list_rows_kept(field: Field, before: Array, after: Array)
    requires
        before.wf(field),
        before matches Array::List { offsets: old_offsets, child: old_child, validity: old_validity }
            && after matches Array::List { offsets, child, validity } && {
            &&& offsets@.len() == old_offsets@.len() + 1
            &&& validity@.len() == old_validity@.len() + 1
            &&& forall|i: int| 0 <= i < old_offsets@.len() ==> offsets[i] == old_offsets[i]
            &&& forall|i: int| 0 <= i < old_validity@.len() ==> validity[i] == old_validity[i]
            &&& forall|i: int|
                0 <= i < old_child.rows() ==> #[trigger] child.row(field.children[0], i)
                    == old_child.row(field.children[0], i)
        },
    ensures
        forall|i: int| 0 <= i < before.rows() ==> #[trigger] after.row(field, i) == before.row(field, i),
{
    match (before, after) {
        (
            Array::List { offsets: old_offsets, child: old_child, validity: old_validity },
            Array::List { offsets, child, validity },
        ) => {
            assert forall|i: int| 0 <= i < before.rows() implies #[trigger] after.row(field, i)
                == before.row(field, i) by {
                lemma_offsets_bounded(old_offsets@, before.rows(), old_child.rows(), i);
                lemma_offsets_bounded(old_offsets@, before.rows(), old_child.rows(), i + 1);
                if before.is_set(i) {
                    lemma_item_rows(
                        field.children[0],
                        *child,
                        old_offsets[i] as int,
                        old_offsets[i + 1] as int,
                        item_rows(
                            field.children[0],
                            *old_child,
                            old_offsets[i] as int,
                            old_offsets[i + 1] as int,
                        ),
                    );
                }
            }
        },
        _ => {},
    }
}

/// The rows of a struct column stay where each child keeps its rows.
pub proof fn lemma_struct_rows_kept(field: Field, before: Array, after: Array)
    requires
        before matches Array::Struct { children: old_children, validity: old_validity }
            && after matches Array::Struct { children, validity } && {
            &&& children@.len() == old_children@.len()
            &&& children@.len() == field.children@.len()
            &&& old_validity@.len() <= validity@.len()
            &&& forall|i: int| 0 <= i < old_validity@.len() ==> validity[i] == old_validity[i]
            &&& forall|k: int, i: int|
                0 <= k < children@.len() && 0 <= i < old_validity@.len() ==> #[trigger] children[k].row(
                    field.children[k],
                    i,
                ) == old_children[k].row(field.children[k], i)
        },
    ensures
        forall|i: int| 0 <= i < before.rows() ==> #[trigger] after.row(field, i) == before.row(field, i),
{
    match (before, after) {
        (
            Array::Struct { children: old_children, validity: old_validity },
            Array::Struct { children, validity },
        ) => {
            assert forall|i: int| 0 <= i < before.rows() implies #[trigger] after.row(field, i)
                == before.row(field, i) by {
                lemma_child_rows(
                    field.children@,
                    children@,
                    i,
                    child_rows(field.children@, old_children@, i),
                );
            }
        },
        _ => {},
    }
}

/// The rows of a union column stay where each child keeps its rows.
pub proof fn lemma_union_rows_kept(field: Field, before: Array, after: Array)
    requires
        before.wf(field),
        before matches Array::Union {
            type_codes: old_codes,
            offsets: old_offsets,
            children: old_children,
        } && after matches Array::Union { type_codes, offsets, children } && {
            &&& children@.len() == old_children@.len()
            &&& old_codes@.len() < type_codes@.len()
            &&& offsets@.len() == type_codes@.len()
            &&& forall|i: int| 0 <= i < old_codes@.len() ==> type_codes[i] == old_codes[i]
            &&& forall|i: int| 0 <= i < old_codes@.len() ==> offsets[i] == old_offsets[i]
            &&& forall|k: int, i: int|
                0 <= k < children@.len() && 0 <= i < old_children[k].rows() ==> #[trigger] children[k].row(
                    field.children[k],
                    i,
                ) == old_children[k].row(field.children[k], i)
        },
    ensures
        forall|i: int| 0 <= i < before.rows() ==> #[trigger] after.row(field, i) == before.row(field, i),
{
    match (before, after) {
        (
            Array::Union { type_codes: old_codes, offsets: old_offsets, children: old_children },
            Array::Union { type_codes, offsets, children },
        ) => {
            assert forall|i: int| 0 <= i < before.rows() implies #[trigger] after.row(field, i)
                == before.row(field, i) by {
                let code = old_codes[i] as int;
                assert(0 <= code < old_children@.len());
                assert(old_offsets[i] < old_children[code].rows());
                assert(children[code].row(field.children[code], old_offsets[i] as int)
                    == old_children[code].row(field.children[code], old_offsets[i] as int));
            }
        },
        _ => {},
    }
}

/// Appends a row without items to a list column, set or null.
pub fn push_empty_list(field: &Field, array: &mut Array, set: bool)
    requires
        field.valid(),
        supported(*field),
        old(array).wf(*field),
        *old(array) is List,
        !(field.data_type is FixedSizeList),
    ensures
        grown(
            *field,
            *old(array),
            *final(array),
            if set {
                list_value(field.data_type, Seq::empty())
            } else {
                ValueView::Leaf(EventView::Null)
            },
        ),
{
    let ghost before = *array;
    match array {
        Array::List { offsets, child, validity } => {
            proof {
                lemma_offsets_bounded(
                    offsets@,
                    validity@.len() as int,
                    child.rows(),
                    validity@.len() as int,
                );
            }
            close_list(offsets, validity, child.len(), set);
        },
        _ => {},
    }
    let ghost after = *array;
    proof {
        lemma_list_rows_kept(*field, before, after);
        match after {
            Array::List { offsets, child, validity } => {
                lemma_item_rows(
                    field.children[0],
                    *child,
                    offsets[before.rows()] as int,
                    offsets[before.rows() + 1] as int,
                    Seq::empty(),
                );
                assert(entry_pairs(Seq::<ValueView>::empty()) =~= Seq::<
                    (ValueView, ValueView),
                >::empty());
            },
            _ => {},
        }
    }
}

/// Appends a row of `size` filler items to a list column of fixed size, set or null.
pub fn push_fixed_filler(field: &Field, array: &mut Array, size: usize, set: bool)
    requires
        field.valid(),
        supported(*field),
        old(array).wf(*field),
        *old(array) is List,
        field.data_type == DataType::FixedSizeList(size),
    ensures
        grown(
            *field,
            *old(array),
            *final(array),
            if set {
                ValueView::Sequence(Seq::new(size as nat, |j: int| filler(field.children[0])))
            } else {
                ValueView::Leaf(EventView::Null)
            },
        ),
    decreases *field, 1nat,
{
    let ghost before = *array;
    let ghost item = filler(field.children[0]);
    match array {
        Array::List { offsets, child, validity } => {
            proof {
                lemma_offsets_bounded(
                    offsets@,
                    validity@.len() as int,
                    child.rows(),
                    validity@.len() as int,
                );
            }
            let ghost child_before = **child;
            let mut k: usize = 0;
            while k < size
                invariant
                    k <= size,
                    field.valid(),
                    supported(*field),
                    field.children@.len() == 1,
                    item == filler(field.children[0]),
                    extended(
                        field.children[0],
                        child_before,
                        **child,
                        Seq::new(k as nat, |j: int| item),
                    ),
                decreases size - k,
            {
                let ghost step = **child;
                push_filler(&field.children[0], child);
                k += 1;
                proof {
                    assert(grown(field.children[0], step, **child, item));
                    assert forall|i: int| child_before.rows() <= i < child.rows() implies #[trigger] child.row(
                        field.children[0],
                        i,
                    ) == Seq::new(k as nat, |j: int| item)[i - child_before.rows()] by {
                        if i < step.rows() {
                            assert(child.row(field.children[0], i) == step.row(field.children[0], i));
                        }
                    }
                }
            }
            close_list(offsets, validity, child.len(), set);
        },
        _ => {},
    }
    let ghost after = *array;
    proof {
        lemma_list_rows_kept(*field, before, after);
        match (before, after) {
            (
                Array::List { offsets: old_offsets, child: old_child, validity: old_validity },
                Array::List { offsets, child, validity },
            ) => {
                lemma_item_rows(
                    field.children[0],
                    *child,
                    old_child.rows(),
                    child.rows(),
                    Seq::new(size as nat, |j: int| item),
                );
                assert(Seq::new(size as nat, |j: int| item) =~= Seq::new(
                    size as nat,
                    |j: int| filler(field.children[0]),
                ));
            },
            _ => {},
        }
    }
}

/// Appends the filler row to a struct column.
pub fn push_struct_filler(field: &Field, array: &mut Array)
    requires
        field.valid(),
        supported(*field),
        old(array).wf(*field),
        *old(array) is Struct,
    ensures
        grown(*field, *old(array), *final(array), filler(*field)),
    decreases *field, 1nat,
{
    let ghost before = *array;
    let set = !can_be_null(field);
    match array {
        Array::Struct { children, validity } => {
            push_fillers(&field.children, children);
            validity.push(set);
        },
        _ => {},
    }
    let ghost after = *array;
    proof {
        match (before, after) {
            (
                Array::Struct { children: old_children, validity: old_validity },
                Array::Struct { children, validity },
            ) => {
                assert forall|k: int| 0 <= k < field.children@.len() implies (
                #[trigger] children[k]).wf(field.children[k]) && children[k].rows()
                    == validity@.len() by {
                    assert(grown(
                        field.children[k],
                        old_children[k],
                        children[k],
                        filler(field.children[k]),
                    ));
                }
            },
            _ => {},
        }
        lemma_struct_rows_kept(*field, before, after);
        match after {
            Array::Struct { children, validity } => {
                lemma_child_rows(
                    field.children@,
                    children@,
                    before.rows(),
                    fillers(field.children@),
                );
            },
            _ => {},
        }
    }
}

/// Appends the filler row to each column but the one at `skip`.
pub fn push_other_fillers(fields: &Vec<Field>, arrays: &mut Vec<Array>, skip: usize)
    requires
        columns_fit(fields@, old(arrays)@),
    ensures
        final(arrays)@.len() == fields@.len(),
        forall|k: int|
            0 <= k < fields@.len() && k != skip ==> grown(
                #[trigger] fields[k],
                old(arrays)@[k],
                final(arrays)@[k],
                filler(fields[k]),
            ),
        skip < fields@.len() ==> final(arrays)@[skip as int] == old(arrays)@[skip as int],
    decreases *fields, 3nat,
{
    let n: usize = fields.len();
    let mut k: usize = 0;
    while k < n
        invariant
            k <= n,
            n == fields@.len(),
            n == arrays@.len(),
            columns_fit(fields@, old(arrays)@),
            forall|j: int|
                0 <= j < k && j != skip ==> grown(
                    #[trigger] fields[j],
                    old(arrays)@[j],
                    arrays@[j],
                    filler(fields[j]),
                ),
            forall|j: int| (k <= j < n || j == skip) && 0 <= j < n ==> arrays@[j] == old(arrays)@[j],
        decreases n - k,
    {
        if k != skip {
            push_filler(&fields[k], &mut arrays[k]);
        }
        k += 1;
    }
}

/// Appends the filler row to a union column.
pub fn push_union_filler(field: &Field, array: &mut Array)
    requires
        field.valid(),
        supported(*field),
        old(array).wf(*field),
        *old(array) is Union,
    ensures
        grown(*field, *old(array), *final(array), filler(*field)),
    decreases *field, 1nat,
{
    let ghost before = *array;
    let sparse = matches!(field.data_type, DataType::Union(UnionMode::Sparse));
    match array {
        Array::Union { type_codes, offsets, children } => {
            let at: usize = children[0].len();
            let ghost start = children@;
            push_filler(&field.children[0], &mut children[0]);
            if sparse {
                let ghost middle = children@;
                push_other_fillers(&field.children, children, 0);
                proof {
                    assert forall|k: int, i: int|
                        0 <= k < children@.len() && 0 <= i < start[k].rows() implies #[trigger] children@[k].row(
                        field.children[k],
                        i,
                    ) == start[k].row(field.children[k], i) by {
                        if k != 0 {
                            assert(grown(
                                field.children[k],
                                middle[k],
                                children@[k],
                                filler(field.children[k]),
                            ));
                        }
                    }
                    assert forall|k: int| 0 <= k < children@.len() implies (
                    #[trigger] children@[k]).wf(field.children[k]) && children@[k].rows()
                        == start[k].rows() + 1 by {
                        if k != 0 {
                            assert(grown(
                                field.children[k],
                                middle[k],
                                children@[k],
                                filler(field.children[k]),
                            ));
                        }
                    }
                }
            }
            type_codes.push(0);
            offsets.push(at);
        },
        _ => {},
    }
    proof {
        lemma_union_rows_kept(*field, before, *array);
    }
}

/// Bytes that are all zero.
pub fn zero_bytes(size: usize) -> (bytes: Vec<u8>)
    ensures
        bytes@ == Seq::new(size as nat, |j: int| 0u8),
{
    let mut bytes: Vec<u8> = Vec::new();
    let mut i: usize = 0;
    while i < size
        invariant
            i <= size,
            bytes@ == Seq::new(i as nat, |j: int| 0u8),
        decreases size - i,
    {
        bytes.push(0u8);
        i += 1;
        assert(bytes@ =~= Seq::new(i as nat, |j: int| 0u8));
    }
    bytes
}

/// Appends the filler row to a column.
pub fn push_filler(field: &Field, array: &mut Array)
    requires
        field.valid(),
        supported(*field),
        old(array).wf(*field),
    ensures
        grown(*field, *old(array), *final(array), filler(*field)),
    decreases *field, 2nat,
{
    let set = !can_be_null(field);
    match array.layout_of() {
        Layout::Null => push_unit(field, array),
        Layout::Boolean => push_flag(field, array, false, set),
        Layout::Primitive => {
            proof {
                match field.data_type {
                    DataType::Decimal128(precision, _) => {
                        lemma_pow10_monotonic(0, precision as nat);
                    },
                    _ => {},
                }
            }
            push_primitive(field, array, 0, set)
        },
        Layout::Binary => {
            let size: usize = match &field.data_type {
                DataType::FixedSizeBinary(size) => *size,
                _ => 0,
            };
            let zeros = zero_bytes(size);
            assert(zeros@.len() == 0 ==> zeros@ =~= Seq::<u8>::empty());
            assert(decode_utf8(Seq::<u8>::empty()) =~= Seq::<char>::empty());
            push_binary(field, array, zeros.as_slice(), set);
        },
        Layout::Dictionary => {
            let empty: Vec<u8> = Vec::new();
            assert(decode_utf8(empty@) =~= Seq::<char>::empty());
            push_key(field, array, empty.as_slice(), set);
        },
        Layout::List => {
            assert(entry_pairs(Seq::<ValueView>::empty()) =~= Seq::<(ValueView, ValueView)>::empty());
            match &field.data_type {
                DataType::FixedSizeList(size) => push_fixed_filler(field, array, *size, set),
                _ => push_empty_list(field, array, set),
            }
        },
        Layout::Struct => push_struct_filler(field, array),
        Layout::Union => push_union_filler(field, array),
    }
}

/// Appends the filler row to each column.
pub fn push_fillers(fields: &Vec<Field>, arrays: &mut Vec<Array>)
    requires
        columns_fit(fields@, old(arrays)@),
    ensures
        final(arrays)@.len() == fields@.len(),
        forall|k: int|
            0 <= k < fields@.len() ==> grown(
                #[trigger] fields[k],
                old(arrays)@[k],
                final(arrays)@[k],
                filler(fields[k]),
            ),
    decreases *fields,
{
    let n: usize = fields.len();
    let mut k: usize = 0;
    while k < n
        invariant
            k <= n,
            n == fields@.len(),
            n == arrays@.len(),
            columns_fit(fields@, old(arrays)@),
            forall|j: int|
                0 <= j < k ==> grown(#[trigger] fields[j], old(arrays)@[j], arrays@[j], filler(fields[j])),
            forall|j: int| k <= j < n ==> arrays@[j] == old(arrays)@[j],
        decreases n - k,
    {
        push_filler(&fields[k], &mut arrays[k]);
        k += 1;
    }
}

/// The value is a null or a default.
pub open spec fn is_absent(value: ValueView) -> bool {
    value == ValueView::Leaf(EventView::Null) || value == ValueView::Leaf(EventView::Default)
}

/// What appending `value` to a column of `field` reports: the column has
/// grown by the row that `encode` gives, or `value` was refused.
pub open spec fn pushed(
    field: Field,
    before: Array,
    after: Array,
    value: ValueView,
    r: Result<(), Error>,
) -> bool {
    match r {
        Ok(()) => encode(field, value) matches Ok(row) && grown(field, before, after, row),
        Err(e) => encode(field, value) == Err::<ValueView, ErrorKind>(e.kind),
    }
}

/// Appends `items`, in order, as rows to a column.
pub fn push_items(field: &Field, array: &mut Array, items: &Vec<Value>) -> (r: Result<(), Error>)
    requires
        field.valid(),
        supported(*field),
        old(array).wf(*field),
    ensures
        match r {
            Ok(()) => encode_all(*field, values_view(items@)) matches Ok(rows) && extended(
                *field,
                *old(array),
                *final(array),
                rows,
            ) && rows.len() == items@.len(),
            Err(e) => encode_all(*field, values_view(items@)) == Err::<Seq<ValueView>, ErrorKind>(
                e.kind,
            ),
        },
    decreases *field, 3nat,
{
    let n: usize = items.len();
    let ghost views = values_view(items@);
    let ghost mut rows: Seq<ValueView> = Seq::empty();
    let mut j: usize = 0;
    assert(views.take(0) =~= Seq::<ValueView>::empty());
    while j < n
        invariant
            j <= n,
            n == items@.len(),
            views == values_view(items@),
            field.valid(),
            supported(*field),
            encode_all(*field, views.take(j as int)) == Ok::<Seq<ValueView>, ErrorKind>(rows),
            rows.len() == j,
            extended(*field, *old(array), *array, rows),
        decreases n - j,
    {
        let ghost before = *array;
        let outcome = push_value(field, array, &items[j]);
        proof {
            assert(views.take(j + 1).drop_last() =~= views.take(j as int));
            assert(views.take(j + 1).last() == items[j as int]@);
        }
        match outcome {
            Ok(()) => {
                proof {
                    rows = rows.push(encode(*field, items[j as int]@)->Ok_0);
                }
            },
            Err(e) => {
                proof {
                    lemma_encode_all_error(*field, views, j + 1);
                }
                return Err(e);
            },
        }
        j += 1;
    }
    assert(views.take(n as int) =~= views);
    Ok(())
}

/// Appends a row to a list column: `items`, appended to the child.
pub fn push_list(field: &Field, array: &mut Array, items: &Vec<Value>) -> (r: Result<(), Error>)
    requires
        field.valid(),
        supported(*field),
        old(array).wf(*field),
        *old(array) is List,
        !(field.data_type matches DataType::Mapping(_)),
        field.data_type matches DataType::FixedSizeList(size) ==> items@.len() == size,
    ensures
        match r {
            Ok(()) => encode_all(field.children[0], values_view(items@)) matches Ok(rows) && grown(
                *field,
                *old(array),
                *final(array),
                ValueView::Sequence(rows),
            ),
            Err(e) => encode_all(field.children[0], values_view(items@)) == Err::<
                Seq<ValueView>,
                ErrorKind,
            >(e.kind),
        },
    decreases *field, 1nat,
{
    let ghost before = *array;
    let mut failure: Option<Error> = None;
    match array {
        Array::List { offsets, child, validity } => {
            proof {
                lemma_offsets_bounded(
                    offsets@,
                    validity@.len() as int,
                    child.rows(),
                    validity@.len() as int,
                );
            }
            match push_items(&field.children[0], child, items) {
                Ok(()) => {
                    close_list(offsets, validity, child.len(), true);
                },
                Err(e) => {
                    failure = Some(e);
                },
            }
        },
        _ => {},
    }
    match failure {
        Some(e) => Err(e),
        None => {
            let ghost after = *array;
            proof {
                let rows = encode_all(field.children[0], values_view(items@))->Ok_0;
                lemma_list_rows_kept(*field, before, after);
                match (before, after) {
                    (
                        Array::List { offsets: old_offsets, child: old_child, validity: old_validity },
                        Array::List { offsets, child, validity },
                    ) => {
                        lemma_item_rows(
                            field.children[0],
                            *child,
                            old_child.rows(),
                            child.rows(),
                            rows,
                        );
                    },
                    _ => {},
                }
            }
            Ok(())
        },
    }
}

/// Appends one row to each column of a struct: the child of that name or at
/// that position, or a null where a nullable child is missing.
pub fn push_fields(fields: &Vec<Field>, arrays: &mut Vec<Array>, input: &Input) -> (r: Result<
    (),
    Error,
>)
    requires
        columns_fit(fields@, old(arrays)@),
        input matches Input::Positional(items) ==> items@.len() == fields@.len(),
        input matches Input::Keyed(entries) ==> all_keys_named(entries_view(entries@)),
        input is Pair ==> fields@.len() == 2,
    ensures
        match r {
            Ok(()) => final(arrays)@.len() == fields@.len() && (encode_fields(
                fields@,
                input@,
                fields@.len(),
            ) matches Ok(rows) && forall|k: int|
                0 <= k < fields@.len() ==> grown(
                    #[trigger] fields[k],
                    old(arrays)@[k],
                    final(arrays)@[k],
                    rows[k].1,
                )),
            Err(e) => encode_fields(fields@, input@, fields@.len()) == Err::<
                Seq<(Seq<char>, ValueView)>,
                ErrorKind,
            >(e.kind),
        },
    decreases *fields, 0nat,
{
    let n: usize = fields.len();
    let ghost mut rows: Seq<(Seq<char>, ValueView)> = Seq::empty();
    let mut k: usize = 0;
    while k < n
        invariant
            k <= n,
            n == fields@.len(),
            n == arrays@.len(),
            columns_fit(fields@, old(arrays)@),
            input matches Input::Positional(items) ==> items@.len() == fields@.len(),
            input matches Input::Keyed(entries) ==> all_keys_named(entries_view(entries@)),
            input is Pair ==> fields@.len() == 2,
            encode_fields(fields@, input@, k as nat) == Ok::<
                Seq<(Seq<char>, ValueView)>,
                ErrorKind,
            >(rows),
            rows.len() == k,
            forall|j: int|
                0 <= j < k ==> grown(#[trigger] fields[j], old(arrays)@[j], arrays@[j], rows[j].1),
            forall|j: int| k <= j < n ==> arrays@[j] == old(arrays)@[j],
        decreases n - k,
    {
        let ghost before = arrays@[k as int];
        let outcome: Result<(), Error> = match input {
            Input::Positional(items) => push_value(&fields[k], &mut arrays[k], &items[k]),
            Input::Pair(first, second) => {
                if k == 0 {
                    push_value(&fields[k], &mut arrays[k], first)
                } else {
                    push_value(&fields[k], &mut arrays[k], second)
                }
            },
            Input::Keyed(entries) => {
                let count: usize = entries.len();
                match find_keyed(entries, &fields[k].name, 0) {
                    None => {
                        if can_be_null(&fields[k]) {
                            push_filler(&fields[k], &mut arrays[k]);
                            Ok(())
                        } else {
                            Err(Error::new(ErrorKind::StructuralError, "a required field is missing"))
                        }
                    },
                    Some(at) => {
                        if find_keyed(entries, &fields[k].name, at + 1).is_some() {
                            Err(Error::new(ErrorKind::StructuralError, "a field occurs twice"))
                        } else {
                            push_value(&fields[k], &mut arrays[k], &entries[at].1)
                        }
                    },
                }
            },
            Input::Named(entries) => {
                let count: usize = entries.len();
                match find_named(entries, &fields[k].name, 0) {
                    None => {
                        if can_be_null(&fields[k]) {
                            push_filler(&fields[k], &mut arrays[k]);
                            Ok(())
                        } else {
                            Err(Error::new(ErrorKind::StructuralError, "a required field is missing"))
                        }
                    },
                    Some(at) => {
                        if find_named(entries, &fields[k].name, at + 1).is_some() {
                            Err(Error::new(ErrorKind::StructuralError, "a field occurs twice"))
                        } else {
                            push_value(&fields[k], &mut arrays[k], &entries[at].1)
                        }
                    },
                }
            },
        };
        assert(match outcome {
            Ok(()) => encode_child(fields[k as int], input@, k as int) matches Ok(row) && grown(
                fields[k as int],
                before,
                arrays@[k as int],
                row,
            ),
            Err(e) => encode_child(fields[k as int], input@, k as int) == Err::<
                ValueView,
                ErrorKind,
            >(e.kind),
        });
        match outcome {
            Ok(()) => {
                proof {
                    rows =
                    rows.push(
                        (
                            fields[k as int].name@,
                            encode_child(fields[k as int], input@, k as int)->Ok_0,
                        ),
                    );
                }
            },
            Err(e) => {
                proof {
                    lemma_encode_fields_error(fields@, input@, (k + 1) as nat);
                }
                return Err(e.within(fields[k].name.as_str()));
            },
        }
        k += 1;
    }
    Ok(())
}

/// Appends a row to a struct column.
pub fn push_struct(field: &Field, array: &mut Array, value: &Value) -> (r: Result<(), Error>)
    requires
        field.valid(),
        supported(*field),
        old(array).wf(*field),
        *old(array) is Struct,
        !is_absent(value@),
    ensures
        pushed(*field, *old(array), *final(array), value@, r),
    decreases *field, 1nat,
{
    proof {
        lemma_view_parts(*value);
    }
    let ghost before = *array;
    let n: usize = field.children.len();
    let input = match field.strategy {
        Some(Strategy::TupleAsStruct) => match value {
            Value::Tuple(items) => {
                if items.len() != n {
                    return Err(
                        Error::new(ErrorKind::StructuralError, "the tuple has another length"),
                    );
                }
                Input::Positional(items)
            },
            _ => {
                return Err(Error::new(ErrorKind::SchemaMismatch, "expected a tuple"));
            },
        },
        None => match value {
            Value::Struct(entries) => Input::Named(entries),
            _ => {
                return Err(Error::new(ErrorKind::SchemaMismatch, "expected a struct"));
            },
        },
        Some(Strategy::MapAsStruct) => match value {
            Value::Mapping(entries) => {
                if !keys_are_names(entries) {
                    return Err(Error::new(ErrorKind::SchemaMismatch, "expected string keys"));
                }
                Input::Keyed(entries)
            },
            _ => {
                return Err(Error::new(ErrorKind::SchemaMismatch, "expected a map"));
            },
        },
        _ => {
            return Err(Error::new(ErrorKind::SchemaMismatch, "expected a struct"));
        },
    };
    assert(struct_input(*field, value@) == Ok::<StructInput, ErrorKind>(input@));
    push_struct_with(field, array, &input)
}

/// Appends a row to a struct column, read from `input`.
pub fn push_struct_with(field: &Field, array: &mut Array, input: &Input) -> (r: Result<(), Error>)
    requires
        field.valid(),
        supported(*field),
        old(array).wf(*field),
        *old(array) is Struct,
        input matches Input::Positional(items) ==> items@.len() == field.children@.len(),
        input matches Input::Keyed(entries) ==> all_keys_named(entries_view(entries@)),
        input is Pair ==> field.children@.len() == 2,
    ensures
        match r {
            Ok(()) => encode_fields(field.children@, input@, field.children@.len()) matches Ok(
                rows,
            ) && grown(*field, *old(array), *final(array), struct_value(field.strategy, rows)),
            Err(e) => encode_fields(field.children@, input@, field.children@.len()) == Err::<
                Seq<(Seq<char>, ValueView)>,
                ErrorKind,
            >(e.kind),
        },
    decreases *field, 0nat,
{
    let ghost before = *array;
    let mut failure: Option<Error> = None;
    match array {
        Array::Struct { children, validity } => {
            match push_fields(&field.children, children, input) {
                Ok(()) => {
                    validity.push(true);
                },
                Err(e) => {
                    failure = Some(e);
                },
            }
        },
        _ => {},
    }
    match failure {
        Some(e) => Err(e),
        None => {
            let ghost after = *array;
            proof {
                let rows = encode_fields(field.children@, input@, field.children@.len())->Ok_0;
                lemma_encode_fields_names(field.children@, input@, field.children@.len());
                match (before, after) {
                    (
                        Array::Struct { children: old_children, validity: old_validity },
                        Array::Struct { children, validity },
                    ) => {
                        assert forall|k: int| 0 <= k < field.children@.len() implies (
                        #[trigger] children[k]).wf(field.children[k]) && children[k].rows()
                            == validity@.len() by {
                            assert(grown(
                                field.children[k],
                                old_children[k],
                                children[k],
                                rows[k].1,
                            ));
                        }
                        lemma_child_rows(field.children@, children@, before.rows(), rows);
                    },
                    _ => {},
                }
                lemma_struct_rows_kept(*field, before, after);
            }
            Ok(())
        },
    }
}

/// Appends the entries of a map, in order, as rows to the column of the
/// entries: of each entry the key to the first child, the value to the second.
pub fn push_entries(field: &Field, array: &mut Array, entries: &Vec<(Value, Value)>) -> (r: Result<
    Ghost<Seq<ValueView>>,
    Error,
>)
    requires
        field.valid(),
        supported(*field),
        old(array).wf(*field),
        field.data_type == DataType::Struct,
        field.strategy is None,
        field.children@.len() == 2,
    ensures
        match r {
            Ok(rows) => encode_entries(*field, entries_view(entries@), 0, Seq::empty()) == Ok::<
                Seq<(ValueView, ValueView)>,
                ErrorKind,
            >(entry_pairs(rows@)) && extended(*field, *old(array), *final(array), rows@),
            Err(e) => encode_entries(*field, entries_view(entries@), 0, Seq::empty()) == Err::<
                Seq<(ValueView, ValueView)>,
                ErrorKind,
            >(e.kind),
        },
    decreases *field, 3nat,
{
    let n: usize = entries.len();
    let ghost views = entries_view(entries@);
    let ghost mut rows: Seq<ValueView> = Seq::empty();
    let mut j: usize = 0;
    assert(entry_pairs(rows) =~= Seq::<(ValueView, ValueView)>::empty());
    while j < n
        invariant
            j <= n,
            n == entries@.len(),
            views == entries_view(entries@),
            field.valid(),
            supported(*field),
            field.data_type == DataType::Struct,
            field.strategy is None,
            field.children@.len() == 2,
            encode_entries(*field, views, 0, Seq::empty()) == encode_entries(
                *field,
                views,
                j as nat,
                entry_pairs(rows),
            ),
            rows.len() == j,
            extended(*field, *old(array), *array, rows),
        decreases n - j,
    {
        let ghost before = *array;
        let input = Input::Pair(&entries[j].0, &entries[j].1);
        assert(input@ == StructInput::Positional(seq![views[j as int].0, views[j as int].1]));
        match push_struct_with(field, array, &input) {
            Ok(()) => {
                proof {
                    let row = ValueView::Struct(
                        encode_fields(field.children@, input@, field.children@.len())->Ok_0,
                    );
                    assert(entry_pairs(rows.push(row)) =~= entry_pairs(rows).push(entry_pair(row)));
                    rows = rows.push(row);
                }
            },
            Err(e) => {
                return Err(e);
            },
        }
        j += 1;
    }
    Ok(Ghost(rows))
}

/// Appends a row to a map column: `entries`, appended to the child.
pub fn push_map(field: &Field, array: &mut Array, entries: &Vec<(Value, Value)>) -> (r: Result<
    (),
    Error,
>)
    requires
        field.valid(),
        supported(*field),
        old(array).wf(*field),
        *old(array) is List,
        field.data_type matches DataType::Mapping(_),
    ensures
        match r {
            Ok(()) => encode_entries(
                field.children[0],
                entries_view(entries@),
                0,
                Seq::empty(),
            ) matches Ok(pairs) && grown(
                *field,
                *old(array),
                *final(array),
                ValueView::Mapping(pairs),
            ),
            Err(e) => encode_entries(field.children[0], entries_view(entries@), 0, Seq::empty())
                == Err::<Seq<(ValueView, ValueView)>, ErrorKind>(e.kind),
        },
    decreases *field, 1nat,
{
    let ghost before = *array;
    let mut failure: Option<Error> = None;
    let ghost mut rows: Seq<ValueView> = Seq::empty();
    match array {
        Array::List { offsets, child, validity } => {
            proof {
                lemma_offsets_bounded(
                    offsets@,
                    validity@.len() as int,
                    child.rows(),
                    validity@.len() as int,
                );
            }
            match push_entries(&field.children[0], child, entries) {
                Ok(pushed) => {
                    proof {
                        rows = pushed@;
                    }
                    close_list(offsets, validity, child.len(), true);
                },
                Err(e) => {
                    failure = Some(e);
                },
            }
        },
        _ => {},
    }
    match failure {
        Some(e) => Err(e),
        None => {
            let ghost after = *array;
            proof {
                lemma_list_rows_kept(*field, before, after);
                match (before, after) {
                    (
                        Array::List { offsets: old_offsets, child: old_child, validity: old_validity },
                        Array::List { offsets, child, validity },
                    ) => {
                        lemma_item_rows(
                            field.children[0],
                            *child,
                            old_child.rows(),
                            child.rows(),
                            rows,
                        );
                    },
                    _ => {},
                }
            }
            Ok(())
        },
    }
}

/// A union column has gained a row of the variant at `index`: the type code
/// of the new row is `index`, and its offset is the number of rows that the
/// child at `index` held before.
pub open spec fn union_row_added(before: Array, after: Array, index: int) -> bool {
    before matches Array::Union { type_codes: old_codes, offsets: old_offsets, children: old_children }
        && after matches Array::Union { type_codes, offsets, children } && {
        &&& 0 <= index < old_children@.len()
        &&& type_codes@ == old_codes@.push(index as i8)
        &&& offsets@.len() == old_offsets@.len() + 1
        &&& offsets@.last() == old_children[index].rows()
        &&& forall|i: int| 0 <= i < old_offsets@.len() ==> offsets[i] == old_offsets[i]
    }
}

/// Appends a row to a union column: the payload, appended to the child at `index`.
pub fn push_union(field: &Field, array: &mut Array, index: usize, payload: &Value) -> (r: Result<
    (),
    Error,
>)
    requires
        field.valid(),
        supported(*field),
        old(array).wf(*field),
        *old(array) is Union,
    ensures
        match r {
            Ok(()) => index < field.children@.len() && (encode(
                field.children[index as int],
                payload@,
            ) matches Ok(row) && grown(
                *field,
                *old(array),
                *final(array),
                ValueView::Variant(field.children[index as int].name@, index, Box::new(row)),
            )) && union_row_added(*old(array), *final(array), index as int),
            Err(e) => if index < field.children@.len() {
                encode(field.children[index as int], payload@) == Err::<ValueView, ErrorKind>(
                    e.kind,
                )
            } else {
                e.kind == ErrorKind::SchemaMismatch
            },
        },
    decreases *field, 1nat,
{
    if index >= field.children.len() {
        return Err(Error::new(ErrorKind::SchemaMismatch, "the union has no such variant"));
    }
    let ghost before = *array;
    let sparse = matches!(field.data_type, DataType::Union(UnionMode::Sparse));
    let mut failure: Option<Error> = None;
    match array {
        Array::Union { type_codes, offsets, children } => {
            let at: usize = children[index].len();
            let ghost start = children@;
            match push_value(&field.children[index], &mut children[index], payload) {
                Ok(()) => {
                    if sparse {
                        let ghost middle = children@;
                        push_other_fillers(&field.children, children, index);
                        proof {
                            assert forall|k: int, i: int|
                                0 <= k < children@.len() && 0 <= i < start[k].rows() implies #[trigger] children@[k].row(
                                field.children[k],
                                i,
                            ) == start[k].row(field.children[k], i) by {
                                if k != index {
                                    assert(grown(
                                        field.children[k],
                                        middle[k],
                                        children@[k],
                                        filler(field.children[k]),
                                    ));
                                }
                            }
                            assert forall|k: int| 0 <= k < children@.len() implies (
                            #[trigger] children@[k]).wf(field.children[k]) && children@[k].rows()
                                == start[k].rows() + 1 by {
                                if k != index {
                                    assert(grown(
                                        field.children[k],
                                        middle[k],
                                        children@[k],
                                        filler(field.children[k]),
                                    ));
                                }
                            }
                        }
                    }
                    type_codes.push(index as i8);
                    offsets.push(at);
                },
                Err(e) => {
                    failure = Some(e);
                },
            }
        },
        _ => {},
    }
    match failure {
        Some(e) => Err(e),
        None => {
            proof {
                lemma_union_rows_kept(*field, before, *array);
            }
            Ok(())
        },
    }
}

/// Appends `value` as one row to a column of `field`.
///
/// On a refusal the column is left in no particular state.
pub fn push_value(field: &Field, array: &mut Array, value: &Value) -> (r: Result<(), Error>)
    requires
        field.valid(),
        supported(*field),
        old(array).wf(*field),
    ensures
        pushed(*field, *old(array), *final(array), value@, r),
    decreases *field, 2nat,
{
    proof {
        lemma_view_parts(*value);
    }
    match value {
        Value::Leaf(Event::Null) => {
            if can_be_null(field) {
                push_filler(field, array);
                return Ok(());
            } else {
                return Err(Error::new(ErrorKind::SchemaMismatch, "the column holds no nulls"));
            }
        },
        Value::Leaf(Event::Default) => {
            push_filler(field, array);
            return Ok(());
        },
        _ => {},
    }
    match array.layout_of() {
        Layout::Null => Err(Error::new(ErrorKind::SchemaMismatch, "expected a null")),
        Layout::Boolean => match value {
            Value::Leaf(Event::Bool(flag)) => {
                push_flag(field, array, *flag, true);
                Ok(())
            },
            _ => Err(Error::new(ErrorKind::SchemaMismatch, "expected a boolean")),
        },
        Layout::Primitive => match value {
            Value::Leaf(event) => {
                let kind = match array {
                    Array::Primitive { values, validity } => values.element_type(),
                    _ => PrimitiveType::I8,
                };
                match scalar_number(field, kind, event) {
                    Ok(n) => {
                        push_primitive(field, array, n, true);
                        Ok(())
                    },
                    Err(e) => Err(e),
                }
            },
            _ => Err(Error::new(ErrorKind::SchemaMismatch, "expected a scalar")),
        },
        Layout::Binary => {
            if holds_text(&field.data_type) {
                match value {
                    Value::Leaf(Event::Str(text)) => {
                        proof {
                            encode_utf8_valid_utf8(text@);
                            encode_utf8_decode_utf8(text@);
                        }
                        push_binary(field, array, bytes_of(text.as_str()), true);
                        Ok(())
                    },
                    _ => Err(Error::new(ErrorKind::SchemaMismatch, "expected a string")),
                }
            } else {
                match value {
                    Value::Leaf(Event::Bytes(bytes)) => {
                        match &field.data_type {
                            DataType::FixedSizeBinary(size) => {
                                if bytes.len() != *size {
                                    return Err(
                                        Error::new(
                                            ErrorKind::StructuralError,
                                            "the bytes have another length than the column prescribes",
                                        ),
                                    );
                                }
                            },
                            _ => {},
                        }
                        push_binary(field, array, bytes.as_slice(), true);
                        Ok(())
                    },
                    _ => Err(Error::new(ErrorKind::SchemaMismatch, "expected bytes")),
                }
            }
        },
        Layout::Dictionary => match value {
            Value::Leaf(Event::Str(text)) => {
                proof {
                    encode_utf8_valid_utf8(text@);
                    encode_utf8_decode_utf8(text@);
                }
                push_key(field, array, bytes_of(text.as_str()), true);
                Ok(())
            },
            _ => Err(Error::new(ErrorKind::SchemaMismatch, "expected a string")),
        },
        Layout::List => {
            if matches!(field.data_type, DataType::Mapping(_)) {
                match value {
                    Value::Mapping(entries) => push_map(field, array, entries),
                    _ => Err(Error::new(ErrorKind::SchemaMismatch, "expected a map")),
                }
            } else {
                let items = match value {
                    Value::Sequence(items) => items,
                    Value::Tuple(items) => items,
                    _ => {
                        return Err(Error::new(ErrorKind::SchemaMismatch, "expected a sequence"));
                    },
                };
                match &field.data_type {
                    DataType::FixedSizeList(size) => {
                        if items.len() != *size {
                            return Err(
                                Error::new(
                                    ErrorKind::StructuralError,
                                    "the list has another length than the column prescribes",
                                ),
                            );
                        }
                    },
                    _ => {},
                }
                push_list(field, array, items)
            }
        },
        Layout::Struct => push_struct(field, array, value),
        Layout::Union => match value {
            Value::Variant(_, index, payload) => push_union(field, array, *index, payload),
            _ => Err(Error::new(ErrorKind::SchemaMismatch, "expected a variant")),
        },
    }
}

} // verus!
