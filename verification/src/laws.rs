//! Laws that relate the columns to the rows they hold.
use vstd::prelude::*;
use vstd::utf8::*;
use crate::array::{
    entry_pair, entry_pairs, primitive_type, stores_date_text, struct_value, Array, PrimitiveType,
};
use crate::decimal::{decimal_unscaled, format_decimal, law_parse_formatted_decimal};
use crate::temporal::{
    law_format_then_parse, format_millis, parse_date_time_spec, parse_millis, DateTime,
    days_before_month,
};
use crate::text::{lemma_pow10_monotonic, pow10, text_bytes};
use crate::builders::{
    filler, fillers, lemma_encode_fields_names, struct_input,
    accepts_null, all_keys_named, encode, encode_all, encode_child, encode_entries, encode_fields,
    first_named, key_name, named_entries, slot_of, store, StructInput,
};
use crate::event::EventView;
use crate::schema::{DataType, Field, Strategy};
use crate::parser::{law_parse_all_flatten, parse_all};
use crate::serializer::{
    encode_record,
    law_one_row_per_record,
    encode_records, field_error, lemma_schema_error_none, schema_error, serialized, table_holds,
};
use crate::sources::{record_count, record_events, record_readable, record_rows};
use crate::tracer::{traced, traced_events, TracingOptions};
use crate::value::{flatten_all, ValueView};

verus! {

/// The columns that hold the rows of a batch of records all have as many
/// rows as there are records.
pub proof fn law_column_lengths(
    fields: Seq<Field>,
    records: Seq<ValueView>,
    arrays: Seq<Array>,
    k: int,
)
    requires
        encode_records(fields, records, records.len()) matches Ok(rows) && table_holds(
            fields,
            arrays,
            rows,
        ),
        0 <= k < fields.len(),
    ensures
        arrays[k].rows() == records.len(),
{
    law_one_row_per_record(fields, records, records.len());
}

/// The offsets of a well-formed text, bytes or list column start at zero,
/// never fall, and end at the length of what they index: the bytes, or the
/// rows of the child.
pub proof fn law_offsets_monotonic(field: Field, array: Array, i: int, j: int)
    requires
        array.wf(field),
        0 <= i <= j <= array.rows(),
    ensures
        array matches Array::Binary { offsets, data, validity } ==> offsets@[0] == 0 && offsets@[i]
            <= offsets@[j] && offsets@[array.rows()] == data@.len(),
        array matches Array::List { offsets, child, validity } ==> offsets@[0] == 0 && offsets@[i]
            <= offsets@[j] && offsets@[array.rows()] == child.rows(),
    decreases j - i,
{
    if i < j {
        law_offsets_monotonic(field, array, i + 1, j);
    }
}

/// Row `i` of a well-formed union column is the variant whose index is the
/// type code of the row, under the name of that child, and its payload is the
/// row of that child at the offset of the row.
pub proof fn law_union_type_codes(field: Field, array: Array, i: int)
    requires
        array.wf(field),
        array is Union,
        0 <= i < array.rows(),
    ensures
        array matches Array::Union { type_codes, offsets, children } && array.row(
            field,
            i,
        ) == ValueView::Variant(
            field.children[type_codes[i] as int].name@,
            type_codes[i] as usize,
            Box::new(
                children[type_codes[i] as int].row(
                    field.children[type_codes[i] as int],
                    offsets[i] as int,
                ),
            ),
        ),
{
}

/// Two rows of a well-formed dictionary column that are not null are equal
/// exactly if the values behind their keys are.
pub proof fn law_dictionary_rows(field: Field, array: Array, i: int, j: int)
    requires
        array.wf(field),
        0 <= i < array.rows(),
        0 <= j < array.rows(),
        array.is_set(i),
        array.is_set(j),
    ensures
        array matches Array::Dictionary { keys, validity, values } ==> (array.row(field, i)
            == array.row(field, j) <==> slot_of(*values, keys[i] as int) == slot_of(
            *values,
            keys[j] as int,
        )),
{
    match array {
        Array::Dictionary { keys, validity, values } => {
            let a = slot_of(*values, keys[i] as int);
            let b = slot_of(*values, keys[j] as int);
            assert(valid_utf8(a));
            assert(valid_utf8(b));
            decode_utf8_encode_utf8(a);
            decode_utf8_encode_utf8(b);
        },
        _ => {},
    }
}

/// No two of the fields have the same name.
pub open spec fn distinct_names(fields: Seq<Field>) -> bool {
    forall|a: int, b: int|
        0 <= a < b < fields.len() ==> (#[trigger] fields[a]).name@ != (#[trigger] fields[b]).name@
}

/// The scalar has the element type of the column.
pub open spec fn exact_scalar(kind: PrimitiveType, event: EventView) -> bool {
    match kind {
        PrimitiveType::I8 => event is I8,
        PrimitiveType::I16 => event is I16,
        PrimitiveType::I32 => event is I32,
        PrimitiveType::I64 => event is I64,
        PrimitiveType::U8 => event is U8,
        PrimitiveType::U16 => event is U16,
        PrimitiveType::U32 => event is U32,
        PrimitiveType::U64 => event is U64,
        PrimitiveType::F32 => event is F32,
        PrimitiveType::F64 => event is F64,
        PrimitiveType::I128 => false,
    }
}

/// The scalar has the form in which a fixed-width column of `field` hands it
/// out: the element type of the column; for a column that stores text as
/// instants, the text of an instant as the column writes it; for a decimal
/// column, the text of a decimal within the precision as the column writes it.
pub open spec fn scalar_conforms(field: Field, kind: PrimitiveType, event: EventView) -> bool {
    match kind {
        PrimitiveType::I128 => field.data_type matches DataType::Decimal128(precision, scale)
            && (event matches EventView::Str(text) && (decimal_unscaled(
            text_bytes(text),
            scale as nat,
        ) matches Some(unscaled) && -pow10(precision as nat) < unscaled < pow10(precision as nat)
            && format_decimal(unscaled, scale as nat) == text)),
        _ => if stores_date_text(field) {
            kind == PrimitiveType::I64 && (event matches EventView::Str(text) && (parse_millis(
                text,
                field.strategy == Some(Strategy::UtcStrAsDate64),
            ) matches Some(millis) && format_millis(
                millis,
                field.strategy == Some(Strategy::UtcStrAsDate64),
            ) == text))
        } else {
            exact_scalar(kind, event)
        },
    }
}

/// The children of a struct stand in the order of the fields, each behind
/// the name of its field.
pub open spec fn names_match(fields: Seq<Field>, entries: Seq<(Seq<char>, ValueView)>) -> bool {
    &&& entries.len() == fields.len()
    &&& forall|k: int| 0 <= k < fields.len() ==> (#[trigger] entries[k]).0 == fields[k].name@
}

/// The value has exactly the form in which a column of `field` hands its
/// rows out: a null only where the column holds nulls, scalars of the
/// element type of the column, the children of a struct in the order of the
/// schema under distinct names, a variant under the name of its child.
pub open spec fn conforms(field: Field, value: ValueView) -> bool
    decreases field,
{
    if value == ValueView::Leaf(EventView::Null) {
        accepts_null(field)
    } else {
        match field.data_type {
            DataType::Null => false,
            DataType::Bool => value matches ValueView::Leaf(EventView::Bool(_)),
            DataType::Utf8 | DataType::LargeUtf8 | DataType::Dictionary(_, _, _) => value matches ValueView::Leaf(
                EventView::Str(_),
            ),
            DataType::Binary | DataType::LargeBinary => value matches ValueView::Leaf(
                EventView::Bytes(_),
            ),
            DataType::FixedSizeBinary(size) => value matches ValueView::Leaf(
                EventView::Bytes(bytes),
            ) && bytes.len() == size,
            DataType::List | DataType::LargeList => value matches ValueView::Sequence(items)
                && field.children@.len() > 0 && forall|j: int|
                0 <= j < items.len() ==> conforms(field.children[0], #[trigger] items[j]),
            DataType::Struct => match field.strategy {
                None => value matches ValueView::Struct(entries) && distinct_names(
                    field.children@,
                ) && names_match(field.children@, entries) && forall|k: int|
                    0 <= k < field.children@.len() ==> conforms(
                        field.children[k],
                        (#[trigger] entries[k]).1,
                    ),
                Some(Strategy::TupleAsStruct) => value matches ValueView::Tuple(items)
                    && items.len() == field.children@.len() && forall|k: int|
                    0 <= k < field.children@.len() ==> conforms(
                        field.children[k],
                        #[trigger] items[k],
                    ),
                Some(Strategy::MapAsStruct) => value matches ValueView::Mapping(pairs)
                    && distinct_names(field.children@) && pairs.len() == field.children@.len()
                    && forall|k: int|
                    0 <= k < field.children@.len() ==> (#[trigger] pairs[k]).0 == ValueView::Leaf(
                        EventView::Str(field.children[k].name@),
                    ) && conforms(field.children[k], pairs[k].1),
                _ => false,
            },
            DataType::Union(_) => value matches ValueView::Variant(name, index, payload) && index
                < field.children@.len() && name == field.children[index as int].name@ && conforms(
                field.children[index as int],
                *payload,
            ),
            DataType::FixedSizeList(size) => value matches ValueView::Sequence(items)
                && field.children@.len() > 0 && items.len() == size && forall|j: int|
                0 <= j < items.len() ==> conforms(field.children[0], #[trigger] items[j]),
            DataType::Mapping(_) => value matches ValueView::Mapping(pairs) && field.children@.len()
                > 0 && field.children[0].children@.len() == 2 && forall|j: int|
                0 <= j < pairs.len() ==> conforms(
                    field.children[0].children[0],
                    (#[trigger] pairs[j]).0,
                ) && conforms(field.children[0].children[1], pairs[j].1),
            other => match primitive_type(other) {
                Some(kind) => value matches ValueView::Leaf(event) && scalar_conforms(
                    field,
                    kind,
                    event,
                ),
                None => false,
            },
        }
    }
}

/// In a struct whose children stand under the distinct names of the fields,
/// the child of field `k` is found at `k`, and nowhere behind `k`.
pub proof fn lemma_first_named(
    fields: Seq<Field>,
    entries: Seq<(Seq<char>, ValueView)>,
    k: int,
    from: int,
)
    requires
        distinct_names(fields),
        names_match(fields, entries),
        0 <= k < fields.len(),
        0 <= from <= entries.len(),
    ensures
        from <= k ==> first_named(entries, fields[k].name@, from) == Some(k),
        from > k ==> first_named(entries, fields[k].name@, from) is None,
    decreases entries.len() - from,
{
    if from < entries.len() {
        lemma_first_named(fields, entries, k, from + 1);
        if from != k {
            assert(entries[from].0 == fields[from].name@);
            if from < k {
                assert(fields[from].name@ != fields[k].name@);
            } else {
                assert(fields[k].name@ != fields[from].name@);
            }
        }
    }
}

/// A conforming value is stored as it is.
pub proof fn law_conforming_value_is_kept(field: Field, value: ValueView)
    requires
        field.valid(),
        crate::array::supported(field),
        conforms(field, value),
    ensures
        encode(field, value) == Ok::<ValueView, crate::error::ErrorKind>(value),
    decreases field, 0nat,
{
    if value == ValueView::Leaf(EventView::Null) {
    } else {
        match field.data_type {
            DataType::List | DataType::LargeList => {
                let items = value->Sequence_0;
                lemma_conforming_items(field.children[0], items);
            },
            DataType::Struct => {
                match field.strategy {
                    None => {
                        let entries = value->Struct_0;
                        lemma_conforming_fields(
                            field.children@,
                            StructInput::Named(entries),
                            entries,
                            field.children@.len(),
                        );
                        assert(entries.take(entries.len() as int) =~= entries);
                    },
                    Some(Strategy::TupleAsStruct) => {
                        let items = value->Tuple_0;
                        let entries = Seq::new(
                            items.len(),
                            |k: int| (field.children[k].name@, items[k]),
                        );
                        lemma_conforming_fields(
                            field.children@,
                            StructInput::Positional(items),
                            entries,
                            field.children@.len(),
                        );
                        assert(entries.take(entries.len() as int) =~= entries);
                        assert(struct_value(field.strategy, entries)->Tuple_0 =~= items);
                    },
                    Some(Strategy::MapAsStruct) => {
                        let pairs = value->Mapping_0;
                        let entries = named_entries(pairs);
                        assert forall|k: int| 0 <= k < pairs.len() implies key_name(
                            (#[trigger] pairs[k]).0,
                        ) == Some(field.children[k].name@) by {}
                        assert(all_keys_named(pairs));
                        assert forall|k: int| 0 <= k < field.children@.len() implies (
                        #[trigger] entries[k]).0 == field.children[k].name@ && conforms(
                            field.children[k],
                            entries[k].1,
                        ) by {
                            assert(pairs[k].0 == ValueView::Leaf(
                                EventView::Str(field.children[k].name@),
                            ));
                        }
                        lemma_conforming_fields(
                            field.children@,
                            StructInput::Named(entries),
                            entries,
                            field.children@.len(),
                        );
                        assert(entries.take(entries.len() as int) =~= entries);
                        assert(struct_value(field.strategy, entries)->Mapping_0 =~= pairs);
                    },
                    _ => {},
                }
            },
            DataType::Union(_) => {
                let index = value->Variant_1;
                law_conforming_value_is_kept(field.children[index as int], *value->Variant_2);
            },
            DataType::FixedSizeList(_) => {
                lemma_conforming_items(field.children[0], value->Sequence_0);
            },
            DataType::Mapping(_) => {
                let pairs = value->Mapping_0;
                let inner = field.children[0];
                assert(inner.valid() && crate::array::supported(inner));
                assert forall|k: int| 0 <= k < 2 implies (#[trigger] inner.children@[k]).valid()
                    && crate::array::supported(inner.children@[k]) by {
                    assert(inner.children[k].valid());
                    assert(crate::array::supported(inner.children[k]));
                }
                lemma_conforming_entries(inner, pairs, 0, Seq::empty());
                assert(Seq::<(ValueView, ValueView)>::empty() + pairs.skip(0) =~= pairs);
            },
            _ => {},
        }
    }
}

/// The conforming entries of a map are stored as they are.
pub proof fn lemma_conforming_entries(
    entries_field: Field,
    pairs: Seq<(ValueView, ValueView)>,
    from: nat,
    done: Seq<(ValueView, ValueView)>,
)
    requires
        from <= pairs.len(),
        entries_field.children@.len() == 2,
        forall|k: int|
            0 <= k < 2 ==> (#[trigger] entries_field.children@[k]).valid()
                && crate::array::supported(entries_field.children@[k]),
        forall|j: int|
            0 <= j < pairs.len() ==> conforms(entries_field.children[0], (#[trigger] pairs[j]).0)
                && conforms(entries_field.children[1], pairs[j].1),
    ensures
        encode_entries(entries_field, pairs, from, done) == Ok::<
            Seq<(ValueView, ValueView)>,
            crate::error::ErrorKind,
        >(done + pairs.skip(from as int)),
    decreases entries_field, pairs.len() - from,
{
    if from >= pairs.len() {
        assert(done + pairs.skip(from as int) =~= done);
    } else {
        let fields = entries_field.children@;
        let pair = pairs[from as int];
        let entries = seq![(fields[0].name@, pair.0), (fields[1].name@, pair.1)];
        lemma_conforming_fields(
            fields,
            StructInput::Positional(seq![pair.0, pair.1]),
            entries,
            2,
        );
        assert(entries.take(2) =~= entries);
        lemma_conforming_entries(entries_field, pairs, from + 1, done.push(pair));
        assert(done.push(pair) + pairs.skip(from as int + 1) =~= done + pairs.skip(from as int));
    }
}

/// Conforming items are stored as they are.
pub proof fn lemma_conforming_items(field: Field, items: Seq<ValueView>)
    requires
        field.valid(),
        crate::array::supported(field),
        forall|j: int| 0 <= j < items.len() ==> conforms(field, #[trigger] items[j]),
    ensures
        encode_all(field, items) == Ok::<Seq<ValueView>, crate::error::ErrorKind>(items),
    decreases field, items.len() + 1,
{
    if items.len() > 0 {
        lemma_conforming_items(field, items.drop_last());
        law_conforming_value_is_kept(field, items.last());
        assert(items.drop_last().push(items.last()) =~= items);
    } else {
        assert(items =~= Seq::<ValueView>::empty());
    }
}

/// The conforming children of a struct are stored as they are.
pub proof fn lemma_conforming_fields(
    fields: Seq<Field>,
    input: StructInput,
    entries: Seq<(Seq<char>, ValueView)>,
    upto: nat,
)
    requires
        upto <= fields.len(),
        names_match(fields, entries),
        forall|k: int| 0 <= k < fields.len() ==> (#[trigger] fields[k]).valid() && crate::array::supported(fields[k]),
        forall|k: int| 0 <= k < fields.len() ==> conforms(fields[k], (#[trigger] entries[k]).1),
        match input {
            StructInput::Named(named) => named == entries && distinct_names(fields),
            StructInput::Positional(items) => items.len() == fields.len() && forall|k: int|
                0 <= k < fields.len() ==> #[trigger] items[k] == entries[k].1,
        },
    ensures
        encode_fields(fields, input, upto) == Ok::<
            Seq<(Seq<char>, ValueView)>,
            crate::error::ErrorKind,
        >(entries.take(upto as int)),
    decreases fields, upto,
{
    if upto > 0 {
        let k = upto - 1;
        lemma_conforming_fields(fields, input, entries, k as nat);
        law_conforming_value_is_kept(fields[k], entries[k].1);
        if input is Named {
            lemma_first_named(fields, entries, k, 0);
            lemma_first_named(fields, entries, k, k + 1);
        }
        assert(encode_child(fields[k], input, k) == Ok::<ValueView, crate::error::ErrorKind>(
            entries[k].1,
        ));
        assert(entries.take(k).push((fields[k].name@, entries[k].1)) =~= entries.take(upto as int));
    } else {
        assert(entries.take(0) =~= Seq::<(Seq<char>, ValueView)>::empty());
    }
}

/// A conforming value is well formed.
pub proof fn lemma_conforming_well_formed(field: Field, value: ValueView)
    requires
        conforms(field, value),
    ensures
        value.well_formed(),
    decreases field,
{
    if value == ValueView::Leaf(EventView::Null) {
    } else {
        match field.data_type {
            DataType::List | DataType::LargeList => {
                let items = value->Sequence_0;
                assert forall|j: int| 0 <= j < items.len() implies (#[trigger] items[j]).well_formed() by {
                    lemma_conforming_well_formed(field.children[0], items[j]);
                }
            },
            DataType::Struct => match field.strategy {
                None => {
                    let entries = value->Struct_0;
                    assert forall|k: int| 0 <= k < entries.len() implies (
                    #[trigger] entries[k]).1.well_formed() by {
                        lemma_conforming_well_formed(field.children[k], entries[k].1);
                    }
                },
                Some(Strategy::TupleAsStruct) => {
                    let items = value->Tuple_0;
                    assert forall|k: int| 0 <= k < items.len() implies (
                    #[trigger] items[k]).well_formed() by {
                        lemma_conforming_well_formed(field.children[k], items[k]);
                    }
                },
                Some(Strategy::MapAsStruct) => {
                    let pairs = value->Mapping_0;
                    assert forall|k: int| 0 <= k < pairs.len() implies (
                    #[trigger] pairs[k]).0.well_formed() && pairs[k].1.well_formed() by {
                        lemma_conforming_well_formed(field.children[k], pairs[k].1);
                    }
                },
                _ => {},
            },
            DataType::FixedSizeList(_) => {
                let items = value->Sequence_0;
                assert forall|j: int| 0 <= j < items.len() implies (#[trigger] items[j]).well_formed() by {
                    lemma_conforming_well_formed(field.children[0], items[j]);
                }
            },
            DataType::Mapping(_) => {
                let pairs = value->Mapping_0;
                assert forall|j: int| 0 <= j < pairs.len() implies (
                #[trigger] pairs[j]).0.well_formed() && pairs[j].1.well_formed() by {
                    lemma_conforming_well_formed(field.children[0].children[0], pairs[j].0);
                    lemma_conforming_well_formed(field.children[0].children[1], pairs[j].1);
                }
            },
            DataType::Union(_) => {
                lemma_conforming_well_formed(
                    field.children[value->Variant_1 as int],
                    *value->Variant_2,
                );
            },
            _ => {},
        }
    }
}

/// The record is a struct that holds, in the order of the fields and under
/// their names, one conforming child for each field.
pub open spec fn record_conforms(fields: Seq<Field>, record: ValueView) -> bool {
    record matches ValueView::Struct(entries) && names_match(fields, entries) && forall|k: int|
        0 <= k < fields.len() ==> conforms(fields[k], (#[trigger] entries[k]).1)
}

/// Conforming records are stored as they are.
pub proof fn lemma_conforming_records(fields: Seq<Field>, records: Seq<ValueView>, upto: nat)
    requires
        upto <= records.len(),
        distinct_names(fields),
        forall|k: int| 0 <= k < fields.len() ==> field_error(#[trigger] fields[k]) is None,
        forall|j: int| 0 <= j < records.len() ==> record_conforms(fields, #[trigger] records[j]),
    ensures
        encode_records(fields, records, upto) == Ok::<Seq<ValueView>, crate::error::ErrorKind>(
            records.take(upto as int),
        ),
    decreases upto,
{
    if upto > 0 {
        let j = upto - 1;
        lemma_conforming_records(fields, records, j as nat);
        let entries = records[j]->Struct_0;
        lemma_conforming_fields(fields, StructInput::Named(entries), entries, fields.len());
        assert(entries.take(fields.len() as int) =~= entries);
        assert(records.take(j).push(records[j]) =~= records.take(upto as int));
    } else {
        assert(records.take(0) =~= Seq::<ValueView>::empty());
    }
}

/// Serializing the event stream of conforming records and deserializing the
/// columns gives the same event stream: the columns hold the records as their
/// rows, they can be read, and the events of their rows are those of the
/// records. The schema must have a field, and its fields distinct names.
pub proof fn law_round_trip(fields: Seq<Field>, records: Seq<ValueView>, arrays: Seq<Array>)
    requires
        fields.len() > 0,
        schema_error(fields, fields.len()) is None,
        distinct_names(fields),
        forall|j: int| 0 <= j < records.len() ==> record_conforms(fields, #[trigger] records[j]),
        serialized(fields, flatten_all(records)) matches Ok(rows) && table_holds(
            fields,
            arrays,
            rows,
        ),
    ensures
        serialized(fields, flatten_all(records)) == Ok::<Seq<ValueView>, crate::error::ErrorKind>(
            records,
        ),
        record_readable(fields, arrays),
        record_events(fields, arrays) == flatten_all(records),
{
    lemma_schema_error_none(fields, fields.len());
    assert forall|j: int| 0 <= j < records.len() implies (#[trigger] records[j]).well_formed() by {
        let entries = records[j]->Struct_0;
        assert forall|k: int| 0 <= k < entries.len() implies (#[trigger] entries[k]).1.well_formed() by {
            lemma_conforming_well_formed(fields[k], entries[k].1);
        }
    }
    law_parse_all_flatten(records);
    lemma_conforming_records(fields, records, records.len());
    assert(records.take(records.len() as int) =~= records);
    law_round_trip_of(fields, records, arrays);
}

/// Tracing is stable under a round trip of conforming samples: where the
/// samples conform to the fields against which they are serialized, the
/// event stream of the columns traces to the schema that the samples trace to.
pub proof fn law_trace_after_round_trip(
    fields: Seq<Field>,
    records: Seq<ValueView>,
    arrays: Seq<Array>,
    options: TracingOptions,
)
    requires
        fields.len() > 0,
        schema_error(fields, fields.len()) is None,
        distinct_names(fields),
        forall|j: int| 0 <= j < records.len() ==> record_conforms(fields, #[trigger] records[j]),
        serialized(fields, flatten_all(records)) matches Ok(rows) && table_holds(
            fields,
            arrays,
            rows,
        ),
    ensures
        traced_events(record_events(fields, arrays), options) == traced(records, options),
{
    law_round_trip(fields, records, arrays);
    assert forall|j: int| 0 <= j < records.len() implies (#[trigger] records[j]).well_formed() by {
        let entries = records[j]->Struct_0;
        assert forall|k: int| 0 <= k < entries.len() implies (#[trigger] entries[k]).1.well_formed() by {
            lemma_conforming_well_formed(fields[k], entries[k].1);
        }
    }
    law_parse_all_flatten(records);
}

/// The children of each struct at and below the field have distinct names.
pub open spec fn plain_names(field: Field) -> bool
    decreases field,
{
    &&& field.data_type == DataType::Struct ==> distinct_names(field.children@)
    &&& forall|k: int| 0 <= k < field.children@.len() ==> plain_names(#[trigger] field.children[k])
}

/// The text that a column writes for an instant is read back as that instant.
pub proof fn lemma_instant_text_conforms(field: Field, millis: int)
    requires
        stores_date_text(field),
        exists|dt: DateTime| dt.valid() && dt.timestamp() == millis,
    ensures
        scalar_conforms(
            field,
            PrimitiveType::I64,
            EventView::Str(format_millis(millis, field.strategy == Some(Strategy::UtcStrAsDate64))),
        ),
{
    let dt = choose|dt: DateTime| dt.valid() && dt.timestamp() == millis;
    law_format_then_parse(dt, field.strategy == Some(Strategy::UtcStrAsDate64));
}

/// The filler row of a field conforms to the field.
pub proof fn lemma_filler_conforms(field: Field)
    requires
        field.valid(),
        crate::array::supported(field),
        plain_names(field),
    ensures
        conforms(field, filler(field)),
    decreases field,
{
    if accepts_null(field) {
    } else {
        match field.data_type {
            DataType::FixedSizeList(size) => {
                lemma_filler_conforms(field.children[0]);
            },
            DataType::Struct => {
                let rows = fillers(field.children@);
                assert forall|k: int| 0 <= k < field.children@.len() implies conforms(
                    field.children[k],
                    (#[trigger] rows[k]).1,
                ) && rows[k].0 == field.children[k].name@ by {
                    lemma_filler_conforms(field.children[k]);
                }
                lemma_struct_value_conforms(field, rows);
            },
            DataType::Union(_) => {
                lemma_filler_conforms(field.children[0]);
            },
            DataType::Decimal128(precision, scale) => {
                lemma_pow10_monotonic(0, precision as nat);
                law_parse_formatted_decimal(0, precision as nat, scale as nat);
            },
            other => {
                if stores_date_text(field) {
                    let epoch = DateTime {
                        year: 1970,
                        month: 1,
                        day: 1,
                        hour: 0,
                        minute: 0,
                        second: 0,
                        millisecond: 0,
                    };
                    assert(epoch.valid() && epoch.timestamp() == 0) by {
                        reveal_with_fuel(days_before_month, 3);
                    }
                    lemma_instant_text_conforms(field, 0);
                }
            },
        }
    }
}

/// The row of a struct whose children conform, in the order and under the
/// names of the fields, conforms in each of the forms that a strategy gives it.
pub proof fn lemma_struct_value_conforms(field: Field, rows: Seq<(Seq<char>, ValueView)>)
    requires
        field.valid(),
        field.data_type == DataType::Struct,
        field.strategy != Some(Strategy::UnknownVariant),
        distinct_names(field.children@),
        rows.len() == field.children@.len(),
        forall|k: int|
            0 <= k < field.children@.len() ==> conforms(field.children[k], (#[trigger] rows[k]).1)
                && rows[k].0 == field.children[k].name@,
    ensures
        conforms(field, struct_value(field.strategy, rows)),
{
    let value = struct_value(field.strategy, rows);
    match field.strategy {
        Some(Strategy::TupleAsStruct) => {
            let items = value->Tuple_0;
            assert forall|k: int| 0 <= k < field.children@.len() implies conforms(
                field.children[k],
                #[trigger] items[k],
            ) by {
                assert(items[k] == rows[k].1);
            }
        },
        Some(Strategy::MapAsStruct) => {
            let pairs = value->Mapping_0;
            assert forall|k: int| 0 <= k < field.children@.len() implies (#[trigger] pairs[k]).0
                == ValueView::Leaf(EventView::Str(field.children[k].name@)) && conforms(
                field.children[k],
                pairs[k].1,
            ) by {
                assert(pairs[k].1 == rows[k].1);
            }
        },
        _ => {},
    }
}

/// What a column stores for a value conforms to its field: storing is a
/// normal form.
pub proof fn law_stored_value_conforms(field: Field, value: ValueView)
    requires
        field.valid(),
        crate::array::supported(field),
        plain_names(field),
    ensures
        encode(field, value) matches Ok(row) ==> conforms(field, row),
    decreases field, 0nat,
{
    if value == ValueView::Leaf(EventView::Null) {
    } else if value == ValueView::Leaf(EventView::Default) {
        lemma_filler_conforms(field);
    } else if encode(field, value) is Ok {
        match field.data_type {
            DataType::List | DataType::LargeList | DataType::FixedSizeList(_) => {
                let items = match value {
                    ValueView::Sequence(items) => items,
                    ValueView::Tuple(items) => items,
                    _ => Seq::empty(),
                };
                lemma_stored_items_conform(field.children[0], items);
            },
            DataType::Mapping(_) => {
                let inner = field.children[0];
                assert(inner.valid() && crate::array::supported(inner) && plain_names(inner));
                lemma_stored_entries_conform(inner, value->Mapping_0, 0, Seq::empty());
            },
            DataType::Struct => {
                let input = struct_input(field, value)->Ok_0;
                let rows = encode_fields(field.children@, input, field.children@.len())->Ok_0;
                lemma_stored_fields_conform(field.children@, input, field.children@.len());
                lemma_encode_fields_names(field.children@, input, field.children@.len());
                lemma_struct_value_conforms(field, rows);
            },
            DataType::Union(_) => {
                let index = value->Variant_1;
                law_stored_value_conforms(field.children[index as int], *value->Variant_2);
            },
            DataType::Decimal128(precision, scale) => {
                match store(field, PrimitiveType::I128, value->Leaf_0) {
                    Ok(unscaled) => {
                        law_parse_formatted_decimal(unscaled, precision as nat, scale as nat);
                    },
                    Err(_) => {},
                }
            },
            other => {
                if stores_date_text(field) && primitive_type(other) is Some {
                    let utc = field.strategy == Some(Strategy::UtcStrAsDate64);
                    let text = value->Leaf_0->Str_0;
                    let dt = parse_date_time_spec(text_bytes(text), utc)->0;
                    assert(dt.valid());
                    lemma_instant_text_conforms(field, dt.timestamp());
                }
            },
        }
    }
}

/// What a column stores for items conforms to its field.
pub proof fn lemma_stored_items_conform(field: Field, items: Seq<ValueView>)
    requires
        field.valid(),
        crate::array::supported(field),
        plain_names(field),
    ensures
        encode_all(field, items) matches Ok(rows) ==> rows.len() == items.len() && forall|j: int|
            0 <= j < rows.len() ==> conforms(field, #[trigger] rows[j]),
    decreases field, items.len() + 1,
{
    if items.len() > 0 {
        lemma_stored_items_conform(field, items.drop_last());
        law_stored_value_conforms(field, items.last());
    }
}

/// What the columns of a struct store for its children conforms to their fields.
pub proof fn lemma_stored_fields_conform(fields: Seq<Field>, input: StructInput, upto: nat)
    requires
        upto <= fields.len(),
        forall|k: int|
            0 <= k < fields.len() ==> (#[trigger] fields[k]).valid() && crate::array::supported(
                fields[k],
            ) && plain_names(fields[k]),
    ensures
        encode_fields(fields, input, upto) matches Ok(rows) ==> rows.len() == upto && forall|k: int|
            0 <= k < upto ==> conforms(fields[k], (#[trigger] rows[k]).1),
    decreases fields, upto,
{
    if upto > 0 {
        let k = upto - 1;
        lemma_stored_fields_conform(fields, input, k as nat);
        match input {
            StructInput::Positional(items) => {
                if 0 <= k < items.len() {
                    law_stored_value_conforms(fields[k], items[k]);
                }
            },
            StructInput::Named(entries) => {
                match first_named(entries, fields[k].name@, 0) {
                    Some(at) => {
                        lemma_first_named_bounds(entries, fields[k].name@, 0);
                        law_stored_value_conforms(fields[k], entries[at].1);
                    },
                    None => {},
                }
            },
        }
        match (encode_fields(fields, input, k as nat), encode_fields(fields, input, upto)) {
            (Ok(before), Ok(rows)) => {
                assert(rows == before.push((fields[k].name@, encode_child(fields[k], input, k)->Ok_0)));
                assert forall|j: int| 0 <= j < upto implies conforms(
                    fields[j],
                    (#[trigger] rows[j]).1,
                ) by {
                    if j < k {
                        assert(rows[j] == before[j]);
                    }
                }
            },
            _ => {},
        }
    }
}

/// The first entry of a name, where there is one, lies in range and has the name.
pub proof fn lemma_first_named_bounds(
    entries: Seq<(Seq<char>, ValueView)>,
    name: Seq<char>,
    from: int,
)
    ensures
        first_named(entries, name, from) matches Some(at) ==> from <= at < entries.len()
            && entries[at].0 == name,
    decreases entries.len() - from,
{
    if 0 <= from < entries.len() && entries[from].0 != name {
        lemma_first_named_bounds(entries, name, from + 1);
    }
}

/// What the column of the entries of a map stores for the entries conforms
/// to the fields of the keys and of the values.
pub proof fn lemma_stored_entries_conform(
    entries_field: Field,
    pairs: Seq<(ValueView, ValueView)>,
    from: nat,
    done: Seq<(ValueView, ValueView)>,
)
    requires
        entries_field.children@.len() == 2,
        forall|k: int|
            0 <= k < 2 ==> (#[trigger] entries_field.children@[k]).valid()
                && crate::array::supported(entries_field.children@[k]) && plain_names(
                entries_field.children@[k],
            ),
        forall|j: int|
            0 <= j < done.len() ==> conforms(entries_field.children[0], (#[trigger] done[j]).0)
                && conforms(entries_field.children[1], done[j].1),
    ensures
        encode_entries(entries_field, pairs, from, done) matches Ok(stored) ==> forall|j: int|
            0 <= j < stored.len() ==> conforms(
                entries_field.children[0],
                (#[trigger] stored[j]).0,
            ) && conforms(entries_field.children[1], stored[j].1),
    decreases entries_field, pairs.len() - from,
{
    if from < pairs.len() {
        let input = StructInput::Positional(seq![pairs[from as int].0, pairs[from as int].1]);
        lemma_stored_fields_conform(entries_field.children@, input, 2);
        match encode_fields(entries_field.children@, input, 2) {
            Ok(rows) => {
                let pair = entry_pair(ValueView::Struct(rows));
                assert(pair == (rows[0].1, rows[1].1));
                lemma_stored_entries_conform(entries_field, pairs, from + 1, done.push(pair));
            },
            Err(_) => {},
        }
    }
}

/// Storing is idempotent: what a column stores for a value, it stores as it is.
pub proof fn law_store_idempotent(field: Field, value: ValueView)
    requires
        field.valid(),
        crate::array::supported(field),
        plain_names(field),
    ensures
        encode(field, value) matches Ok(row) ==> encode(field, row) == Ok::<
            ValueView,
            crate::error::ErrorKind,
        >(row),
{
    law_stored_value_conforms(field, value);
    match encode(field, value) {
        Ok(row) => {
            law_conforming_value_is_kept(field, row);
        },
        Err(_) => {},
    }
}

/// The rows that the columns hold for accepted records conform to the
/// fields, where the fields and the children of each struct have distinct names.
pub proof fn law_rows_conform(fields: Seq<Field>, records: Seq<ValueView>, upto: nat)
    requires
        upto <= records.len(),
        distinct_names(fields),
        forall|k: int|
            0 <= k < fields.len() ==> field_error(#[trigger] fields[k]) is None && plain_names(
                fields[k],
            ),
    ensures
        encode_records(fields, records, upto) matches Ok(rows) ==> rows.len() == upto && forall|
            j: int,
        |
            0 <= j < upto ==> record_conforms(fields, #[trigger] rows[j]),
    decreases upto,
{
    if upto > 0 {
        let j = upto - 1;
        law_rows_conform(fields, records, j as nat);
        match (encode_records(fields, records, j as nat), encode_records(fields, records, upto)) {
            (Ok(before), Ok(rows)) => {
                let entries = records[j]->Struct_0;
                let input = StructInput::Named(entries);
                let row = encode_record(fields, records[j])->Ok_0;
                lemma_stored_fields_conform(fields, input, fields.len());
                lemma_encode_fields_names(fields, input, fields.len());
                assert(rows == before.push(ValueView::Struct(row)));
                assert forall|i: int| 0 <= i < upto implies record_conforms(
                    fields,
                    #[trigger] rows[i],
                ) by {
                    if i < j {
                        assert(rows[i] == before[i]);
                    }
                }
            },
            _ => {},
        }
    }
}

/// Reading the columns of accepted records and building columns from what
/// was read gives columns with the same rows: after one pass through the
/// columns the records are in normal form, and so is the schema that the
/// stream of the columns traces to. The schema must have a field; its fields
/// and the children of each struct must have distinct names.
pub proof fn law_second_pass_is_identity(
    fields: Seq<Field>,
    events: Seq<EventView>,
    arrays: Seq<Array>,
    options: TracingOptions,
)
    requires
        fields.len() > 0,
        distinct_names(fields),
        forall|k: int| 0 <= k < fields.len() ==> plain_names(#[trigger] fields[k]),
        serialized(fields, events) matches Ok(rows) && table_holds(fields, arrays, rows),
    ensures
        serialized(fields, events) matches Ok(rows) && record_events(fields, arrays) == flatten_all(
            rows,
        ) && serialized(fields, record_events(fields, arrays)) == Ok::<
            Seq<ValueView>,
            crate::error::ErrorKind,
        >(rows) && traced_events(record_events(fields, arrays), options) == traced(rows, options),
{
    let rows = serialized(fields, events)->Ok_0;
    let records = parse_all(events)->Some_0;
    lemma_schema_error_none(fields, fields.len());
    law_rows_conform(fields, records, records.len());
    assert(record_rows(fields, arrays, record_count(arrays)) =~= rows);
    law_round_trip_of(fields, rows, arrays);
}

/// The round trip of conforming records whose rows the columns hold.
pub proof fn law_round_trip_of(fields: Seq<Field>, records: Seq<ValueView>, arrays: Seq<Array>)
    requires
        fields.len() > 0,
        schema_error(fields, fields.len()) is None,
        distinct_names(fields),
        forall|j: int| 0 <= j < records.len() ==> record_conforms(fields, #[trigger] records[j]),
        table_holds(fields, arrays, records),
    ensures
        parse_all(flatten_all(records)) == Some(records),
        serialized(fields, flatten_all(records)) == Ok::<Seq<ValueView>, crate::error::ErrorKind>(
            records,
        ),
        record_events(fields, arrays) == flatten_all(records),
{
    lemma_schema_error_none(fields, fields.len());
    assert forall|j: int| 0 <= j < records.len() implies (#[trigger] records[j]).well_formed() by {
        let entries = records[j]->Struct_0;
        assert forall|k: int| 0 <= k < entries.len() implies (#[trigger] entries[k]).1.well_formed() by {
            lemma_conforming_well_formed(fields[k], entries[k].1);
        }
    }
    law_parse_all_flatten(records);
    lemma_conforming_records(fields, records, records.len());
    assert(records.take(records.len() as int) =~= records);
    assert(record_rows(fields, arrays, record_count(arrays)) =~= records);
}

} // verus!
