//! The serializer driver: from the event stream of records to columns.
use vstd::prelude::*;
use crate::array::{child_rows, lemma_child_rows, supported, Array};
use crate::builders::{
    columns_fit, encode_fields, grown, lemma_encode_fields_names, new_array, push_fields, Input,
    StructInput,
};
use crate::decimal::push_natural;
use crate::error::{Error, ErrorKind};
use crate::event::{events_view, Event, EventView};
use crate::parser::{parse_all, parse_events};
use crate::schema::Field;
use crate::sources::{is_supported, record_row};
use crate::value::{lemma_view_parts, values_view, Value, ValueView};

verus! {

/// Why no column can be built for the field, if anything: it breaks the
/// schema invariants, or it holds a type that the builders do not handle.
pub open spec fn field_error(field: Field) -> Option<ErrorKind> {
    if !field.valid() {
        Some(ErrorKind::SchemaInvalid)
    } else if !supported(field) {
        Some(ErrorKind::Unsupported)
    } else {
        None
    }
}

/// Why no columns can be built for the first `upto` fields, if anything:
/// the error of the first field that has one.
pub open spec fn schema_error(fields: Seq<Field>, upto: nat) -> Option<ErrorKind>
    decreases upto,
{
    if upto == 0 || upto > fields.len() {
        None
    } else {
        match schema_error(fields, (upto - 1) as nat) {
            Some(kind) => Some(kind),
            None => field_error(fields[upto - 1]),
        }
    }
}

/// An error among the first fields is the error of the schema.
pub proof fn lemma_schema_error_stays(fields: Seq<Field>, upto: nat)
    requires
        upto <= fields.len(),
        schema_error(fields, upto) is Some,
    ensures
        schema_error(fields, fields.len()) == schema_error(fields, upto),
    decreases fields.len() - upto,
{
    if upto < fields.len() {
        lemma_schema_error_stays(fields, upto + 1);
    }
}

/// A schema without error has no field with an error.
pub proof fn lemma_schema_error_none(fields: Seq<Field>, upto: nat)
    requires
        upto <= fields.len(),
        schema_error(fields, upto) is None,
    ensures
        forall|k: int| 0 <= k < upto ==> field_error(#[trigger] fields[k]) is None,
    decreases upto,
{
    if upto > 0 {
        lemma_schema_error_none(fields, (upto - 1) as nat);
    }
}

/// Checks that columns can be built for each field.
pub fn check_schema(fields: &Vec<Field>) -> (r: Result<(), Error>)
    ensures
        match r {
            Ok(()) => schema_error(fields@, fields@.len()) is None,
            Err(e) => schema_error(fields@, fields@.len()) == Some(e.kind),
        },
{
    let n: usize = fields.len();
    let mut k: usize = 0;
    while k < n
        invariant
            k <= n,
            n == fields@.len(),
            schema_error(fields@, k as nat) is None,
        decreases n - k,
    {
        if !fields[k].is_valid() {
            proof {
                lemma_schema_error_stays(fields@, (k + 1) as nat);
            }
            return Err(Error::new(ErrorKind::SchemaInvalid, "a field violates the schema invariants"));
        }
        if !is_supported(&fields[k]) {
            proof {
                lemma_schema_error_stays(fields@, (k + 1) as nat);
            }
            return Err(Error::new(ErrorKind::Unsupported, "the data type is not yet supported"));
        }
        k += 1;
    }
    Ok(())
}

/// The rows, each behind the name of its field, that the columns hold after
/// `record` was appended, or why the record is refused. A record is a struct;
/// its children are read as those of a struct column are.
pub open spec fn encode_record(fields: Seq<Field>, record: ValueView) -> Result<
    Seq<(Seq<char>, ValueView)>,
    ErrorKind,
> {
    match record {
        ValueView::Struct(entries) => encode_fields(
            fields,
            StructInput::Named(entries),
            fields.len(),
        ),
        _ => Err(ErrorKind::SchemaMismatch),
    }
}

/// The rows of the first `upto` records, or the first refusal.
pub open spec fn encode_records(fields: Seq<Field>, records: Seq<ValueView>, upto: nat) -> Result<
    Seq<ValueView>,
    ErrorKind,
>
    decreases upto,
{
    if upto == 0 || upto > records.len() {
        Ok(Seq::empty())
    } else {
        match encode_records(fields, records, (upto - 1) as nat) {
            Ok(rows) => match encode_record(fields, records[upto - 1]) {
                Ok(row) => Ok(rows.push(ValueView::Struct(row))),
                Err(kind) => Err(kind),
            },
            Err(kind) => Err(kind),
        }
    }
}

/// Each record that is accepted gives one row.
pub proof fn law_one_row_per_record(fields: Seq<Field>, records: Seq<ValueView>, upto: nat)
    requires
        upto <= records.len(),
    ensures
        encode_records(fields, records, upto) matches Ok(rows) ==> rows.len() == upto,
    decreases upto,
{
    if upto > 0 {
        law_one_row_per_record(fields, records, (upto - 1) as nat);
    }
}

/// A refusal among the first records is the refusal of all of them.
pub proof fn lemma_encode_records_error(fields: Seq<Field>, records: Seq<ValueView>, upto: nat)
    requires
        upto <= records.len(),
        encode_records(fields, records, upto) is Err,
    ensures
        encode_records(fields, records, records.len()) == encode_records(fields, records, upto),
    decreases records.len() - upto,
{
    if upto < records.len() {
        lemma_encode_records_error(fields, records, upto + 1);
    }
}

/// Appends one record to the columns: one row to each.
pub fn push_record(fields: &Vec<Field>, arrays: &mut Vec<Array>, record: &Value) -> (r: Result<
    (),
    Error,
>)
    requires
        columns_fit(fields@, old(arrays)@),
    ensures
        match r {
            Ok(()) => final(arrays)@.len() == fields@.len() && (encode_record(
                fields@,
                record@,
            ) matches Ok(rows) && forall|k: int|
                0 <= k < fields@.len() ==> grown(
                    #[trigger] fields[k],
                    old(arrays)@[k],
                    final(arrays)@[k],
                    rows[k].1,
                )),
            Err(e) => encode_record(fields@, record@) == Err::<
                Seq<(Seq<char>, ValueView)>,
                ErrorKind,
            >(e.kind),
        },
{
    proof {
        lemma_view_parts(*record);
    }
    match record {
        Value::Struct(entries) => push_fields(fields, arrays, &Input::Named(entries)),
        _ => Err(Error::new(ErrorKind::SchemaMismatch, "a record must be a struct")),
    }
}

/// The columns hold the given rows: each is a column of its field, and row
/// `j` of the columns is record `j`.
pub open spec fn table_holds(fields: Seq<Field>, arrays: Seq<Array>, rows: Seq<ValueView>) -> bool {
    &&& columns_fit(fields, arrays)
    &&& forall|k: int| 0 <= k < fields.len() ==> (#[trigger] arrays[k]).rows() == rows.len()
    &&& forall|j: int| 0 <= j < rows.len() ==> record_row(fields, arrays, j) == #[trigger] rows[j]
}

/// What `serialize` gives for a stream: the error of the schema, else
/// `StructuralError` where the stream is not balanced, else the first refusal
/// of a record, else the rows of the records.
pub open spec fn serialized(fields: Seq<Field>, events: Seq<EventView>) -> Result<
    Seq<ValueView>,
    ErrorKind,
> {
    match schema_error(fields, fields.len()) {
        Some(kind) => Err(kind),
        None => match parse_all(events) {
            None => Err(ErrorKind::StructuralError),
            Some(records) => encode_records(fields, records, records.len()),
        },
    }
}

/// Appends the records to empty columns of the fields.
pub fn build_columns(fields: &Vec<Field>, records: &Vec<Value>) -> (r: Result<Vec<Array>, Error>)
    requires
        schema_error(fields@, fields@.len()) is None,
    ensures
        match r {
            Ok(arrays) => encode_records(
                fields@,
                values_view(records@),
                records@.len(),
            ) matches Ok(rows) && table_holds(fields@, arrays@, rows) && rows.len()
                == records@.len(),
            Err(e) => encode_records(fields@, values_view(records@), records@.len()) == Err::<
                Seq<ValueView>,
                ErrorKind,
            >(e.kind),
        },
{
    proof {
        lemma_schema_error_none(fields@, fields@.len());
    }
    let mut arrays: Vec<Array> = Vec::new();
    let columns: usize = fields.len();
    let mut k: usize = 0;
    while k < columns
        invariant
            k <= columns,
            columns == fields@.len(),
            arrays@.len() == k,
            forall|j: int| 0 <= j < fields@.len() ==> field_error(#[trigger] fields[j]) is None,
            forall|j: int| 0 <= j < k ==> (#[trigger] arrays[j]).wf(fields[j]) && arrays[j].rows() == 0,
        decreases columns - k,
    {
        arrays.push(new_array(&fields[k]));
        k += 1;
    }
    let n: usize = records.len();
    let ghost views = values_view(records@);
    let ghost mut rows: Seq<ValueView> = Seq::empty();
    let mut i: usize = 0;
    while i < n
        invariant
            i <= n,
            n == records@.len(),
            views == values_view(records@),
            encode_records(fields@, views, i as nat) == Ok::<Seq<ValueView>, ErrorKind>(rows),
            rows.len() == i,
            table_holds(fields@, arrays@, rows),
        decreases n - i,
    {
        let ghost before = arrays@;
        match push_record(fields, &mut arrays, &records[i]) {
            Ok(()) => {
                proof {
                    let row = encode_record(fields@, views[i as int])->Ok_0;
                    lemma_encode_fields_names(
                        fields@,
                        StructInput::Named(views[i as int]->Struct_0),
                        fields@.len(),
                    );
                    let after = arrays@;
                    assert forall|k: int| 0 <= k < fields@.len() implies (#[trigger] after[k]).wf(
                        fields@[k],
                    ) && after[k].rows() == i + 1 by {
                        assert(grown(fields@[k], before[k], after[k], row[k].1));
                    }
                    assert forall|j: int| 0 <= j < i implies record_row(fields@, after, j)
                        == rows[j] by {
                        lemma_child_rows(fields@, after, j, child_rows(fields@, before, j));
                    }
                    lemma_child_rows(fields@, after, i as int, row);
                    rows = rows.push(ValueView::Struct(row));
                    assert(record_row(fields@, after, i as int) == rows[i as int]);
                }
            },
            Err(e) => {
                proof {
                    lemma_encode_records_error(fields@, views, (i + 1) as nat);
                }
                let mut context = "record ".to_owned();
                push_natural(&mut context, i as u128);
                return Err(e.within(context.as_str()));
            },
        }
        i += 1;
    }
    Ok(arrays)
}

/// Builds the columns of `fields` from the event stream of a batch of
/// records: each record a struct with one child per field.
///
/// The columns hold one row for each record, in order.
pub fn serialize(fields: &Vec<Field>, events: &[Event]) -> (r: Result<Vec<Array>, Error>)
    ensures
        match r {
            Ok(arrays) => (serialized(fields@, events_view(events@)) matches Ok(rows)
                && table_holds(fields@, arrays@, rows)) && (parse_all(
                events_view(events@),
            ) matches Some(records) && forall|k: int|
                0 <= k < arrays@.len() ==> (#[trigger] arrays[k]).rows() == records.len()),
            Err(e) => serialized(fields@, events_view(events@)) == Err::<
                Seq<ValueView>,
                ErrorKind,
            >(e.kind),
        },
{
    match check_schema(fields) {
        Ok(()) => {},
        Err(e) => {
            return Err(e);
        },
    }
    let records = match parse_events(events) {
        Ok(records) => records,
        Err(e) => {
            return Err(e);
        },
    };
    build_columns(fields, &records)
}

} // verus!
