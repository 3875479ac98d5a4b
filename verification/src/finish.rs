//! Finishing columns: the limits that the data types set, and single-column builders.
use vstd::prelude::*;
use crate::array::{supported, Array};
use crate::builders::{new_array, push_value, pushed};
use crate::error::{Error, ErrorKind};
use crate::schema::{DataType, Field};
use crate::serializer::field_error;
use crate::sources::is_supported;
use crate::event::{events_view, lemma_events_view_push, Event, EventView};
use crate::parser::{parse_value, read_value};
use crate::builders::encode;
use crate::value::{Value, ValueView};

verus! {

/// The largest offset of the types whose offsets have 32 bits.
pub const SMALL_OFFSET_MAX: usize = 0x7fff_ffff;

/// The data type stores its offsets in 32 bits.
pub open spec fn has_small_offsets(data_type: DataType) -> bool {
    data_type == DataType::Utf8 || data_type == DataType::Binary || data_type == DataType::List
}

/// The column is within the limits of its data type, and so are all columns
/// below it: the offsets of `Utf8`, `Binary` and `List` and those of a dense
/// union fit 32 bits, and the keys of a dictionary fit its index type.
pub open spec fn within_limits(field: Field, array: Array) -> bool
    decreases field,
{
    match array {
        Array::Binary { offsets, data, validity } => has_small_offsets(field.data_type)
            ==> data@.len() <= SMALL_OFFSET_MAX,
        Array::List { offsets, child, validity } => {
            &&& has_small_offsets(field.data_type) ==> child.rows() <= SMALL_OFFSET_MAX
            &&& field.children@.len() > 0 ==> within_limits(field.children[0], *child)
        },
        Array::Struct { children, validity } => forall|k: int|
            0 <= k < field.children@.len() && k < children@.len() ==> within_limits(
                #[trigger] field.children[k],
                children[k],
            ),
        Array::Union { type_codes, offsets, children } => forall|k: int|
            0 <= k < field.children@.len() && k < children@.len() ==> within_limits(
                #[trigger] field.children[k],
                children[k],
            ) && children[k].rows() <= SMALL_OFFSET_MAX,
        Array::Dictionary { keys, validity, values } => match (field.data_type, *values) {
            (DataType::Dictionary(index, value, _), Array::Binary { offsets, data, validity: set }) => {
                &&& set@.len() <= index.max_key() + 1
                &&& *value == DataType::Utf8 ==> data@.len() <= SMALL_OFFSET_MAX
            },
            _ => true,
        },
        _ => true,
    }
}

/// Tells whether the data type stores its offsets in 32 bits.
pub fn small_offsets(data_type: &DataType) -> (small: bool)
    ensures
        small == has_small_offsets(*data_type),
{
    matches!(data_type, DataType::Utf8 | DataType::Binary | DataType::List)
}

/// Tells whether the column and all columns below it are within the limits
/// of their data types.
pub fn fits_limits(field: &Field, array: &Array) -> (ok: bool)
    requires
        array.wf(*field),
    ensures
        ok == within_limits(*field, *array),
    decreases *field, 1nat,
{
    match array {
        Array::Binary { offsets, data, validity } => !small_offsets(&field.data_type) || data.len()
            <= SMALL_OFFSET_MAX,
        Array::List { offsets, child, validity } => {
            (!small_offsets(&field.data_type) || child.len() <= SMALL_OFFSET_MAX) && fits_limits(
                &field.children[0],
                child,
            )
        },
        Array::Struct { children, validity } => all_fit_limits(&field.children, children, false),
        Array::Union { type_codes, offsets, children } => all_fit_limits(
            &field.children,
            children,
            true,
        ),
        Array::Dictionary { keys, validity, values } => match (&field.data_type, &**values) {
            (DataType::Dictionary(index, value, _), Array::Binary { offsets, data, validity: set }) => {
                let keys_fit = set.len() == 0 || (set.len() - 1) as u64 <= index.largest_key();
                keys_fit && (!matches!(**value, DataType::Utf8) || data.len() <= SMALL_OFFSET_MAX)
            },
            _ => true,
        },
        _ => true,
    }
}

/// Tells whether each column is within the limits of its data type, and,
/// where `small` is set, holds no more rows than a 32-bit offset can name.
#[verifier::loop_isolation(false)]
pub fn all_fit_limits(fields: &Vec<Field>, arrays: &Vec<Array>, small: bool) -> (ok: bool)
    requires
        fields@.len() == arrays@.len(),
        forall|k: int| 0 <= k < fields@.len() ==> (#[trigger] arrays[k]).wf(fields[k]),
    ensures
        ok == forall|k: int|
            0 <= k < fields@.len() ==> within_limits(#[trigger] fields[k], arrays[k]) && (small
                ==> arrays[k].rows() <= SMALL_OFFSET_MAX),
    decreases *fields, 0nat,
{
    let n: usize = fields.len();
    let mut k: usize = 0;
    while k < n
        invariant
            k <= n,
            forall|j: int|
                0 <= j < k ==> within_limits(#[trigger] fields[j], arrays[j]) && (small
                    ==> arrays[j].rows() <= SMALL_OFFSET_MAX),
        decreases n - k,
    {
        if !fits_limits(&fields[k], &arrays[k]) || (small && arrays[k].len() > SMALL_OFFSET_MAX) {
            return false;
        }
        k += 1;
    }
    true
}

/// Checks that each column is within the limits of its data type.
///
/// Fails with `OutOfRange` where one is not.
pub fn check_limits(fields: &Vec<Field>, arrays: &Vec<Array>) -> (r: Result<(), Error>)
    requires
        fields@.len() == arrays@.len(),
        forall|k: int| 0 <= k < fields@.len() ==> (#[trigger] arrays[k]).wf(fields[k]),
    ensures
        r.is_ok() <==> forall|k: int|
            0 <= k < fields@.len() ==> within_limits(#[trigger] fields[k], arrays[k]),
        r matches Err(e) ==> e.kind == ErrorKind::OutOfRange,
{
    if all_fit_limits(fields, arrays, false) {
        Ok(())
    } else {
        Err(Error::new(ErrorKind::OutOfRange, "a column exceeds the limits of its data type"))
    }
}

/// A builder of one column.
#[derive(Debug)]
pub struct ArrayBuilder<'a> {
    pub field: &'a Field,
    pub array: Array,
}

impl<'a> ArrayBuilder<'a> {
    /// The field can have a column, and the column is one of the field.
    pub open spec fn wf(self) -> bool {
        &&& field_error(*self.field) is None
        &&& self.array.wf(*self.field)
    }

    /// A builder with an empty column of the field.
    ///
    /// Fails with `SchemaInvalid` where the field breaks the schema
    /// invariants, and with `Unsupported` where it holds a type that the
    /// builders do not handle.
    pub fn new(field: &'a Field) -> (r: Result<ArrayBuilder<'a>, Error>)
        ensures
            match r {
                Ok(builder) => builder.wf() && builder.field == field && builder.array.rows() == 0,
                Err(e) => field_error(*field) == Some(e.kind),
            },
    {
        if !field.is_valid() {
            return Err(Error::new(ErrorKind::SchemaInvalid, "the field violates the schema invariants"));
        }
        if !is_supported(field) {
            return Err(Error::new(ErrorKind::Unsupported, "the data type is not yet supported"));
        }
        Ok(ArrayBuilder { field, array: new_array(field) })
    }

    /// The number of rows so far.
    pub fn len(&self) -> (n: usize)
        ensures
            n == self.array.rows(),
    {
        self.array.len()
    }

    /// Appends `value` as one row. After a refusal the builder must not be used.
    pub fn push(&mut self, value: &Value) -> (r: Result<(), Error>)
        requires
            old(self).wf(),
        ensures
            final(self).field == old(self).field,
            pushed(*old(self).field, old(self).array, final(self).array, value@, r),
            r.is_ok() ==> final(self).wf(),
    {
        push_value(self.field, &mut self.array, value)
    }

    /// The column, where it is within the limits of its data type.
    ///
    /// Fails with `OutOfRange` where it is not.
    pub fn finish(self) -> (r: Result<Array, Error>)
        requires
            self.wf(),
        ensures
            match r {
                Ok(array) => array == self.array && within_limits(*self.field, array),
                Err(e) => e.kind == ErrorKind::OutOfRange && !within_limits(
                    *self.field,
                    self.array,
                ),
            },
    {
        if fits_limits(self.field, &self.array) {
            Ok(self.array)
        } else {
            Err(Error::new(ErrorKind::OutOfRange, "the column exceeds the limits of its data type"))
        }
    }
}

/// How much the event changes the depth of nesting: a start marker opens a
/// level, an end marker closes one.
pub open spec fn depth_change(event: EventView) -> int {
    match event {
        EventView::StartStruct | EventView::StartTuple | EventView::StartSequence
        | EventView::StartMap => 1,
        EventView::EndStruct | EventView::EndTuple | EventView::EndSequence | EventView::EndMap => -1,
        _ => 0,
    }
}

/// The depth of nesting behind the events: the levels opened, less those closed.
pub open spec fn nesting(events: Seq<EventView>) -> int
    decreases events.len(),
{
    if events.len() == 0 {
        0
    } else {
        nesting(events.drop_last()) + depth_change(events.last())
    }
}

/// The value that the events spell, where they spell exactly one.
pub open spec fn whole_value(events: Seq<EventView>) -> Option<ValueView> {
    match parse_value(events, 0) {
        Some((value, end)) => if end == events.len() {
            Some(value)
        } else {
            None
        },
        None => None,
    }
}

/// A builder of one column that takes the events of its values one by one.
#[derive(Debug)]
pub struct EventBuilder<'a> {
    pub builder: ArrayBuilder<'a>,
    /// The events of the value that is not yet complete.
    pub pending: Vec<Event>,
    /// The depth of nesting behind the pending events.
    pub depth: usize,
}

impl<'a> EventBuilder<'a> {
    /// The column is one of the field, and the depth is that of the pending events.
    pub open spec fn wf(self) -> bool {
        &&& self.builder.wf()
        &&& self.depth == nesting(events_view(self.pending@))
        &&& self.depth <= self.pending@.len()
    }

    /// A builder with an empty column of the field and no pending events.
    ///
    /// Fails as `ArrayBuilder::new` does.
    pub fn new(field: &'a Field) -> (r: Result<EventBuilder<'a>, Error>)
        ensures
            match r {
                Ok(builder) => builder.wf() && builder.builder.field == field
                    && builder.builder.array.rows() == 0 && builder.pending@.len() == 0,
                Err(e) => field_error(*field) == Some(e.kind),
            },
    {
        match ArrayBuilder::new(field) {
            Ok(builder) => Ok(EventBuilder { builder, pending: Vec::new(), depth: 0 }),
            Err(e) => Err(e),
        }
    }

    /// The number of rows so far.
    pub fn len(&self) -> (n: usize)
        ensures
            n == self.builder.array.rows(),
    {
        self.builder.len()
    }

    /// Takes one event. Where the pending events and this one are level and
    /// spell one value, the value is appended as a row and nothing is pending;
    /// else the event is pending too.
    ///
    /// Fails with `StructuralError` where the event closes a level that was
    /// not opened, and as `ArrayBuilder::push` does where the value is refused.
    /// After a failure the builder must not be used.
    pub fn append(&mut self, event: Event) -> (r: Result<(), Error>)
        requires
            old(self).wf(),
        ensures
            final(self).builder.field == old(self).builder.field,
            match r {
                Ok(()) => {
                    let all = events_view(old(self).pending@).push(event@);
                    &&& final(self).wf()
                    &&& nesting(all) >= 0
                    &&& match whole_value(all) {
                        Some(value) => if nesting(all) == 0 {
                            final(self).pending@.len() == 0 && pushed(
                                *old(self).builder.field,
                                old(self).builder.array,
                                final(self).builder.array,
                                value,
                                Ok(()),
                            )
                        } else {
                            events_view(final(self).pending@) == all && final(self).builder.array
                                == old(self).builder.array
                        },
                        None => events_view(final(self).pending@) == all
                            && final(self).builder.array == old(self).builder.array,
                    }
                },
                Err(e) => {
                    let all = events_view(old(self).pending@).push(event@);
                    ||| nesting(all) < 0 && e.kind == ErrorKind::StructuralError
                    ||| nesting(all) == 0 && (whole_value(all) matches Some(value) && encode(
                        *old(self).builder.field,
                        value,
                    ) == Err::<ValueView, ErrorKind>(e.kind))
                },
            },
    {
        let ghost before = events_view(self.pending@);
        let closes = matches!(
            event,
            Event::EndStruct | Event::EndTuple | Event::EndSequence | Event::EndMap
        );
        let opens = matches!(
            event,
            Event::StartStruct | Event::StartTuple | Event::StartSequence | Event::StartMap
        );
        proof {
            lemma_events_view_push(self.pending@, event);
            assert(before.push(event@).drop_last() =~= before);
        }
        if closes && self.depth == 0 {
            return Err(Error::new(ErrorKind::StructuralError, "a level is closed that was not opened"));
        }
        self.pending.push(event);
        let count: usize = self.pending.len();
        if closes {
            self.depth = self.depth - 1;
        } else if opens {
            self.depth = self.depth + 1;
        }
        if self.depth != 0 {
            return Ok(());
        }
        match read_value(self.pending.as_slice(), 0) {
            Some((value, end)) => {
                if end != self.pending.len() {
                    return Ok(());
                }
                match self.builder.push(&value) {
                    Ok(()) => {
                        self.pending = Vec::new();
                        assert(events_view(self.pending@) =~= Seq::<EventView>::empty());
                        Ok(())
                    },
                    Err(e) => Err(e),
                }
            },
            None => Ok(()),
        }
    }

    /// The column, where nothing is pending and the column is within the
    /// limits of its data type.
    ///
    /// Fails with `StructuralError` where events are pending, else with
    /// `OutOfRange` where the column is beyond the limits.
    pub fn finish(self) -> (r: Result<Array, Error>)
        requires
            self.wf(),
        ensures
            match r {
                Ok(array) => self.pending@.len() == 0 && array == self.builder.array
                    && within_limits(*self.builder.field, array),
                Err(e) => if self.pending@.len() > 0 {
                    e.kind == ErrorKind::StructuralError
                } else {
                    e.kind == ErrorKind::OutOfRange && !within_limits(
                        *self.builder.field,
                        self.builder.array,
                    )
                },
            },
    {
        if self.pending.len() > 0 {
            return Err(Error::new(ErrorKind::StructuralError, "a value is not complete"));
        }
        self.builder.finish()
    }
}

} // verus!
