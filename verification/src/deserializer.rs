//! The deserializer driver: from columns to the event stream of their rows.
use vstd::prelude::*;
use crate::array::Array;
use crate::error::Error;
use crate::event::{events_view, Event};
use crate::schema::Field;
use crate::sources::{
    build_record_source, record_built, record_count, record_events, record_readable, record_rows,
};
use crate::value::{flatten_all, lemma_flatten_all_push, write_events};

verus! {

/// The event stream of the record batch that `arrays` hold: for each row a
/// struct with one child per field.
///
/// Fails as `build_record_source` does.
pub fn deserialize(fields: &[Field], arrays: &[Array]) -> (r: Result<Vec<Event>, Error>)
    ensures
        r.is_ok() <==> record_readable(fields@, arrays@),
        r matches Ok(events) ==> events_view(events@) == record_events(fields@, arrays@),
        r matches Err(e) ==> record_built(fields, arrays, Err(e)),
{
    let mut source = match build_record_source(fields, arrays) {
        Ok(source) => source,
        Err(e) => {
            return Err(e);
        },
    };
    let mut events: Vec<Event> = Vec::new();
    let ghost rows = record_rows(fields@, arrays@, record_count(arrays@));
    assert(events_view(events@) =~= flatten_all(rows.take(0)));
    loop
        invariant
            source.wf(),
            source.fields == fields,
            source.arrays == arrays,
            rows == record_rows(fields@, arrays@, record_count(arrays@)),
            events_view(events@) == flatten_all(rows.take(source.next as int)),
        decreases record_count(arrays@) - source.next,
    {
        let ghost before = source.next;
        match source.next_record() {
            Some(value) => {
                proof {
                    assert(value@ == rows[before as int]);
                    assert(rows.take(before + 1) =~= rows.take(before as int).push(value@));
                    lemma_flatten_all_push(rows.take(before as int), value@);
                }
                write_events(&value, &mut events);
            },
            None => {
                assert(rows.take(source.next as int) =~= rows);
                return Ok(events);
            },
        }
    }
}

} // verus!
