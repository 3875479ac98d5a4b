//! Reading an event stream back into trees.
use vstd::prelude::*;
use crate::error::{Error, ErrorKind};
use crate::event::{events_view, Event, EventView};
use crate::value::{
    entries_view, fields_view, flatten, flatten_all, flatten_entries, flatten_fields,
    lemma_flatten_all_first, lemma_flatten_entries_first, lemma_flatten_fields_first,
    lemma_flatten_head, lemma_view_parts, opens, values_view, Value, ValueView,
};

verus! {

/// The tree that starts at `at`, and the place behind it.
///
/// A scalar is a leaf. A start marker opens a struct, a tuple, a sequence
/// or a map, which runs to the matching end marker; a variant marker stands
/// before its payload. An end marker or an item marker starts no tree.
pub open spec fn parse_value(events: Seq<EventView>, at: int) -> Option<(ValueView, int)>
    decreases events.len() - at, 0nat,
{
    if at < 0 || at >= events.len() {
        None
    } else {
        match events[at] {
            EventView::StartStruct => match parse_fields(events, at + 1, Seq::empty()) {
                Some((fields, end)) => Some((ValueView::Struct(fields), end)),
                None => None,
            },
            EventView::StartTuple => match parse_items(events, at + 1, true, Seq::empty()) {
                Some((items, end)) => Some((ValueView::Tuple(items), end)),
                None => None,
            },
            EventView::StartSequence => match parse_items(events, at + 1, false, Seq::empty()) {
                Some((items, end)) => Some((ValueView::Sequence(items), end)),
                None => None,
            },
            EventView::StartMap => match parse_entries(events, at + 1, Seq::empty()) {
                Some((entries, end)) => Some((ValueView::Mapping(entries), end)),
                None => None,
            },
            EventView::Variant(name, index) => match parse_value(events, at + 1) {
                Some((payload, end)) => Some(
                    (ValueView::Variant(name, index, Box::new(payload)), end),
                ),
                None => None,
            },
            event => if event.is_scalar() {
                Some((ValueView::Leaf(event), at + 1))
            } else {
                None
            },
        }
    }
}

/// The marker that ends a tuple or a sequence.
pub open spec fn closer(tuple: bool) -> EventView {
    if tuple {
        EventView::EndTuple
    } else {
        EventView::EndSequence
    }
}

/// The items from `at` up to the end marker, after the items `done`, and the
/// place behind the marker.
pub open spec fn parse_items(events: Seq<EventView>, at: int, tuple: bool, done: Seq<ValueView>) -> Option<
    (Seq<ValueView>, int),
>
    decreases events.len() - at, 1nat,
{
    if at < 0 || at >= events.len() {
        None
    } else if events[at] == closer(tuple) {
        Some((done, at + 1))
    } else {
        match parse_value(events, at) {
            Some((item, next)) => if at < next <= events.len() {
                parse_items(events, next, tuple, done.push(item))
            } else {
                None
            },
            None => None,
        }
    }
}

/// The named children from `at` up to the end of the struct, after the
/// children `done`, and the place behind the end marker.
pub open spec fn parse_fields(
    events: Seq<EventView>,
    at: int,
    done: Seq<(Seq<char>, ValueView)>,
) -> Option<(Seq<(Seq<char>, ValueView)>, int)>
    decreases events.len() - at, 1nat,
{
    if at < 0 || at >= events.len() {
        None
    } else {
        match events[at] {
            EventView::EndStruct => Some((done, at + 1)),
            EventView::Str(name) => match parse_value(events, at + 1) {
                Some((child, next)) => if at < next <= events.len() {
                    parse_fields(events, next, done.push((name, child)))
                } else {
                    None
                },
                None => None,
            },
            _ => None,
        }
    }
}

/// The entries from `at` up to the end of the map, after the entries `done`,
/// and the place behind the end marker.
pub open spec fn parse_entries(
    events: Seq<EventView>,
    at: int,
    done: Seq<(ValueView, ValueView)>,
) -> Option<(Seq<(ValueView, ValueView)>, int)>
    decreases events.len() - at, 2nat,
{
    if at < 0 || at >= events.len() {
        None
    } else {
        match events[at] {
            EventView::EndMap => Some((done, at + 1)),
            EventView::Item => match parse_value(events, at + 1) {
                Some((key, middle)) => if at < middle <= events.len() {
                    match parse_value(events, middle) {
                        Some((value, next)) => if middle < next <= events.len() {
                            parse_entries(events, next, done.push((key, value)))
                        } else {
                            None
                        },
                        None => None,
                    }
                } else {
                    None
                },
                None => None,
            },
            _ => None,
        }
    }
}

/// The trees from `at` to the end of the stream, after the trees `done`.
pub open spec fn parse_stream(events: Seq<EventView>, at: int, done: Seq<ValueView>) -> Option<
    Seq<ValueView>,
>
    decreases events.len() - at, 1nat,
{
    if at < 0 || at > events.len() {
        None
    } else if at == events.len() {
        Some(done)
    } else {
        match parse_value(events, at) {
            Some((item, next)) => if at < next <= events.len() {
                parse_stream(events, next, done.push(item))
            } else {
                None
            },
            None => None,
        }
    }
}

/// The trees of a stream of records, where the stream is balanced.
pub open spec fn parse_all(events: Seq<EventView>) -> Option<Seq<ValueView>> {
    parse_stream(events, 0, Seq::empty())
}

/// Reads the tree that starts at `at`.
pub fn read_value(events: &[Event], at: usize) -> (r: Option<(Value, usize)>)
    ensures
        match r {
            Some((value, end)) => parse_value(events_view(events@), at as int) == Some(
                (value@, end as int),
            ) && at < end <= events@.len(),
            None => parse_value(events_view(events@), at as int) is None,
        },
    decreases events@.len() - at, 0nat,
{
    if at >= events.len() {
        return None;
    }
    let r = match &events[at] {
        Event::StartStruct => match read_fields(events, at + 1) {
            Some((fields, end)) => Some((Value::Struct(fields), end)),
            None => None,
        },
        Event::StartTuple => match read_items(events, at + 1, true) {
            Some((items, end)) => Some((Value::Tuple(items), end)),
            None => None,
        },
        Event::StartSequence => match read_items(events, at + 1, false) {
            Some((items, end)) => Some((Value::Sequence(items), end)),
            None => None,
        },
        Event::StartMap => match read_entries(events, at + 1) {
            Some((entries, end)) => Some((Value::Mapping(entries), end)),
            None => None,
        },
        Event::Variant(name, index) => match read_value(events, at + 1) {
            Some((payload, end)) => Some(
                (Value::Variant(name.clone(), *index, Box::new(payload)), end),
            ),
            None => None,
        },
        event => {
            if event.is_scalar() {
                Some((Value::Leaf(event.duplicate()), at + 1))
            } else {
                None
            }
        },
    };
    let ghost got = r;
    proof {
        match got {
            Some((value, end)) => {
                lemma_view_parts(value);
            },
            None => {},
        }
    }
    r
}

/// Reads the items from `at` up to the end marker of a tuple or a sequence.
pub fn read_items(events: &[Event], at: usize, tuple: bool) -> (r: Option<(Vec<Value>, usize)>)
    ensures
        match r {
            Some((items, end)) => parse_items(
                events_view(events@),
                at as int,
                tuple,
                Seq::empty(),
            ) == Some((values_view(items@), end as int)) && at < end <= events@.len(),
            None => parse_items(events_view(events@), at as int, tuple, Seq::empty()) is None,
        },
    decreases events@.len() - at, 1nat,
{
    let n: usize = events.len();
    let mut items: Vec<Value> = Vec::new();
    let mut pos: usize = at;
    assert(values_view(items@) =~= Seq::<ValueView>::empty());
    while pos < n
        invariant
            at <= pos,
            n == events@.len(),
            parse_items(events_view(events@), at as int, tuple, Seq::empty()) == parse_items(
                events_view(events@),
                pos as int,
                tuple,
                values_view(items@),
            ),
        decreases n - pos,
    {
        let closes = match &events[pos] {
            Event::EndTuple => tuple,
            Event::EndSequence => !tuple,
            _ => false,
        };
        if closes {
            return Some((items, pos + 1));
        }
        match read_value(events, pos) {
            Some((item, next)) => {
                proof {
                    assert(values_view(items@.push(item)) =~= values_view(items@).push(item@));
                }
                items.push(item);
                pos = next;
            },
            None => {
                return None;
            },
        }
    }
    None
}

/// Reads the named children from `at` up to the end of a struct.
pub fn read_fields(events: &[Event], at: usize) -> (r: Option<(Vec<(String, Value)>, usize)>)
    ensures
        match r {
            Some((fields, end)) => parse_fields(events_view(events@), at as int, Seq::empty())
                == Some((fields_view(fields@), end as int)) && at < end <= events@.len(),
            None => parse_fields(events_view(events@), at as int, Seq::empty()) is None,
        },
    decreases events@.len() - at, 1nat,
{
    let n: usize = events.len();
    let mut fields: Vec<(String, Value)> = Vec::new();
    let mut pos: usize = at;
    assert(fields_view(fields@) =~= Seq::<(Seq<char>, ValueView)>::empty());
    while pos < n
        invariant
            at <= pos,
            n == events@.len(),
            parse_fields(events_view(events@), at as int, Seq::empty()) == parse_fields(
                events_view(events@),
                pos as int,
                fields_view(fields@),
            ),
        decreases n - pos,
    {
        match &events[pos] {
            Event::EndStruct => {
                return Some((fields, pos + 1));
            },
            Event::Str(name) => match read_value(events, pos + 1) {
                Some((child, next)) => {
                    let entry = (name.clone(), child);
                    proof {
                        assert(fields_view(fields@.push(entry)) =~= fields_view(fields@).push(
                            (name@, child@),
                        ));
                    }
                    fields.push(entry);
                    pos = next;
                },
                None => {
                    return None;
                },
            },
            _ => {
                return None;
            },
        }
    }
    None
}

/// Reads the entries from `at` up to the end of a map.
pub fn read_entries(events: &[Event], at: usize) -> (r: Option<(Vec<(Value, Value)>, usize)>)
    ensures
        match r {
            Some((entries, end)) => parse_entries(events_view(events@), at as int, Seq::empty())
                == Some((entries_view(entries@), end as int)) && at < end <= events@.len(),
            None => parse_entries(events_view(events@), at as int, Seq::empty()) is None,
        },
    decreases events@.len() - at, 2nat,
{
    let n: usize = events.len();
    let mut entries: Vec<(Value, Value)> = Vec::new();
    let mut pos: usize = at;
    assert(entries_view(entries@) =~= Seq::<(ValueView, ValueView)>::empty());
    while pos < n
        invariant
            at <= pos,
            n == events@.len(),
            parse_entries(events_view(events@), at as int, Seq::empty()) == parse_entries(
                events_view(events@),
                pos as int,
                entries_view(entries@),
            ),
        decreases n - pos,
    {
        match &events[pos] {
            Event::EndMap => {
                return Some((entries, pos + 1));
            },
            Event::Item => match read_value(events, pos + 1) {
                Some((key, middle)) => match read_value(events, middle) {
                    Some((value, next)) => {
                        let entry = (key, value);
                        proof {
                            assert(entries_view(entries@.push(entry)) =~= entries_view(
                                entries@,
                            ).push((key@, value@)));
                        }
                        entries.push(entry);
                        pos = next;
                    },
                    None => {
                        return None;
                    },
                },
                None => {
                    return None;
                },
            },
            _ => {
                return None;
            },
        }
    }
    None
}

/// Reads a stream of records into trees.
///
/// Fails with `StructuralError` where the stream is not balanced.
pub fn parse_events(events: &[Event]) -> (r: Result<Vec<Value>, Error>)
    ensures
        match r {
            Ok(values) => parse_all(events_view(events@)) == Some(values_view(values@)),
            Err(e) => parse_all(events_view(events@)) is None && e.kind
                == ErrorKind::StructuralError,
        },
{
    let n: usize = events.len();
    let mut values: Vec<Value> = Vec::new();
    let mut pos: usize = 0;
    assert(values_view(values@) =~= Seq::<ValueView>::empty());
    while pos < n
        invariant
            pos <= n,
            n == events@.len(),
            parse_all(events_view(events@)) == parse_stream(
                events_view(events@),
                pos as int,
                values_view(values@),
            ),
        decreases n - pos,
    {
        match read_value(events, pos) {
            Some((value, next)) => {
                proof {
                    assert(values_view(values@.push(value)) =~= values_view(values@).push(value@));
                }
                values.push(value);
                pos = next;
            },
            None => {
                return Err(Error::new(ErrorKind::StructuralError, "the stream is not balanced"));
            },
        }
    }
    Ok(values)
}

/// The events from `at` on begin with `part`.
pub open spec fn starts_with(events: Seq<EventView>, at: int, part: Seq<EventView>) -> bool {
    &&& 0 <= at
    &&& at + part.len() <= events.len()
    &&& events.subrange(at, at + part.len()) == part
}

/// Events that begin with two parts begin with the first, and go on with the second.
pub proof fn lemma_starts_with_split(
    events: Seq<EventView>,
    at: int,
    first: Seq<EventView>,
    second: Seq<EventView>,
)
    requires
        starts_with(events, at, first + second),
    ensures
        starts_with(events, at, first),
        starts_with(events, at + first.len(), second),
        forall|i: int| 0 <= i < first.len() ==> events[at + i] == first[i],
{
    let whole = events.subrange(at, at + (first + second).len());
    assert(events.subrange(at, at + first.len()) =~= whole.subrange(0, first.len() as int));
    assert(whole.subrange(0, first.len() as int) =~= first);
    assert(events.subrange(at + first.len(), at + first.len() + second.len()) =~= whole.subrange(
        first.len() as int,
        whole.len() as int,
    ));
    assert(whole.subrange(first.len() as int, whole.len() as int) =~= second);
    assert forall|i: int| 0 <= i < first.len() implies events[at + i] == first[i] by {
        assert(whole[i] == events[at + i]);
    }
}

/// Events that begin with a part hold the events of the part.
pub proof fn lemma_starts_with_index(events: Seq<EventView>, at: int, part: Seq<EventView>, i: int)
    requires
        starts_with(events, at, part),
        0 <= i < part.len(),
    ensures
        events[at + i] == part[i],
{
    assert(events.subrange(at, at + part.len())[i] == events[at + i]);
}

/// Reading the stream of a well-formed tree gives the tree back.
pub proof fn law_parse_flatten(events: Seq<EventView>, at: int, value: ValueView)
    requires
        value.well_formed(),
        starts_with(events, at, flatten(value)),
    ensures
        parse_value(events, at) == Some((value, at + flatten(value).len())),
        flatten(value).len() >= 1,
    decreases value, 0nat,
{
    lemma_flatten_head(value);
    let whole = flatten(value);
    lemma_starts_with_split(events, at, whole, Seq::empty());
    assert(whole + Seq::<EventView>::empty() =~= whole);
    assert(events[at] == whole[0]);
    match value {
        ValueView::Leaf(event) => {},
        ValueView::Struct(fields) => {
            let inner = flatten_fields(fields);
            assert(whole =~= seq![EventView::StartStruct] + (inner + seq![EventView::EndStruct]));
            lemma_starts_with_split(
                events,
                at,
                seq![EventView::StartStruct],
                inner + seq![EventView::EndStruct],
            );
            lemma_starts_with_split(events, at + 1, inner, seq![EventView::EndStruct]);
            lemma_starts_with_split(
                events,
                at + 1 + inner.len(),
                seq![EventView::EndStruct],
                Seq::empty(),
            );
            lemma_starts_with_index(events, at, whole, 1 + inner.len() as int);
            lemma_parse_fields(events, at + 1, Seq::empty(), fields);
            assert(Seq::<(Seq<char>, ValueView)>::empty() + fields =~= fields);
        },
        ValueView::Tuple(items) => {
            let inner = flatten_all(items);
            assert(whole =~= seq![EventView::StartTuple] + (inner + seq![EventView::EndTuple]));
            lemma_starts_with_split(
                events,
                at,
                seq![EventView::StartTuple],
                inner + seq![EventView::EndTuple],
            );
            lemma_starts_with_split(events, at + 1, inner, seq![EventView::EndTuple]);
            lemma_starts_with_split(
                events,
                at + 1 + inner.len(),
                seq![EventView::EndTuple],
                Seq::empty(),
            );
            lemma_starts_with_index(events, at, whole, 1 + inner.len() as int);
            lemma_parse_items(events, at + 1, true, Seq::empty(), items);
            assert(Seq::<ValueView>::empty() + items =~= items);
        },
        ValueView::Sequence(items) => {
            let inner = flatten_all(items);
            assert(whole =~= seq![EventView::StartSequence] + (inner + seq![
                EventView::EndSequence,
            ]));
            lemma_starts_with_split(
                events,
                at,
                seq![EventView::StartSequence],
                inner + seq![EventView::EndSequence],
            );
            lemma_starts_with_split(events, at + 1, inner, seq![EventView::EndSequence]);
            lemma_starts_with_split(
                events,
                at + 1 + inner.len(),
                seq![EventView::EndSequence],
                Seq::empty(),
            );
            lemma_starts_with_index(events, at, whole, 1 + inner.len() as int);
            lemma_parse_items(events, at + 1, false, Seq::empty(), items);
            assert(Seq::<ValueView>::empty() + items =~= items);
        },
        ValueView::Mapping(entries) => {
            let inner = flatten_entries(entries);
            assert(whole =~= seq![EventView::StartMap] + (inner + seq![EventView::EndMap]));
            lemma_starts_with_split(
                events,
                at,
                seq![EventView::StartMap],
                inner + seq![EventView::EndMap],
            );
            lemma_starts_with_split(events, at + 1, inner, seq![EventView::EndMap]);
            lemma_starts_with_split(
                events,
                at + 1 + inner.len(),
                seq![EventView::EndMap],
                Seq::empty(),
            );
            lemma_starts_with_index(events, at, whole, 1 + inner.len() as int);
            lemma_parse_entries(events, at + 1, Seq::empty(), entries);
            assert(Seq::<(ValueView, ValueView)>::empty() + entries =~= entries);
        },
        ValueView::Variant(name, index, payload) => {
            lemma_starts_with_split(
                events,
                at,
                seq![EventView::Variant(name, index)],
                flatten(*payload),
            );
            law_parse_flatten(events, at + 1, *payload);
        },
    }
}

/// Reading the streams of well-formed items up to the end marker gives the items back.
pub proof fn lemma_parse_items(
    events: Seq<EventView>,
    at: int,
    tuple: bool,
    done: Seq<ValueView>,
    items: Seq<ValueView>,
)
    requires
        forall|i: int| 0 <= i < items.len() ==> (#[trigger] items[i]).well_formed(),
        starts_with(events, at, flatten_all(items)),
        at + flatten_all(items).len() < events.len(),
        events[at + flatten_all(items).len()] == closer(tuple),
    ensures
        parse_items(events, at, tuple, done) == Some(
            (done + items, at + flatten_all(items).len() + 1),
        ),
    decreases items, 1nat,
{
    if items.len() == 0 {
        assert(done + items =~= done);
    } else {
        let first = items[0];
        let rest = items.skip(1);
        lemma_flatten_all_first(items);
        lemma_flatten_head(first);
        lemma_starts_with_split(events, at, flatten(first), flatten_all(rest));
        assert(events[at] == flatten(first)[0]);
        law_parse_flatten(events, at, first);
        lemma_parse_items(events, at + flatten(first).len(), tuple, done.push(first), rest);
        assert(done.push(first) + rest =~= done + items);
    }
}

/// Reading the streams of well-formed named children up to the end of the
/// struct gives the children back.
pub proof fn lemma_parse_fields(
    events: Seq<EventView>,
    at: int,
    done: Seq<(Seq<char>, ValueView)>,
    fields: Seq<(Seq<char>, ValueView)>,
)
    requires
        forall|i: int| 0 <= i < fields.len() ==> (#[trigger] fields[i]).1.well_formed(),
        starts_with(events, at, flatten_fields(fields)),
        at + flatten_fields(fields).len() < events.len(),
        events[at + flatten_fields(fields).len()] == EventView::EndStruct,
    ensures
        parse_fields(events, at, done) == Some(
            (done + fields, at + flatten_fields(fields).len() + 1),
        ),
    decreases fields, 1nat,
{
    if fields.len() == 0 {
        assert(done + fields =~= done);
    } else {
        let first = fields[0];
        let rest = fields.skip(1);
        lemma_flatten_fields_first(fields);
        lemma_starts_with_split(
            events,
            at,
            seq![EventView::Str(first.0)] + flatten(first.1),
            flatten_fields(rest),
        );
        lemma_starts_with_split(events, at, seq![EventView::Str(first.0)], flatten(first.1));
        lemma_starts_with_index(events, at, seq![EventView::Str(first.0)], 0);
        law_parse_flatten(events, at + 1, first.1);
        lemma_parse_fields(events, at + 1 + flatten(first.1).len(), done.push(first), rest);
        assert(done.push(first) + rest =~= done + fields);
    }
}

/// Reading the streams of well-formed entries up to the end of the map gives
/// the entries back.
pub proof fn lemma_parse_entries(
    events: Seq<EventView>,
    at: int,
    done: Seq<(ValueView, ValueView)>,
    entries: Seq<(ValueView, ValueView)>,
)
    requires
        forall|i: int|
            0 <= i < entries.len() ==> (#[trigger] entries[i]).0.well_formed()
                && entries[i].1.well_formed(),
        starts_with(events, at, flatten_entries(entries)),
        at + flatten_entries(entries).len() < events.len(),
        events[at + flatten_entries(entries).len()] == EventView::EndMap,
    ensures
        parse_entries(events, at, done) == Some(
            (done + entries, at + flatten_entries(entries).len() + 1),
        ),
    decreases entries, 1nat,
{
    if entries.len() == 0 {
        assert(done + entries =~= done);
    } else {
        let first = entries[0];
        let rest = entries.skip(1);
        lemma_flatten_entries_first(entries);
        lemma_starts_with_split(
            events,
            at,
            seq![EventView::Item] + flatten(first.0) + flatten(first.1),
            flatten_entries(rest),
        );
        lemma_starts_with_split(
            events,
            at,
            seq![EventView::Item] + flatten(first.0),
            flatten(first.1),
        );
        lemma_starts_with_split(events, at, seq![EventView::Item], flatten(first.0));
        lemma_starts_with_index(events, at, seq![EventView::Item], 0);
        law_parse_flatten(events, at + 1, first.0);
        law_parse_flatten(events, at + 1 + flatten(first.0).len(), first.1);
        lemma_parse_entries(
            events,
            at + 1 + flatten(first.0).len() + flatten(first.1).len(),
            done.push(first),
            rest,
        );
        assert(done.push(first) + rest =~= done + entries);
    }
}

/// Reading the streams of well-formed records to the end of the stream gives
/// the records back.
pub proof fn lemma_parse_stream(
    events: Seq<EventView>,
    at: int,
    done: Seq<ValueView>,
    records: Seq<ValueView>,
)
    requires
        forall|i: int| 0 <= i < records.len() ==> (#[trigger] records[i]).well_formed(),
        starts_with(events, at, flatten_all(records)),
        at + flatten_all(records).len() == events.len(),
    ensures
        parse_stream(events, at, done) == Some(done + records),
    decreases records.len(),
{
    if records.len() == 0 {
        assert(done + records =~= done);
    } else {
        let first = records[0];
        let rest = records.skip(1);
        lemma_flatten_all_first(records);
        lemma_starts_with_split(events, at, flatten(first), flatten_all(rest));
        law_parse_flatten(events, at, first);
        lemma_parse_stream(events, at + flatten(first).len(), done.push(first), rest);
        assert(done.push(first) + rest =~= done + records);
    }
}

/// Reading the event stream of well-formed records gives the records back.
pub proof fn law_parse_all_flatten(records: Seq<ValueView>)
    requires
        forall|i: int| 0 <= i < records.len() ==> (#[trigger] records[i]).well_formed(),
    ensures
        parse_all(flatten_all(records)) == Some(records),
{
    let events = flatten_all(records);
    assert(events.subrange(0, events.len() as int) =~= events);
    lemma_parse_stream(events, 0, Seq::empty(), records);
    assert(Seq::<ValueView>::empty() + records =~= records);
}

} // verus!
