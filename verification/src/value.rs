//! Records as trees, and their flattening into event streams.
use vstd::prelude::*;
use crate::event::{events_view, lemma_events_view_push, Event, EventView};

verus! {

/// One record, or one part of a record, as a tree.
#[derive(Debug, PartialEq, Eq)]
pub enum Value {
    /// A scalar, held as the event that announces it.
    Leaf(Event),
    /// Named children, in the order in which they arrived.
    Struct(Vec<(String, Value)>),
    Tuple(Vec<Value>),
    Sequence(Vec<Value>),
    /// Key and value pairs, in the order in which they arrived.
    Mapping(Vec<(Value, Value)>),
    /// A union variant: its name, its position and its payload.
    Variant(String, usize, Box<Value>),
}

/// The mathematical value of a [`Value`].
pub enum ValueView {
    Leaf(EventView),
    Struct(Seq<(Seq<char>, ValueView)>),
    Tuple(Seq<ValueView>),
    Sequence(Seq<ValueView>),
    Mapping(Seq<(ValueView, ValueView)>),
    Variant(Seq<char>, usize, Box<ValueView>),
}

impl Value {
    /// The mathematical value of the tree.
    pub open spec fn model(self) -> ValueView
        decreases self,
    {
        match self {
            Value::Leaf(event) => ValueView::Leaf(event@),
            Value::Struct(fields) => ValueView::Struct(
                Seq::new(
                    fields@.len(),
                    |i: int|
                        if 0 <= i < fields@.len() {
                            (fields[i].0@, fields[i].1.model())
                        } else {
                            arbitrary()
                        },
                ),
            ),
            Value::Tuple(items) => ValueView::Tuple(
                Seq::new(
                    items@.len(),
                    |i: int|
                        if 0 <= i < items@.len() {
                            items[i].model()
                        } else {
                            arbitrary()
                        },
                ),
            ),
            Value::Sequence(items) => ValueView::Sequence(
                Seq::new(
                    items@.len(),
                    |i: int|
                        if 0 <= i < items@.len() {
                            items[i].model()
                        } else {
                            arbitrary()
                        },
                ),
            ),
            Value::Mapping(entries) => ValueView::Mapping(
                Seq::new(
                    entries@.len(),
                    |i: int|
                        if 0 <= i < entries@.len() {
                            (entries[i].0.model(), entries[i].1.model())
                        } else {
                            arbitrary()
                        },
                ),
            ),
            Value::Variant(name, index, payload) => ValueView::Variant(
                name@,
                index,
                Box::new(payload.model()),
            ),
        }
    }
}

impl View for Value {
    type V = ValueView;

    open spec fn view(&self) -> ValueView {
        self.model()
    }
}

/// The mathematical values of a list of trees.
pub open spec fn values_view(items: Seq<Value>) -> Seq<ValueView> {
    Seq::new(items.len(), |i: int| items[i]@)
}

/// The mathematical values of a list of named trees.
pub open spec fn fields_view(fields: Seq<(String, Value)>) -> Seq<(Seq<char>, ValueView)> {
    Seq::new(fields.len(), |i: int| (fields[i].0@, fields[i].1@))
}

/// The mathematical values of a list of key and value pairs.
pub open spec fn entries_view(entries: Seq<(Value, Value)>) -> Seq<(ValueView, ValueView)> {
    Seq::new(entries.len(), |i: int| (entries[i].0@, entries[i].1@))
}

/// The view of a tree, stated over the views of its parts.
pub proof fn lemma_view_parts(value: Value)
    ensures
        value matches Value::Leaf(event) ==> value@ == ValueView::Leaf(event@),
        value matches Value::Struct(fields) ==> value@ == ValueView::Struct(fields_view(fields@)),
        value matches Value::Tuple(items) ==> value@ == ValueView::Tuple(values_view(items@)),
        value matches Value::Sequence(items) ==> value@ == ValueView::Sequence(
            values_view(items@),
        ),
        value matches Value::Mapping(entries) ==> value@ == ValueView::Mapping(
            entries_view(entries@),
        ),
        value matches Value::Variant(name, index, payload) ==> value@ == ValueView::Variant(
            name@,
            index,
            Box::new(payload@),
        ),
{
    match value {
        Value::Struct(fields) => {
            assert(value@->Struct_0 =~= fields_view(fields@));
        },
        Value::Tuple(items) => {
            assert(value@->Tuple_0 =~= values_view(items@));
        },
        Value::Sequence(items) => {
            assert(value@->Sequence_0 =~= values_view(items@));
        },
        Value::Mapping(entries) => {
            assert(value@->Mapping_0 =~= entries_view(entries@));
        },
        _ => {},
    }
}

impl ValueView {
    /// Every leaf of the tree is a scalar event.
    pub open spec fn well_formed(self) -> bool
        decreases self,
    {
        match self {
            ValueView::Leaf(event) => event.is_scalar(),
            ValueView::Struct(fields) => forall|i: int|
                0 <= i < fields.len() ==> (#[trigger] fields[i]).1.well_formed(),
            ValueView::Tuple(items) => forall|i: int|
                0 <= i < items.len() ==> (#[trigger] items[i]).well_formed(),
            ValueView::Sequence(items) => forall|i: int|
                0 <= i < items.len() ==> (#[trigger] items[i]).well_formed(),
            ValueView::Mapping(entries) => forall|i: int|
                0 <= i < entries.len() ==> (#[trigger] entries[i]).0.well_formed()
                    && entries[i].1.well_formed(),
            ValueView::Variant(_, _, payload) => payload.well_formed(),
        }
    }
}

/// The event stream of one tree.
pub open spec fn flatten(value: ValueView) -> Seq<EventView>
    decreases value,
{
    match value {
        ValueView::Leaf(event) => seq![event],
        ValueView::Struct(fields) => seq![EventView::StartStruct] + flatten_fields(fields)
            + seq![EventView::EndStruct],
        ValueView::Tuple(items) => seq![EventView::StartTuple] + flatten_all(items)
            + seq![EventView::EndTuple],
        ValueView::Sequence(items) => seq![EventView::StartSequence] + flatten_all(items)
            + seq![EventView::EndSequence],
        ValueView::Mapping(entries) => seq![EventView::StartMap] + flatten_entries(entries)
            + seq![EventView::EndMap],
        ValueView::Variant(name, index, payload) => seq![EventView::Variant(name, index)]
            + flatten(*payload),
    }
}

/// The event streams of a list of trees, one after the other.
pub open spec fn flatten_all(items: Seq<ValueView>) -> Seq<EventView>
    decreases items,
{
    if items.len() == 0 {
        Seq::empty()
    } else {
        flatten_all(items.drop_last()) + flatten(items.last())
    }
}

/// The event streams of named trees, each behind its name.
pub open spec fn flatten_fields(fields: Seq<(Seq<char>, ValueView)>) -> Seq<EventView>
    decreases fields,
{
    if fields.len() == 0 {
        Seq::empty()
    } else {
        flatten_fields(fields.drop_last()) + seq![EventView::Str(fields.last().0)] + flatten(
            fields.last().1,
        )
    }
}

/// The event streams of map entries, each behind an item marker.
pub open spec fn flatten_entries(entries: Seq<(ValueView, ValueView)>) -> Seq<EventView>
    decreases entries,
{
    if entries.len() == 0 {
        Seq::empty()
    } else {
        flatten_entries(entries.drop_last()) + seq![EventView::Item] + flatten(entries.last().0)
            + flatten(entries.last().1)
    }
}

/// Appends the event stream of `value` to `out`.
pub fn write_events(value: &Value, out: &mut Vec<Event>)
    ensures
        events_view(final(out)@) == events_view(old(out)@) + flatten(value@),
    decreases *value,
{
    let ghost start = events_view(out@);
    proof {
        lemma_view_parts(*value);
    }
    match value {
        Value::Leaf(event) => {
            proof {
                lemma_events_view_push(out@, *event);
            }
            let copy = event.duplicate();
            proof {
                lemma_events_view_push(out@, copy);
            }
            out.push(copy);
            assert(events_view(out@) =~= start + flatten(value@));
        },
        Value::Struct(fields) => {
            proof {
                lemma_events_view_push(out@, Event::StartStruct);
            }
            out.push(Event::StartStruct);
            write_fields(fields, out);
            proof {
                lemma_events_view_push(out@, Event::EndStruct);
            }
            out.push(Event::EndStruct);
            assert(events_view(out@) =~= start + flatten(value@));
        },
        Value::Tuple(items) => {
            proof {
                lemma_events_view_push(out@, Event::StartTuple);
            }
            out.push(Event::StartTuple);
            write_all(items, out);
            proof {
                lemma_events_view_push(out@, Event::EndTuple);
            }
            out.push(Event::EndTuple);
            assert(events_view(out@) =~= start + flatten(value@));
        },
        Value::Sequence(items) => {
            proof {
                lemma_events_view_push(out@, Event::StartSequence);
            }
            out.push(Event::StartSequence);
            write_all(items, out);
            proof {
                lemma_events_view_push(out@, Event::EndSequence);
            }
            out.push(Event::EndSequence);
            assert(events_view(out@) =~= start + flatten(value@));
        },
        Value::Mapping(entries) => {
            proof {
                lemma_events_view_push(out@, Event::StartMap);
            }
            out.push(Event::StartMap);
            write_entries(entries, out);
            proof {
                lemma_events_view_push(out@, Event::EndMap);
            }
            out.push(Event::EndMap);
            assert(events_view(out@) =~= start + flatten(value@));
        },
        Value::Variant(name, index, payload) => {
            let marker = Event::Variant(name.clone(), *index);
            proof {
                lemma_events_view_push(out@, marker);
            }
            out.push(marker);
            write_events(payload, out);
            assert(events_view(out@) =~= start + flatten(value@));
        },
    }
}

/// Appends the event streams of `items`, in order, to `out`.
pub fn write_all(items: &Vec<Value>, out: &mut Vec<Event>)
    ensures
        events_view(final(out)@) == events_view(old(out)@) + flatten_all(values_view(items@)),
    decreases *items,
{
    let ghost start = events_view(out@);
    let n: usize = items.len();
    let mut i: usize = 0;
    assert(events_view(out@) =~= start + flatten_all(values_view(items@).take(0)));
    while i < n
        invariant
            i <= n,
            n == items@.len(),
            events_view(out@) == start + flatten_all(values_view(items@).take(i as int)),
        decreases n - i,
    {
        proof {
            assert(values_view(items@).take(i + 1).drop_last() =~= values_view(items@).take(
                i as int,
            ));
        }
        write_events(&items[i], out);
        i += 1;
        assert(events_view(out@) =~= start + flatten_all(values_view(items@).take(i as int)));
    }
    assert(values_view(items@).take(n as int) =~= values_view(items@));
}

/// Appends the event streams of `fields`, each behind its name, to `out`.
pub fn write_fields(fields: &Vec<(String, Value)>, out: &mut Vec<Event>)
    ensures
        events_view(final(out)@) == events_view(old(out)@) + flatten_fields(fields_view(fields@)),
    decreases *fields,
{
    let ghost start = events_view(out@);
    let n: usize = fields.len();
    let mut i: usize = 0;
    assert(events_view(out@) =~= start + flatten_fields(fields_view(fields@).take(0)));
    while i < n
        invariant
            i <= n,
            n == fields@.len(),
            events_view(out@) == start + flatten_fields(fields_view(fields@).take(i as int)),
        decreases n - i,
    {
        let name = Event::Str(fields[i].0.clone());
        proof {
            lemma_events_view_push(out@, name);
            assert(fields_view(fields@).take(i + 1).drop_last() =~= fields_view(fields@).take(
                i as int,
            ));
        }
        out.push(name);
        write_events(&fields[i].1, out);
        i += 1;
        assert(events_view(out@) =~= start + flatten_fields(fields_view(fields@).take(i as int)));
    }
    assert(fields_view(fields@).take(n as int) =~= fields_view(fields@));
}

/// Appends the event streams of `entries`, each behind an item marker, to `out`.
pub fn write_entries(entries: &Vec<(Value, Value)>, out: &mut Vec<Event>)
    ensures
        events_view(final(out)@) == events_view(old(out)@) + flatten_entries(
            entries_view(entries@),
        ),
    decreases *entries,
{
    let ghost start = events_view(out@);
    let n: usize = entries.len();
    let mut i: usize = 0;
    assert(events_view(out@) =~= start + flatten_entries(entries_view(entries@).take(0)));
    while i < n
        invariant
            i <= n,
            n == entries@.len(),
            events_view(out@) == start + flatten_entries(entries_view(entries@).take(i as int)),
        decreases n - i,
    {
        proof {
            lemma_events_view_push(out@, Event::Item);
            assert(entries_view(entries@).take(i + 1).drop_last() =~= entries_view(entries@).take(
                i as int,
            ));
        }
        out.push(Event::Item);
        write_events(&entries[i].0, out);
        write_events(&entries[i].1, out);
        i += 1;
        assert(events_view(out@) =~= start + flatten_entries(
            entries_view(entries@).take(i as int),
        ));
    }
    assert(entries_view(entries@).take(n as int) =~= entries_view(entries@));
}

/// The stream of a non-empty list is the stream of its first tree, then the
/// stream of the others.
pub proof fn lemma_flatten_all_first(items: Seq<ValueView>)
    requires
        items.len() > 0,
    ensures
        flatten_all(items) == flatten(items[0]) + flatten_all(items.skip(1)),
    decreases items.len(),
{
    if items.len() == 1 {
        assert(items.drop_last() =~= Seq::<ValueView>::empty());
        assert(items.skip(1) =~= Seq::<ValueView>::empty());
        assert(flatten_all(items) =~= flatten(items[0]) + flatten_all(items.skip(1)));
    } else {
        lemma_flatten_all_first(items.drop_last());
        assert(items.skip(1).drop_last() =~= items.drop_last().skip(1));
        assert(flatten_all(items) =~= flatten(items[0]) + flatten_all(items.skip(1)));
    }
}

/// The stream of a list with one more tree at its end.
pub proof fn lemma_flatten_all_push(items: Seq<ValueView>, last: ValueView)
    ensures
        flatten_all(items.push(last)) == flatten_all(items) + flatten(last),
{
    assert(items.push(last).drop_last() =~= items);
}

/// The stream of a non-empty list of named trees is the name and the stream
/// of the first, then the stream of the others.
pub proof fn lemma_flatten_fields_first(fields: Seq<(Seq<char>, ValueView)>)
    requires
        fields.len() > 0,
    ensures
        flatten_fields(fields) == seq![EventView::Str(fields[0].0)] + flatten(fields[0].1)
            + flatten_fields(fields.skip(1)),
    decreases fields.len(),
{
    if fields.len() == 1 {
        assert(fields.drop_last() =~= Seq::<(Seq<char>, ValueView)>::empty());
        assert(fields.skip(1) =~= Seq::<(Seq<char>, ValueView)>::empty());
        assert(flatten_fields(fields) =~= seq![EventView::Str(fields[0].0)] + flatten(fields[0].1)
            + flatten_fields(fields.skip(1)));
    } else {
        lemma_flatten_fields_first(fields.drop_last());
        assert(fields.skip(1).drop_last() =~= fields.drop_last().skip(1));
        assert(flatten_fields(fields) =~= seq![EventView::Str(fields[0].0)] + flatten(fields[0].1)
            + flatten_fields(fields.skip(1)));
    }
}

/// The stream of a non-empty list of map entries is the item marker and the
/// streams of the first key and value, then the stream of the others.
pub proof fn lemma_flatten_entries_first(entries: Seq<(ValueView, ValueView)>)
    requires
        entries.len() > 0,
    ensures
        flatten_entries(entries) == seq![EventView::Item] + flatten(entries[0].0) + flatten(
            entries[0].1,
        ) + flatten_entries(entries.skip(1)),
    decreases entries.len(),
{
    if entries.len() == 1 {
        assert(entries.drop_last() =~= Seq::<(ValueView, ValueView)>::empty());
        assert(entries.skip(1) =~= Seq::<(ValueView, ValueView)>::empty());
        assert(flatten_entries(entries) =~= seq![EventView::Item] + flatten(entries[0].0)
            + flatten(entries[0].1) + flatten_entries(entries.skip(1)));
    } else {
        lemma_flatten_entries_first(entries.drop_last());
        assert(entries.skip(1).drop_last() =~= entries.drop_last().skip(1));
        assert(flatten_entries(entries) =~= seq![EventView::Item] + flatten(entries[0].0)
            + flatten(entries[0].1) + flatten_entries(entries.skip(1)));
    }
}

/// The event opens a tree: it is a scalar, a start marker or a variant marker.
pub open spec fn opens(event: EventView) -> bool {
    event.is_scalar() || event == EventView::StartStruct || event == EventView::StartTuple
        || event == EventView::StartSequence || event == EventView::StartMap
        || event is Variant
}

/// The stream of a well-formed tree is not empty, and its first event opens a tree.
pub proof fn lemma_flatten_head(value: ValueView)
    requires
        value.well_formed(),
    ensures
        flatten(value).len() >= 1,
        opens(flatten(value)[0]),
{
}

} // verus!
