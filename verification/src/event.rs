//! The event alphabet exchanged between records and columns.
use vstd::prelude::*;

verus! {

/// One step of a record stream.
///
/// Floating-point scalars travel as their IEEE 754 bit patterns.
#[derive(Clone, Debug, PartialEq, Eq)]
pub enum Event {
    StartStruct,
    EndStruct,
    StartTuple,
    EndTuple,
    StartSequence,
    EndSequence,
    StartMap,
    EndMap,
    /// Announces the next key of a map.
    Item,
    /// Announces the payload of a union variant, by name and position.
    Variant(String, usize),
    Null,
    Default,
    Bool(bool),
    I8(i8),
    I16(i16),
    I32(i32),
    I64(i64),
    U8(u8),
    U16(u16),
    U32(u32),
    U64(u64),
    /// The bits of a 32-bit float.
    F32(u32),
    /// The bits of a 64-bit float.
    F64(u64),
    Str(String),
    Bytes(Vec<u8>),
}

/// The mathematical value of an [`Event`].
pub enum EventView {
    StartStruct,
    EndStruct,
    StartTuple,
    EndTuple,
    StartSequence,
    EndSequence,
    StartMap,
    EndMap,
    Item,
    Variant(Seq<char>, usize),
    Null,
    Default,
    Bool(bool),
    I8(i8),
    I16(i16),
    I32(i32),
    I64(i64),
    U8(u8),
    U16(u16),
    U32(u32),
    U64(u64),
    F32(u32),
    F64(u64),
    Str(Seq<char>),
    Bytes(Seq<u8>),
}

impl EventView {
    /// The event is a leaf of a record tree, not a marker.
    pub open spec fn is_scalar(self) -> bool {
        match self {
            EventView::StartStruct | EventView::EndStruct | EventView::StartTuple
            | EventView::EndTuple | EventView::StartSequence | EventView::EndSequence
            | EventView::StartMap | EventView::EndMap | EventView::Item | EventView::Variant(_, _) => false,
            _ => true,
        }
    }

    /// The number that an integer scalar carries.
    pub open spec fn as_int(self) -> Option<int> {
        match self {
            EventView::I8(v) => Some(v as int),
            EventView::I16(v) => Some(v as int),
            EventView::I32(v) => Some(v as int),
            EventView::I64(v) => Some(v as int),
            EventView::U8(v) => Some(v as int),
            EventView::U16(v) => Some(v as int),
            EventView::U32(v) => Some(v as int),
            EventView::U64(v) => Some(v as int),
            _ => None,
        }
    }
}

impl View for Event {
    type V = EventView;

    open spec fn view(&self) -> EventView {
        match self {
            Event::StartStruct => EventView::StartStruct,
            Event::EndStruct => EventView::EndStruct,
            Event::StartTuple => EventView::StartTuple,
            Event::EndTuple => EventView::EndTuple,
            Event::StartSequence => EventView::StartSequence,
            Event::EndSequence => EventView::EndSequence,
            Event::StartMap => EventView::StartMap,
            Event::EndMap => EventView::EndMap,
            Event::Item => EventView::Item,
            Event::Variant(name, index) => EventView::Variant(name@, *index),
            Event::Null => EventView::Null,
            Event::Default => EventView::Default,
            Event::Bool(v) => EventView::Bool(*v),
            Event::I8(v) => EventView::I8(*v),
            Event::I16(v) => EventView::I16(*v),
            Event::I32(v) => EventView::I32(*v),
            Event::I64(v) => EventView::I64(*v),
            Event::U8(v) => EventView::U8(*v),
            Event::U16(v) => EventView::U16(*v),
            Event::U32(v) => EventView::U32(*v),
            Event::U64(v) => EventView::U64(*v),
            Event::F32(v) => EventView::F32(*v),
            Event::F64(v) => EventView::F64(*v),
            Event::Str(s) => EventView::Str(s@),
            Event::Bytes(b) => EventView::Bytes(b@),
        }
    }
}

impl Event {
    /// A copy of the event.
    pub fn duplicate(&self) -> (copy: Event)
        ensures
            copy@ == self@,
    {
        match self {
            Event::StartStruct => Event::StartStruct,
            Event::EndStruct => Event::EndStruct,
            Event::StartTuple => Event::StartTuple,
            Event::EndTuple => Event::EndTuple,
            Event::StartSequence => Event::StartSequence,
            Event::EndSequence => Event::EndSequence,
            Event::StartMap => Event::StartMap,
            Event::EndMap => Event::EndMap,
            Event::Item => Event::Item,
            Event::Variant(name, index) => Event::Variant(name.clone(), *index),
            Event::Null => Event::Null,
            Event::Default => Event::Default,
            Event::Bool(v) => Event::Bool(*v),
            Event::I8(v) => Event::I8(*v),
            Event::I16(v) => Event::I16(*v),
            Event::I32(v) => Event::I32(*v),
            Event::I64(v) => Event::I64(*v),
            Event::U8(v) => Event::U8(*v),
            Event::U16(v) => Event::U16(*v),
            Event::U32(v) => Event::U32(*v),
            Event::U64(v) => Event::U64(*v),
            Event::F32(v) => Event::F32(*v),
            Event::F64(v) => Event::F64(*v),
            Event::Str(s) => Event::Str(s.clone()),
            Event::Bytes(b) => Event::Bytes(b.clone()),
        }
    }

    /// Tells whether the event is a leaf of a record tree.
    pub fn is_scalar(&self) -> (scalar: bool)
        ensures
            scalar == self@.is_scalar(),
    {
        match self {
            Event::StartStruct | Event::EndStruct | Event::StartTuple | Event::EndTuple
            | Event::StartSequence | Event::EndSequence | Event::StartMap | Event::EndMap
            | Event::Item | Event::Variant(_, _) => false,
            _ => true,
        }
    }

    /// The number that an integer scalar carries.
    pub fn to_integer(&self) -> (number: Option<i128>)
        ensures
            match number {
                Some(n) => self@.as_int() == Some(n as int),
                None => self@.as_int() is None,
            },
    {
        match self {
            Event::I8(v) => Some(*v as i128),
            Event::I16(v) => Some(*v as i128),
            Event::I32(v) => Some(*v as i128),
            Event::I64(v) => Some(*v as i128),
            Event::U8(v) => Some(*v as i128),
            Event::U16(v) => Some(*v as i128),
            Event::U32(v) => Some(*v as i128),
            Event::U64(v) => Some(*v as i128),
            _ => None,
        }
    }
}

/// The mathematical value of a stream of events.
pub open spec fn events_view(events: Seq<Event>) -> Seq<EventView> {
    Seq::new(events.len(), |i: int| events[i]@)
}

/// Viewing a stream commutes with appending one event.
pub proof fn lemma_events_view_push(events: Seq<Event>, event: Event)
    ensures
        events_view(events.push(event)) == events_view(events).push(event@),
{
    assert(events_view(events.push(event)) =~= events_view(events).push(event@));
}

} // verus!
