//! Schemas from descriptors: records with the keys `name`, `data_type`,
//! `nullable`, `strategy`, `children` and `metadata`.
use vstd::prelude::*;
use crate::builders::{
    all_keys_named, find_keyed, find_named, first_named, key_name, keys_are_names, named_entries,
};
use crate::dsl::{parse_data_type, parsed_type};
use crate::error::{Error, ErrorKind};
use crate::event::{Event, EventView};
use crate::schema::{
    fields_model, lemma_children_model, lemma_valid_model, Field, FieldView, Strategy,
};
use crate::text::{text_bytes, text_equal};
use crate::value::{entries_view, fields_view, lemma_view_parts, values_view, Value, ValueView};

verus! {

/// The strategy of a name.
pub open spec fn strategy_of(name: Seq<char>) -> Option<Strategy> {
    if name == "UtcStrAsDate64"@ {
        Some(Strategy::UtcStrAsDate64)
    } else if name == "NaiveStrAsDate64"@ {
        Some(Strategy::NaiveStrAsDate64)
    } else if name == "TupleAsStruct"@ {
        Some(Strategy::TupleAsStruct)
    } else if name == "MapAsStruct"@ {
        Some(Strategy::MapAsStruct)
    } else if name == "UnknownVariant"@ {
        Some(Strategy::UnknownVariant)
    } else {
        None
    }
}

/// Reads the name of a strategy.
pub fn read_strategy(name: &str) -> (r: Option<Strategy>)
    ensures
        r == strategy_of(name@),
{
    if text_equal(name, "UtcStrAsDate64") {
        Some(Strategy::UtcStrAsDate64)
    } else if text_equal(name, "NaiveStrAsDate64") {
        Some(Strategy::NaiveStrAsDate64)
    } else if text_equal(name, "TupleAsStruct") {
        Some(Strategy::TupleAsStruct)
    } else if text_equal(name, "MapAsStruct") {
        Some(Strategy::MapAsStruct)
    } else if text_equal(name, "UnknownVariant") {
        Some(Strategy::UnknownVariant)
    } else {
        None
    }
}

/// The name of a strategy.
pub fn strategy_name(strategy: Strategy) -> (name: &'static str)
    ensures
        strategy_of(name@) == Some(strategy),
{
    proof {
        reveal_strlit("UtcStrAsDate64");
        reveal_strlit("NaiveStrAsDate64");
        reveal_strlit("TupleAsStruct");
        reveal_strlit("MapAsStruct");
        reveal_strlit("UnknownVariant");
        assert("UtcStrAsDate64"@[1] == 't');
        assert("UnknownVariant"@[1] == 'n');
        assert("UtcStrAsDate64"@.len() == 14);
        assert("NaiveStrAsDate64"@.len() == 16);
        assert("TupleAsStruct"@.len() == 13);
        assert("MapAsStruct"@.len() == 11);
        assert("UnknownVariant"@.len() == 14);
    }
    match strategy {
        Strategy::UtcStrAsDate64 => "UtcStrAsDate64",
        Strategy::NaiveStrAsDate64 => "NaiveStrAsDate64",
        Strategy::TupleAsStruct => "TupleAsStruct",
        Strategy::MapAsStruct => "MapAsStruct",
        Strategy::UnknownVariant => "UnknownVariant",
    }
}

/// The key under which the strategy of a field stands in its metadata.
pub const STRATEGY_KEY: &'static str = "SERDE_ARROW:strategy";

/// The metadata as pairs of strings.
pub open spec fn metadata_view(metadata: Seq<(String, String)>) -> Seq<(Seq<char>, Seq<char>)> {
    Seq::new(metadata.len(), |i: int| (metadata[i].0@, metadata[i].1@))
}

/// The first entry from `from` on that has the given key.
pub open spec fn first_keyed(entries: Seq<(Seq<char>, Seq<char>)>, key: Seq<char>, from: int) -> Option<
    int,
>
    decreases entries.len() - from,
{
    if from < 0 || from >= entries.len() {
        None
    } else if entries[from].0 == key {
        Some(from)
    } else {
        first_keyed(entries, key, from + 1)
    }
}

/// The strategy that metadata name: what stands under the first entry of the
/// strategy key, which must be the name of a strategy; none without that key.
pub open spec fn strategy_in_metadata(entries: Seq<(Seq<char>, Seq<char>)>) -> Option<
    Option<Strategy>,
> {
    match first_keyed(entries, STRATEGY_KEY@, 0) {
        None => Some(None),
        Some(at) => match strategy_of(entries[at].1) {
            Some(strategy) => Some(Some(strategy)),
            None => None,
        },
    }
}

/// Reads the strategy of a field from its metadata.
///
/// Fails with `SchemaInvalid` where the strategy key holds no name of a strategy.
pub fn strategy_from_metadata(metadata: &Vec<(String, String)>) -> (r: Result<
    Option<Strategy>,
    Error,
>)
    ensures
        match r {
            Ok(strategy) => strategy_in_metadata(metadata_view(metadata@)) == Some(strategy),
            Err(e) => strategy_in_metadata(metadata_view(metadata@)) is None && e.kind
                == ErrorKind::SchemaInvalid,
        },
{
    let n: usize = metadata.len();
    let mut i: usize = 0;
    while i < n
        invariant
            i <= n,
            n == metadata@.len(),
            first_keyed(metadata_view(metadata@), STRATEGY_KEY@, 0) == first_keyed(
                metadata_view(metadata@),
                STRATEGY_KEY@,
                i as int,
            ),
        decreases n - i,
    {
        if text_equal(metadata[i].0.as_str(), STRATEGY_KEY) {
            return match read_strategy(metadata[i].1.as_str()) {
                Some(strategy) => Ok(Some(strategy)),
                None => Err(malformed("the metadata name no strategy")),
            };
        }
        i += 1;
    }
    Ok(None)
}

/// The metadata entry that names a strategy.
pub fn strategy_to_metadata(strategy: Strategy) -> (entry: (String, String))
    ensures
        entry.0@ == STRATEGY_KEY@,
        strategy_of(entry.1@) == Some(strategy),
{
    (STRATEGY_KEY.to_owned(), strategy_name(strategy).to_owned())
}

/// The entries `done`, and the pairs of strings among the entries from `from` on.
pub open spec fn string_pairs(
    entries: Seq<(Seq<char>, ValueView)>,
    from: nat,
    done: Seq<(Seq<char>, Seq<char>)>,
) -> Seq<(Seq<char>, Seq<char>)>
    decreases entries.len() - from,
{
    if from >= entries.len() {
        done
    } else {
        match entries[from as int].1 {
            ValueView::Leaf(EventView::Str(text)) => string_pairs(
                entries,
                from + 1,
                done.push((entries[from as int].0, text)),
            ),
            _ => string_pairs(entries, from + 1, done),
        }
    }
}

/// The metadata that a descriptor gives: the entries under `metadata` whose
/// key and value are strings; none where the key is missing or holds
/// neither a struct nor a map with string keys.
pub open spec fn metadata_of(entries: Seq<(Seq<char>, ValueView)>) -> Seq<(Seq<char>, Seq<char>)> {
    match value_of(entries, "metadata"@) {
        Some(ValueView::Struct(pairs)) => string_pairs(pairs, 0, Seq::empty()),
        Some(ValueView::Mapping(pairs)) => if all_keys_named(pairs) {
            string_pairs(named_entries(pairs), 0, Seq::empty())
        } else {
            Seq::empty()
        },
        _ => Seq::empty(),
    }
}

/// The value under the first entry of the given key.
pub open spec fn value_of(entries: Seq<(Seq<char>, ValueView)>, key: Seq<char>) -> Option<ValueView> {
    match first_named(entries, key, 0) {
        Some(at) => Some(entries[at].1),
        None => None,
    }
}

/// The string under the given key.
pub open spec fn text_of(entries: Seq<(Seq<char>, ValueView)>, key: Seq<char>) -> Option<Seq<char>> {
    match value_of(entries, key) {
        Some(ValueView::Leaf(EventView::Str(text))) => Some(text),
        _ => None,
    }
}

/// Whether the field is nullable: what stands under `nullable`, which must
/// be a boolean; false where the key is missing.
pub open spec fn nullable_of(entries: Seq<(Seq<char>, ValueView)>) -> Option<bool> {
    match value_of(entries, "nullable"@) {
        None => Some(false),
        Some(ValueView::Leaf(EventView::Bool(flag))) => Some(flag),
        _ => None,
    }
}

/// The strategy of the field: what the name under `strategy` stands for;
/// none where the key is missing or holds a null.
pub open spec fn strategy_in(entries: Seq<(Seq<char>, ValueView)>) -> Option<Option<Strategy>> {
    match value_of(entries, "strategy"@) {
        None | Some(ValueView::Leaf(EventView::Null)) => Some(None),
        Some(ValueView::Leaf(EventView::Str(name))) => match strategy_of(name) {
            Some(strategy) => Some(Some(strategy)),
            None => None,
        },
        _ => None,
    }
}

/// The field that a descriptor with the given entries describes, where
/// `given` are the fields that its key `children` describes, if it has that
/// key. The name and the data type must be strings; the data type is read
/// from its text form. Children come from the text form or from the key
/// `children`, not from both.
pub open spec fn assembled(
    entries: Seq<(Seq<char>, ValueView)>,
    given: Option<Seq<FieldView>>,
) -> Option<FieldView> {
    match (
        text_of(entries, "name"@),
        text_of(entries, "data_type"@),
        nullable_of(entries),
        strategy_in(entries),
    ) {
        (Some(name), Some(type_text), Some(nullable), Some(strategy)) => match parsed_type(
            text_bytes(type_text),
        ) {
            Some((data_type, inline)) => match given {
                None => Some(FieldView { name, data_type, nullable, strategy, children: inline }),
                Some(children) => if inline.len() == 0 {
                    Some(FieldView { name, data_type, nullable, strategy, children })
                } else {
                    None
                },
            },
            None => None,
        },
        _ => None,
    }
}

/// The field that a descriptor describes: a struct, or a map with string
/// keys, with the keys `name` and `data_type`, and optionally `nullable`,
/// `strategy` and `children`, a sequence of descriptors. Other keys are
/// not looked at.
pub open spec fn described_field(value: ValueView) -> Option<FieldView>
    decreases value, 0nat,
{
    match value {
        ValueView::Struct(entries) => match first_named(entries, "children"@, 0) {
            None => assembled(entries, None),
            Some(at) => if 0 <= at < entries.len() {
                match entries[at].1 {
                    ValueView::Sequence(items) => match described_all(items, 0, Seq::empty()) {
                        Some(children) => assembled(entries, Some(children)),
                        None => None,
                    },
                    _ => None,
                }
            } else {
                None
            },
        },
        ValueView::Mapping(pairs) => if all_keys_named(pairs) {
            match first_named(named_entries(pairs), "children"@, 0) {
                None => assembled(named_entries(pairs), None),
                Some(at) => if 0 <= at < pairs.len() {
                    match pairs[at].1 {
                        ValueView::Sequence(items) => match described_all(items, 0, Seq::empty()) {
                            Some(children) => assembled(named_entries(pairs), Some(children)),
                            None => None,
                        },
                        _ => None,
                    }
                } else {
                    None
                },
            }
        } else {
            None
        },
        _ => None,
    }
}

/// The fields `done`, and the fields that the descriptors from `from` on describe.
pub open spec fn described_all(items: Seq<ValueView>, from: nat, done: Seq<FieldView>) -> Option<
    Seq<FieldView>,
>
    decreases items, items.len() - from,
{
    if from >= items.len() {
        Some(done)
    } else {
        match described_field(items[from as int]) {
            Some(field) => described_all(items, from + 1, done.push(field)),
            None => None,
        }
    }
}

/// Every field obeys the schema invariants.
pub open spec fn all_valid(fields: Seq<FieldView>) -> bool {
    forall|i: int| 0 <= i < fields.len() ==> (#[trigger] fields[i]).valid()
}

/// The schema that a value describes: the fields of a sequence of
/// descriptors, which must obey the schema invariants.
pub open spec fn described_schema(value: ValueView) -> Option<Seq<FieldView>> {
    match value {
        ValueView::Sequence(items) => match described_all(items, 0, Seq::empty()) {
            Some(fields) => if all_valid(fields) {
                Some(fields)
            } else {
                None
            },
            None => None,
        },
        _ => None,
    }
}

/// The entries of a descriptor.
pub enum Entries<'a> {
    Named(&'a Vec<(String, Value)>),
    /// The entries of a map; every key must be a string.
    Keyed(&'a Vec<(Value, Value)>),
}

impl<'a> Entries<'a> {
    /// The keys are strings.
    pub open spec fn wf(self) -> bool {
        self matches Entries::Keyed(pairs) ==> all_keys_named(entries_view(pairs@))
    }

    /// The entries under their names.
    pub open spec fn named(self) -> Seq<(Seq<char>, ValueView)> {
        match self {
            Entries::Named(entries) => fields_view(entries@),
            Entries::Keyed(pairs) => named_entries(entries_view(pairs@)),
        }
    }

    /// The place of the first entry of the given key.
    pub fn find(&self, key: &str) -> (r: Option<usize>)
        requires
            self.wf(),
        ensures
            match r {
                Some(at) => first_named(self.named(), key@, 0) == Some(at as int) && at
                    < self.named().len(),
                None => first_named(self.named(), key@, 0) is None,
            },
    {
        let name = key.to_owned();
        match self {
            Entries::Named(entries) => find_named(entries, &name, 0),
            Entries::Keyed(pairs) => find_keyed(pairs, &name, 0),
        }
    }

    /// The key of the entry at `at`.
    pub fn key_at(&self, at: usize) -> (key: String)
        requires
            self.wf(),
            at < self.named().len(),
        ensures
            key@ == self.named()[at as int].0,
    {
        match self {
            Entries::Named(entries) => entries[at].0.clone(),
            Entries::Keyed(pairs) => {
                proof {
                    lemma_view_parts(pairs[at as int].0);
                    assert(key_name(entries_view(pairs@)[at as int].0) is Some);
                }
                match &pairs[at].0 {
                    Value::Leaf(Event::Str(key)) => key.clone(),
                    _ => String::new(),
                }
            },
        }
    }

    /// The value of the entry at `at`.
    pub fn value_at(&self, at: usize) -> (value: &'a Value)
        requires
            at < self.named().len(),
        ensures
            value@ == self.named()[at as int].1,
    {
        match self {
            Entries::Named(entries) => &entries[at].1,
            Entries::Keyed(pairs) => &pairs[at].1,
        }
    }

    /// The string under the given key.
    pub fn text(&self, key: &str) -> (r: Option<&'a String>)
        requires
            self.wf(),
        ensures
            match r {
                Some(text) => text_of(self.named(), key@) == Some(text@),
                None => text_of(self.named(), key@) is None,
            },
    {
        match self.find(key) {
            Some(at) => {
                let value = self.value_at(at);
                proof {
                    lemma_view_parts(*value);
                }
                match value {
                    Value::Leaf(Event::Str(text)) => Some(text),
                    _ => None,
                }
            },
            None => None,
        }
    }
}

/// The pairs of strings among the entries.
pub fn read_string_pairs(entries: &Entries) -> (out: Vec<(String, String)>)
    requires
        entries.wf(),
    ensures
        metadata_view(out@) == string_pairs(entries.named(), 0, Seq::empty()),
{
    let n: usize = match entries {
        Entries::Named(named) => named.len(),
        Entries::Keyed(pairs) => pairs.len(),
    };
    let mut out: Vec<(String, String)> = Vec::new();
    let mut i: usize = 0;
    assert(metadata_view(out@) =~= Seq::<(Seq<char>, Seq<char>)>::empty());
    while i < n
        invariant
            i <= n,
            n == entries.named().len(),
            entries.wf(),
            string_pairs(entries.named(), 0, Seq::empty()) == string_pairs(
                entries.named(),
                i as nat,
                metadata_view(out@),
            ),
        decreases n - i,
    {
        let value = entries.value_at(i);
        let ghost before = metadata_view(out@);
        proof {
            lemma_view_parts(*value);
        }
        match value {
            Value::Leaf(Event::Str(text)) => {
                let key = entries.key_at(i);
                let pair = (key, text.clone());
                out.push(pair);
                assert(metadata_view(out@) =~= before.push((pair.0@, pair.1@)));
            },
            _ => {},
        }
        i += 1;
    }
    out
}

/// The metadata that a descriptor gives.
pub fn read_metadata(entries: &Entries) -> (out: Vec<(String, String)>)
    requires
        entries.wf(),
    ensures
        metadata_view(out@) == metadata_of(entries.named()),
{
    let none: Vec<(String, String)> = Vec::new();
    assert(metadata_view(none@) =~= Seq::<(Seq<char>, Seq<char>)>::empty());
    match entries.find("metadata") {
        Some(at) => {
            let value = entries.value_at(at);
            proof {
                lemma_view_parts(*value);
            }
            match value {
                Value::Struct(pairs) => read_string_pairs(&Entries::Named(pairs)),
                Value::Mapping(pairs) => {
                    if keys_are_names(pairs) {
                        read_string_pairs(&Entries::Keyed(pairs))
                    } else {
                        none
                    }
                },
                _ => none,
            }
        },
        None => none,
    }
}

/// The error for a value that describes no schema, with the given message.
pub fn malformed(message: &str) -> (e: Error)
    ensures
        e.kind == ErrorKind::SchemaInvalid,
        e.message@ == message@,
{
    Error::new(ErrorKind::SchemaInvalid, message)
}

/// What reading a descriptor reports, against what it describes.
pub open spec fn field_read(expected: Option<FieldView>, r: Result<Field, Error>) -> bool {
    match r {
        Ok(field) => expected == Some(field@),
        Err(e) => expected is None && e.kind == ErrorKind::SchemaInvalid,
    }
}

/// What reading descriptors reports, against what they describe.
pub open spec fn fields_read(expected: Option<Seq<FieldView>>, r: Result<Vec<Field>, Error>) -> bool {
    match r {
        Ok(fields) => expected == Some(fields_model(fields@)),
        Err(e) => expected is None && e.kind == ErrorKind::SchemaInvalid,
    }
}

/// Builds the field of a descriptor with the given entries.
pub fn assemble_field(entries: &Entries, given: Option<Vec<Field>>) -> (r: Result<Field, Error>)
    requires
        entries.wf(),
    ensures
        field_read(
            assembled(
                entries.named(),
                match given {
                    Some(children) => Some(fields_model(children@)),
                    None => None,
                },
            ),
            r,
        ),
        r matches Ok(field) ==> metadata_view(field.metadata@) == metadata_of(entries.named()),
{
    let name = match entries.text("name") {
        Some(name) => name.clone(),
        None => {
            return Err(malformed("a field needs a name"));
        },
    };
    let (data_type, inline) = match entries.text("data_type") {
        Some(type_text) => match parse_data_type(type_text.as_str()) {
            Ok(parsed) => parsed,
            Err(e) => {
                return Err(e);
            },
        },
        None => {
            return Err(malformed("a field needs a data type"));
        },
    };
    let nullable = match entries.find("nullable") {
        None => false,
        Some(at) => {
            let value = entries.value_at(at);
            proof {
                lemma_view_parts(*value);
            }
            match value {
                Value::Leaf(Event::Bool(flag)) => *flag,
                _ => {
                    return Err(malformed("nullable must be a boolean"));
                },
            }
        },
    };
    let strategy = match entries.find("strategy") {
        None => None,
        Some(at) => {
            let value = entries.value_at(at);
            proof {
                lemma_view_parts(*value);
            }
            match value {
                Value::Leaf(Event::Null) => None,
                Value::Leaf(Event::Str(text)) => match read_strategy(text.as_str()) {
                    Some(strategy) => Some(strategy),
                    None => {
                        return Err(
                            malformed(
                                "expected strategy (UtcStrAsDate64, NaiveStrAsDate64, TupleAsStruct, MapAsStruct or UnknownVariant)",
                            ),
                        );
                    },
                },
                _ => {
                    return Err(malformed("strategy must be a string"));
                },
            }
        },
    };
    let children = match given {
        None => inline,
        Some(children) => {
            if inline.len() != 0 {
                return Err(malformed("children are given twice"));
            }
            children
        },
    };
    let metadata = read_metadata(entries);
    let field = Field { name, data_type, nullable, strategy, metadata, children };
    proof {
        lemma_children_model(field);
    }
    Ok(field)
}

/// Reads the field that a descriptor describes.
pub fn describe_field(value: &Value) -> (r: Result<Field, Error>)
    ensures
        field_read(described_field(value@), r),
    decreases *value, 0nat,
{
    proof {
        lemma_view_parts(*value);
    }
    match value {
        Value::Struct(entries) => {
            let all = Entries::Named(entries);
            match all.find("children") {
                None => assemble_field(&all, None),
                Some(at) => {
                    proof {
                        lemma_view_parts(entries[at as int].1);
                    }
                    match &entries[at].1 {
                        Value::Sequence(items) => match describe_all(items) {
                            Ok(children) => assemble_field(&all, Some(children)),
                            Err(e) => Err(e),
                        },
                        _ => Err(malformed("children must be a sequence")),
                    }
                },
            }
        },
        Value::Mapping(pairs) => {
            if !keys_are_names(pairs) {
                return Err(malformed("the keys of a field must be strings"));
            }
            let all = Entries::Keyed(pairs);
            match all.find("children") {
                None => assemble_field(&all, None),
                Some(at) => {
                    proof {
                        lemma_view_parts(pairs[at as int].1);
                    }
                    match &pairs[at].1 {
                        Value::Sequence(items) => match describe_all(items) {
                            Ok(children) => assemble_field(&all, Some(children)),
                            Err(e) => Err(e),
                        },
                        _ => Err(malformed("children must be a sequence")),
                    }
                },
            }
        },
        _ => Err(malformed("a field must be a struct or a map")),
    }
}

/// Reads the fields that a list of descriptors describes.
pub fn describe_all(items: &Vec<Value>) -> (r: Result<Vec<Field>, Error>)
    ensures
        fields_read(described_all(values_view(items@), 0, Seq::empty()), r),
    decreases *items, 1nat,
{
    let n: usize = items.len();
    let mut done: Vec<Field> = Vec::new();
    let mut k: usize = 0;
    assert(fields_model(done@) =~= Seq::<FieldView>::empty());
    while k < n
        invariant
            k <= n,
            n == items@.len(),
            described_all(values_view(items@), 0, Seq::empty()) == described_all(
                values_view(items@),
                k as nat,
                fields_model(done@),
            ),
        decreases n - k,
    {
        let ghost before = fields_model(done@);
        match describe_field(&items[k]) {
            Ok(field) => {
                done.push(field);
                assert(fields_model(done@) =~= before.push(field@));
            },
            Err(e) => {
                return Err(e);
            },
        }
        k += 1;
    }
    Ok(done)
}

/// Reads a schema from a sequence of descriptors.
///
/// Fails with `SchemaInvalid` where the value describes no schema, or a
/// field of it breaks the schema invariants.
#[verifier::loop_isolation(false)]
pub fn schema_from_value(value: &Value) -> (r: Result<Vec<Field>, Error>)
    ensures
        fields_read(described_schema(value@), r),
        r matches Ok(fields) ==> crate::schema::schema_valid(fields@),
{
    proof {
        lemma_view_parts(*value);
    }
    let fields = match value {
        Value::Sequence(items) => match describe_all(items) {
            Ok(fields) => fields,
            Err(e) => {
                return Err(e);
            },
        },
        _ => {
            return Err(malformed("a schema must be a sequence of fields"));
        },
    };
    let n: usize = fields.len();
    let mut k: usize = 0;
    while k < n
        invariant
            k <= n,
            n == fields@.len(),
            forall|j: int| 0 <= j < k ==> (#[trigger] fields[j]).valid(),
        decreases n - k,
    {
        proof {
            lemma_valid_model(fields[k as int]);
        }
        if !fields[k].is_valid() {
            assert(!fields_model(fields@)[k as int].valid());
            return Err(malformed("a field violates the schema invariants"));
        }
        k += 1;
    }
    proof {
        assert forall|j: int| 0 <= j < n implies (#[trigger] fields_model(fields@)[j]).valid() by {
            lemma_valid_model(fields[j]);
        }
    }
    Ok(fields)
}

} // verus!
