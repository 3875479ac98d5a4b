//! The schema model: fields, data types and strategies.
use vstd::prelude::*;
use crate::error::{Error, ErrorKind};

verus! {

/// The resolution of a time-like column.
#[derive(Clone, Copy, Debug, PartialEq, Eq, Structural)]
pub enum TimeUnit {
    Second,
    Millisecond,
    Microsecond,
    Nanosecond,
}

/// The layout of a union column.
#[derive(Clone, Copy, Debug, PartialEq, Eq, Structural)]
pub enum UnionMode {
    Dense,
    Sparse,
}

/// The integer types that can index a dictionary.
#[derive(Clone, Copy, Debug, PartialEq, Eq, Structural)]
pub enum IntegerType {
    Int8,
    Int16,
    Int32,
    Int64,
    UInt8,
    UInt16,
    UInt32,
    UInt64,
}

impl IntegerType {
    /// The largest key that an index of this type can hold.
    pub open spec fn max_key(self) -> int {
        match self {
            IntegerType::Int8 => 0x7f,
            IntegerType::Int16 => 0x7fff,
            IntegerType::Int32 => 0x7fff_ffff,
            IntegerType::Int64 => 0x7fff_ffff_ffff_ffff,
            IntegerType::UInt8 => 0xff,
            IntegerType::UInt16 => 0xffff,
            IntegerType::UInt32 => 0xffff_ffff,
            IntegerType::UInt64 => 0xffff_ffff_ffff_ffff,
        }
    }

    /// The largest key that an index of this type can hold.
    pub fn largest_key(&self) -> (m: u64)
        ensures
            m == self.max_key(),
    {
        match self {
            IntegerType::Int8 => 0x7f,
            IntegerType::Int16 => 0x7fff,
            IntegerType::Int32 => 0x7fff_ffff,
            IntegerType::Int64 => 0x7fff_ffff_ffff_ffff,
            IntegerType::UInt8 => 0xff,
            IntegerType::UInt16 => 0xffff,
            IntegerType::UInt32 => 0xffff_ffff,
            IntegerType::UInt64 => 0xffff_ffff_ffff_ffff,
        }
    }
}

/// A hint attached to a field that changes how its values are encoded.
#[derive(Clone, Copy, Debug, PartialEq, Eq, Structural)]
pub enum Strategy {
    /// Strings with a trailing `Z` stored as milliseconds since the epoch.
    UtcStrAsDate64,
    /// Strings without a zone stored as milliseconds since the epoch.
    NaiveStrAsDate64,
    /// Tuples stored as structs whose children are taken by position.
    TupleAsStruct,
    /// Maps with string keys stored as structs.
    MapAsStruct,
    /// A placeholder for a union variant that was never observed.
    UnknownVariant,
}

/// The largest precision of a 128-bit decimal.
pub const DECIMAL_MAX_PRECISION: u8 = 38;

/// The largest number of variants whose index fits a signed 8-bit type code.
pub const UNION_MAX_VARIANTS: usize = 128;

/// The logical type of a column.
#[derive(Debug, PartialEq, Eq)]
pub enum DataType {
    Null,
    Bool,
    Int8,
    Int16,
    Int32,
    Int64,
    UInt8,
    UInt16,
    UInt32,
    UInt64,
    Float16,
    Float32,
    Float64,
    Utf8,
    LargeUtf8,
    Binary,
    LargeBinary,
    Date32,
    Date64,
    Time32(TimeUnit),
    Time64(TimeUnit),
    Timestamp(TimeUnit, Option<String>),
    Duration(TimeUnit),
    /// Precision and scale.
    Decimal128(u8, i8),
    List,
    LargeList,
    FixedSizeList(usize),
    Struct,
    Union(UnionMode),
    /// The flag tells whether the keys are sorted.
    Mapping(bool),
    /// Index type, value type, and whether the dictionary is ordered.
    Dictionary(IntegerType, Box<DataType>, bool),
    FixedSizeBinary(usize),
}

impl DataType {
    /// The parameters of the type are possible.
    pub open spec fn valid(self) -> bool
        decreases self,
    {
        match self {
            DataType::Time32(unit) => unit == TimeUnit::Second || unit == TimeUnit::Millisecond,
            DataType::Time64(unit) => unit == TimeUnit::Microsecond || unit == TimeUnit::Nanosecond,
            DataType::Decimal128(precision, scale) => 1 <= precision <= DECIMAL_MAX_PRECISION
                && -(DECIMAL_MAX_PRECISION as int) <= scale <= precision,
            DataType::FixedSizeList(n) => n > 0,
            DataType::FixedSizeBinary(n) => n > 0,
            DataType::Dictionary(_, value, _) => value.valid(),
            _ => true,
        }
    }

    /// Checks the parameters of the type.
    pub fn is_valid(&self) -> (ok: bool)
        ensures
            ok == self.valid(),
        decreases *self,
    {
        match self {
            DataType::Time32(unit) => match unit {
                TimeUnit::Second | TimeUnit::Millisecond => true,
                _ => false,
            },
            DataType::Time64(unit) => match unit {
                TimeUnit::Microsecond | TimeUnit::Nanosecond => true,
                _ => false,
            },
            DataType::Decimal128(precision, scale) => {
                1 <= *precision && *precision <= DECIMAL_MAX_PRECISION && -38 <= *scale
                    && (*scale < 0 || *scale <= 38 && *scale as u8 <= *precision)
            },
            DataType::FixedSizeList(n) => *n > 0,
            DataType::FixedSizeBinary(n) => *n > 0,
            DataType::Dictionary(_, value, _) => value.is_valid(),
            _ => true,
        }
    }

    /// The number of children that a field of this type has, where it is fixed.
    pub open spec fn child_count(self) -> Option<int> {
        match self {
            DataType::List | DataType::LargeList | DataType::FixedSizeList(_) | DataType::Mapping(_) => Some(1),
            DataType::Struct | DataType::Union(_) => None,
            _ => Some(0),
        }
    }
}

/// A named, typed, possibly nullable column description.
#[derive(Debug, PartialEq, Eq)]
pub struct Field {
    pub name: String,
    pub data_type: DataType,
    pub nullable: bool,
    pub strategy: Option<Strategy>,
    pub metadata: Vec<(String, String)>,
    pub children: Vec<Field>,
}

impl Field {
    /// The children have the shape that the data type prescribes.
    pub open spec fn children_fit(self) -> bool {
        match self.data_type {
            DataType::Struct => true,
            DataType::Union(_) => 1 <= self.children@.len() <= UNION_MAX_VARIANTS,
            DataType::Mapping(_) => self.children@.len() == 1
                && self.children[0].data_type == DataType::Struct
                && self.children[0].children@.len() == 2,
            other => Some(self.children@.len() as int) == other.child_count(),
        }
    }

    /// The strategy, if any, is one that the data type admits.
    pub open spec fn strategy_fits(self) -> bool {
        match self.strategy {
            None => true,
            Some(Strategy::UtcStrAsDate64) | Some(Strategy::NaiveStrAsDate64) => {
                self.data_type == DataType::Date64
                    || (self.data_type matches DataType::Timestamp(unit, _) && unit == TimeUnit::Millisecond)
            },
            Some(Strategy::TupleAsStruct) | Some(Strategy::MapAsStruct) => self.data_type
                == DataType::Struct,
            Some(Strategy::UnknownVariant) => self.data_type == DataType::Null,
        }
    }

    /// The field and all fields below it obey the schema invariants.
    pub open spec fn valid(self) -> bool
        decreases self,
    {
        &&& self.data_type.valid()
        &&& self.children_fit()
        &&& self.strategy_fits()
        &&& forall|i: int|
            0 <= i < self.children@.len() ==> (#[trigger] self.children[i]).valid()
    }

    /// Checks the shape of the children.
    fn check_children(&self) -> (ok: bool)
        ensures
            ok == self.children_fit(),
    {
        let n: usize = self.children.len();
        match &self.data_type {
            DataType::Struct => true,
            DataType::Union(_) => 1 <= n && n <= UNION_MAX_VARIANTS,
            DataType::Mapping(_) => {
                n == 1 && matches!(self.children[0].data_type, DataType::Struct)
                    && self.children[0].children.len() == 2
            },
            DataType::List | DataType::LargeList | DataType::FixedSizeList(_) => n == 1,
            _ => n == 0,
        }
    }

    /// Checks the strategy against the data type.
    fn check_strategy(&self) -> (ok: bool)
        ensures
            ok == self.strategy_fits(),
    {
        match self.strategy {
            None => true,
            Some(Strategy::UtcStrAsDate64) | Some(Strategy::NaiveStrAsDate64) => match &self.data_type {
                DataType::Date64 => true,
                DataType::Timestamp(unit, _) => matches!(unit, TimeUnit::Millisecond),
                _ => false,
            },
            Some(Strategy::TupleAsStruct) | Some(Strategy::MapAsStruct) => matches!(
                self.data_type,
                DataType::Struct
            ),
            Some(Strategy::UnknownVariant) => matches!(self.data_type, DataType::Null),
        }
    }

    /// Checks the schema invariants of this field and of all fields below it.
    pub fn is_valid(&self) -> (ok: bool)
        ensures
            ok == self.valid(),
        decreases *self,
    {
        if !self.data_type.is_valid() || !self.check_children() || !self.check_strategy() {
            return false;
        }
        let n: usize = self.children.len();
        let mut i: usize = 0;
        while i < n
            invariant
                i <= n,
                n == self.children@.len(),
                forall|k: int| 0 <= k < i ==> (#[trigger] self.children[k]).valid(),
            decreases n - i,
        {
            if !self.children[i].is_valid() {
                return false;
            }
            i += 1;
        }
        true
    }

    /// Checks the schema invariants, reporting a violation as an error.
    pub fn validate(&self) -> (r: Result<(), Error>)
        ensures
            r.is_ok() <==> self.valid(),
            r matches Err(e) ==> e.kind == ErrorKind::SchemaInvalid,
    {
        if self.is_valid() {
            Ok(())
        } else {
            Err(Error::new(ErrorKind::SchemaInvalid, "the field violates the schema invariants"))
        }
    }
}

/// Every field of a schema obeys the schema invariants.
pub open spec fn schema_valid(fields: Seq<Field>) -> bool {
    forall|i: int| 0 <= i < fields.len() ==> (#[trigger] fields[i]).valid()
}

/// The mathematical value of a [`DataType`].
pub enum DataTypeView {
    Null,
    Bool,
    Int8,
    Int16,
    Int32,
    Int64,
    UInt8,
    UInt16,
    UInt32,
    UInt64,
    Float16,
    Float32,
    Float64,
    Utf8,
    LargeUtf8,
    Binary,
    LargeBinary,
    Date32,
    Date64,
    Time32(TimeUnit),
    Time64(TimeUnit),
    Timestamp(TimeUnit, Option<Seq<char>>),
    Duration(TimeUnit),
    Decimal128(u8, i8),
    List,
    LargeList,
    FixedSizeList(usize),
    Struct,
    Union(UnionMode),
    Mapping(bool),
    Dictionary(IntegerType, Box<DataTypeView>, bool),
    FixedSizeBinary(usize),
}

impl DataType {
    /// The mathematical value of the type.
    pub open spec fn model(self) -> DataTypeView
        decreases self,
    {
        match self {
            DataType::Null => DataTypeView::Null,
            DataType::Bool => DataTypeView::Bool,
            DataType::Int8 => DataTypeView::Int8,
            DataType::Int16 => DataTypeView::Int16,
            DataType::Int32 => DataTypeView::Int32,
            DataType::Int64 => DataTypeView::Int64,
            DataType::UInt8 => DataTypeView::UInt8,
            DataType::UInt16 => DataTypeView::UInt16,
            DataType::UInt32 => DataTypeView::UInt32,
            DataType::UInt64 => DataTypeView::UInt64,
            DataType::Float16 => DataTypeView::Float16,
            DataType::Float32 => DataTypeView::Float32,
            DataType::Float64 => DataTypeView::Float64,
            DataType::Utf8 => DataTypeView::Utf8,
            DataType::LargeUtf8 => DataTypeView::LargeUtf8,
            DataType::Binary => DataTypeView::Binary,
            DataType::LargeBinary => DataTypeView::LargeBinary,
            DataType::Date32 => DataTypeView::Date32,
            DataType::Date64 => DataTypeView::Date64,
            DataType::Time32(unit) => DataTypeView::Time32(unit),
            DataType::Time64(unit) => DataTypeView::Time64(unit),
            DataType::Timestamp(unit, zone) => DataTypeView::Timestamp(
                unit,
                match zone {
                    Some(name) => Some(name@),
                    None => None,
                },
            ),
            DataType::Duration(unit) => DataTypeView::Duration(unit),
            DataType::Decimal128(precision, scale) => DataTypeView::Decimal128(precision, scale),
            DataType::List => DataTypeView::List,
            DataType::LargeList => DataTypeView::LargeList,
            DataType::FixedSizeList(n) => DataTypeView::FixedSizeList(n),
            DataType::Struct => DataTypeView::Struct,
            DataType::Union(mode) => DataTypeView::Union(mode),
            DataType::Mapping(sorted) => DataTypeView::Mapping(sorted),
            DataType::Dictionary(index, value, ordered) => DataTypeView::Dictionary(
                index,
                Box::new(value.model()),
                ordered,
            ),
            DataType::FixedSizeBinary(n) => DataTypeView::FixedSizeBinary(n),
        }
    }

    /// A copy of the type.
    pub fn duplicate(&self) -> (copy: DataType)
        ensures
            copy@ == self@,
        decreases *self,
    {
        match self {
            DataType::Null => DataType::Null,
            DataType::Bool => DataType::Bool,
            DataType::Int8 => DataType::Int8,
            DataType::Int16 => DataType::Int16,
            DataType::Int32 => DataType::Int32,
            DataType::Int64 => DataType::Int64,
            DataType::UInt8 => DataType::UInt8,
            DataType::UInt16 => DataType::UInt16,
            DataType::UInt32 => DataType::UInt32,
            DataType::UInt64 => DataType::UInt64,
            DataType::Float16 => DataType::Float16,
            DataType::Float32 => DataType::Float32,
            DataType::Float64 => DataType::Float64,
            DataType::Utf8 => DataType::Utf8,
            DataType::LargeUtf8 => DataType::LargeUtf8,
            DataType::Binary => DataType::Binary,
            DataType::LargeBinary => DataType::LargeBinary,
            DataType::Date32 => DataType::Date32,
            DataType::Date64 => DataType::Date64,
            DataType::Time32(unit) => DataType::Time32(*unit),
            DataType::Time64(unit) => DataType::Time64(*unit),
            DataType::Timestamp(unit, zone) => DataType::Timestamp(
                *unit,
                match zone {
                    Some(name) => Some(name.clone()),
                    None => None,
                },
            ),
            DataType::Duration(unit) => DataType::Duration(*unit),
            DataType::Decimal128(precision, scale) => DataType::Decimal128(*precision, *scale),
            DataType::List => DataType::List,
            DataType::LargeList => DataType::LargeList,
            DataType::FixedSizeList(n) => DataType::FixedSizeList(*n),
            DataType::Struct => DataType::Struct,
            DataType::Union(mode) => DataType::Union(*mode),
            DataType::Mapping(sorted) => DataType::Mapping(*sorted),
            DataType::Dictionary(index, value, ordered) => DataType::Dictionary(
                *index,
                Box::new(value.duplicate()),
                *ordered,
            ),
            DataType::FixedSizeBinary(n) => DataType::FixedSizeBinary(*n),
        }
    }
}

impl View for DataType {
    type V = DataTypeView;

    open spec fn view(&self) -> DataTypeView {
        self.model()
    }
}

/// The mathematical value of a [`Field`], without its metadata.
pub struct FieldView {
    pub name: Seq<char>,
    pub data_type: DataTypeView,
    pub nullable: bool,
    pub strategy: Option<Strategy>,
    pub children: Seq<FieldView>,
}

impl Field {
    /// The mathematical value of the field.
    pub open spec fn model(self) -> FieldView
        decreases self,
    {
        FieldView {
            name: self.name@,
            data_type: self.data_type@,
            nullable: self.nullable,
            strategy: self.strategy,
            children: Seq::new(
                self.children@.len(),
                |i: int|
                    if 0 <= i < self.children@.len() {
                        self.children[i].model()
                    } else {
                        arbitrary()
                    },
            ),
        }
    }

    /// A field without strategy, metadata or children.
    pub fn new(name: &str, data_type: DataType, nullable: bool) -> (field: Field)
        ensures
            field.name@ == name@,
            field.data_type == data_type,
            field.nullable == nullable,
            field.strategy is None,
            field.metadata@.len() == 0,
            field.children@.len() == 0,
    {
        Field {
            name: name.to_owned(),
            data_type,
            nullable,
            strategy: None,
            metadata: Vec::new(),
            children: Vec::new(),
        }
    }

    /// A copy of the field, without its metadata.
    pub fn duplicate(&self) -> (copy: Field)
        ensures
            copy@ == self@,
            copy.metadata@.len() == 0,
        decreases *self, 1nat,
    {
        let copy = Field {
            name: self.name.clone(),
            data_type: self.data_type.duplicate(),
            nullable: self.nullable,
            strategy: self.strategy,
            metadata: Vec::new(),
            children: duplicate_fields(&self.children),
        };
        proof {
            lemma_children_model(copy);
            lemma_children_model(*self);
        }
        copy
    }
}

impl View for Field {
    type V = FieldView;

    open spec fn view(&self) -> FieldView {
        self.model()
    }
}

/// The mathematical values of a list of fields.
pub open spec fn fields_model(fields: Seq<Field>) -> Seq<FieldView> {
    Seq::new(fields.len(), |i: int| fields[i]@)
}

/// The children of a field, as mathematical values.
pub proof fn lemma_children_model(field: Field)
    ensures
        field@.children == fields_model(field.children@),
{
    assert(field@.children =~= fields_model(field.children@));
}

/// Copies of the fields, without their metadata.
pub fn duplicate_fields(fields: &Vec<Field>) -> (copies: Vec<Field>)
    ensures
        fields_model(copies@) == fields_model(fields@),
    decreases *fields, 0nat,
{
    let n: usize = fields.len();
    let mut copies: Vec<Field> = Vec::new();
    let mut i: usize = 0;
    while i < n
        invariant
            i <= n,
            n == fields@.len(),
            copies@.len() == i,
            forall|k: int| 0 <= k < i ==> (#[trigger] copies[k])@ == fields[k]@,
        decreases n - i,
    {
        copies.push(fields[i].duplicate());
        i += 1;
    }
    assert(fields_model(copies@) =~= fields_model(fields@));
    copies
}

impl DataTypeView {
    /// The parameters of the type are possible.
    pub open spec fn valid(self) -> bool
        decreases self,
    {
        match self {
            DataTypeView::Time32(unit) => unit == TimeUnit::Second || unit == TimeUnit::Millisecond,
            DataTypeView::Time64(unit) => unit == TimeUnit::Microsecond || unit
                == TimeUnit::Nanosecond,
            DataTypeView::Decimal128(precision, scale) => 1 <= precision <= DECIMAL_MAX_PRECISION
                && -(DECIMAL_MAX_PRECISION as int) <= scale <= precision,
            DataTypeView::FixedSizeList(n) => n > 0,
            DataTypeView::FixedSizeBinary(n) => n > 0,
            DataTypeView::Dictionary(_, value, _) => value.valid(),
            _ => true,
        }
    }
}

impl FieldView {
    /// The children have the shape that the data type prescribes.
    pub open spec fn children_fit(self) -> bool {
        match self.data_type {
            DataTypeView::Struct => true,
            DataTypeView::Union(_) => 1 <= self.children.len() <= UNION_MAX_VARIANTS,
            DataTypeView::Mapping(_) => self.children.len() == 1 && self.children[0].data_type
                == DataTypeView::Struct && self.children[0].children.len() == 2,
            DataTypeView::List | DataTypeView::LargeList | DataTypeView::FixedSizeList(_) => self.children.len()
                == 1,
            _ => self.children.len() == 0,
        }
    }

    /// The strategy, if any, is one that the data type admits.
    pub open spec fn strategy_fits(self) -> bool {
        match self.strategy {
            None => true,
            Some(Strategy::UtcStrAsDate64) | Some(Strategy::NaiveStrAsDate64) => {
                self.data_type == DataTypeView::Date64
                    || (self.data_type matches DataTypeView::Timestamp(unit, _) && unit
                    == TimeUnit::Millisecond)
            },
            Some(Strategy::TupleAsStruct) | Some(Strategy::MapAsStruct) => self.data_type
                == DataTypeView::Struct,
            Some(Strategy::UnknownVariant) => self.data_type == DataTypeView::Null,
        }
    }

    /// The field and all fields below it obey the schema invariants.
    pub open spec fn valid(self) -> bool
        decreases self,
    {
        &&& self.data_type.valid()
        &&& self.children_fit()
        &&& self.strategy_fits()
        &&& forall|i: int| 0 <= i < self.children.len() ==> (#[trigger] self.children[i]).valid()
    }
}

/// A data type is valid exactly if its mathematical value is.
pub proof fn lemma_type_valid_model(data_type: DataType)
    ensures
        data_type.valid() == data_type@.valid(),
    decreases data_type,
{
    match data_type {
        DataType::Dictionary(_, value, _) => {
            lemma_type_valid_model(*value);
        },
        _ => {},
    }
}

/// A field is valid exactly if its mathematical value is.
pub proof fn lemma_valid_model(field: Field)
    ensures
        field.valid() == field@.valid(),
    decreases field,
{
    lemma_type_valid_model(field.data_type);
    lemma_children_model(field);
    assert forall|i: int| 0 <= i < field.children@.len() implies (#[trigger] field.children[i]).valid()
        == field@.children[i].valid() by {
        lemma_valid_model(field.children[i]);
    }
    if field.children@.len() > 0 {
        lemma_children_model(field.children[0]);
    }
    if field.valid() {
        assert forall|i: int| 0 <= i < field@.children.len() implies (
        #[trigger] field@.children[i]).valid() by {
            assert(field.children[i].valid());
        }
    }
    if field@.valid() {
        assert forall|i: int| 0 <= i < field.children@.len() implies (
        #[trigger] field.children[i]).valid() by {
            assert(field@.children[i].valid());
        }
    }
}

} // verus!
