//! The text form of data types, as in `Decimal128(5, 2)` or `List(Int32)`.
use vstd::prelude::*;
use vstd::slice::slice_subrange;
use vstd::utf8::*;
use crate::error::{Error, ErrorKind};
use crate::schema::{
    fields_model, lemma_children_model, DataType, DataTypeView, Field, FieldView, IntegerType,
    TimeUnit,
};
use crate::text::{
    bytes_equal, bytes_of, lemma_number_at_bound, lemma_pow10_monotonic, number_at, pow10,
    read_number, string_from_utf8, text_bytes,
};

verus! {

/// The bytes of a word of the text form.
pub open spec fn word(text: &str) -> Seq<u8> {
    text_bytes(text@)
}

/// Tells whether the bytes spell the word.
pub fn is_word(bytes: &[u8], text: &str) -> (same: bool)
    ensures
        same == (bytes@ == word(text)),
{
    bytes_equal(bytes, bytes_of(text))
}

/// The first place from `at` on that holds no space.
pub open spec fn lead(bytes: Seq<u8>, at: int) -> int
    decreases bytes.len() - at,
{
    if 0 <= at < bytes.len() && bytes[at] == 32 {
        lead(bytes, at + 1)
    } else {
        at
    }
}

/// The place behind the last byte before `end` that is no space.
pub open spec fn trail(bytes: Seq<u8>, end: int) -> int
    decreases end,
{
    if 0 < end <= bytes.len() && bytes[end - 1] == 32 {
        trail(bytes, end - 1)
    } else {
        end
    }
}

/// The bytes without the spaces at their start and at their end.
pub open spec fn trimmed(bytes: Seq<u8>) -> Seq<u8> {
    let start = lead(bytes, 0);
    let end = trail(bytes, bytes.len() as int);
    if start <= end {
        bytes.subrange(start, end)
    } else {
        Seq::empty()
    }
}

/// The leading spaces end within the bytes.
pub proof fn lemma_lead_bounds(bytes: Seq<u8>, at: int)
    requires
        0 <= at <= bytes.len(),
    ensures
        at <= lead(bytes, at) <= bytes.len(),
    decreases bytes.len() - at,
{
    if at < bytes.len() && bytes[at] == 32 {
        lemma_lead_bounds(bytes, at + 1);
    }
}

/// The trailing spaces start within the bytes.
pub proof fn lemma_trail_bounds(bytes: Seq<u8>, end: int)
    requires
        0 <= end <= bytes.len(),
    ensures
        0 <= trail(bytes, end) <= end,
    decreases end,
{
    if 0 < end && bytes[end - 1] == 32 {
        lemma_trail_bounds(bytes, end - 1);
    }
}

/// Removes the spaces at the start and at the end.
pub fn trim(bytes: &[u8]) -> (r: &[u8])
    ensures
        r@ == trimmed(bytes@),
        r@.len() <= bytes@.len(),
{
    let n: usize = bytes.len();
    let mut start: usize = 0;
    while start < n && bytes[start] == 32
        invariant
            start <= n,
            n == bytes@.len(),
            lead(bytes@, 0) == lead(bytes@, start as int),
        decreases n - start,
    {
        start += 1;
    }
    let mut end: usize = n;
    while end > 0 && bytes[end - 1] == 32
        invariant
            end <= n,
            n == bytes@.len(),
            trail(bytes@, n as int) == trail(bytes@, end as int),
        decreases end,
    {
        end -= 1;
    }
    if start <= end {
        slice_subrange(bytes, start, end)
    } else {
        slice_subrange(bytes, 0, 0)
    }
}

/// The first place from `at` on that holds an opening bracket, or the length.
pub open spec fn first_open(bytes: Seq<u8>, at: int) -> int
    decreases bytes.len() - at,
{
    if at < 0 || at >= bytes.len() {
        bytes.len() as int
    } else if bytes[at] == 40 {
        at
    } else {
        first_open(bytes, at + 1)
    }
}

/// Finds the first opening bracket.
pub fn find_open(bytes: &[u8]) -> (at: usize)
    ensures
        at == first_open(bytes@, 0),
        at <= bytes@.len(),
        at < bytes@.len() ==> bytes@[at as int] == 40,
{
    let n: usize = bytes.len();
    let mut i: usize = 0;
    while i < n && bytes[i] != 40
        invariant
            i <= n,
            n == bytes@.len(),
            first_open(bytes@, 0) == first_open(bytes@, i as int),
        decreases n - i,
    {
        i += 1;
    }
    i
}

/// The first place from `at` on that holds a comma outside all brackets,
/// where `depth` brackets are open at `at`; or the length.
pub open spec fn top_comma(bytes: Seq<u8>, at: int, depth: int) -> int
    decreases bytes.len() - at,
{
    if at < 0 || at >= bytes.len() {
        bytes.len() as int
    } else if bytes[at] == 44 && depth == 0 {
        at
    } else if bytes[at] == 40 {
        top_comma(bytes, at + 1, depth + 1)
    } else if bytes[at] == 41 {
        top_comma(bytes, at + 1, depth - 1)
    } else {
        top_comma(bytes, at + 1, depth)
    }
}

/// Finds the first comma outside all brackets, from `from` on.
pub fn find_top_comma(bytes: &[u8], from: usize) -> (at: usize)
    ensures
        at == top_comma(bytes@, from as int, 0),
        from <= at || at == bytes@.len(),
        at <= bytes@.len(),
{
    let n: usize = bytes.len();
    let mut i: usize = from;
    let mut depth: i128 = 0;
    while i < n
        invariant
            from <= i,
            n == bytes@.len(),
            -(i as int) <= depth <= i,
            top_comma(bytes@, from as int, 0) == top_comma(bytes@, i as int, depth as int),
        decreases n - i,
    {
        let b: u8 = bytes[i];
        if b == 44 && depth == 0 {
            return i;
        }
        if b == 40 {
            depth = depth + 1;
        } else if b == 41 {
            depth = depth - 1;
        }
        i += 1;
    }
    n
}

/// The natural number that the bytes spell, with one to nine digits.
pub open spec fn natural_of(bytes: Seq<u8>) -> Option<int> {
    if 1 <= bytes.len() <= 9 {
        number_at(bytes, 0, bytes.len())
    } else {
        None
    }
}

/// The integer that the bytes spell, with an optional minus sign.
pub open spec fn integer_of(bytes: Seq<u8>) -> Option<int> {
    if bytes.len() > 0 && bytes[0] == 45 {
        match natural_of(bytes.skip(1)) {
            Some(n) => Some(-n),
            None => None,
        }
    } else {
        natural_of(bytes)
    }
}

/// Reads a natural number of one to nine digits.
pub fn read_natural(bytes: &[u8]) -> (r: Option<u32>)
    ensures
        match r {
            Some(n) => natural_of(bytes@) == Some(n as int) && n < 1_000_000_000,
            None => natural_of(bytes@) is None,
        },
{
    let n: usize = bytes.len();
    if n < 1 || n > 9 {
        return None;
    }
    proof {
        lemma_number_at_bound(bytes@, 0, n as nat);
        lemma_pow10_monotonic(n as nat, 9);
        reveal_with_fuel(pow10, 10);
    }
    read_number(bytes, 0, n)
}

/// Reads an integer with an optional minus sign.
pub fn read_integer(bytes: &[u8]) -> (r: Option<i64>)
    ensures
        match r {
            Some(n) => integer_of(bytes@) == Some(n as int) && -1_000_000_000 < n < 1_000_000_000,
            None => integer_of(bytes@) is None,
        },
{
    if bytes.len() > 0 && bytes[0] == 45 {
        let rest = slice_subrange(bytes, 1, bytes.len());
        assert(rest@ =~= bytes@.skip(1));
        match read_natural(rest) {
            Some(n) => Some(-(n as i64)),
            None => None,
        }
    } else {
        match read_natural(bytes) {
            Some(n) => Some(n as i64),
            None => None,
        }
    }
}

/// The time unit that the bytes name, in the singular or in the plural.
pub open spec fn unit_of(bytes: Seq<u8>) -> Option<TimeUnit> {
    if bytes == word("Second") || bytes == word("Seconds") {
        Some(TimeUnit::Second)
    } else if bytes == word("Millisecond") || bytes == word("Milliseconds") {
        Some(TimeUnit::Millisecond)
    } else if bytes == word("Microsecond") || bytes == word("Microseconds") {
        Some(TimeUnit::Microsecond)
    } else if bytes == word("Nanosecond") || bytes == word("Nanoseconds") {
        Some(TimeUnit::Nanosecond)
    } else {
        None
    }
}

/// Reads the name of a time unit.
pub fn read_unit(bytes: &[u8]) -> (r: Option<TimeUnit>)
    ensures
        r == unit_of(bytes@),
{
    if is_word(bytes, "Second") || is_word(bytes, "Seconds") {
        Some(TimeUnit::Second)
    } else if is_word(bytes, "Millisecond") || is_word(bytes, "Milliseconds") {
        Some(TimeUnit::Millisecond)
    } else if is_word(bytes, "Microsecond") || is_word(bytes, "Microseconds") {
        Some(TimeUnit::Microsecond)
    } else if is_word(bytes, "Nanosecond") || is_word(bytes, "Nanoseconds") {
        Some(TimeUnit::Nanosecond)
    } else {
        None
    }
}

/// The integer type that the bytes name.
pub open spec fn integer_type_of(bytes: Seq<u8>) -> Option<IntegerType> {
    if bytes == word("Int8") {
        Some(IntegerType::Int8)
    } else if bytes == word("Int16") {
        Some(IntegerType::Int16)
    } else if bytes == word("Int32") {
        Some(IntegerType::Int32)
    } else if bytes == word("Int64") {
        Some(IntegerType::Int64)
    } else if bytes == word("UInt8") {
        Some(IntegerType::UInt8)
    } else if bytes == word("UInt16") {
        Some(IntegerType::UInt16)
    } else if bytes == word("UInt32") {
        Some(IntegerType::UInt32)
    } else if bytes == word("UInt64") {
        Some(IntegerType::UInt64)
    } else {
        None
    }
}

/// Reads the name of an integer type.
pub fn read_integer_type(bytes: &[u8]) -> (r: Option<IntegerType>)
    ensures
        r == integer_type_of(bytes@),
{
    if is_word(bytes, "Int8") {
        Some(IntegerType::Int8)
    } else if is_word(bytes, "Int16") {
        Some(IntegerType::Int16)
    } else if is_word(bytes, "Int32") {
        Some(IntegerType::Int32)
    } else if is_word(bytes, "Int64") {
        Some(IntegerType::Int64)
    } else if is_word(bytes, "UInt8") {
        Some(IntegerType::UInt8)
    } else if is_word(bytes, "UInt16") {
        Some(IntegerType::UInt16)
    } else if is_word(bytes, "UInt32") {
        Some(IntegerType::UInt32)
    } else if is_word(bytes, "UInt64") {
        Some(IntegerType::UInt64)
    } else {
        None
    }
}

/// The time zone that the bytes give: `None`, or `Some("...")` around the
/// name of the zone.
pub open spec fn zone_of(bytes: Seq<u8>) -> Option<Option<Seq<char>>> {
    if bytes == word("None") {
        Some(None)
    } else if bytes.len() >= 8 && bytes.subrange(0, 6) == word("Some(\"") && bytes.subrange(
        bytes.len() - 2,
        bytes.len() as int,
    ) == word("\")") && valid_utf8(bytes.subrange(6, bytes.len() - 2)) {
        Some(Some(decode_utf8(bytes.subrange(6, bytes.len() - 2))))
    } else {
        None
    }
}

/// Reads a time zone.
pub fn read_zone(bytes: &[u8]) -> (r: Option<Option<String>>)
    ensures
        match r {
            Some(Some(name)) => zone_of(bytes@) == Some(Some(name@)),
            Some(None) => zone_of(bytes@) == Some(None::<Seq<char>>),
            None => zone_of(bytes@) is None,
        },
{
    let n: usize = bytes.len();
    proof {
        reveal_strlit("None");
        reveal_strlit("Some(\"");
        is_ascii_chars_encode_utf8("None"@);
        is_ascii_chars_encode_utf8("Some(\""@);
    }
    if is_word(bytes, "None") {
        return Some(None);
    }
    if n < 8 {
        return None;
    }
    if !is_word(slice_subrange(bytes, 0, 6), "Some(\"") || !is_word(
        slice_subrange(bytes, n - 2, n),
        "\")",
    ) {
        return None;
    }
    let inner: Vec<u8> = vstd::slice::slice_to_vec(slice_subrange(bytes, 6, n - 2));
    match string_from_utf8(inner) {
        Some(name) => {
            proof {
                encode_utf8_decode_utf8(name@);
            }
            Some(Some(name))
        },
        None => None,
    }
}

/// The data type that a name without arguments stands for.
pub open spec fn simple_type(name: Seq<u8>) -> Option<DataTypeView> {
    if name == word("Null") {
        Some(DataTypeView::Null)
    } else if name == word("Bool") || name == word("Boolean") {
        Some(DataTypeView::Bool)
    } else if name == word("Int8") {
        Some(DataTypeView::Int8)
    } else if name == word("Int16") {
        Some(DataTypeView::Int16)
    } else if name == word("Int32") {
        Some(DataTypeView::Int32)
    } else if name == word("Int64") {
        Some(DataTypeView::Int64)
    } else if name == word("UInt8") {
        Some(DataTypeView::UInt8)
    } else if name == word("UInt16") {
        Some(DataTypeView::UInt16)
    } else if name == word("UInt32") {
        Some(DataTypeView::UInt32)
    } else if name == word("UInt64") {
        Some(DataTypeView::UInt64)
    } else if name == word("Float16") {
        Some(DataTypeView::Float16)
    } else if name == word("Float32") {
        Some(DataTypeView::Float32)
    } else if name == word("Float64") {
        Some(DataTypeView::Float64)
    } else if name == word("Utf8") {
        Some(DataTypeView::Utf8)
    } else if name == word("LargeUtf8") {
        Some(DataTypeView::LargeUtf8)
    } else if name == word("Binary") {
        Some(DataTypeView::Binary)
    } else if name == word("LargeBinary") {
        Some(DataTypeView::LargeBinary)
    } else if name == word("Date32") {
        Some(DataTypeView::Date32)
    } else if name == word("Date64") {
        Some(DataTypeView::Date64)
    } else if name == word("List") {
        Some(DataTypeView::List)
    } else if name == word("LargeList") {
        Some(DataTypeView::LargeList)
    } else if name == word("Struct") {
        Some(DataTypeView::Struct)
    } else if name == word("Union") {
        Some(DataTypeView::Union(crate::schema::UnionMode::Dense))
    } else if name == word("Map") {
        Some(DataTypeView::Mapping(false))
    } else {
        None
    }
}

/// Reads the name of a data type without arguments.
pub fn read_simple_type(name: &[u8]) -> (r: Option<DataType>)
    ensures
        match r {
            Some(data_type) => simple_type(name@) == Some(data_type@),
            None => simple_type(name@) is None,
        },
{
    if is_word(name, "Null") {
        Some(DataType::Null)
    } else if is_word(name, "Bool") || is_word(name, "Boolean") {
        Some(DataType::Bool)
    } else if is_word(name, "Int8") {
        Some(DataType::Int8)
    } else if is_word(name, "Int16") {
        Some(DataType::Int16)
    } else if is_word(name, "Int32") {
        Some(DataType::Int32)
    } else if is_word(name, "Int64") {
        Some(DataType::Int64)
    } else if is_word(name, "UInt8") {
        Some(DataType::UInt8)
    } else if is_word(name, "UInt16") {
        Some(DataType::UInt16)
    } else if is_word(name, "UInt32") {
        Some(DataType::UInt32)
    } else if is_word(name, "UInt64") {
        Some(DataType::UInt64)
    } else if is_word(name, "Float16") {
        Some(DataType::Float16)
    } else if is_word(name, "Float32") {
        Some(DataType::Float32)
    } else if is_word(name, "Float64") {
        Some(DataType::Float64)
    } else if is_word(name, "Utf8") {
        Some(DataType::Utf8)
    } else if is_word(name, "LargeUtf8") {
        Some(DataType::LargeUtf8)
    } else if is_word(name, "Binary") {
        Some(DataType::Binary)
    } else if is_word(name, "LargeBinary") {
        Some(DataType::LargeBinary)
    } else if is_word(name, "Date32") {
        Some(DataType::Date32)
    } else if is_word(name, "Date64") {
        Some(DataType::Date64)
    } else if is_word(name, "List") {
        Some(DataType::List)
    } else if is_word(name, "LargeList") {
        Some(DataType::LargeList)
    } else if is_word(name, "Struct") {
        Some(DataType::Struct)
    } else if is_word(name, "Union") {
        Some(DataType::Union(crate::schema::UnionMode::Dense))
    } else if is_word(name, "Map") {
        Some(DataType::Mapping(false))
    } else {
        None
    }
}

/// The single argument between the brackets, without the spaces around it.
pub open spec fn one_arg(inner: Seq<u8>) -> Option<Seq<u8>> {
    if top_comma(inner, 0, 0) == inner.len() {
        Some(trimmed(inner))
    } else {
        None
    }
}

/// The two arguments between the brackets, without the spaces around them.
pub open spec fn two_args(inner: Seq<u8>) -> Option<(Seq<u8>, Seq<u8>)> {
    let comma = top_comma(inner, 0, 0);
    if comma < inner.len() && top_comma(inner, comma + 1, 0) == inner.len() {
        Some(
            (
                trimmed(inner.subrange(0, comma)),
                trimmed(inner.subrange(comma + 1, inner.len() as int)),
            ),
        )
    } else {
        None
    }
}

/// Reads the single argument between the brackets.
pub fn read_one_arg(inner: &[u8]) -> (r: Option<&[u8]>)
    ensures
        match r {
            Some(arg) => one_arg(inner@) == Some(arg@) && arg@.len() <= inner@.len(),
            None => one_arg(inner@) is None,
        },
{
    if find_top_comma(inner, 0) == inner.len() {
        Some(trim(inner))
    } else {
        None
    }
}

/// Reads the two arguments between the brackets.
pub fn read_two_args(inner: &[u8]) -> (r: Option<(&[u8], &[u8])>)
    ensures
        match r {
            Some((first, second)) => two_args(inner@) == Some((first@, second@)) && first@.len()
                <= inner@.len() && second@.len() <= inner@.len(),
            None => two_args(inner@) is None,
        },
{
    let n: usize = inner.len();
    let comma = find_top_comma(inner, 0);
    if comma < n && find_top_comma(inner, comma + 1) == n {
        Some((trim(slice_subrange(inner, 0, comma)), trim(slice_subrange(inner, comma + 1, n))))
    } else {
        None
    }
}

/// The child of a list type that is written with its item type.
pub open spec fn item_field(data_type: DataTypeView, children: Seq<FieldView>) -> FieldView {
    FieldView { name: "item"@, data_type, nullable: false, strategy: None, children }
}

/// What reading the arguments of a form reports, against what they spell.
pub open spec fn form_read(expected: Option<DataTypeView>, r: Result<DataType, Error>) -> bool {
    match r {
        Ok(data_type) => expected == Some(data_type@),
        Err(e) => expected is None && e.kind == ErrorKind::SchemaInvalid,
    }
}

/// The error for a text that spells no data type.
pub fn invalid(message: &str) -> (e: Error)
    ensures
        e.kind == ErrorKind::SchemaInvalid,
        e.message@ == message@,
{
    Error::new(ErrorKind::SchemaInvalid, message)
}

/// The type `Time32` of a unit, which must be seconds or milliseconds.
pub open spec fn time32_type(inner: Seq<u8>) -> Option<DataTypeView> {
    match one_arg(inner) {
        Some(arg) => match unit_of(arg) {
            Some(TimeUnit::Second) => Some(DataTypeView::Time32(TimeUnit::Second)),
            Some(TimeUnit::Millisecond) => Some(DataTypeView::Time32(TimeUnit::Millisecond)),
            _ => None,
        },
        None => None,
    }
}

/// Reads the arguments of `Time32`.
pub fn read_time32(inner: &[u8]) -> (r: Result<DataType, Error>)
    ensures
        form_read(time32_type(inner@), r),
{
    match read_one_arg(inner) {
        Some(arg) => match read_unit(arg) {
            Some(TimeUnit::Second) => Ok(DataType::Time32(TimeUnit::Second)),
            Some(TimeUnit::Millisecond) => Ok(DataType::Time32(TimeUnit::Millisecond)),
            _ => Err(invalid("expected valid time unit (Second or Millisecond)")),
        },
        None => Err(invalid("expected valid time unit (Second or Millisecond)")),
    }
}

/// The type `Time64` of a unit, which must be microseconds or nanoseconds.
pub open spec fn time64_type(inner: Seq<u8>) -> Option<DataTypeView> {
    match one_arg(inner) {
        Some(arg) => match unit_of(arg) {
            Some(TimeUnit::Microsecond) => Some(DataTypeView::Time64(TimeUnit::Microsecond)),
            Some(TimeUnit::Nanosecond) => Some(DataTypeView::Time64(TimeUnit::Nanosecond)),
            _ => None,
        },
        None => None,
    }
}

/// The message for a unit that `Time64` does not take.
pub open spec fn time64_message() -> Seq<char> {
    "expected valid time unit (Microsecond or Nanosecond)"@
}

/// Reads the arguments of `Time64`.
pub fn read_time64(inner: &[u8]) -> (r: Result<DataType, Error>)
    ensures
        form_read(time64_type(inner@), r),
        r matches Err(e) ==> e.message@ == time64_message(),
{
    match read_one_arg(inner) {
        Some(arg) => match read_unit(arg) {
            Some(TimeUnit::Microsecond) => Ok(DataType::Time64(TimeUnit::Microsecond)),
            Some(TimeUnit::Nanosecond) => Ok(DataType::Time64(TimeUnit::Nanosecond)),
            _ => Err(invalid("expected valid time unit (Microsecond or Nanosecond)")),
        },
        None => Err(invalid("expected valid time unit (Microsecond or Nanosecond)")),
    }
}

/// The type `Duration` of a unit.
pub open spec fn duration_type(inner: Seq<u8>) -> Option<DataTypeView> {
    match one_arg(inner) {
        Some(arg) => match unit_of(arg) {
            Some(unit) => Some(DataTypeView::Duration(unit)),
            None => None,
        },
        None => None,
    }
}

/// Reads the arguments of `Duration`.
pub fn read_duration(inner: &[u8]) -> (r: Result<DataType, Error>)
    ensures
        form_read(duration_type(inner@), r),
{
    match read_one_arg(inner) {
        Some(arg) => match read_unit(arg) {
            Some(unit) => Ok(DataType::Duration(unit)),
            None => Err(
                invalid("expected valid time unit (Second, Millisecond, Microsecond or Nanosecond)"),
            ),
        },
        None => Err(
            invalid("expected valid time unit (Second, Millisecond, Microsecond or Nanosecond)"),
        ),
    }
}

/// The type `Timestamp` of a unit and a zone.
pub open spec fn timestamp_type(inner: Seq<u8>) -> Option<DataTypeView> {
    match two_args(inner) {
        Some((first, second)) => match (unit_of(first), zone_of(second)) {
            (Some(unit), Some(zone)) => Some(DataTypeView::Timestamp(unit, zone)),
            _ => None,
        },
        None => None,
    }
}

/// Reads the arguments of `Timestamp`.
pub fn read_timestamp(inner: &[u8]) -> (r: Result<DataType, Error>)
    ensures
        form_read(timestamp_type(inner@), r),
{
    match read_two_args(inner) {
        Some((first, second)) => match read_unit(first) {
            Some(unit) => match read_zone(second) {
                Some(zone) => Ok(DataType::Timestamp(unit, zone)),
                None => Err(invalid("expected time zone (None or Some(\"...\"))")),
            },
            None => Err(
                invalid("expected valid time unit (Second, Millisecond, Microsecond or Nanosecond)"),
            ),
        },
        None => Err(invalid("expected a time unit and a time zone")),
    }
}

/// The type `Decimal128` of a precision from 1 to 38 and a scale from -38
/// to the precision.
pub open spec fn decimal_type(inner: Seq<u8>) -> Option<DataTypeView> {
    match two_args(inner) {
        Some((first, second)) => match (natural_of(first), integer_of(second)) {
            (Some(precision), Some(scale)) => if 1 <= precision <= 38 && -38 <= scale
                <= precision {
                Some(DataTypeView::Decimal128(precision as u8, scale as i8))
            } else {
                None
            },
            _ => None,
        },
        None => None,
    }
}

/// Reads the arguments of `Decimal128`.
pub fn read_decimal(inner: &[u8]) -> (r: Result<DataType, Error>)
    ensures
        form_read(decimal_type(inner@), r),
{
    match read_two_args(inner) {
        Some((first, second)) => match (read_natural(first), read_integer(second)) {
            (Some(precision), Some(scale)) => {
                if 1 <= precision && precision <= 38 && -38 <= scale && scale <= precision as i64 {
                    Ok(DataType::Decimal128(precision as u8, scale as i8))
                } else {
                    Err(invalid("expected precision (1 to 38) and scale (-38 to precision)"))
                }
            },
            _ => Err(invalid("expected precision (1 to 38) and scale (-38 to precision)")),
        },
        None => Err(invalid("expected precision (1 to 38) and scale (-38 to precision)")),
    }
}

/// The type `Union` of a mode, `Dense` or `Sparse`.
pub open spec fn union_type(inner: Seq<u8>) -> Option<DataTypeView> {
    match one_arg(inner) {
        Some(arg) => if arg == word("Dense") {
            Some(DataTypeView::Union(crate::schema::UnionMode::Dense))
        } else if arg == word("Sparse") {
            Some(DataTypeView::Union(crate::schema::UnionMode::Sparse))
        } else {
            None
        },
        None => None,
    }
}

/// Reads the arguments of `Union`.
pub fn read_union(inner: &[u8]) -> (r: Result<DataType, Error>)
    ensures
        form_read(union_type(inner@), r),
{
    match read_one_arg(inner) {
        Some(arg) => {
            if is_word(arg, "Dense") {
                Ok(DataType::Union(crate::schema::UnionMode::Dense))
            } else if is_word(arg, "Sparse") {
                Ok(DataType::Union(crate::schema::UnionMode::Sparse))
            } else {
                Err(invalid("expected union mode (Dense or Sparse)"))
            }
        },
        None => Err(invalid("expected union mode (Dense or Sparse)")),
    }
}

/// The size that `FixedSizeBinary` and `FixedSizeList` take: above zero.
pub open spec fn size_of(inner: Seq<u8>) -> Option<int> {
    match one_arg(inner) {
        Some(arg) => match natural_of(arg) {
            Some(size) => if size > 0 {
                Some(size)
            } else {
                None
            },
            None => None,
        },
        None => None,
    }
}

/// Reads the size of `FixedSizeBinary` and `FixedSizeList`.
pub fn read_size(inner: &[u8]) -> (r: Result<usize, Error>)
    ensures
        match r {
            Ok(size) => size_of(inner@) == Some(size as int),
            Err(e) => size_of(inner@) is None && e.kind == ErrorKind::SchemaInvalid,
        },
{
    match read_one_arg(inner) {
        Some(arg) => match read_natural(arg) {
            Some(size) => {
                if size == 0 {
                    Err(invalid("expected a size above zero"))
                } else {
                    Ok(size as usize)
                }
            },
            None => Err(invalid("expected a size above zero")),
        },
        None => Err(invalid("expected a size above zero")),
    }
}

/// The data type of a form whose arguments hold no data type, where `name`
/// is such a form.
pub open spec fn plain_form(name: Seq<u8>, inner: Seq<u8>) -> Option<Option<DataTypeView>> {
    if name == word("Time32") {
        Some(time32_type(inner))
    } else if name == word("Time64") {
        Some(time64_type(inner))
    } else if name == word("Duration") {
        Some(duration_type(inner))
    } else if name == word("Timestamp") {
        Some(timestamp_type(inner))
    } else if name == word("Decimal128") {
        Some(decimal_type(inner))
    } else if name == word("Union") {
        Some(union_type(inner))
    } else if name == word("FixedSizeBinary") {
        Some(
            match size_of(inner) {
                Some(size) => Some(DataTypeView::FixedSizeBinary(size as usize)),
                None => None,
            },
        )
    } else if name == word("FixedSizeList") {
        Some(
            match size_of(inner) {
                Some(size) => Some(DataTypeView::FixedSizeList(size as usize)),
                None => None,
            },
        )
    } else {
        None
    }
}

/// Reads a form whose arguments hold no data type.
pub fn read_plain_form(name: &[u8], inner: &[u8]) -> (r: Option<Result<DataType, Error>>)
    ensures
        match r {
            Some(outcome) => plain_form(name@, inner@) matches Some(expected) && form_read(
                expected,
                outcome,
            ),
            None => plain_form(name@, inner@) is None,
        },
{
    if is_word(name, "Time32") {
        Some(read_time32(inner))
    } else if is_word(name, "Time64") {
        Some(read_time64(inner))
    } else if is_word(name, "Duration") {
        Some(read_duration(inner))
    } else if is_word(name, "Timestamp") {
        Some(read_timestamp(inner))
    } else if is_word(name, "Decimal128") {
        Some(read_decimal(inner))
    } else if is_word(name, "Union") {
        Some(read_union(inner))
    } else if is_word(name, "FixedSizeBinary") {
        Some(
            match read_size(inner) {
                Ok(size) => Ok(DataType::FixedSizeBinary(size)),
                Err(e) => Err(e),
            },
        )
    } else if is_word(name, "FixedSizeList") {
        Some(
            match read_size(inner) {
                Ok(size) => Ok(DataType::FixedSizeList(size)),
                Err(e) => Err(e),
            },
        )
    } else {
        None
    }
}

/// The name in front of the opening bracket, and what stands between the
/// brackets, where the text has the form of a name with arguments.
pub open spec fn call_of(text: Seq<u8>) -> Option<(Seq<u8>, Seq<u8>)> {
    let open = first_open(text, 0);
    if open < text.len() && text[text.len() - 1] == 41 {
        Some((text.subrange(0, open), text.subrange(open + 1, text.len() - 1)))
    } else {
        None
    }
}

/// Splits a text into the name in front of the opening bracket and what
/// stands between the brackets.
pub fn read_call(text: &[u8]) -> (r: Option<(&[u8], &[u8])>)
    ensures
        match r {
            Some((name, inner)) => call_of(text@) == Some((name@, inner@)) && inner@.len()
                < text@.len(),
            None => call_of(text@) is None,
        },
{
    let n: usize = text.len();
    let open = find_open(text);
    if open < n && text[n - 1] == 41 {
        Some((slice_subrange(text, 0, open), slice_subrange(text, open + 1, n - 1)))
    } else {
        None
    }
}

/// The argument that holds a data type of its own: the value type of
/// `Dictionary`, the item type of `List` and `LargeList`.
pub open spec fn nested_arg(text: Seq<u8>) -> Option<Seq<u8>> {
    match call_of(text) {
        Some((name, inner)) => if name == word("Dictionary") {
            match two_args(inner) {
                Some((first, second)) => Some(second),
                None => None,
            }
        } else if name == word("List") || name == word("LargeList") {
            one_arg(inner)
        } else {
            None
        },
        None => None,
    }
}

/// Finds the argument that holds a data type of its own.
pub fn read_nested_arg(text: &[u8]) -> (r: Option<&[u8]>)
    ensures
        match r {
            Some(arg) => nested_arg(text@) == Some(arg@) && arg@.len() < text@.len(),
            None => nested_arg(text@) is None,
        },
{
    match read_call(text) {
        Some((name, inner)) => {
            if is_word(name, "Dictionary") {
                match read_two_args(inner) {
                    Some((first, second)) => Some(second),
                    None => None,
                }
            } else if is_word(name, "List") || is_word(name, "LargeList") {
                read_one_arg(inner)
            } else {
                None
            }
        },
        None => None,
    }
}

/// The data type of a text without spaces around it, given the data type
/// that its nested argument spells, where it has one.
pub open spec fn assemble(text: Seq<u8>, nested: Option<(DataTypeView, Seq<FieldView>)>) -> Option<
    (DataTypeView, Seq<FieldView>),
> {
    match call_of(text) {
        None => if first_open(text, 0) >= text.len() {
            match simple_type(text) {
                Some(data_type) => Some((data_type, Seq::empty())),
                None => None,
            }
        } else {
            None
        },
        Some((name, inner)) => if name == word("Dictionary") {
            match (two_args(inner), nested) {
                (Some((first, second)), Some((value, children))) => match integer_type_of(first) {
                    Some(index) => if children.len() == 0 {
                        Some((DataTypeView::Dictionary(index, Box::new(value), false), Seq::empty()))
                    } else {
                        None
                    },
                    None => None,
                },
                _ => None,
            }
        } else if name == word("List") {
            match nested {
                Some((item, children)) => Some(
                    (DataTypeView::List, seq![item_field(item, children)]),
                ),
                None => None,
            }
        } else if name == word("LargeList") {
            match nested {
                Some((item, children)) => Some(
                    (DataTypeView::LargeList, seq![item_field(item, children)]),
                ),
                None => None,
            }
        } else {
            match plain_form(name, inner) {
                Some(Some(data_type)) => Some((data_type, Seq::empty())),
                _ => None,
            }
        },
    }
}

/// The data type that a text spells, and the children that it gives inline.
///
/// A text is a name, or a name with arguments in brackets: a time unit for
/// `Time32`, `Time64` and `Duration`; a time unit and a zone for `Timestamp`;
/// precision and scale for `Decimal128`; a size for `FixedSizeBinary` and
/// `FixedSizeList`; a mode for `Union`; index and value type for `Dictionary`; the item type for
/// `List` and `LargeList`, which then have a child `item`. Spaces around
/// names and arguments are skipped. The arguments must be possible.
pub open spec fn parsed_type(bytes: Seq<u8>) -> Option<(DataTypeView, Seq<FieldView>)>
    decreases bytes.len(),
{
    let text = trimmed(bytes);
    match nested_arg(text) {
        Some(arg) => if arg.len() < bytes.len() {
            assemble(text, parsed_type(arg))
        } else {
            None
        },
        None => assemble(text, None),
    }
}

/// A text with a nested argument spells nothing where the argument spells nothing.
pub proof fn lemma_nested_needed(text: Seq<u8>)
    requires
        nested_arg(text) is Some,
    ensures
        assemble(text, None) is None,
{
}

/// What reading a text reports, against the data type that the text spells.
pub open spec fn type_read(
    expected: Option<(DataTypeView, Seq<FieldView>)>,
    r: Result<(DataType, Vec<Field>), Error>,
) -> bool {
    match r {
        Ok((data_type, children)) => expected == Some((data_type@, fields_model(children@))),
        Err(e) => expected is None && e.kind == ErrorKind::SchemaInvalid,
    }
}

/// The child `item` of a list type.
pub fn make_item(data_type: DataType, children: Vec<Field>) -> (fields: Vec<Field>)
    ensures
        fields_model(fields@) == seq![item_field(data_type@, fields_model(children@))],
{
    let child = Field {
        name: "item".to_owned(),
        data_type,
        nullable: false,
        strategy: None,
        metadata: Vec::new(),
        children,
    };
    proof {
        lemma_children_model(child);
    }
    let mut fields: Vec<Field> = Vec::new();
    fields.push(child);
    assert(fields_model(fields@) =~= seq![child@]);
    fields
}

/// Reads the data type of a text without spaces around it, given the data
/// type that its nested argument spells, where it has one.
pub fn assemble_type(text: &[u8], nested: Option<(DataType, Vec<Field>)>) -> (r: Result<
    (DataType, Vec<Field>),
    Error,
>)
    ensures
        type_read(
            assemble(
                text@,
                match nested {
                    Some((data_type, children)) => Some((data_type@, fields_model(children@))),
                    None => None,
                },
            ),
            r,
        ),
{
    let none: Vec<Field> = Vec::new();
    assert(fields_model(none@) =~= Seq::<FieldView>::empty());
    match read_call(text) {
        None => {
            if find_open(text) >= text.len() {
                match read_simple_type(text) {
                    Some(data_type) => Ok((data_type, none)),
                    None => Err(invalid("expected the name of a data type")),
                }
            } else {
                Err(invalid("expected a closing bracket"))
            }
        },
        Some((name, inner)) => {
            if is_word(name, "Dictionary") {
                match (read_two_args(inner), nested) {
                    (Some((first, second)), Some((value, children))) => match read_integer_type(
                        first,
                    ) {
                        Some(index) => {
                            if children.len() == 0 {
                                Ok((DataType::Dictionary(index, Box::new(value), false), none))
                            } else {
                                Err(invalid("expected a value type without children"))
                            }
                        },
                        None => Err(
                            invalid(
                                "expected index type (Int8, Int16, Int32, Int64, UInt8, UInt16, UInt32 or UInt64)",
                            ),
                        ),
                    },
                    _ => Err(invalid("expected an index type and a value type")),
                }
            } else if is_word(name, "List") {
                match nested {
                    Some((item, children)) => Ok((DataType::List, make_item(item, children))),
                    None => Err(invalid("expected an item type")),
                }
            } else if is_word(name, "LargeList") {
                match nested {
                    Some((item, children)) => Ok((DataType::LargeList, make_item(item, children))),
                    None => Err(invalid("expected an item type")),
                }
            } else {
                match read_plain_form(name, inner) {
                    Some(Ok(data_type)) => Ok((data_type, none)),
                    Some(Err(e)) => Err(e),
                    None => Err(invalid("expected the name of a data type")),
                }
            }
        },
    }
}

/// Reads a data type, and the children that it gives inline, from its text.
///
/// Fails with `SchemaInvalid` where the text spells no data type.
pub fn parse_type_bytes(bytes: &[u8]) -> (r: Result<(DataType, Vec<Field>), Error>)
    ensures
        type_read(parsed_type(bytes@), r),
    decreases bytes@.len(),
{
    let text = trim(bytes);
    match read_nested_arg(text) {
        Some(arg) => match parse_type_bytes(arg) {
            Ok(nested) => assemble_type(text, Some(nested)),
            Err(e) => {
                proof {
                    lemma_nested_needed(text@);
                }
                Err(e)
            },
        },
        None => assemble_type(text, None),
    }
}

/// Reads a data type, and the children that it gives inline, from its text.
///
/// Fails with `SchemaInvalid` where the text spells no data type.
pub fn parse_data_type(text: &str) -> (r: Result<(DataType, Vec<Field>), Error>)
    ensures
        type_read(parsed_type(text_bytes(text@)), r),
{
    parse_type_bytes(bytes_of(text))
}

} // verus!
