//! Small helpers for strings, bytes and decimal digits.
use vstd::prelude::*;
use vstd::string::*;
use vstd::utf8::*;

verus! {

/// The bytes of a string in UTF-8.
pub open spec fn text_bytes(chars: Seq<char>) -> Seq<u8> {
    encode_utf8(chars)
}

/// Appends one character to a string by `String::push`, which adds exactly
/// that character at the end.
#[verifier::external_body]
pub(crate) fn push_char(text: &mut String, c: char)
    ensures
        final(text)@ == old(text)@.push(c),
{
    text.push(c)
}

/// Reads bytes as UTF-8 by `String::from_utf8`, which succeeds exactly on
/// valid UTF-8 and then yields the string that those bytes encode.
#[verifier::external_body]
pub(crate) fn string_from_utf8(bytes: Vec<u8>) -> (text: Option<String>)
    ensures
        text.is_some() <==> valid_utf8(bytes@),
        text matches Some(s) ==> encode_utf8(s@) == bytes@,
{
    String::from_utf8(bytes).ok()
}

/// The bytes of a string.
pub fn bytes_of(text: &str) -> (bytes: &[u8])
    ensures
        bytes@ == text_bytes(text@),
{
    text.as_bytes()
}

/// Two strings with the same bytes are the same string.
pub proof fn lemma_text_bytes_injective(a: Seq<char>, b: Seq<char>)
    requires
        text_bytes(a) == text_bytes(b),
    ensures
        a == b,
{
    encode_utf8_decode_utf8(a);
    encode_utf8_decode_utf8(b);
}

/// Compares two byte strings.
pub fn bytes_equal(a: &[u8], b: &[u8]) -> (same: bool)
    ensures
        same == (a@ == b@),
{
    if a.len() != b.len() {
        return false;
    }
    let n: usize = a.len();
    let mut i: usize = 0;
    while i < n
        invariant
            i <= n,
            n == a@.len(),
            n == b@.len(),
            forall|k: int| 0 <= k < i ==> a@[k] == b@[k],
        decreases n - i,
    {
        if a[i] != b[i] {
            return false;
        }
        i += 1;
    }
    assert(a@ =~= b@);
    true
}

/// Compares two strings.
pub fn text_equal(a: &str, b: &str) -> (same: bool)
    ensures
        same == (a@ == b@),
{
    let same = bytes_equal(bytes_of(a), bytes_of(b));
    proof {
        if same {
            lemma_text_bytes_injective(a@, b@);
        }
    }
    same
}

/// The character of a decimal digit.
pub open spec fn digit_char(digit: int) -> char {
    (digit + 48) as char
}

/// The value of a decimal digit, where the byte is one.
pub open spec fn digit_value(byte: u8) -> Option<int> {
    if 48 <= byte <= 57 {
        Some(byte - 48)
    } else {
        None
    }
}

/// The character of a decimal digit.
pub fn digit_to_char(digit: u8) -> (c: char)
    requires
        digit < 10,
    ensures
        c == digit_char(digit as int),
{
    (digit + 48) as char
}

/// The last `width` decimal digits of `n`, most significant first.
pub open spec fn decimal_digits(n: int, width: nat) -> Seq<char>
    decreases width,
{
    if width == 0 {
        Seq::empty()
    } else {
        decimal_digits(n / 10, (width - 1) as nat).push(digit_char(n % 10))
    }
}

/// Appends the last `width` decimal digits of `n` to `text`.
pub fn push_digits(text: &mut String, n: u128, width: u8)
    ensures
        final(text)@ == old(text)@ + decimal_digits(n as int, width as nat),
    decreases width,
{
    if width == 0 {
        assert(text@ =~= old(text)@ + decimal_digits(n as int, 0));
    } else {
        push_digits(text, n / 10, width - 1);
        push_char(text, digit_to_char((n % 10) as u8));
        assert(text@ =~= old(text)@ + decimal_digits(n as int, width as nat));
    }
}

/// The number that the `count` bytes from `start` spell, where all are digits.
pub open spec fn number_at(bytes: Seq<u8>, start: int, count: nat) -> Option<int>
    decreases count,
{
    if count == 0 {
        Some(0)
    } else if !(0 <= start && start + count <= bytes.len()) {
        None
    } else {
        match (number_at(bytes, start, (count - 1) as nat), digit_value(bytes[start + count - 1])) {
            (Some(high), Some(low)) => Some(10 * high + low),
            _ => None,
        }
    }
}

/// The power of ten with the given exponent.
pub open spec fn pow10(exponent: nat) -> int
    decreases exponent,
{
    if exponent == 0 {
        1
    } else {
        10 * pow10((exponent - 1) as nat)
    }
}

/// Powers of ten are positive and grow with the exponent.
pub proof fn lemma_pow10_monotonic(a: nat, b: nat)
    requires
        a <= b,
    ensures
        0 < pow10(a) <= pow10(b),
    decreases b,
{
    if b > 0 {
        if a < b {
            lemma_pow10_monotonic(a, (b - 1) as nat);
        } else {
            lemma_pow10_monotonic((a - 1) as nat, (b - 1) as nat);
        }
    }
}

/// The value of the largest power of ten that a 128-bit decimal needs.
pub proof fn lemma_pow10_38()
    ensures
        pow10(38) == 100_000_000_000_000_000_000_000_000_000_000_000_000,
{
    reveal_with_fuel(pow10, 39);
}

/// A number of `count` digits is below the matching power of ten.
pub proof fn lemma_number_at_bound(bytes: Seq<u8>, start: int, count: nat)
    ensures
        number_at(bytes, start, count) matches Some(n) ==> 0 <= n < pow10(count),
    decreases count,
{
    if count > 0 {
        lemma_number_at_bound(bytes, start, (count - 1) as nat);
    }
}

/// Reads the number that the `count` bytes from `start` spell.
pub fn read_number(bytes: &[u8], start: usize, count: usize) -> (r: Option<u32>)
    requires
        count <= 9,
    ensures
        r matches Some(n) ==> number_at(bytes@, start as int, count as nat) == Some(n as int),
        r is None ==> number_at(bytes@, start as int, count as nat) is None,
{
    if count == 0 {
        return Some(0);
    }
    if start > bytes.len() || count > bytes.len() - start {
        return None;
    }
    let len: usize = bytes.len();
    let mut value: u64 = 0;
    let mut i: usize = 0;
    proof {
        assert(pow10(9) == 1_000_000_000) by {
            reveal_with_fuel(pow10, 10);
        }
    }
    while i < count
        invariant
            i <= count <= 9,
            start + count <= len,
            len == bytes@.len(),
            pow10(9) == 1_000_000_000,
            number_at(bytes@, start as int, i as nat) == Some(value as int),
        decreases count - i,
    {
        let b: u8 = bytes[start + i];
        proof {
            lemma_number_at_bound(bytes@, start as int, i as nat);
            lemma_pow10_monotonic(i as nat, 9);
        }
        if b < 48 || b > 57 {
            proof {
                lemma_number_none_extends(bytes@, start as int, (i + 1) as nat, count as nat);
            }
            return None;
        }
        value = 10 * value + (b - 48) as u64;
        i += 1;
    }
    proof {
        lemma_number_at_bound(bytes@, start as int, count as nat);
        lemma_pow10_monotonic(count as nat, 9);
    }
    Some(value as u32)
}

/// Once a prefix does not spell a number, no longer run from the same start does.
pub proof fn lemma_number_none_extends(bytes: Seq<u8>, start: int, shorter: nat, longer: nat)
    requires
        shorter <= longer,
        0 <= start,
        start + longer <= bytes.len(),
        number_at(bytes, start, shorter) is None,
    ensures
        number_at(bytes, start, longer) is None,
    decreases longer,
{
    if shorter < longer {
        lemma_number_none_extends(bytes, start, shorter, (longer - 1) as nat);
    }
}

} // verus!
