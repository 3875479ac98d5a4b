//! Decimal numbers as text and as unscaled integers.
use vstd::prelude::*;
use vstd::utf8::*;
use crate::text::{
    text_bytes,
    decimal_digits, digit_char, digit_to_char, digit_value, lemma_number_at_bound, lemma_pow10_38,
    lemma_pow10_monotonic, number_at, pow10, push_char, push_digits,
};

verus! {

/// The decimal digits of a natural number, without leading zeros.
pub open spec fn natural_digits(n: int) -> Seq<char>
    decreases n,
{
    if n < 10 {
        seq![digit_char(n)]
    } else {
        natural_digits(n / 10).push(digit_char(n % 10))
    }
}

/// The text of the decimal number `unscaled / 10^scale`: a sign where it is
/// negative, the whole part, and, where the scale is not zero, a point and
/// exactly `scale` digits.
pub open spec fn format_decimal(unscaled: int, scale: nat) -> Seq<char> {
    let magnitude = if unscaled < 0 {
        -unscaled
    } else {
        unscaled
    };
    (if unscaled < 0 {
        seq!['-']
    } else {
        Seq::empty()
    }) + natural_digits(magnitude / pow10(scale)) + (if scale > 0 {
        seq!['.'] + decimal_digits(magnitude % pow10(scale), scale)
    } else {
        Seq::empty()
    })
}

/// The largest scale, and the largest precision, of a 128-bit decimal.
pub const MAX_DIGITS: u8 = 38;

/// The power of ten of a 128-bit decimal's scale or precision.
pub fn power_of_ten(exponent: u8) -> (power: u128)
    requires
        exponent <= MAX_DIGITS,
    ensures
        power == pow10(exponent as nat),
        1 <= power <= 100_000_000_000_000_000_000_000_000_000_000_000_000,
{
    let mut power: u128 = 1;
    let mut i: u8 = 0;
    proof {
        assert(pow10(38) == 100_000_000_000_000_000_000_000_000_000_000_000_000) by {
            reveal_with_fuel(pow10, 39);
        }
    }
    while i < exponent
        invariant
            i <= exponent <= 38,
            power == pow10(i as nat),
            pow10(38) == 100_000_000_000_000_000_000_000_000_000_000_000_000,
        decreases exponent - i,
    {
        proof {
            lemma_pow10_monotonic((i + 1) as nat, 38);
        }
        power = power * 10;
        i += 1;
    }
    proof {
        lemma_pow10_monotonic(exponent as nat, 38);
    }
    power
}

/// Appends the decimal digits of `n`, without leading zeros, to `text`.
pub fn push_natural(text: &mut String, n: u128)
    ensures
        final(text)@ == old(text)@ + natural_digits(n as int),
    decreases n,
{
    if n < 10 {
        push_char(text, digit_to_char(n as u8));
        assert(text@ =~= old(text)@ + natural_digits(n as int));
    } else {
        push_natural(text, n / 10);
        push_char(text, digit_to_char((n % 10) as u8));
        assert(text@ =~= old(text)@ + natural_digits(n as int));
    }
}

/// Writes the decimal number `unscaled / 10^scale` as text.
pub fn format_unscaled(unscaled: i128, scale: u8) -> (text: String)
    requires
        scale <= MAX_DIGITS,
        unscaled > i128::MIN,
    ensures
        text@ == format_decimal(unscaled as int, scale as nat),
{
    let magnitude: u128 = if unscaled < 0 {
        (-unscaled) as u128
    } else {
        unscaled as u128
    };
    let unit: u128 = power_of_ten(scale);
    let mut text = String::new();
    if unscaled < 0 {
        push_char(&mut text, '-');
    }
    push_natural(&mut text, magnitude / unit);
    if scale > 0 {
        push_char(&mut text, '.');
        push_digits(&mut text, magnitude % unit, scale);
    }
    assert(text@ =~= format_decimal(unscaled as int, scale as nat));
    text
}

/// The powers of ten multiply as their exponents add.
pub proof fn lemma_pow10_add(a: nat, b: nat)
    ensures
        pow10(a + b) == pow10(a) * pow10(b),
    decreases a,
{
    if a > 0 {
        lemma_pow10_add((a - 1) as nat, b);
        assert(pow10(a + b) == 10 * pow10((a - 1 + b) as nat));
        assert(10 * (pow10((a - 1) as nat) * pow10(b)) == (10 * pow10((a - 1) as nat)) * pow10(b))
            by (nonlinear_arith);
    } else {
        assert(pow10(a) * pow10(b) == pow10(b)) by (nonlinear_arith)
            requires
                pow10(a) == 1,
        ;
    }
}

/// The number of digits that stand at `from` and behind it without a gap.
pub open spec fn digit_run(bytes: Seq<u8>, from: int) -> int
    decreases bytes.len() - from,
{
    if 0 <= from < bytes.len() && digit_value(bytes[from]) is Some {
        1 + digit_run(bytes, from + 1)
    } else {
        0
    }
}

/// The parts of a decimal number in text form.
pub struct DecimalShape {
    pub negative: bool,
    /// Where the digits before the point start.
    pub start: int,
    /// The number of digits before the point.
    pub whole: int,
    /// The number of digits behind the point.
    pub fraction: int,
}

/// The parts of the text of a decimal number: an optional sign, one digit or
/// more, and optionally a point with one digit or more behind it.
pub open spec fn decimal_shape(bytes: Seq<u8>) -> Option<DecimalShape> {
    let signed = bytes.len() > 0 && (bytes[0] == 45 || bytes[0] == 43);
    let start = if signed {
        1int
    } else {
        0int
    };
    let whole = digit_run(bytes, start);
    let after = start + whole;
    if whole == 0 {
        None
    } else if after == bytes.len() {
        Some(DecimalShape { negative: signed && bytes[0] == 45, start, whole, fraction: 0 })
    } else if bytes[after] == 46 && digit_run(bytes, after + 1) >= 1 && after + 1 + digit_run(
        bytes,
        after + 1,
    ) == bytes.len() {
        Some(
            DecimalShape {
                negative: signed && bytes[0] == 45,
                start,
                whole,
                fraction: digit_run(bytes, after + 1),
            },
        )
    } else {
        None
    }
}

/// The integer `u` with `u / 10^scale` the number that the text spells, cut
/// off behind `scale` digits of the fraction: digits beyond the scale are
/// dropped, which rounds toward zero.
pub open spec fn decimal_unscaled(bytes: Seq<u8>, scale: nat) -> Option<int> {
    match decimal_shape(bytes) {
        None => None,
        Some(shape) => {
            let kept = if shape.fraction < scale {
                shape.fraction as nat
            } else {
                scale
            };
            match (
                number_at(bytes, shape.start, shape.whole as nat),
                number_at(bytes, shape.start + shape.whole + 1, kept),
            ) {
                (Some(whole), Some(fraction)) => {
                    let magnitude = whole * pow10(scale) + fraction * pow10((scale - kept) as nat);
                    Some(
                        if shape.negative {
                            -magnitude
                        } else {
                            magnitude
                        },
                    )
                },
                _ => None,
            }
        },
    }
}

/// A run of digits spells a number.
pub proof fn lemma_digit_run_number(bytes: Seq<u8>, from: int, count: nat)
    requires
        0 <= from,
        count <= digit_run(bytes, from),
    ensures
        number_at(bytes, from, count) is Some,
        count > 0 ==> from + count <= bytes.len(),
    decreases count,
{
    lemma_digit_run_covers(bytes, from, count as int);
    if count > 0 {
        lemma_digit_run_number(bytes, from, (count - 1) as nat);
        lemma_digit_run_covers(bytes, from, count - 1);
    }
}

/// The bytes of a run of digits are digits.
pub proof fn lemma_digit_run_covers(bytes: Seq<u8>, from: int, i: int)
    requires
        0 <= from,
        0 <= i <= digit_run(bytes, from),
    ensures
        i > 0 ==> from + i <= bytes.len(),
        i < digit_run(bytes, from) ==> from + i < bytes.len() && digit_value(bytes[from + i]) is Some,
        digit_run(bytes, from) == i + digit_run(bytes, from + i),
    decreases i,
{
    if i > 0 {
        lemma_digit_run_covers(bytes, from, i - 1);
        assert(digit_run(bytes, from + i - 1) == 1 + digit_run(bytes, from + i));
    }
}

/// Counts the digits that stand at `from` and behind it without a gap.
pub fn count_digits(bytes: &[u8], from: usize) -> (count: usize)
    ensures
        count == digit_run(bytes@, from as int),
        from + count <= usize::MAX,
{
    let n: usize = bytes.len();
    let mut i: usize = from;
    while i < n && bytes[i] >= 48 && bytes[i] <= 57
        invariant
            from <= i,
            n == bytes@.len(),
            i <= n || i == from,
            digit_run(bytes@, from as int) == (i - from) + digit_run(bytes@, i as int),
        decreases n - i,
    {
        i += 1;
    }
    i - from
}

/// Reads the number that `count` digits from `start` spell, where it is
/// below `limit`.
pub fn read_below(bytes: &[u8], start: usize, count: usize, limit: u128) -> (r: Option<u128>)
    requires
        number_at(bytes@, start as int, count as nat) is Some,
        start + count <= bytes@.len(),
        limit <= 100_000_000_000_000_000_000_000_000_000_000_000_000,
    ensures
        match r {
            Some(n) => number_at(bytes@, start as int, count as nat) == Some(n as int) && n < limit,
            None => number_at(bytes@, start as int, count as nat)->0 >= limit,
        },
{
    let mut value: u128 = 0;
    let mut i: usize = 0;
    let len: usize = bytes.len();
    while i < count
        invariant
            i <= count,
            start + count <= len,
            len == bytes@.len(),
            limit <= 100_000_000_000_000_000_000_000_000_000_000_000_000,
            number_at(bytes@, start as int, count as nat) is Some,
            number_at(bytes@, start as int, i as nat) == Some(value as int),
            value < limit || i == 0,
        decreases count - i,
    {
        proof {
            lemma_number_at_prefix(bytes@, start as int, (i + 1) as nat, count as nat);
        }
        proof {
            lemma_number_at_grows(bytes@, start as int, (i + 1) as nat, count as nat);
        }
        let digit: u128 = (bytes[start + i] - 48) as u128;
        if value >= 10_000_000_000_000_000_000_000_000_000_000_000_000 {
            return None;
        }
        let next: u128 = 10 * value + digit;
        if next >= limit {
            return None;
        }
        value = next;
        i += 1;
    }
    if value >= limit {
        return None;
    }
    Some(value)
}

/// Where a run of bytes spells a number, so does each shorter run from the
/// same start.
pub proof fn lemma_number_at_prefix(bytes: Seq<u8>, start: int, shorter: nat, longer: nat)
    requires
        shorter <= longer,
        number_at(bytes, start, longer) is Some,
    ensures
        number_at(bytes, start, shorter) is Some,
        shorter > 0 ==> digit_value(bytes[start + shorter - 1]) is Some && 0 <= start && start
            + shorter <= bytes.len(),
    decreases longer,
{
    if shorter < longer {
        lemma_number_at_prefix(bytes, start, shorter, (longer - 1) as nat);
    }
}

/// More digits spell no smaller number.
pub proof fn lemma_number_at_grows(bytes: Seq<u8>, start: int, shorter: nat, longer: nat)
    requires
        shorter <= longer,
        number_at(bytes, start, longer) is Some,
    ensures
        number_at(bytes, start, shorter) is Some,
        0 <= number_at(bytes, start, shorter)->0 <= number_at(bytes, start, longer)->0,
    decreases longer,
{
    lemma_number_at_prefix(bytes, start, shorter, longer);
    lemma_number_at_bound(bytes, start, shorter);
    if shorter < longer {
        lemma_number_at_grows(bytes, start, shorter, (longer - 1) as nat);
        lemma_number_at_bound(bytes, start, (longer - 1) as nat);
    }
}

/// Reads a decimal number from its text as the integer `u` with `u /
/// 10^scale` the number, cut off behind `scale` digits of the fraction.
///
/// Gives `Ok(None)` where the text spells a number of `precision` or more
/// digits before the point at that scale, and `Err(())` where it spells none.
pub fn parse_unscaled(bytes: &[u8], precision: u8, scale: u8) -> (r: Result<Option<i128>, ()>)
    requires
        scale <= precision <= MAX_DIGITS,
    ensures
        match r {
            Ok(Some(u)) => decimal_unscaled(bytes@, scale as nat) == Some(u as int) && -pow10(
                precision as nat,
            ) < u < pow10(precision as nat),
            Ok(None) => decimal_unscaled(bytes@, scale as nat) matches Some(u) && !(-pow10(
                precision as nat,
            ) < u < pow10(precision as nat)),
            Err(()) => decimal_unscaled(bytes@, scale as nat) is None,
        },
{
    let n: usize = bytes.len();
    let signed = n > 0 && (bytes[0] == 45 || bytes[0] == 43);
    let negative = signed && bytes[0] == 45;
    let start: usize = if signed {
        1
    } else {
        0
    };
    let whole: usize = count_digits(bytes, start);
    if whole == 0 {
        return Err(());
    }
    proof {
        lemma_digit_run_number(bytes@, start as int, whole as nat);
    }
    let after: usize = start + whole;
    let fraction: usize = if after == n {
        0
    } else {
        if bytes[after] != 46 {
            return Err(());
        }
        let fraction = count_digits(bytes, after + 1);
        if fraction == 0 || after + 1 + fraction != n {
            return Err(());
        }
        fraction
    };
    let kept: usize = if fraction < scale as usize {
        fraction
    } else {
        scale as usize
    };
    proof {
        if fraction > 0 {
            lemma_digit_run_number(bytes@, after + 1, kept as nat);
        }
        lemma_number_at_bound(bytes@, after + 1, kept as nat);
        lemma_number_at_bound(bytes@, start as int, whole as nat);
        lemma_pow10_monotonic(kept as nat, 38);
        lemma_pow10_38();
        lemma_pow10_add((precision - scale) as nat, scale as nat);
        lemma_pow10_add(kept as nat, (scale - kept) as nat);
    }
    let limit: u128 = power_of_ten(precision - scale);
    let unit: u128 = power_of_ten(scale);
    let pad: u128 = power_of_ten(scale - kept as u8);
    let ghost exact = number_at(bytes@, start as int, whole as nat)->0;
    let ghost tail = number_at(bytes@, after + 1, kept as nat)->0;
    let tail_digits: u128 = if kept == 0 {
        0
    } else {
        match read_below(
            bytes,
            after + 1,
            kept,
            100_000_000_000_000_000_000_000_000_000_000_000_000,
        ) {
            Some(digits) => digits,
            None => 0,
        }
    };
    assert(tail_digits == tail);
    assert(0 <= tail * pow10((scale - kept) as nat) < pow10(scale as nat)) by (nonlinear_arith)
        requires
            0 <= tail < pow10(kept as nat),
            pow10(scale as nat) == pow10(kept as nat) * pow10((scale - kept) as nat),
            pow10((scale - kept) as nat) > 0,
    ;
    match read_below(bytes, start, whole, limit) {
        Some(digits) => {
            assert(digits * unit + tail * pad < pow10(precision as nat) && 0 <= digits * unit
                < pow10(precision as nat)) by (nonlinear_arith)
                requires
                    0 <= digits < limit,
                    0 <= tail * pad < unit,
                    limit * unit == pow10(precision as nat),
            ;
            proof {
                lemma_pow10_monotonic(precision as nat, 38);
                lemma_pow10_monotonic(scale as nat, 38);
            }
            let magnitude: u128 = digits * unit + tail_digits * pad;
            if negative {
                Ok(Some(-(magnitude as i128)))
            } else {
                Ok(Some(magnitude as i128))
            }
        },
        None => {
            assert(exact * unit + tail * pad >= pow10(precision as nat)) by (nonlinear_arith)
                requires
                    exact >= limit,
                    0 <= tail * pad,
                    unit > 0,
                    limit * unit == pow10(precision as nat),
            ;
            Ok(None)
        },
    }
}

/// The digits of a natural number are ASCII digits, at least one.
pub proof fn lemma_natural_digits(n: int)
    requires
        0 <= n,
    ensures
        natural_digits(n).len() >= 1,
        forall|i: int|
            0 <= i < natural_digits(n).len() ==> 48 <= #[trigger] natural_digits(n)[i] as int <= 57,
    decreases n,
{
    if n >= 10 {
        lemma_natural_digits(n / 10);
    }
}

/// Bytes that hold the digits of a natural number spell that number.
pub proof fn lemma_natural_spell(bytes: Seq<u8>, start: int, n: int)
    requires
        0 <= start,
        0 <= n,
        start + natural_digits(n).len() <= bytes.len(),
        forall|i: int|
            0 <= i < natural_digits(n).len() ==> #[trigger] bytes[start + i] as int
                == natural_digits(n)[i] as int,
    ensures
        number_at(bytes, start, natural_digits(n).len()) == Some(n),
    decreases n,
{
    let digits = natural_digits(n);
    if n < 10 {
        assert(digits.len() == 1);
        assert(bytes[start + 0] as int == digit_char(n) as int);
        assert(number_at(bytes, start, 0) == Some(0int));
    } else {
        let rest = natural_digits(n / 10);
        lemma_natural_digits(n / 10);
        assert(digits.len() == rest.len() + 1);
        assert forall|i: int| 0 <= i < rest.len() implies #[trigger] bytes[start + i] as int
            == rest[i] as int by {
            assert(digits[i] == rest[i]);
        }
        lemma_natural_spell(bytes, start, n / 10);
        assert(digits[rest.len() as int] == digit_char(n % 10));
        assert(bytes[start + rest.len()] as int == digit_char(n % 10) as int);
    }
}

/// A run of digits that ends at the end of the bytes, or before a byte that
/// is no digit, is the whole run.
pub proof fn lemma_digit_run_exact(bytes: Seq<u8>, from: int, count: nat)
    requires
        0 <= from,
        from + count <= bytes.len(),
        forall|i: int| 0 <= i < count ==> digit_value(#[trigger] bytes[from + i]) is Some,
        from + count == bytes.len() || digit_value(bytes[from + count]) is None,
    ensures
        digit_run(bytes, from) == count,
    decreases count,
{
    if count > 0 {
        assert(digit_value(bytes[from + 0]) is Some);
        assert forall|i: int| 0 <= i < count - 1 implies digit_value(
            #[trigger] bytes[from + 1 + i],
        ) is Some by {
            assert(digit_value(bytes[from + (i + 1)]) is Some);
        }
        lemma_digit_run_exact(bytes, from + 1, (count - 1) as nat);
    }
}

/// Reading the text of a decimal gives the decimal back.
pub proof fn law_parse_formatted_decimal(unscaled: int, precision: nat, scale: nat)
    requires
        scale <= precision <= 38,
        -pow10(precision) < unscaled < pow10(precision),
    ensures
        decimal_unscaled(text_bytes(format_decimal(unscaled, scale)), scale) == Some(unscaled),
{
    let size = if unscaled < 0 {
        -unscaled
    } else {
        unscaled
    };
    lemma_pow10_monotonic(0, scale);
    let unit = pow10(scale);
    let whole = size / unit;
    let part = size % unit;
    assert(whole >= 0 && 0 <= part < unit && size == whole * unit + part) by (nonlinear_arith)
        requires
            size >= 0,
            unit > 0,
            whole == size / unit,
            part == size % unit,
    ;
    let sign = if unscaled < 0 {
        seq!['-']
    } else {
        Seq::<char>::empty()
    };
    let head = natural_digits(whole);
    let tail = if scale > 0 {
        seq!['.'] + decimal_digits(part, scale)
    } else {
        Seq::<char>::empty()
    };
    let text = format_decimal(unscaled, scale);
    assert(text =~= sign + head + tail);
    lemma_natural_digits(whole);
    crate::temporal::lemma_decimal_digits(part, scale);
    let start = sign.len() as int;
    let after = start + head.len();
    assert forall|i: int| 0 <= i < text.len() implies 0 <= #[trigger] text[i] as int <= 127 by {
        if i < start {
            assert(text[i] == sign[i]);
        } else if i < after {
            assert(text[i] == head[i - start]);
        } else {
            assert(text[i] == tail[i - after]);
            if i > after {
                assert(tail[i - after] == decimal_digits(part, scale)[i - after - 1]);
            }
        }
    }
    assert(is_ascii_chars(text));
    is_ascii_chars_encode_utf8(text);
    let bytes = text_bytes(text);
    assert forall|i: int| 0 <= i < head.len() implies #[trigger] bytes[start + i] as int
        == head[i] as int by {
        assert(text[start + i] == head[i]);
    }
    if unscaled < 0 {
        assert(text[0] == '-');
        assert(bytes[0] == 45);
    } else {
        assert(text[0] == head[0]);
        assert(bytes[0] != 45 && bytes[0] != 43);
    }
    assert forall|i: int| 0 <= i < head.len() implies digit_value(#[trigger] bytes[start + i]) is Some by {
        assert(bytes[start + i] as int == head[i] as int);
    }
    if scale > 0 {
        assert(text[after] == '.');
        assert(bytes[after] == 46);
        assert forall|i: int| 0 <= i < scale implies #[trigger] bytes[after + 1 + i] as int
            == decimal_digits(part, scale)[i] as int by {
            assert(text[after + 1 + i] == tail[1 + i]);
        }
        assert forall|i: int| 0 <= i < scale implies digit_value(
            #[trigger] bytes[after + 1 + i],
        ) is Some by {
            assert(bytes[after + 1 + i] as int == decimal_digits(part, scale)[i] as int);
        }
        lemma_digit_run_exact(bytes, after + 1, scale);
        crate::temporal::lemma_digits_spell(bytes, after + 1, part, scale);
    }
    lemma_digit_run_exact(bytes, start, head.len());
    lemma_natural_spell(bytes, start, whole);
    let shape = decimal_shape(bytes)->0;
    assert(decimal_shape(bytes) is Some);
    assert(shape.start == start && shape.whole == head.len() && shape.fraction == (if scale > 0 {
        scale as int
    } else {
        0int
    }));
    assert(shape.negative == (unscaled < 0));
    assert(pow10(0) == 1);
    let kept = if shape.fraction < scale {
        shape.fraction as nat
    } else {
        scale
    };
    assert(kept == scale);
    assert(number_at(bytes, shape.start, shape.whole as nat) == Some(whole));
    if scale == 0 {
        assert(number_at(bytes, after + 1, 0) == Some(0int));
        assert(unit == 1);
        assert(part == 0);
    }
    assert(number_at(bytes, shape.start + shape.whole + 1, kept) == Some(part));
    assert(pow10((scale - kept) as nat) == 1);
    assert(whole * pow10(scale) + part * pow10((scale - kept) as nat) == size) by (nonlinear_arith)
        requires
            size == whole * unit + part,
            unit == pow10(scale),
            pow10((scale - kept) as nat) == 1,
    ;
    assert(decimal_unscaled(bytes, scale) == Some(unscaled));
}

} // verus!
