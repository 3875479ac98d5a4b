//! Floats as bit patterns: the value that a pattern stands for, and the
//! widening of 32-bit patterns to 64-bit patterns.
use vstd::prelude::*;

verus! {

/// The power of two with the given exponent.
pub open spec fn pow2(exponent: nat) -> int
    decreases exponent,
{
    if exponent == 0 {
        1
    } else {
        2 * pow2((exponent - 1) as nat)
    }
}

/// The powers of two multiply as their exponents add.
pub proof fn lemma_pow2_add(a: nat, b: nat)
    ensures
        pow2(a + b) == pow2(a) * pow2(b),
        pow2(a) > 0,
    decreases a,
{
    if a > 0 {
        lemma_pow2_add((a - 1) as nat, b);
        assert(pow2(a + b) == 2 * pow2((a - 1 + b) as nat));
        assert(2 * (pow2((a - 1) as nat) * pow2(b)) == (2 * pow2((a - 1) as nat)) * pow2(b))
            by (nonlinear_arith);
    } else {
        assert(pow2(a) * pow2(b) == pow2(b)) by (nonlinear_arith)
            requires
                pow2(a) == 1,
        ;
    }
}

/// The values of the powers of two that the formats use.
pub proof fn lemma_pow2_values()
    ensures
        pow2(23) == 0x80_0000,
        pow2(29) == 0x2000_0000,
        pow2(52) == 0x10_0000_0000_0000,
{
    reveal_with_fuel(pow2, 30);
    lemma_pow2_add(23, 29);
}

/// The parts of a float: its sign, its biased exponent and its fraction.
pub struct FloatParts {
    pub negative: bool,
    pub exponent: int,
    pub fraction: int,
}

/// The parts of a 32-bit pattern: 1 bit, 8 bits and 23 bits.
pub open spec fn parts32(bits: u32) -> FloatParts {
    FloatParts {
        negative: bits >= 0x8000_0000,
        exponent: ((bits as int) / 0x80_0000) % 256,
        fraction: (bits as int) % 0x80_0000,
    }
}

/// The parts of a 64-bit pattern: 1 bit, 11 bits and 52 bits.
pub open spec fn parts64(bits: u64) -> FloatParts {
    FloatParts {
        negative: bits >= 0x8000_0000_0000_0000,
        exponent: ((bits as int) / 0x10_0000_0000_0000) % 2048,
        fraction: (bits as int) % 0x10_0000_0000_0000,
    }
}

/// The mantissa `m` and the exponent `x` of the magnitude `m * 2^x` of a
/// finite float with `width` bits of fraction and the given bias: a
/// subnormal float has no leading one.
pub open spec fn magnitude(parts: FloatParts, width: nat, bias: int) -> (int, int) {
    if parts.exponent == 0 {
        (parts.fraction, 1 - bias - width)
    } else {
        (pow2(width) + parts.fraction, parts.exponent - bias - width)
    }
}

/// The 64-bit pattern stands for the float that the 32-bit pattern stands
/// for: the same sign; for an infinity or a NaN the same fraction at the top
/// of the wider one; else the same magnitude, in normal form.
pub open spec fn same_float(narrow: u32, wide: u64) -> bool {
    let a = parts32(narrow);
    let b = parts64(wide);
    &&& a.negative == b.negative
    &&& if a.exponent == 255 {
        b.exponent == 2047 && b.fraction == a.fraction * pow2(29)
    } else {
        let (m, x) = magnitude(a, 23, 127);
        let (n, y) = magnitude(b, 52, 1023);
        &&& b.exponent != 2047
        &&& (b.exponent == 0 ==> b.fraction == 0)
        &&& y <= x
        &&& m * pow2((x - y) as nat) == n
    }
}

/// The fraction of a subnormal float, doubled until it has a leading one at
/// bit 23, and the number of doublings after `steps`.
pub open spec fn normalized(fraction: int, steps: nat) -> (int, nat)
    decreases 23 - steps,
{
    if fraction >= 0x80_0000 || fraction <= 0 || steps >= 23 {
        (fraction, steps)
    } else {
        normalized(2 * fraction, steps + 1)
    }
}

/// The 64-bit pattern of the float of a 32-bit pattern.
pub open spec fn widened(bits: u32) -> u64 {
    let parts = parts32(bits);
    let sign: int = if parts.negative {
        0x8000_0000_0000_0000
    } else {
        0
    };
    if parts.exponent == 255 {
        (sign + 2047 * 0x10_0000_0000_0000 + parts.fraction * 0x2000_0000) as u64
    } else if parts.exponent != 0 {
        (sign + (parts.exponent + 896) * 0x10_0000_0000_0000 + parts.fraction * 0x2000_0000) as u64
    } else if parts.fraction == 0 {
        sign as u64
    } else {
        let (mantissa, steps) = normalized(parts.fraction, 0);
        (sign + (897 - steps) * 0x10_0000_0000_0000 + (mantissa - 0x80_0000) * 0x2000_0000) as u64
    }
}

/// Doubling a fraction until it has a leading one keeps its value in step
/// with the count of doublings, and ends within 23 doublings in all.
pub proof fn lemma_normalized(fraction: int, steps: nat)
    requires
        0 < fraction < 0x100_0000,
        steps <= 23,
        fraction * pow2((23 - steps) as nat) >= 0x80_0000,
    ensures
        ({
            let (mantissa, total) = normalized(fraction, steps);
            &&& steps <= total <= 23
            &&& 0x80_0000 <= mantissa < 0x100_0000
            &&& mantissa == fraction * pow2((total - steps) as nat)
        }),
    decreases 23 - steps,
{
    reveal_with_fuel(pow2, 2);
    if fraction >= 0x80_0000 {
        assert(fraction * pow2(0) == fraction);
    } else if steps >= 23 {
        assert(fraction * pow2(0) == fraction);
    } else {
        let left = (23 - steps - 1) as nat;
        assert(pow2((23 - steps) as nat) == 2 * pow2(left));
        assert((2 * fraction) * pow2(left) == fraction * (2 * pow2(left))) by (nonlinear_arith);
        lemma_normalized(2 * fraction, steps + 1);
        let (mantissa, total) = normalized(2 * fraction, steps + 1);
        let rest = (total - steps - 1) as nat;
        assert(pow2((total - steps) as nat) == 2 * pow2(rest));
        assert((2 * fraction) * pow2(rest) == fraction * (2 * pow2(rest))) by (nonlinear_arith);
    }
}

/// Widens the bit pattern of a 32-bit float to that of the 64-bit float of
/// the same value.
pub fn widen(bits: u32) -> (wide: u64)
    ensures
        wide == widened(bits),
{
    let negative = bits >= 0x8000_0000;
    let exponent: u64 = ((bits / 0x80_0000) % 256) as u64;
    let fraction: u64 = (bits % 0x80_0000) as u64;
    let sign: u64 = if negative {
        0x8000_0000_0000_0000
    } else {
        0
    };
    if exponent == 255 {
        sign + 2047 * 0x10_0000_0000_0000 + fraction * 0x2000_0000
    } else if exponent != 0 {
        sign + (exponent + 896) * 0x10_0000_0000_0000 + fraction * 0x2000_0000
    } else if fraction == 0 {
        sign
    } else {
        let mut mantissa: u64 = fraction;
        let mut steps: u64 = 0;
        while mantissa < 0x80_0000 && steps < 23
            invariant
                0 < mantissa < 0x100_0000,
                steps <= 23,
                normalized(fraction as int, 0) == normalized(mantissa as int, steps as nat),
            decreases 23 - steps,
        {
            mantissa = 2 * mantissa;
            steps = steps + 1;
        }
        proof {
            lemma_leading_one(fraction as int);
        }
        sign + (897 - steps) * 0x10_0000_0000_0000 + (mantissa - 0x80_0000) * 0x2000_0000
    }
}

/// A fraction that is not zero gets its leading one within 23 doublings.
pub proof fn lemma_leading_one(fraction: int)
    requires
        0 < fraction < 0x80_0000,
    ensures
        ({
            let (mantissa, total) = normalized(fraction, 0);
            &&& total <= 23
            &&& 0x80_0000 <= mantissa < 0x100_0000
            &&& mantissa == fraction * pow2(total)
        }),
{
    lemma_pow2_values();
    assert(fraction * pow2(23) >= 0x80_0000) by (nonlinear_arith)
        requires
            fraction >= 1,
            pow2(23) == 0x80_0000,
    ;
    lemma_normalized(fraction, 0);
}

/// The widened pattern stands for the same float.
pub proof fn law_widened_same_float(bits: u32)
    ensures
        same_float(bits, widened(bits)),
{
    lemma_pow2_values();
    let parts = parts32(bits);
    let wide = widened(bits);
    let sign: int = if parts.negative {
        0x8000_0000_0000_0000
    } else {
        0
    };
    if parts.exponent == 255 {
        assert(wide == sign + 2047 * 0x10_0000_0000_0000 + parts.fraction * 0x2000_0000);
        assert(parts64(wide).exponent == 2047);
        assert(parts64(wide).fraction == parts.fraction * 0x2000_0000);
        assert(same_float(bits, wide));
    } else if parts.exponent != 0 {
        assert(wide == sign + (parts.exponent + 896) * 0x10_0000_0000_0000 + parts.fraction
            * 0x2000_0000);
        assert(parts64(wide).exponent == parts.exponent + 896);
        assert(parts64(wide).fraction == parts.fraction * 0x2000_0000);
        lemma_pow2_add(23, 29);
        assert((pow2(23) + parts.fraction) * pow2(29) == pow2(52) + parts.fraction * 0x2000_0000)
            by (nonlinear_arith)
            requires
                pow2(23) * pow2(29) == pow2(52),
                pow2(29) == 0x2000_0000,
        ;
        assert(same_float(bits, wide));
    } else if parts.fraction == 0 {
        reveal_with_fuel(pow2, 1);
        assert(wide == sign);
        assert(parts64(wide).exponent == 0 && parts64(wide).fraction == 0);
        assert(0 * pow2(925) == 0) by (nonlinear_arith);
        assert(same_float(bits, wide));
    } else {
        lemma_leading_one(parts.fraction);
        let (mantissa, steps) = normalized(parts.fraction, 0);
        assert(wide == sign + (897 - steps) * 0x10_0000_0000_0000 + (mantissa - 0x80_0000)
            * 0x2000_0000);
        assert(parts64(wide).exponent == 897 - steps);
        assert(parts64(wide).fraction == (mantissa - 0x80_0000) * 0x2000_0000);
        lemma_pow2_add(steps, 29);
        lemma_pow2_add(23, 29);
        assert(parts.fraction * pow2(steps + 29) == pow2(52) + (mantissa - 0x80_0000)
            * 0x2000_0000) by (nonlinear_arith)
            requires
                mantissa == parts.fraction * pow2(steps),
                pow2(steps + 29) == pow2(steps) * pow2(29),
                pow2(29) == 0x2000_0000,
                pow2(52) == 0x80_0000 * 0x2000_0000,
        ;
        assert(same_float(bits, wide));
    }
}

/// The largest magnitude up to which every integer is a 64-bit float.
pub const EXACT_INTEGER_MAX: i128 = 0x20_0000_0000_0000;

/// A magnitude, doubled until it has a leading one at bit 52, and the number
/// of doublings after `steps`.
pub open spec fn aligned(magnitude: int, steps: nat) -> (int, nat)
    decreases 52 - steps,
{
    if magnitude >= 0x10_0000_0000_0000 || magnitude <= 0 || steps >= 52 {
        (magnitude, steps)
    } else {
        aligned(2 * magnitude, steps + 1)
    }
}

/// The 64-bit pattern of the float of an integer of a magnitude up to 2^53.
pub open spec fn integer_bits(n: int) -> u64 {
    let sign: int = if n < 0 {
        0x8000_0000_0000_0000
    } else {
        0
    };
    let magnitude = if n < 0 {
        -n
    } else {
        n
    };
    if magnitude == 0 {
        0
    } else if magnitude == 0x20_0000_0000_0000 {
        (sign + 1076 * 0x10_0000_0000_0000) as u64
    } else {
        let (mantissa, steps) = aligned(magnitude, 0);
        (sign + (1075 - steps) * 0x10_0000_0000_0000 + (mantissa - 0x10_0000_0000_0000)) as u64
    }
}

/// The 64-bit pattern stands for the integer: the same sign, and a magnitude
/// `m * 2^x` that is the magnitude of the integer; zero is the positive zero.
pub open spec fn same_integer(n: int, wide: u64) -> bool {
    let b = parts64(wide);
    let (m, x) = magnitude(b, 52, 1023);
    let size = if n < 0 {
        -n
    } else {
        n
    };
    &&& b.exponent != 2047
    &&& (b.exponent == 0 ==> b.fraction == 0)
    &&& b.negative == (n < 0)
    &&& if x >= 0 {
        m * pow2(x as nat) == size
    } else {
        m == size * pow2((-x) as nat)
    }
}

/// Doubling a magnitude until it has a leading one at bit 52 keeps its value
/// in step with the count of doublings, and ends within 52 doublings in all.
pub proof fn lemma_aligned(magnitude: int, steps: nat)
    requires
        0 < magnitude < 0x20_0000_0000_0000,
        steps <= 52,
        magnitude * pow2((52 - steps) as nat) >= 0x10_0000_0000_0000,
    ensures
        ({
            let (mantissa, total) = aligned(magnitude, steps);
            &&& steps <= total <= 52
            &&& 0x10_0000_0000_0000 <= mantissa < 0x20_0000_0000_0000
            &&& mantissa == magnitude * pow2((total - steps) as nat)
        }),
    decreases 52 - steps,
{
    reveal_with_fuel(pow2, 2);
    if magnitude >= 0x10_0000_0000_0000 {
        assert(magnitude * pow2(0) == magnitude);
    } else if steps >= 52 {
        assert(magnitude * pow2(0) == magnitude);
    } else {
        let left = (52 - steps - 1) as nat;
        assert(pow2((52 - steps) as nat) == 2 * pow2(left));
        assert((2 * magnitude) * pow2(left) == magnitude * (2 * pow2(left))) by (nonlinear_arith);
        lemma_aligned(2 * magnitude, steps + 1);
        let (mantissa, total) = aligned(2 * magnitude, steps + 1);
        let rest = (total - steps - 1) as nat;
        assert(pow2((total - steps) as nat) == 2 * pow2(rest));
        assert((2 * magnitude) * pow2(rest) == magnitude * (2 * pow2(rest))) by (nonlinear_arith);
    }
}

/// The bit pattern of the 64-bit float of an integer, where the magnitude of
/// the integer is at most 2^53, up to which every integer is such a float.
pub fn integer_to_bits(n: i128) -> (r: Option<u64>)
    ensures
        match r {
            Some(wide) => -EXACT_INTEGER_MAX <= n <= EXACT_INTEGER_MAX && wide == integer_bits(
                n as int,
            ),
            None => n < -EXACT_INTEGER_MAX || n > EXACT_INTEGER_MAX,
        },
{
    if n < -EXACT_INTEGER_MAX || n > EXACT_INTEGER_MAX {
        return None;
    }
    let sign: u64 = if n < 0 {
        0x8000_0000_0000_0000
    } else {
        0
    };
    let magnitude: u64 = if n < 0 {
        (-n) as u64
    } else {
        n as u64
    };
    if magnitude == 0 {
        return Some(0);
    }
    if magnitude == 0x20_0000_0000_0000 {
        return Some(sign + 1076 * 0x10_0000_0000_0000);
    }
    let mut mantissa: u64 = magnitude;
    let mut steps: u64 = 0;
    while mantissa < 0x10_0000_0000_0000 && steps < 52
        invariant
            0 < mantissa < 0x20_0000_0000_0000,
            steps <= 52,
            aligned(magnitude as int, 0) == aligned(mantissa as int, steps as nat),
        decreases 52 - steps,
    {
        mantissa = 2 * mantissa;
        steps = steps + 1;
    }
    proof {
        lemma_pow2_values();
        assert(magnitude * pow2(52) >= 0x10_0000_0000_0000) by (nonlinear_arith)
            requires
                magnitude >= 1,
                pow2(52) == 0x10_0000_0000_0000,
        ;
        lemma_aligned(magnitude as int, 0);
    }
    Some(sign + (1075 - steps) * 0x10_0000_0000_0000 + (mantissa - 0x10_0000_0000_0000))
}

/// The pattern of an integer stands for the integer.
pub proof fn law_integer_bits(n: int)
    requires
        -EXACT_INTEGER_MAX <= n <= EXACT_INTEGER_MAX,
    ensures
        same_integer(n, integer_bits(n)),
{
    lemma_pow2_values();
    reveal_with_fuel(pow2, 2);
    let wide = integer_bits(n);
    let sign: int = if n < 0 {
        0x8000_0000_0000_0000
    } else {
        0
    };
    let size = if n < 0 {
        -n
    } else {
        n
    };
    if size == 0 {
        assert(wide == 0);
        assert(parts64(wide).exponent == 0 && parts64(wide).fraction == 0);
        assert(size * pow2(1074) == 0) by (nonlinear_arith)
            requires
                size == 0,
        ;
        assert(same_integer(n, wide));
    } else if size == 0x20_0000_0000_0000 {
        assert(wide == sign + 1076 * 0x10_0000_0000_0000);
        assert(parts64(wide).exponent == 1076 && parts64(wide).fraction == 0);
        assert(pow2(52) * pow2(1) == size);
        assert(same_integer(n, wide));
    } else {
        assert(size * pow2(52) >= 0x10_0000_0000_0000) by (nonlinear_arith)
            requires
                size >= 1,
                pow2(52) == 0x10_0000_0000_0000,
        ;
        lemma_aligned(size, 0);
        let (mantissa, steps) = aligned(size, 0);
        assert(wide == sign + (1075 - steps) * 0x10_0000_0000_0000 + (mantissa
            - 0x10_0000_0000_0000));
        assert(parts64(wide).exponent == 1075 - steps);
        assert(parts64(wide).fraction == mantissa - 0x10_0000_0000_0000);
        assert(steps == 0 ==> mantissa * pow2(0) == size);
        assert(same_integer(n, wide));
    }
}

} // verus!
