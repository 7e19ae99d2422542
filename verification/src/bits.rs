//! IEEE 754 single-precision numbers as bit patterns.
//!
//! Samples and picture parameters travel through the library as the 32 bits of
//! their single-precision encoding. Everything that needs no rounding (ordering,
//! sign, saturation, conversion to and from integers) is decided here on the
//! bits. What does round is asked of an arithmetic unit, see [`crate::arith`].
use vstd::prelude::*;

verus! {

/// The pattern of `0.0`.
pub const ZERO: u32 = 0;

/// The pattern of `0.5`.
pub const HALF: u32 = 0x3f00_0000;

/// The pattern of `1.0`.
pub const ONE: u32 = 0x3f80_0000;

/// The pattern of `-1.0`.
pub const MINUS_ONE: u32 = 0xbf80_0000;

/// The pattern of `255.0`.
pub const BYTE_MAX: u32 = 0x437f_0000;

/// The pattern of positive infinity. Larger magnitudes are not numbers.
pub const INFINITY: u32 = 0x7f80_0000;

/// The pattern of a quiet not-a-number.
pub const NAN: u32 = 0x7fc0_0000;

/// The sign bit.
pub const SIGN: u32 = 0x8000_0000;

/// One more than the largest fraction field.
pub const HIDDEN_BIT: u32 = 0x80_0000;

/// The pattern without its sign bit.
pub open spec fn magnitude(bits: u32) -> u32 {
    if bits >= SIGN {
        (bits - SIGN) as u32
    } else {
        bits
    }
}

/// Whether the pattern encodes no number.
pub open spec fn is_nan(bits: u32) -> bool {
    magnitude(bits) > INFINITY
}

/// The size that a pattern without sign encodes, in units of `2^-149`, the
/// smallest positive number. Infinity counts as `2^128`.
pub open spec fn scale(bits: u32) -> int {
    let exponent = bits / HIDDEN_BIT;
    let fraction = bits % HIDDEN_BIT;
    if exponent == 0 {
        fraction as int
    } else {
        (HIDDEN_BIT + fraction) * vstd::arithmetic::power2::pow2((exponent - 1) as nat)
    }
}

/// The number that a pattern encodes, in units of `2^-149`.
pub open spec fn value(bits: u32) -> int {
    if bits >= SIGN {
        -scale(magnitude(bits))
    } else {
        scale(bits)
    }
}

/// The number one, in units of `2^-149`.
pub open spec fn unit() -> int {
    vstd::arithmetic::power2::pow2(149) as int
}

/// The number saturated to `[0, 1]`; what is no number becomes zero.
pub open spec fn saturated(bits: u32) -> u32 {
    if is_nan(bits) || value(bits) <= 0 {
        ZERO
    } else if value(bits) > unit() {
        ONE
    } else {
        bits
    }
}

/// The larger of the number and one; what is no number gives one.
pub open spec fn at_least_one(bits: u32) -> u32 {
    if !is_nan(bits) && value(bits) > unit() {
        bits
    } else {
        ONE
    }
}

/// The smaller of the number and one; what is no number gives one.
pub open spec fn at_most_one(bits: u32) -> u32 {
    if !is_nan(bits) && value(bits) < unit() {
        bits
    } else {
        ONE
    }
}

/// The number confined to `[0, 1]`; what is no number stays as it is.
pub open spec fn confined(bits: u32) -> u32 {
    if is_nan(bits) {
        bits
    } else if value(bits) < 0 {
        ZERO
    } else if value(bits) > unit() {
        ONE
    } else {
        bits
    }
}

/// Whether the two patterns compare as unequal numbers. Not-a-number is unequal
/// to everything, and the two zeros are equal.
pub open spec fn unequal(a: u32, b: u32) -> bool {
    is_nan(a) || is_nan(b) || value(a) != value(b)
}

/// The integer part, confined to a byte; what is no number gives zero.
pub open spec fn byte_of(bits: u32) -> u8 {
    if is_nan(bits) || value(bits) <= 0 {
        0
    } else if value(bits) / unit() > 255 {
        255
    } else {
        (value(bits) / unit()) as u8
    }
}

/// The least integer not below the number, confined to `usize`; what is no
/// number gives zero.
pub open spec fn ceiling_of(bits: u32) -> usize {
    if is_nan(bits) || value(bits) <= 0 {
        0
    } else {
        let ceiling = (value(bits) + unit() - 1) / unit();
        if ceiling > usize::MAX {
            usize::MAX
        } else {
            ceiling as usize
        }
    }
}

/// The pattern without sign that encodes the integer `n`.
pub open spec fn encoding(n: int) -> u32 {
    choose|bits: u32| bits <= INFINITY && #[trigger] value(bits) == n * unit()
}

/// Patterns without sign are ordered as the sizes that they encode.
pub proof fn lemma_scale_increases(a: u32, b: u32)
    requires
        a < b,
    ensures
        scale(a) < scale(b),
{
    let (ea, fa) = ((a / HIDDEN_BIT) as int, (a % HIDDEN_BIT) as int);
    let (eb, fb) = ((b / HIDDEN_BIT) as int, (b % HIDDEN_BIT) as int);
    assert(ea < eb || (ea == eb && fa < fb));
    if eb > 0 {
        let pb = vstd::arithmetic::power2::pow2((eb - 1) as nat) as int;
        vstd::arithmetic::power2::lemma_pow2_pos((eb - 1) as nat);
        if ea == eb {
            assert((HIDDEN_BIT + fa) * pb < (HIDDEN_BIT + fb) * pb) by (nonlinear_arith)
                requires
                    fa < fb,
                    pb > 0,
            ;
        } else if ea == 0 {
            assert((HIDDEN_BIT + fb) * pb >= HIDDEN_BIT) by (nonlinear_arith)
                requires
                    fb >= 0,
                    pb >= 1,
            ;
        } else {
            let pa = vstd::arithmetic::power2::pow2((ea - 1) as nat) as int;
            vstd::arithmetic::power2::lemma_pow2_unfold(ea as nat);
            if ea < eb - 1 {
                vstd::arithmetic::power2::lemma_pow2_strictly_increases(ea as nat, (eb - 1) as nat);
            }
            assert(2 * pa <= pb);
            vstd::arithmetic::power2::lemma_pow2_pos((ea - 1) as nat);
            assert((HIDDEN_BIT + fa) * pa < (HIDDEN_BIT + fb) * pb) by (nonlinear_arith)
                requires
                    0 <= fa < HIDDEN_BIT,
                    0 <= fb,
                    pa > 0,
                    2 * pa <= pb,
            ;
        }
    }
}

/// Patterns without sign encode no negative number, and only zero encodes zero.
pub proof fn lemma_scale_positive(bits: u32)
    ensures
        scale(bits) >= 0,
        scale(bits) == 0 <==> bits == 0,
{
    if bits > 0 {
        lemma_scale_increases(0, bits);
    }
}

/// The pattern [`ONE`] encodes one.
pub proof fn lemma_one_is_unit()
    ensures
        scale(ONE) == unit(),
        unit() > 0,
{
    assert(ONE / HIDDEN_BIT == 127 && ONE % HIDDEN_BIT == 0);
    vstd::arithmetic::power2::lemma_pow2_adds(23, 126);
    vstd::arithmetic::power2::lemma2_to64();
    vstd::arithmetic::power2::lemma_pow2_pos(149);
}

/// How the pattern of a number compares with [`ONE`] and with zero is how the
/// number compares with one and with zero.
pub proof fn lemma_order_against_one(bits: u32)
    ensures
        bits < SIGN ==> (bits < ONE <==> value(bits) < unit()),
        bits < SIGN ==> (bits > ONE <==> value(bits) > unit()),
        bits < SIGN ==> value(bits) >= 0,
        bits < SIGN ==> (value(bits) == 0 <==> bits == 0),
        bits >= SIGN ==> value(bits) <= 0,
        bits >= SIGN ==> (value(bits) == 0 <==> bits == SIGN),
        unit() > 0,
{
    lemma_one_is_unit();
    lemma_scale_positive(magnitude(bits));
    if bits < ONE {
        lemma_scale_increases(bits, ONE);
    } else if ONE < bits < SIGN {
        lemma_scale_increases(ONE, bits);
    }
}

/// What saturates is a pattern up to [`ONE`].
pub proof fn lemma_saturated_in_unit(bits: u32)
    ensures
        saturated(bits) <= ONE,
{
    lemma_order_against_one(bits);
}

/// The absolute value: the pattern without its sign.
pub fn abs(bits: u32) -> (r: u32)
    ensures
        r == magnitude(bits),
        value(r) == if value(bits) < 0 { -value(bits) } else { value(bits) },
{
    proof {
        lemma_order_against_one(bits);
    }
    if bits >= SIGN {
        bits - SIGN
    } else {
        bits
    }
}

/// Saturates to `[0, 1]`. What is no number falls to zero.
pub fn saturate(bits: u32) -> (r: u32)
    ensures
        r == saturated(bits),
        r <= ONE,
        0 <= value(r) <= unit(),
{
    proof {
        lemma_order_against_one(bits);
        lemma_order_against_one(ONE);
        lemma_order_against_one(ZERO);
    }
    if bits > INFINITY {
        ZERO
    } else if bits > ONE {
        ONE
    } else {
        bits
    }
}

/// The larger of the number and one.
pub fn max_one(bits: u32) -> (r: u32)
    ensures
        r == at_least_one(bits),
{
    proof {
        lemma_order_against_one(bits);
    }
    if ONE < bits && bits <= INFINITY {
        bits
    } else {
        ONE
    }
}

/// The smaller of the number and one.
pub fn min_one(bits: u32) -> (r: u32)
    ensures
        r == at_most_one(bits),
{
    proof {
        lemma_order_against_one(bits);
    }
    if bits < ONE {
        bits
    } else if SIGN <= bits && bits - SIGN <= INFINITY {
        bits
    } else {
        ONE
    }
}

/// Confines the number to `[0, 1]`.
pub fn clamp_unit(bits: u32) -> (r: u32)
    ensures
        r == confined(bits),
{
    proof {
        lemma_order_against_one(bits);
    }
    if ONE < bits && bits <= INFINITY {
        ONE
    } else if SIGN < bits && bits - SIGN <= INFINITY {
        ZERO
    } else {
        bits
    }
}

/// Whether two numbers are unequal.
pub fn differ(a: u32, b: u32) -> (r: bool)
    ensures
        r == unequal(a, b),
{
    let ma: u32 = abs(a);
    let mb: u32 = abs(b);
    proof {
        lemma_order_against_one(a);
        lemma_order_against_one(b);
        if ma < mb {
            lemma_scale_increases(ma, mb);
        } else if mb < ma {
            lemma_scale_increases(mb, ma);
        }
    }
    ma > INFINITY || mb > INFINITY || (a != b && !(ma == 0 && mb == 0))
}

/// Dividing by a common factor changes neither a quotient nor whether the
/// division leaves nothing.
proof fn lemma_cancel(x: int, d: int, c: int)
    requires
        x >= 0,
        d > 0,
        c > 0,
    ensures
        (x * c) / (d * c) == x / d,
        (x * c) % (d * c) == (x % d) * c,
{
    let (q, r) = (x / d, x % d);
    vstd::arithmetic::div_mod::lemma_fundamental_div_mod(x, d);
    assert(x * c == q * (d * c) + r * c && 0 <= r * c < d * c) by (nonlinear_arith)
        requires
            x == d * q + r,
            0 <= r < d,
            c > 0,
    ;
    vstd::arithmetic::div_mod::lemma_fundamental_div_mod_converse(x * c, d * c, q, r * c);
}

/// The exponent field from which on a number no longer fits in 64 bits.
const WIDE_EXPONENT: u32 = 191;

/// The integer part of a number below `2^64`, and whether that is all of it.
fn integer_part(bits: u32) -> (r: (u64, bool))
    requires
        bits / HIDDEN_BIT < WIDE_EXPONENT,
    ensures
        r.0 == scale(bits) / unit(),
        r.1 == (scale(bits) % unit() == 0),
{
    let exponent: u32 = bits / HIDDEN_BIT;
    let fraction: u32 = bits % HIDDEN_BIT;
    if exponent < 127 {
        proof {
            lemma_order_against_one(bits);
            vstd::arithmetic::div_mod::lemma_fundamental_div_mod_converse(
                scale(bits),
                unit(),
                0,
                scale(bits),
            );
        }
        return (0, bits == 0);
    }
    let significand: u64 = (HIDDEN_BIT + fraction) as u64;
    let ghost p = vstd::arithmetic::power2::pow2((exponent - 1) as nat) as int;
    proof {
        lemma_one_is_unit();
        vstd::arithmetic::power2::lemma_pow2_pos((exponent - 1) as nat);
    }
    if exponent < 150 {
        let shift: u64 = (150 - exponent) as u64;
        let ghost d = vstd::arithmetic::power2::pow2(shift as nat) as int;
        proof {
            vstd::arithmetic::power2::lemma_pow2_pos(shift as nat);
            vstd::arithmetic::power2::lemma_pow2_adds(shift as nat, (exponent - 1) as nat);
            lemma_cancel(significand as int, d, p);
            vstd::bits::lemma_u64_shr_is_div(significand, shift);
            vstd::bits::lemma_u64_pow2_no_overflow(shift as nat);
            vstd::bits::lemma_u64_shl_is_mul(1, shift);
            assert((significand as int % d) * p == 0 <==> significand as int % d == 0)
                by (nonlinear_arith)
                requires
                    p > 0,
            ;
        }
        let divisor: u64 = 1u64 << shift;
        (significand >> shift, significand % divisor == 0)
    } else {
        let shift: u64 = (exponent - 150) as u64;
        let ghost d = vstd::arithmetic::power2::pow2(shift as nat) as int;
        proof {
            vstd::arithmetic::power2::lemma_pow2_pos(shift as nat);
            vstd::arithmetic::power2::lemma_pow2_adds(shift as nat, 149);
            vstd::arithmetic::power2::lemma2_to64_rest();
            vstd::arithmetic::power2::lemma2_to64();
            if shift < 40 {
                vstd::arithmetic::power2::lemma_pow2_strictly_increases(shift as nat, 40);
            }
            assert(significand * d <= 0xff_ffff * 0x100_0000_0000) by (nonlinear_arith)
                requires
                    0 <= significand <= 0xff_ffff,
                    0 < d <= 0x100_0000_0000,
            ;
            assert(0xff_ffffint * 0x100_0000_0000 <= u64::MAX);
            vstd::bits::lemma_u64_shl_is_mul(significand, shift);
            assert(significand * p == (significand * d) * unit()) by (nonlinear_arith)
                requires
                    p == d * unit(),
            ;
            vstd::arithmetic::div_mod::lemma_fundamental_div_mod_converse(
                scale(bits),
                unit(),
                significand * d,
                0,
            );
        }
        (significand << shift, true)
    }
}

/// A number whose exponent field reaches [`WIDE_EXPONENT`] is at least `2^64`.
proof fn lemma_wide(bits: u32)
    requires
        bits / HIDDEN_BIT >= WIDE_EXPONENT,
    ensures
        scale(bits) >= 0x1_0000_0000_0000_0000 * unit(),
{
    let least: u32 = 0x5f80_0000;
    assert(least / HIDDEN_BIT == WIDE_EXPONENT && least % HIDDEN_BIT == 0);
    vstd::arithmetic::power2::lemma_pow2_adds(41, 149);
    vstd::arithmetic::power2::lemma2_to64_rest();
    let p = vstd::arithmetic::power2::pow2(190) as int;
    assert(HIDDEN_BIT * p == 0x1_0000_0000_0000_0000 * unit()) by (nonlinear_arith)
        requires
            p == 0x200_0000_0000 * unit(),
    ;
    if least < bits {
        lemma_scale_increases(least, bits);
    }
}

/// A quotient that reaches `k` is one of at least `k` divisors.
proof fn lemma_quotient_reaches(x: int, d: int, k: int)
    requires
        d > 0,
        x >= k * d,
    ensures
        x / d >= k,
{
    vstd::arithmetic::div_mod::lemma_fundamental_div_mod(x, d);
    assert(x / d >= k) by (nonlinear_arith)
        requires
            x == d * (x / d) + x % d,
            0 <= x % d < d,
            x >= k * d,
            d > 0,
    ;
}

/// Rounding up adds one to the integer part unless the division is exact.
proof fn lemma_ceiling(x: int, d: int)
    requires
        x >= 0,
        d > 0,
    ensures
        (x + d - 1) / d == if x % d == 0 { x / d } else { x / d + 1 },
{
    let (q, r) = (x / d, x % d);
    vstd::arithmetic::div_mod::lemma_fundamental_div_mod(x, d);
    if r == 0 {
        assert(x + d - 1 == q * d + (d - 1)) by (nonlinear_arith)
            requires
                x == d * q + r,
                r == 0,
        ;
        vstd::arithmetic::div_mod::lemma_fundamental_div_mod_converse(x + d - 1, d, q, d - 1);
    } else {
        assert(x + d - 1 == (q + 1) * d + (r - 1)) by (nonlinear_arith)
            requires
                x == d * q + r,
        ;
        vstd::arithmetic::div_mod::lemma_fundamental_div_mod_converse(x + d - 1, d, q + 1, r - 1);
    }
}

/// Converts to a byte: the integer part, confined to `0..=255`.
pub fn to_byte(bits: u32) -> (r: u8)
    ensures
        r == byte_of(bits),
{
    proof {
        lemma_order_against_one(bits);
    }
    if bits == 0 || bits > INFINITY {
        0
    } else if bits / HIDDEN_BIT >= WIDE_EXPONENT {
        proof {
            lemma_wide(bits);
            lemma_quotient_reaches(scale(bits), unit(), 0x1_0000_0000_0000_0000);
        }
        255
    } else {
        let (whole, _exact): (u64, bool) = integer_part(bits);
        if whole > 255 {
            255
        } else {
            whole as u8
        }
    }
}

/// Rounds up to an integer and converts to `usize`, confining it to the range
/// of the type.
pub fn ceil_to_size(bits: u32) -> (r: usize)
    ensures
        r == ceiling_of(bits),
{
    proof {
        lemma_order_against_one(bits);
        lemma_ceiling(scale(bits), unit());
    }
    if bits == 0 || bits > INFINITY {
        0
    } else if bits / HIDDEN_BIT >= WIDE_EXPONENT {
        proof {
            lemma_wide(bits);
            lemma_quotient_reaches(scale(bits), unit(), 0x1_0000_0000_0000_0000);
        }
        usize::MAX
    } else {
        let (whole, exact): (u64, bool) = integer_part(bits);
        if whole >= usize::MAX as u64 {
            usize::MAX
        } else if exact {
            whole as usize
        } else {
            (whole + 1) as usize
        }
    }
}

/// An integer has one pattern without sign.
pub proof fn lemma_encoding_is_unique(bits: u32, n: int)
    requires
        bits <= INFINITY,
        value(bits) == n * unit(),
    ensures
        encoding(n) == bits,
{
    let found = encoding(n);
    assert(found <= INFINITY && value(found) == n * unit());
    if found < bits {
        lemma_scale_increases(found, bits);
    } else if bits < found {
        lemma_scale_increases(bits, found);
    }
}

/// The integers below `2^24` have a pattern.
pub proof fn lemma_integers_are_encoded(n: int)
    requires
        0 <= n < 0x100_0000,
    ensures
        encoding(n) <= INFINITY,
        value(encoding(n)) == n * unit(),
{
    lemma_one_is_unit();
    if n == 0 {
        assert(value(ZERO) == 0 * unit());
        lemma_encoding_is_unique(ZERO, 0);
    } else {
        vstd::arithmetic::power2::lemma2_to64();
        let k = lemma_leading_bit(n, 23);
        let rest = vstd::arithmetic::power2::pow2((23 - k) as nat) as int;
        let power = vstd::arithmetic::power2::pow2(k) as int;
        vstd::arithmetic::power2::lemma_pow2_adds(k, (23 - k) as nat);
        vstd::arithmetic::power2::lemma_pow2_pos((23 - k) as nat);
        assert(HIDDEN_BIT <= n * rest < 2 * HIDDEN_BIT) by (nonlinear_arith)
            requires
                power * rest == HIDDEN_BIT,
                power <= n < 2 * power,
                rest >= 1,
        ;
        let bits = ((127 + k) * HIDDEN_BIT + (n * rest - HIDDEN_BIT)) as u32;
        assert(bits / HIDDEN_BIT == 127 + k && bits % HIDDEN_BIT == n * rest - HIDDEN_BIT);
        vstd::arithmetic::power2::lemma_pow2_adds((23 - k) as nat, (126 + k) as nat);
        let p = vstd::arithmetic::power2::pow2((126 + k) as nat) as int;
        assert((n * rest) * p == n * unit()) by (nonlinear_arith)
            requires
                rest * p == unit(),
        ;
        assert(value(bits) == n * unit());
        lemma_encoding_is_unique(bits, n);
    }
}

/// The integers below `2^24` are no infinity.
pub proof fn lemma_integers_are_finite(n: int)
    requires
        0 <= n < 0x100_0000,
    ensures
        encoding(n) < INFINITY,
{
    lemma_integers_are_encoded(n);
    lemma_one_is_unit();
    lemma_wide(INFINITY);
    assert(n * unit() < 0x1_0000_0000_0000_0000 * unit()) by (nonlinear_arith)
        requires
            n < 0x100_0000,
            unit() > 0,
    ;
}

/// Rounding up keeps the order of numbers.
pub proof fn lemma_ceiling_increases(a: u32, b: u32)
    requires
        !is_nan(a),
        !is_nan(b),
        value(a) <= value(b),
    ensures
        ceiling_of(a) <= ceiling_of(b),
{
    lemma_one_is_unit();
    vstd::arithmetic::div_mod::lemma_div_is_ordered(
        value(a) + unit() - 1,
        value(b) + unit() - 1,
        unit(),
    );
    if value(b) > 0 {
        vstd::arithmetic::div_mod::lemma_div_is_ordered(0, value(b) + unit() - 1, unit());
        vstd::arithmetic::div_mod::lemma_div_basics(unit());
    }
    if value(a) > 0 {
        vstd::arithmetic::div_mod::lemma_div_is_ordered(0, value(a) + unit() - 1, unit());
    }
}

/// The place of the leading bit of `n`, at most `most`.
proof fn lemma_leading_bit(n: int, most: nat) -> (k: nat)
    requires
        1 <= n < vstd::arithmetic::power2::pow2(most + 1),
    ensures
        k <= most,
        vstd::arithmetic::power2::pow2(k) <= n < 2 * vstd::arithmetic::power2::pow2(k),
    decreases most,
{
    vstd::arithmetic::power2::lemma_pow2_unfold(most + 1);
    vstd::arithmetic::power2::lemma2_to64();
    if most == 0 || vstd::arithmetic::power2::pow2(most) <= n {
        most
    } else {
        lemma_leading_bit(n, (most - 1) as nat)
    }
}

/// The pattern of an integer that single precision holds exactly.
pub fn of_size(n: usize) -> (r: u32)
    requires
        n < 0x100_0000,
    ensures
        r <= INFINITY,
        value(r) == n * unit(),
        r == encoding(n as int),
{
    if n == 0 {
        proof {
            lemma_encoding_is_unique(ZERO, 0);
        }
        return ZERO;
    }
    let size: u32 = n as u32;
    let mut power: u32 = 1;
    let mut rest: u32 = HIDDEN_BIT;
    let mut exponent: u32 = 127;
    proof {
        vstd::arithmetic::power2::lemma2_to64();
    }
    while rest > 1 && power * 2 <= size
        invariant
            127 <= exponent <= 150,
            power == vstd::arithmetic::power2::pow2((exponent - 127) as nat),
            rest == vstd::arithmetic::power2::pow2((150 - exponent) as nat),
            power <= size < 0x100_0000,
            power * rest == HIDDEN_BIT,
            1 <= rest <= HIDDEN_BIT,
            rest > 1 || size < 2 * power,
        decreases rest,
    {
        proof {
            vstd::arithmetic::power2::lemma2_to64();
            if exponent == 150 {
                assert(false);
            }
            vstd::arithmetic::power2::lemma_pow2_unfold((exponent + 1 - 127) as nat);
            vstd::arithmetic::power2::lemma_pow2_unfold((150 - exponent) as nat);
            vstd::arithmetic::power2::lemma_pow2_pos((150 - exponent - 1) as nat);
            assert((2 * power) * (rest / 2) == HIDDEN_BIT) by (nonlinear_arith)
                requires
                    power * rest == HIDDEN_BIT,
                    rest == 2 * (rest / 2),
            ;
            assert(rest / 2 == 1 ==> 2 * power == HIDDEN_BIT) by (nonlinear_arith)
                requires
                    (2 * power) * (rest / 2) == HIDDEN_BIT,
            ;
        }
        power = power * 2;
        rest = rest / 2;
        exponent = exponent + 1;
    }
    proof {
        assert(HIDDEN_BIT <= size * rest < 2 * HIDDEN_BIT) by (nonlinear_arith)
            requires
                power * rest == HIDDEN_BIT,
                power <= size < 2 * power,
                rest >= 1,
        ;
    }
    let significand: u32 = size * rest;
    let bits: u32 = exponent * HIDDEN_BIT + (significand - HIDDEN_BIT);
    proof {
        assert(bits / HIDDEN_BIT == exponent && bits % HIDDEN_BIT == significand - HIDDEN_BIT);
        vstd::arithmetic::power2::lemma_pow2_adds((150 - exponent) as nat, (exponent - 1) as nat);
        let p = vstd::arithmetic::power2::pow2((exponent - 1) as nat) as int;
        assert(significand * p == n * unit()) by (nonlinear_arith)
            requires
                significand == n * rest,
                rest * p == unit(),
        ;
        lemma_encoding_is_unique(bits, n as int);
    }
    bits
}

/// Patterns count up from zero: the smallest steps are one unit of `2^-149` each,
/// and each time that the exponent field grows the steps double. The sign bit
/// turns a number into its negative.
pub proof fn law_patterns_count_up(bits: u32)
    requires
        bits < 0x7f80_0000,
    ensures
        value(0) == 0,
        value((bits + 1) as u32) - value(bits) == if bits < 0x100_0000 {
            1
        } else {
            vstd::arithmetic::power2::pow2((bits / 0x80_0000 - 1) as nat) as int
        },
        value((bits + 0x8000_0000) as u32) == -value(bits),
        value(0x3f80_0000) == unit(),
        unit() == vstd::arithmetic::power2::pow2(149),
{
    lemma_one_is_unit();
    vstd::arithmetic::power2::lemma2_to64();
    let next = (bits + 1) as u32;
    let (e, f) = ((bits / HIDDEN_BIT) as int, (bits % HIDDEN_BIT) as int);
    let (e_next, f_next) = ((next / HIDDEN_BIT) as int, (next % HIDDEN_BIT) as int);
    assert((e_next == e && f_next == f + 1) || (e_next == e + 1 && f_next == 0 && f == HIDDEN_BIT
        - 1));
    if e >= 1 {
        let p = vstd::arithmetic::power2::pow2((e - 1) as nat) as int;
        vstd::arithmetic::power2::lemma_pow2_unfold(e as nat);
        assert((HIDDEN_BIT + f + 1) * p == (HIDDEN_BIT + f) * p + p) by (nonlinear_arith);
        assert(HIDDEN_BIT * (2 * p) == (HIDDEN_BIT + HIDDEN_BIT) * p) by (nonlinear_arith);
        if e == 1 {
            assert(p == 1);
        }
    } else if e_next == 1 {
        assert(HIDDEN_BIT * vstd::arithmetic::power2::pow2(0) == HIDDEN_BIT);
    }
}

/// The patterns above infinity, with or without the sign bit, and no others are
/// not numbers; without the sign bit a pattern is its own magnitude.
pub proof fn law_patterns_above_infinity_are_no_numbers(bits: u32)
    requires
        bits < 0x8000_0000,
    ensures
        is_nan(bits) == (bits > 0x7f80_0000),
        is_nan((bits + 0x8000_0000) as u32) == is_nan(bits),
        magnitude(bits) == bits,
        magnitude((bits + 0x8000_0000) as u32) == bits,
{
}

/// Saturating keeps a number in `[0, 1]`, and takes every other to the nearer
/// end, and what is no number to zero.
pub proof fn law_saturation(bits: u32)
    ensures
        saturated(bits) <= 0x3f80_0000,
        !is_nan(bits) && 0 <= value(bits) <= unit() ==> value(saturated(bits)) == value(bits),
        !is_nan(bits) && value(bits) > unit() ==> value(saturated(bits)) == unit(),
        is_nan(bits) || value(bits) < 0 ==> value(saturated(bits)) == 0,
{
    lemma_order_against_one(bits);
    lemma_one_is_unit();
}

/// The larger of a number and one is as large as both, and is one of the two.
pub proof fn law_larger_of_one(bits: u32)
    ensures
        value(at_least_one(bits)) >= unit(),
        !is_nan(at_least_one(bits)),
        !is_nan(bits) ==> value(at_least_one(bits)) >= value(bits),
        at_least_one(bits) == bits || value(at_least_one(bits)) == unit(),
        is_nan(bits) ==> value(at_least_one(bits)) == unit(),
{
    lemma_order_against_one(bits);
    lemma_one_is_unit();
}

/// The smaller of a number and one is as small as both, and is one of the two.
pub proof fn law_smaller_of_one(bits: u32)
    ensures
        value(at_most_one(bits)) <= unit(),
        !is_nan(at_most_one(bits)),
        !is_nan(bits) ==> value(at_most_one(bits)) <= value(bits),
        at_most_one(bits) == bits || value(at_most_one(bits)) == unit(),
        is_nan(bits) ==> value(at_most_one(bits)) == unit(),
{
    lemma_order_against_one(bits);
    lemma_one_is_unit();
}

/// Confining keeps a number in `[0, 1]`, and takes every other to the nearer end;
/// what is no number stays none.
pub proof fn law_confinement(bits: u32)
    ensures
        is_nan(bits) ==> is_nan(confined(bits)),
        !is_nan(bits) ==> !is_nan(confined(bits)) && 0 <= value(confined(bits)) <= unit(),
        !is_nan(bits) && 0 <= value(bits) <= unit() ==> value(confined(bits)) == value(bits),
        !is_nan(bits) && value(bits) > unit() ==> value(confined(bits)) == unit(),
        !is_nan(bits) && value(bits) < 0 ==> value(confined(bits)) == 0,
{
    lemma_order_against_one(bits);
    lemma_one_is_unit();
}

/// Numbers are unequal just where one is larger than the other, and what is no
/// number is unequal even to itself.
pub proof fn law_unequal_numbers(a: u32, b: u32)
    ensures
        unequal(a, b) == unequal(b, a),
        unequal(a, a) == is_nan(a),
        !is_nan(a) && !is_nan(b) ==> (unequal(a, b) <==> value(a) < value(b) || value(a)
            > value(b)),
        is_nan(a) ==> unequal(a, b),
        unequal(0, 0x8000_0000) == false,
{
    lemma_order_against_one(0);
    lemma_order_against_one(0x8000_0000);
}

/// The byte of a number is the integer just below it, and the nearer end of the
/// range where that is no byte.
pub proof fn law_byte_is_the_integer_below(bits: u32)
    ensures
        !is_nan(bits) && 0 <= value(bits) < 256 * unit() ==> byte_of(bits) * unit() <= value(bits)
            < (byte_of(bits) + 1) * unit(),
        !is_nan(bits) && value(bits) >= 256 * unit() ==> byte_of(bits) == 255,
        is_nan(bits) || value(bits) < 0 ==> byte_of(bits) == 0,
{
    lemma_one_is_unit();
    let (v, u) = (value(bits), unit());
    vstd::arithmetic::div_mod::lemma_fundamental_div_mod(v, u);
    let (q, r) = (v / u, v % u);
    assert(q * u <= v < (q + 1) * u) by (nonlinear_arith)
        requires
            v == u * q + r,
            0 <= r < u,
    ;
    if v >= 0 {
        assert(q >= 0 && (v < 256 * u ==> q < 256) && (v >= 256 * u ==> q >= 256))
            by (nonlinear_arith)
            requires
                q * u <= v < (q + 1) * u,
                u > 0,
                v >= 0,
        ;
    }
}

/// A number is rounded up to the integer just above it, and to none below zero.
pub proof fn law_ceiling_is_the_integer_above(bits: u32)
    ensures
        !is_nan(bits) && 0 <= value(bits) <= usize::MAX * unit() ==> (ceiling_of(bits) - 1)
            * unit() < value(bits) <= ceiling_of(bits) * unit(),
        !is_nan(bits) && value(bits) > usize::MAX * unit() ==> ceiling_of(bits) == usize::MAX,
        is_nan(bits) || value(bits) < 0 ==> ceiling_of(bits) == 0,
{
    lemma_one_is_unit();
    let (v, u) = (value(bits), unit());
    if v == 0 {
        assert((0 - 1) * u < 0 && 0 * u == 0) by (nonlinear_arith)
            requires
                u > 0,
        ;
    } else if v > 0 {
        let x = v + u - 1;
        vstd::arithmetic::div_mod::lemma_fundamental_div_mod(x, u);
        let (q, r) = (x / u, x % u);
        let most = usize::MAX as int;
        assert((q - 1) * u < v <= q * u && q >= 1 && (v <= most * u <==> q <= most))
            by (nonlinear_arith)
            requires
                x == u * q + r,
                x == v + u - 1,
                0 <= r < u,
                v > 0,
        ;
    }
}

/// The pattern of an integer encodes it.
pub proof fn law_integers_have_their_pattern(n: int, bits: u32)
    requires
        0 <= n < 0x100_0000,
        bits < 0x8000_0000,
        value(bits) == n * unit(),
    ensures
        encoding(n) == bits,
{
    lemma_wide(INFINITY);
    lemma_one_is_unit();
    assert(n * unit() < 0x1_0000_0000_0000_0000 * unit()) by (nonlinear_arith)
        requires
            n < 0x100_0000,
            unit() > 0,
    ;
    if bits > INFINITY {
        lemma_scale_increases(INFINITY, bits);
    }
    lemma_encoding_is_unique(bits, n);
}

} // verus!
