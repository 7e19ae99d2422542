//! The lookup table that carries the contrast curve.
//!
//! Raising every pixel to the exponent would dominate the inner loop, so the
//! curve is tabulated. The table is indexed by the top bits of the encoding of
//! the input rather than by a linear scale, which keeps the relative resolution
//! constant towards zero, where curves with exponents below one are steep.
use rayon::iter::{IndexedParallelIterator, IntoParallelRefMutIterator, ParallelIterator};
use vstd::prelude::*;

use crate::arith;
use crate::arith::{apply, Op};
use crate::bits;
use crate::bits::{clamp_unit, min_one, to_byte, BYTE_MAX, HALF};

verus! {

/// How many low bits of an encoding the table ignores.
pub const LUT_SHIFT: u32 = 14;

/// How many encodings share one entry: two to the power [`LUT_SHIFT`].
pub const CELL: u32 = 0x4000;

/// How many entries the table has. The encoding of one falls on entry 65024.
pub const LUT_SIZE: usize = 0x1_0000;

/// The entry that an encoding falls on.
pub fn lut_index(v: u32) -> (r: usize)
    ensures
        r == v / CELL,
{
    proof {
        vstd::bits::lemma_u32_shr_is_div(v, LUT_SHIFT);
        vstd::arithmetic::power2::lemma2_to64();
    }
    (v >> LUT_SHIFT) as usize
}

/// The middle of the encodings that fall on entry `i`.
pub open spec fn entry_value(i: int) -> u32 {
    ((i % 0x4_0000) * CELL + CELL / 2) as u32
}

/// The middle of the encodings that [`lut_index`] maps to `i`. The 18 bits of
/// the index that an encoding has room for count.
pub fn lut_value(i: usize) -> (r: u32)
    ensures
        r == entry_value(i as int),
{
    let cell: u32 = (i % 0x4_0000) as u32;
    cell * CELL + CELL / 2
}

/// The grey level of entry `i` under `exponent`: the middle of the entry, at
/// most one, raised to the exponent, and the result in `[0, 1]` rounded to the
/// nearest of 256 levels.
pub open spec fn level<F: Fn(Op, u32, u32) -> u32>(fpu: F, exponent: u32, i: int) -> u8 {
    let curve = arith::eval(fpu, Op::Pow, bits::at_most_one(entry_value(i)), exponent);
    let stretched = arith::eval(fpu, Op::Mul, bits::confined(curve), BYTE_MAX);
    bits::byte_of(arith::eval(fpu, Op::Add, stretched, HALF))
}

/// The whole table for `exponent`.
pub open spec fn table<F: Fn(Op, u32, u32) -> u32>(fpu: F, exponent: u32) -> Seq<u8> {
    Seq::new(LUT_SIZE as nat, |i: int| level(fpu, exponent, i))
}

/// Writes the grey level of entry `i` under `exponent`.
pub fn set_level<F: Fn(Op, u32, u32) -> u32>(entry: &mut u8, i: usize, exponent: u32, fpu: &F)
    requires
        arith::functional(*fpu),
    ensures
        *final(entry) == level(*fpu, exponent, i as int),
{
    let curve: u32 = apply(fpu, Op::Pow, min_one(lut_value(i)), exponent);
    let stretched: u32 = apply(fpu, Op::Mul, clamp_unit(curve), BYTE_MAX);
    *entry = to_byte(apply(fpu, Op::Add, stretched, HALF));
}

/// Writes all entries, spread over the threads of rayon.
///
/// Rests on rayon's `par_iter_mut`, `enumerate` and `for_each`: they hand every
/// entry of the slice, with its index, to exactly one call of [`set_level`], and
/// return when all calls have. The length of the slice stays as it is.
#[verifier::external_body]
fn set_levels<F: Fn(Op, u32, u32) -> u32 + Sync>(entries: &mut [u8], exponent: u32, fpu: &F)
    requires
        arith::functional(*fpu),
    ensures
        final(entries)@ == Seq::new(
            old(entries)@.len(),
            |i: int| level(*fpu, exponent, i),
        ),
{
    entries.par_iter_mut().enumerate().for_each(|(i, entry)| set_level(entry, i, exponent, fpu));
}

/// Recomputes a table for `exponent`.
pub fn fill_table<F: Fn(Op, u32, u32) -> u32 + Sync>(lut: &mut Vec<u8>, exponent: u32, fpu: &F)
    requires
        arith::functional(*fpu),
        old(lut)@.len() == LUT_SIZE,
    ensures
        final(lut)@ == table(*fpu, exponent),
{
    set_levels(lut.as_mut_slice(), exponent, fpu);
}

/// Every encoding of a number in `[0, 1]` has an entry.
pub proof fn law_unit_interval_is_covered(v: u32)
    requires
        v < bits::SIGN,
        bits::value(v) <= bits::unit(),
    ensures
        v / CELL <= 65024,
        v / CELL < LUT_SIZE,
{
    bits::lemma_order_against_one(v);
}

/// The middle of an entry falls on that entry.
pub proof fn law_entry_value_falls_on_its_entry(i: int)
    requires
        0 <= i < 0x4_0000,
    ensures
        entry_value(i) / CELL == i,
{
}

/// The smallest numbers are black under `exponent`: raised to it and stretched to
/// the levels, with a half added, the middle of the first entry stays below one.
pub open spec fn begins_black<F: Fn(Op, u32, u32) -> u32>(fpu: F, exponent: u32) -> bool {
    let curve = bits::confined(arith::eval(fpu, Op::Pow, entry_value(0), exponent));
    let stretched = arith::eval(fpu, Op::Mul, curve, BYTE_MAX);
    bits::value(arith::eval(fpu, Op::Add, stretched, HALF)) < bits::unit()
}

/// The first entry of the table is black, where the smallest numbers are.
pub proof fn law_table_begins_black<F: Fn(Op, u32, u32) -> u32>(fpu: F, exponent: u32)
    requires
        begins_black(fpu, exponent),
    ensures
        table(fpu, exponent)[0] == 0,
{
    let curve = bits::confined(arith::eval(fpu, Op::Pow, entry_value(0), exponent));
    let stretched = arith::eval(fpu, Op::Mul, curve, BYTE_MAX);
    let rounded = arith::eval(fpu, Op::Add, stretched, HALF);
    bits::lemma_order_against_one(entry_value(0));
    bits::lemma_one_is_unit();
    if bits::value(rounded) > 0 {
        vstd::arithmetic::div_mod::lemma_fundamental_div_mod_converse(
            bits::value(rounded),
            bits::unit(),
            0,
            bits::value(rounded),
        );
    }
}

/// The table for exponent one begins black, where raising to one changes nothing
/// and the middle of the first entry, times 255 and plus a half, stays below one.
pub proof fn law_plain_table_begins_black<F: Fn(Op, u32, u32) -> u32>(fpu: F)
    requires
        arith::eval(fpu, Op::Pow, entry_value(0), bits::ONE) == entry_value(0),
        bits::value(
            arith::eval(
                fpu,
                Op::Add,
                arith::eval(fpu, Op::Mul, entry_value(0), BYTE_MAX),
                HALF,
            ),
        ) < bits::unit(),
    ensures
        begins_black(fpu, bits::ONE),
        table(fpu, bits::ONE)[0] == 0,
{
    bits::lemma_order_against_one(entry_value(0));
    law_table_begins_black(fpu, bits::ONE);
}

/// The relative resolution is constant: a number and the middle of its entry
/// are apart by at most a thousandth of the number (one part in 1024). Below the
/// smallest normal number, `2^-126`, they are apart by at most `2^-136`.
pub proof fn law_resolution_is_relative(v: u32)
    requires
        v < bits::INFINITY,
    ensures
        v >= bits::HIDDEN_BIT ==> {
            let w = entry_value((v / CELL) as int);
            &&& 1024 * (bits::value(w) - bits::value(v)) <= bits::value(v)
            &&& 1024 * (bits::value(v) - bits::value(w)) <= bits::value(v)
        },
        v < bits::HIDDEN_BIT ==> -0x2000 <= bits::value(entry_value((v / CELL) as int))
            - bits::value(v) <= 0x2000,
{
    let w = entry_value((v / CELL) as int);
    let (e, fv, fw) = (
        (v / bits::HIDDEN_BIT) as int,
        (v % bits::HIDDEN_BIT) as int,
        (w % bits::HIDDEN_BIT) as int,
    );
    assert(w / bits::HIDDEN_BIT == e);
    assert(-0x2000 <= fv - fw <= 0x2000);
    if e > 0 {
        let p = vstd::arithmetic::power2::pow2((e - 1) as nat) as int;
        vstd::arithmetic::power2::lemma_pow2_pos((e - 1) as nat);
        let (sv, sw) = (bits::HIDDEN_BIT + fv, bits::HIDDEN_BIT + fw);
        assert(1024 * (sw * p - sv * p) <= sv * p && 1024 * (sv * p - sw * p) <= sv * p)
            by (nonlinear_arith)
            requires
                -0x2000 <= sv - sw <= 0x2000,
                sv >= 0x80_0000,
                p > 0,
        ;
    }
}

/// The numbers that share an entry lie around its middle, half of them below and
/// half of them not.
pub proof fn law_entries_lie_around_their_middle(v: u32)
    ensures
        entry_value((v / CELL) as int) - 0x2000 <= v < entry_value((v / CELL) as int) + 0x2000,
{
}

/// The level of an entry is the nearest of the 256 to what the unit makes of its
/// middle: with `x` the middle, or one where that is smaller, and `c` the answer
/// for `x` raised to the exponent, confined to `[0, 1]`, the level is the integer
/// just below `c * 255 + 0.5`.
pub proof fn law_levels_are_the_nearest<F: Fn(Op, u32, u32) -> u32>(
    fpu: F,
    exponent: u32,
    i: int,
    x: u32,
    c: u32,
)
    requires
        0 <= i < 65536,
        x == if i * 0x4000 + 0x2000 < 0x3f80_0000 {
            i * 0x4000 + 0x2000
        } else {
            0x3f80_0000
        },
        ({
            let raised = arith::eval(fpu, Op::Pow, x, exponent);
            if bits::is_nan(raised) {
                c == raised
            } else if bits::value(raised) < 0 {
                c == 0
            } else if bits::value(raised) > bits::unit() {
                c == 0x3f80_0000
            } else {
                c == raised
            }
        }),
    ensures
        table(fpu, exponent).len() == 65536,
        ({
            let product = arith::eval(fpu, Op::Mul, c, 0x437f_0000);
            let sum = arith::eval(fpu, Op::Add, product, 0x3f00_0000);
            let found = table(fpu, exponent)[i];
            &&& bits::is_nan(sum) || bits::value(sum) < 0 ==> found == 0
            &&& !bits::is_nan(sum) && 0 <= bits::value(sum) < 256 * bits::unit() ==> found
                * bits::unit() <= bits::value(sum) < (found + 1) * bits::unit()
            &&& !bits::is_nan(sum) && bits::value(sum) >= 256 * bits::unit() ==> found == 255
        }),
{
    let middle = entry_value(i);
    assert(middle == i * 0x4000 + 0x2000);
    bits::lemma_order_against_one(middle);
    assert(bits::at_most_one(middle) == x);
    assert(bits::confined(arith::eval(fpu, Op::Pow, x, exponent)) == c);
    let product = arith::eval(fpu, Op::Mul, c, 0x437f_0000);
    bits::law_byte_is_the_integer_below(arith::eval(fpu, Op::Add, product, 0x3f00_0000));
}

/// Two exponents to which the unit raises the middle of an entry alike give the
/// entry the same level, and one that raises it higher gives it no lower level,
/// where the unit stretches and rounds in order.
pub proof fn law_levels_follow_the_curve<F: Fn(Op, u32, u32) -> u32>(
    fpu: F,
    low: u32,
    high: u32,
    i: int,
)
    requires
        0 <= i < 65024,
        ({
            let x = (i * 0x4000 + 0x2000) as u32;
            let a = arith::eval(fpu, Op::Pow, x, low);
            let b = arith::eval(fpu, Op::Pow, x, high);
            &&& !bits::is_nan(a)
            &&& !bits::is_nan(b)
            &&& 0 <= bits::value(a) <= bits::value(b) <= bits::unit()
            &&& ({
                let p = arith::eval(fpu, Op::Mul, a, 0x437f_0000);
                let q = arith::eval(fpu, Op::Mul, b, 0x437f_0000);
                let s = arith::eval(fpu, Op::Add, p, 0x3f00_0000);
                let t = arith::eval(fpu, Op::Add, q, 0x3f00_0000);
                &&& !bits::is_nan(s)
                &&& !bits::is_nan(t)
                &&& 0 <= bits::value(s) <= bits::value(t)
            })
        }),
    ensures
        table(fpu, low)[i] <= table(fpu, high)[i],
{
    let x = entry_value(i);
    assert(x == i * 0x4000 + 0x2000);
    bits::lemma_order_against_one(x);
    let a = arith::eval(fpu, Op::Pow, x, low);
    let b = arith::eval(fpu, Op::Pow, x, high);
    let s = arith::eval(fpu, Op::Add, arith::eval(fpu, Op::Mul, a, 0x437f_0000), 0x3f00_0000);
    let t = arith::eval(fpu, Op::Add, arith::eval(fpu, Op::Mul, b, 0x437f_0000), 0x3f00_0000);
    bits::lemma_one_is_unit();
    vstd::arithmetic::div_mod::lemma_div_is_ordered(bits::value(s), bits::value(t), bits::unit());
    vstd::arithmetic::div_mod::lemma_div_is_ordered(0, bits::value(s), bits::unit());
    vstd::arithmetic::div_mod::lemma_div_basics(bits::unit());
}

/// Only the bits of an index that an encoding has room for count.
pub proof fn law_indices_wrap(i: int)
    requires
        0 <= i,
    ensures
        entry_value(i + 0x4_0000) == entry_value(i),
{
}

} // verus!
