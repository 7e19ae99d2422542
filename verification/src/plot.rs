//! The recurrence plots themselves: from windows of samples to pixels.
use rayon::iter::{IndexedParallelIterator, ParallelIterator};
use rayon::slice::ParallelSliceMut;
use vstd::prelude::*;

use crate::arith;
use crate::arith::{apply, Op};
use crate::bits;
use crate::bits::{abs, saturate, MINUS_ONE, ONE, ZERO};
use crate::lut;
use crate::lut::lut_index;

verus! {

/// Which recurrence plot is drawn.
#[derive(Clone, Copy, Debug, PartialEq, Eq, Structural)]
pub enum Plot {
    /// `|v1[x]-v2[y]|`: cross recurrence between two channels.
    Two,
    /// `|v1[x]-v2[y]| * |v1[x]-v3[y]| * |v3[x]-v2[y]|`.
    Three,
}

impl Plot {
    /// How many input channels the plot compares.
    pub open spec fn channels(self) -> nat {
        match self {
            Plot::Two => 2,
            Plot::Three => 3,
        }
    }

    /// How many input channels the plot compares.
    pub fn inputs(self) -> (r: usize)
        ensures
            r == self.channels(),
    {
        match self {
            Plot::Two => 2,
            Plot::Three => 3,
        }
    }
}

/// What a pixel depends on: the windows of samples, the tone parameters, and the
/// crop of the matrix that is drawn. The two channel plot does not look at `v3`.
pub struct Matrix {
    pub plot: Plot,
    pub v1: Seq<u32>,
    pub v2: Seq<u32>,
    pub v3: Seq<u32>,
    pub lut: Seq<u8>,
    pub factor: u32,
    pub bwmode: u8,
    pub start_x: int,
    pub start_y: int,
    pub view: int,
}

/// A [`Matrix`] in memory.
#[derive(Clone, Copy)]
pub struct Scene<'a> {
    pub plot: Plot,
    pub v1: &'a [u32],
    pub v2: &'a [u32],
    pub v3: &'a [u32],
    pub lut: &'a [u8],
    pub factor: u32,
    pub bwmode: u8,
    pub start_x: usize,
    pub start_y: usize,
    pub view: usize,
}

impl View for Scene<'_> {
    type V = Matrix;

    open spec fn view(&self) -> Matrix {
        Matrix {
            plot: self.plot,
            v1: self.v1@,
            v2: self.v2@,
            v3: self.v3@,
            lut: self.lut@,
            factor: self.factor,
            bwmode: self.bwmode,
            start_x: self.start_x as int,
            start_y: self.start_y as int,
            view: self.view as int,
        }
    }
}

/// `|a - b|`.
pub open spec fn distance<F: Fn(Op, u32, u32) -> u32>(fpu: F, a: u32, b: u32) -> u32 {
    bits::magnitude(arith::eval(fpu, Op::Sub, a, b))
}

/// One cell of the three channel matrix,
/// `|v1x - v2y| * |v1x - v3y| * |v3x - v2y|`.
pub open spec fn three_cell<F: Fn(Op, u32, u32) -> u32>(
    fpu: F,
    v1x: u32,
    v2y: u32,
    v3x: u32,
    v3y: u32,
) -> u32 {
    arith::eval(
        fpu,
        Op::Mul,
        arith::eval(fpu, Op::Mul, distance(fpu, v1x, v2y), distance(fpu, v1x, v3y)),
        distance(fpu, v3x, v2y),
    )
}

/// The offset and the scale that invert the tone (`bwmode` one) or leave it.
pub open spec fn tone_terms(bwmode: u8) -> (u32, u32) {
    if bwmode == 1 {
        (ONE, MINUS_ONE)
    } else {
        (ZERO, ONE)
    }
}

/// `offset + scale * t`.
pub open spec fn mixed<F: Fn(Op, u32, u32) -> u32>(fpu: F, offset: u32, scale: u32, t: u32) -> u32 {
    arith::eval(fpu, Op::Add, offset, arith::eval(fpu, Op::Mul, scale, t))
}

/// `1 - t` inverted, `t` plain.
pub open spec fn toned<F: Fn(Op, u32, u32) -> u32>(fpu: F, bwmode: u8, t: u32) -> u32 {
    mixed(fpu, tone_terms(bwmode).0, tone_terms(bwmode).1, t)
}

/// The encoding by which the table is read for a cell of value `val`.
pub open spec fn tone<F: Fn(Op, u32, u32) -> u32>(
    fpu: F,
    val: u32,
    factor: u32,
    bwmode: u8,
) -> u32 {
    toned(fpu, bwmode, bits::saturated(arith::eval(fpu, Op::Mul, val, factor)))
}

/// Whatever the unit answers, toning a number in `[0, 1]` gives one that a table
/// of `size` entries has an entry for.
pub open spec fn tones_fit<F: Fn(Op, u32, u32) -> u32>(fpu: F, bwmode: u8, size: nat) -> bool {
    forall|t: u32, m: u32, r: u32|
        #![trigger call_ensures(fpu, (Op::Mul, tone_terms(bwmode).1, t), m), call_ensures(
            fpu,
            (Op::Add, tone_terms(bwmode).0, m),
            r,
        )]
        t <= ONE && call_ensures(fpu, (Op::Mul, tone_terms(bwmode).1, t), m) && call_ensures(
            fpu,
            (Op::Add, tone_terms(bwmode).0, m),
            r,
        ) ==> r / lut::CELL < size
}

/// Whatever the unit answers, toning a number in `[0, 1]`, plain or inverted,
/// gives a number in `[0, 1]`.
pub open spec fn keeps_unit<F: Fn(Op, u32, u32) -> u32>(fpu: F) -> bool {
    forall|bwmode: u8, t: u32, m: u32, r: u32|
        #![trigger call_ensures(fpu, (Op::Mul, tone_terms(bwmode).1, t), m), call_ensures(
            fpu,
            (Op::Add, tone_terms(bwmode).0, m),
            r,
        )]
        t <= ONE && call_ensures(fpu, (Op::Mul, tone_terms(bwmode).1, t), m) && call_ensures(
            fpu,
            (Op::Add, tone_terms(bwmode).0, m),
            r,
        ) ==> r <= ONE
}

impl Matrix {
    /// The value of the matrix cell in column `x` and row `y`.
    pub open spec fn cell<F: Fn(Op, u32, u32) -> u32>(self, fpu: F, x: int, y: int) -> u32 {
        match self.plot {
            Plot::Two => distance(fpu, self.v1[x], self.v2[y]),
            Plot::Three => three_cell(fpu, self.v1[x], self.v2[y], self.v3[x], self.v3[y]),
        }
    }

    /// The grey level of the matrix cell in column `x` and row `y`.
    pub open spec fn grey<F: Fn(Op, u32, u32) -> u32>(self, fpu: F, x: int, y: int) -> u8 {
        self.lut[(tone(fpu, self.cell(fpu, x, y), self.factor, self.bwmode) / lut::CELL) as int]
    }

    /// The windows reach over `columns` columns and `rows` rows of the crop, and
    /// the table over every tone. Where there is nothing to draw, nothing is asked
    /// of them.
    pub open spec fn covers<F: Fn(Op, u32, u32) -> u32>(
        self,
        fpu: F,
        columns: int,
        rows: int,
    ) -> bool {
        &&& arith::functional(fpu)
        &&& columns > 0 ==> {
            &&& tones_fit(fpu, self.bwmode, self.lut.len())
            &&& self.start_x + columns <= self.v1.len()
            &&& self.plot == Plot::Three ==> self.start_x + columns <= self.v3.len()
        }
        &&& rows > 0 ==> {
            &&& self.start_y + rows <= self.v2.len()
            &&& self.plot == Plot::Three ==> self.start_y + rows <= self.v3.len()
        }
    }
}

/// Pixel `p` of an RGBA buffer is an opaque grey.
pub open spec fn painted(pixels: Seq<u8>, p: int, grey: u8) -> bool {
    &&& pixels[4 * p] == grey
    &&& pixels[4 * p + 1] == grey
    &&& pixels[4 * p + 2] == grey
    &&& pixels[4 * p + 3] == 255
}

/// How many rows of `view` pixels a buffer of `len` bytes touches.
pub open spec fn rows_touched(len: int, view: int) -> int {
    (len + 4 * view - 1) / (4 * view)
}

/// How many columns of rows of `view` pixels a buffer of `len` bytes touches.
pub open spec fn columns_touched(len: int, view: int) -> int {
    if len / 4 < view {
        len / 4
    } else {
        view
    }
}

/// The buffer holds the crop row by row: column index to matrix `x`, row index
/// to matrix `y`. Bytes that make no whole pixel are as before.
pub open spec fn drawn<F: Fn(Op, u32, u32) -> u32>(
    before: Seq<u8>,
    after: Seq<u8>,
    matrix: Matrix,
    fpu: F,
) -> bool {
    &&& after.len() == before.len()
    &&& forall|p: int|
        0 <= p < after.len() / 4 ==> #[trigger] painted(
            after,
            p,
            matrix.grey(fpu, matrix.start_x + p % matrix.view, matrix.start_y + p
                / matrix.view),
        )
    &&& forall|b: int|
        after.len() - after.len() % 4 <= b < after.len() ==> #[trigger] after[b] == before[b]
}

/// The offset and the scale of the tone: `1 - t` where `bwmode` is one, `t`
/// otherwise, without a branch per pixel.
pub fn bw_terms(bwmode: u8) -> (r: (u32, u32))
    ensures
        r == tone_terms(bwmode),
{
    if bwmode == 1 {
        (ONE, MINUS_ONE)
    } else {
        (ZERO, ONE)
    }
}

/// The grey level of a raw recurrence value: scaled by `factor`, saturated to
/// `[0, 1]`, toned, and read from the table.
pub open spec fn shaded<F: Fn(Op, u32, u32) -> u32>(
    fpu: F,
    val: u32,
    factor: u32,
    offset: u32,
    scale: u32,
    lut: Seq<u8>,
) -> u8 {
    let t = bits::saturated(arith::eval(fpu, Op::Mul, val, factor));
    lut[(mixed(fpu, offset, scale, t) / lut::CELL) as int]
}

/// Whatever the unit answers, a table of `size` entries has one for the value
/// scaled by `factor`, saturated to `[0, 1]` and toned.
pub open spec fn entry_exists<F: Fn(Op, u32, u32) -> u32>(
    fpu: F,
    val: u32,
    factor: u32,
    offset: u32,
    scale: u32,
    size: nat,
) -> bool {
    forall|p: u32, m: u32, r: u32|
        #![trigger call_ensures(fpu, (Op::Mul, val, factor), p), call_ensures(
            fpu,
            (Op::Mul, scale, bits::saturated(p)),
            m,
        ), call_ensures(fpu, (Op::Add, offset, m), r)]
        call_ensures(fpu, (Op::Mul, val, factor), p) && call_ensures(
            fpu,
            (Op::Mul, scale, bits::saturated(p)),
            m,
        ) && call_ensures(fpu, (Op::Add, offset, m), r) ==> r / lut::CELL < size
}

/// Maps one raw recurrence value to a grey level.
///
/// The scaled value saturates to `[0, 1]`, and what is no number becomes zero,
/// so that no value reads outside the table. `bw_offset + bw_scale * t` is
/// `1 - t` inverted or `t` plain. The inversion comes before the table: that
/// keeps the table's relative precision on the quantity that is raised to the
/// exponent.
pub fn shade<F: Fn(Op, u32, u32) -> u32>(
    val: u32,
    factor: u32,
    bw_offset: u32,
    bw_scale: u32,
    lut: &[u8],
    fpu: &F,
) -> (r: u8)
    requires
        arith::functional(*fpu),
        entry_exists(*fpu, val, factor, bw_offset, bw_scale, lut@.len()),
    ensures
        r == shaded(*fpu, val, factor, bw_offset, bw_scale, lut@),
{
    let t: u32 = saturate(apply(fpu, Op::Mul, val, factor));
    let tone: u32 = apply(fpu, Op::Add, bw_offset, apply(fpu, Op::Mul, bw_scale, t));
    lut[lut_index(tone)]
}

/// A table with an entry for every tone has one for every value.
proof fn lemma_tones_have_entries<F: Fn(Op, u32, u32) -> u32>(
    fpu: F,
    val: u32,
    factor: u32,
    bwmode: u8,
    size: nat,
)
    requires
        tones_fit(fpu, bwmode, size),
    ensures
        entry_exists(fpu, val, factor, tone_terms(bwmode).0, tone_terms(bwmode).1, size),
{
    assert forall|p: u32| #[trigger] bits::saturated(p) <= ONE by {
        bits::lemma_saturated_in_unit(p);
    }
}

/// `|a - b|`.
fn gap<F: Fn(Op, u32, u32) -> u32>(a: u32, b: u32, fpu: &F) -> (r: u32)
    requires
        arith::functional(*fpu),
    ensures
        r == distance(*fpu, a, b),
{
    abs(apply(fpu, Op::Sub, a, b))
}

/// The value of the matrix cell in column `x` and row `y`.
fn cell_value<F: Fn(Op, u32, u32) -> u32>(scene: &Scene, x: usize, y: usize, fpu: &F) -> (r: u32)
    requires
        arith::functional(*fpu),
        x < scene.v1@.len(),
        y < scene.v2@.len(),
        scene.plot == Plot::Three ==> x < scene.v3@.len() && y < scene.v3@.len(),
    ensures
        r == scene@.cell(*fpu, x as int, y as int),
{
    match scene.plot {
        Plot::Two => gap(scene.v1[x], scene.v2[y], fpu),
        Plot::Three => {
            let v1x: u32 = scene.v1[x];
            let v2y: u32 = scene.v2[y];
            let first: u32 = gap(v1x, v2y, fpu);
            let second: u32 = gap(v1x, scene.v3[y], fpu);
            let third: u32 = gap(scene.v3[x], v2y, fpu);
            apply(fpu, Op::Mul, apply(fpu, Op::Mul, first, second), third)
        },
    }
}

/// Draws row `row` of the crop into its part of the buffer.
pub fn paint_row<F: Fn(Op, u32, u32) -> u32>(out: &mut [u8], row: usize, scene: &Scene, fpu: &F)
    requires
        scene@.covers(*fpu, old(out)@.len() as int / 4, row + 1),
    ensures
        final(out)@.len() == old(out)@.len(),
        forall|col: int|
            0 <= col < final(out)@.len() / 4 ==> #[trigger] painted(
                final(out)@,
                col,
                scene@.grey(*fpu, scene.start_x + col, scene.start_y + row),
            ),
        forall|b: int|
            final(out)@.len() - final(out)@.len() % 4 <= b < final(out)@.len()
                ==> #[trigger] final(out)@[b] == old(out)@[b],
{
    let width: usize = scene.v1.len();
    let height: usize = scene.v2.len();
    assert(scene.start_y + row < height);
    let y: usize = scene.start_y + row;
    let size: usize = out.len();
    let columns: usize = size / 4;
    let (bw_offset, bw_scale): (u32, u32) = bw_terms(scene.bwmode);
    let mut col: usize = 0;
    while col < columns
        invariant
            scene@.covers(*fpu, old(out)@.len() as int / 4, row + 1),
            y == scene.start_y + row,
            (bw_offset, bw_scale) == tone_terms(scene.bwmode),
            columns > 0 ==> scene.start_x + columns <= width,
            columns == size / 4,
            size == old(out)@.len(),
            out@.len() == old(out)@.len(),
            0 <= col <= columns,
            forall|c: int|
                0 <= c < col ==> #[trigger] painted(
                    out@,
                    c,
                    scene@.grey(*fpu, scene.start_x + c, scene.start_y + row),
                ),
            forall|b: int| 4 * col <= b < out@.len() ==> #[trigger] out@[b] == old(out)@[b],
        decreases columns - col,
    {
        let ghost before = out@;
        let val: u32 = cell_value(scene, scene.start_x + col, y, fpu);
        proof {
            lemma_tones_have_entries(
                *fpu,
                val,
                scene.factor,
                scene.bwmode,
                scene.lut@.len(),
            );
        }
        let g: u8 = shade(val, scene.factor, bw_offset, bw_scale, scene.lut, fpu);
        out[4 * col] = g;
        out[4 * col + 1] = g;
        out[4 * col + 2] = g;
        out[4 * col + 3] = 255;
        proof {
            assert forall|c: int| 0 <= c < col implies #[trigger] painted(
                out@,
                c,
                scene@.grey(*fpu, scene.start_x + c, scene.start_y + row),
            ) by {
                assert(painted(
                    before,
                    c,
                    scene@.grey(*fpu, scene.start_x + c, scene.start_y + row),
                ));
            }
        }
        col = col + 1;
    }
}

/// Draws all rows of the crop, spread over the threads of rayon.
///
/// Rests on rayon's `par_chunks_mut`, `enumerate` and `for_each`: they cut the
/// buffer into consecutive pieces of `row_bytes` bytes, a row each (the last may
/// be shorter), hand every piece, with its index, to exactly one call of
/// [`paint_row`], and return when all calls have.
#[verifier::external_body]
fn paint_rows<F: Fn(Op, u32, u32) -> u32 + Sync>(
    pixels: &mut [u8],
    row_bytes: usize,
    scene: &Scene,
    fpu: &F,
)
    requires
        0 < scene.view,
        row_bytes == 4 * scene.view,
        scene@.covers(
            *fpu,
            columns_touched(old(pixels)@.len() as int, scene.view as int),
            rows_touched(old(pixels)@.len() as int, scene.view as int),
        ),
    ensures
        drawn(old(pixels)@, final(pixels)@, scene@, *fpu),
{
    pixels.par_chunks_mut(row_bytes).enumerate().for_each(
        |(row, out)| paint_row(out, row, scene, fpu),
    );
}

/// Writes the crop of the three channel matrix into an RGBA buffer.
///
/// The cells are `|v1[x]-v2[y]| * |v1[x]-v3[y]| * |v3[x]-v2[y]|`, scaled by
/// `factor`, optionally inverted (`bwmode`), then mapped to grey through `lut`,
/// which carries the exponent.
pub fn fill_pixels_three<F: Fn(Op, u32, u32) -> u32 + Sync>(
    pixels: &mut [u8],
    v1: &[u32],
    v2: &[u32],
    v3: &[u32],
    lut: &[u8],
    factor: u32,
    bwmode: u8,
    start_x: usize,
    start_y: usize,
    view: usize,
    fpu: &F,
)
    requires
        0 < view,
        4 * view <= usize::MAX,
        (Matrix {
            plot: Plot::Three,
            v1: v1@,
            v2: v2@,
            v3: v3@,
            lut: lut@,
            factor,
            bwmode,
            start_x: start_x as int,
            start_y: start_y as int,
            view: view as int,
        }).covers(
            *fpu,
            columns_touched(old(pixels)@.len() as int, view as int),
            rows_touched(old(pixels)@.len() as int, view as int),
        ),
    ensures
        drawn(
            old(pixels)@,
            final(pixels)@,
            (Matrix {
                plot: Plot::Three,
                v1: v1@,
                v2: v2@,
                v3: v3@,
                lut: lut@,
                factor,
                bwmode,
                start_x: start_x as int,
                start_y: start_y as int,
                view: view as int,
            }),
            *fpu,
        ),
{
    let scene = Scene {
        plot: Plot::Three,
        v1,
        v2,
        v3,
        lut,
        factor,
        bwmode,
        start_x,
        start_y,
        view,
    };
    paint_rows(pixels, view * 4, &scene, fpu);
}

/// Writes the crop of the two channel matrix `|v1[x]-v2[y]|` into an RGBA
/// buffer.
///
/// The values run over roughly half the range of the three channel product, so
/// the same factor looks darker here.
pub fn fill_pixels_two<F: Fn(Op, u32, u32) -> u32 + Sync>(
    pixels: &mut [u8],
    v1: &[u32],
    v2: &[u32],
    lut: &[u8],
    factor: u32,
    bwmode: u8,
    start_x: usize,
    start_y: usize,
    view: usize,
    fpu: &F,
)
    requires
        0 < view,
        4 * view <= usize::MAX,
        (Matrix {
            plot: Plot::Two,
            v1: v1@,
            v2: v2@,
            v3: v2@,
            lut: lut@,
            factor,
            bwmode,
            start_x: start_x as int,
            start_y: start_y as int,
            view: view as int,
        }).covers(
            *fpu,
            columns_touched(old(pixels)@.len() as int, view as int),
            rows_touched(old(pixels)@.len() as int, view as int),
        ),
    ensures
        drawn(
            old(pixels)@,
            final(pixels)@,
            (Matrix {
                plot: Plot::Two,
                v1: v1@,
                v2: v2@,
                v3: v2@,
                lut: lut@,
                factor,
                bwmode,
                start_x: start_x as int,
                start_y: start_y as int,
                view: view as int,
            }),
            *fpu,
        ),
{
    let scene = Scene {
        plot: Plot::Two,
        v1,
        v2,
        v3: v2,
        lut,
        factor,
        bwmode,
        start_x,
        start_y,
        view,
    };
    paint_rows(pixels, view * 4, &scene, fpu);
}

/// A zero of either sign, or no number: what saturates to zero.
pub open spec fn vanishes(a: u32) -> bool {
    bits::is_nan(a) || bits::magnitude(a) == 0
}

/// Zeros behave as in IEEE 754 arithmetic: a number minus itself vanishes, a
/// product with a vanishing factor vanishes, and `0 + 1 * 0` is zero.
pub open spec fn zeros_behave<F: Fn(Op, u32, u32) -> u32>(fpu: F) -> bool {
    &&& forall|a: u32| vanishes(#[trigger] arith::eval(fpu, Op::Sub, a, a))
    &&& forall|a: u32, b: u32|
        vanishes(a) || vanishes(b) ==> vanishes(#[trigger] arith::eval(fpu, Op::Mul, a, b))
    &&& arith::eval(fpu, Op::Add, ZERO, arith::eval(fpu, Op::Mul, ONE, ZERO)) == ZERO
}

impl Matrix {
    /// Two of the channels that the plot compares carry the same sample at `i`.
    pub open spec fn duplicated_at(self, i: int) -> bool {
        ||| self.v1[i] == self.v2[i]
        ||| self.plot == Plot::Three && (self.v1[i] == self.v3[i] || self.v2[i] == self.v3[i])
    }
}

/// The line of identity: wherever two channels carry the same sample, the cell
/// on the diagonal is read from the first entry of the table, or from where zero
/// is inverted to.
pub proof fn law_duplicates_meet_on_the_diagonal<F: Fn(Op, u32, u32) -> u32>(
    matrix: Matrix,
    fpu: F,
    i: int,
)
    requires
        zeros_behave(fpu),
        matrix.duplicated_at(i),
    ensures
        matrix.grey(fpu, i, i) == matrix.lut[(toned(fpu, matrix.bwmode, ZERO) / lut::CELL) as int],
        matrix.bwmode != 1 ==> matrix.grey(fpu, i, i) == matrix.lut[0],
{
    let (a, b) = (matrix.v1[i], matrix.v2[i]);
    assert(vanishes(matrix.cell(fpu, i, i))) by {
        if matrix.plot == Plot::Three {
            let c = matrix.v3[i];
            let pair = arith::eval(fpu, Op::Mul, distance(fpu, a, b), distance(fpu, a, c));
            assert(vanishes(pair) || vanishes(distance(fpu, c, b)));
            assert(vanishes(arith::eval(fpu, Op::Mul, pair, distance(fpu, c, b))));
        }
    }
    let scaled = arith::eval(fpu, Op::Mul, matrix.cell(fpu, i, i), matrix.factor);
    assert(vanishes(scaled));
    bits::lemma_order_against_one(scaled);
    assert(bits::saturated(scaled) == ZERO);
}

/// A plot whose crop lies on the diagonal, of inputs of which two carry the
/// same signal, shows a line in the first entry of the table from its top left to
/// its bottom right.
pub proof fn law_duplicates_draw_a_diagonal<F: Fn(Op, u32, u32) -> u32>(
    before: Seq<u8>,
    after: Seq<u8>,
    matrix: Matrix,
    fpu: F,
    i: int,
)
    requires
        zeros_behave(fpu),
        drawn(before, after, matrix, fpu),
        matrix.start_x == matrix.start_y,
        matrix.bwmode != 1,
        0 <= i < matrix.view,
        i * matrix.view + i < after.len() / 4,
        matrix.duplicated_at(matrix.start_x + i),
    ensures
        painted(after, i * matrix.view + i, matrix.lut[0]),
{
    let p = i * matrix.view + i;
    vstd::arithmetic::div_mod::lemma_fundamental_div_mod_converse(p, matrix.view, i, i);
    assert(p >= 0) by (nonlinear_arith)
        requires
            p == i * matrix.view + i,
            i >= 0,
            matrix.view >= 0,
    ;
    law_duplicates_meet_on_the_diagonal(matrix, fpu, matrix.start_x + i);
    assert(painted(
        after,
        p,
        matrix.grey(
            fpu,
            matrix.start_x + p % matrix.view,
            matrix.start_y + p / matrix.view,
        ),
    ));
}

/// That line is black, where the table is that of an exponent which leaves the
/// smallest numbers black.
pub proof fn law_duplicates_draw_a_black_diagonal<F: Fn(Op, u32, u32) -> u32>(
    before: Seq<u8>,
    after: Seq<u8>,
    matrix: Matrix,
    exponent: u32,
    fpu: F,
    i: int,
)
    requires
        zeros_behave(fpu),
        drawn(before, after, matrix, fpu),
        matrix.lut == lut::table(fpu, exponent),
        lut::begins_black(fpu, exponent),
        matrix.start_x == matrix.start_y,
        matrix.bwmode != 1,
        0 <= i < matrix.view,
        i * matrix.view + i < after.len() / 4,
        matrix.duplicated_at(matrix.start_x + i),
    ensures
        painted(after, i * matrix.view + i, 0),
{
    law_duplicates_draw_a_diagonal(before, after, matrix, fpu, i);
    lut::law_table_begins_black(fpu, exponent);
}

/// The same number, or no number both times: what saturates alike.
pub open spec fn alike(a: u32, b: u32) -> bool {
    a == b || (bits::is_nan(a) && bits::is_nan(b))
}

/// Distances behave as in IEEE 754 arithmetic: `|a - b|` is `|b - a|`, and a
/// product depends on its factors as numbers only.
pub open spec fn distances_behave<F: Fn(Op, u32, u32) -> u32>(fpu: F) -> bool {
    &&& forall|a: u32, b: u32| alike(#[trigger] distance(fpu, a, b), distance(fpu, b, a))
    &&& forall|a: u32, b: u32, c: u32, d: u32|
        #![trigger arith::eval(fpu, Op::Mul, a, b), arith::eval(fpu, Op::Mul, c, d)]
        alike(a, c) && alike(b, d) ==> alike(
            arith::eval(fpu, Op::Mul, a, b),
            arith::eval(fpu, Op::Mul, c, d),
        )
}

/// The same signal in all channels draws a symmetric picture: mirroring it at
/// the line of identity changes nothing.
pub proof fn law_one_signal_draws_a_symmetric_picture<F: Fn(Op, u32, u32) -> u32>(
    matrix: Matrix,
    fpu: F,
    x: int,
    y: int,
)
    requires
        distances_behave(fpu),
        matrix.v1 == matrix.v2,
        matrix.plot == Plot::Three ==> matrix.v1 == matrix.v3,
    ensures
        matrix.grey(fpu, x, y) == matrix.grey(fpu, y, x),
{
    let (a, b) = (matrix.v1[x], matrix.v1[y]);
    let (there, back) = (distance(fpu, a, b), distance(fpu, b, a));
    assert(alike(there, back));
    assert(alike(matrix.cell(fpu, x, y), matrix.cell(fpu, y, x))) by {
        if matrix.plot == Plot::Three {
            assert(alike(
                arith::eval(fpu, Op::Mul, there, there),
                arith::eval(fpu, Op::Mul, back, back),
            ));
        }
    }
    assert(alike(
        arith::eval(fpu, Op::Mul, matrix.cell(fpu, x, y), matrix.factor),
        arith::eval(fpu, Op::Mul, matrix.cell(fpu, y, x), matrix.factor),
    ));
}

/// Exchanging the two channels, and the two offsets with them, transposes the
/// two channel picture: what was in column `row` and row `col` is in column `col`
/// and row `row` now.
pub proof fn law_exchanged_channels_transpose_the_picture<F: Fn(Op, u32, u32) -> u32>(
    blank: Seq<u8>,
    picture: Seq<u8>,
    matrix: Matrix,
    other_blank: Seq<u8>,
    other_picture: Seq<u8>,
    exchanged: Matrix,
    fpu: F,
    row: int,
    col: int,
)
    requires
        distances_behave(fpu),
        matrix.plot == Plot::Two,
        exchanged == (Matrix {
            v1: matrix.v2,
            v2: matrix.v1,
            v3: exchanged.v3,
            start_x: matrix.start_y,
            start_y: matrix.start_x,
            ..matrix
        }),
        drawn(blank, picture, matrix, fpu),
        drawn(other_blank, other_picture, exchanged, fpu),
        0 <= row < matrix.view,
        0 <= col < matrix.view,
        row * matrix.view + col < other_picture.len() / 4,
        col * matrix.view + row < picture.len() / 4,
    ensures
        forall|k: int|
            0 <= k < 4 ==> #[trigger] other_picture[4 * (row * matrix.view + col) + k]
                == picture[4 * (col * matrix.view + row) + k],
{
    let view = matrix.view;
    let (p, q) = (col * view + row, row * view + col);
    assert(p >= 0 && q >= 0) by (nonlinear_arith)
        requires
            p == col * view + row,
            q == row * view + col,
            0 <= row < view,
            0 <= col < view,
    ;
    vstd::arithmetic::div_mod::lemma_fundamental_div_mod_converse(p, view, col, row);
    vstd::arithmetic::div_mod::lemma_fundamental_div_mod_converse(q, view, row, col);
    let (x, y) = (matrix.start_x + row, matrix.start_y + col);
    let (there, back) = (matrix.cell(fpu, x, y), exchanged.cell(fpu, y, x));
    assert(alike(there, back));
    assert(alike(
        arith::eval(fpu, Op::Mul, there, matrix.factor),
        arith::eval(fpu, Op::Mul, back, matrix.factor),
    ));
    assert(matrix.grey(fpu, x, y) == exchanged.grey(fpu, y, x));
    assert(painted(picture, p, matrix.grey(fpu, x, y)));
    assert(exchanged.view == view && exchanged.start_x + q % view == y && exchanged.start_y + q
        / view == x);
    assert(painted(
        other_picture,
        q,
        exchanged.grey(
            fpu,
            exchanged.start_x + q % exchanged.view,
            exchanged.start_y + q / exchanged.view,
        ),
    ));
}

/// One behaves as in IEEE 754 arithmetic, on the numbers in `[0, 1]`, negative
/// zero among them: a product with one and a sum with zero change nothing, and
/// `1 + -1 * t` is `1 - t`, in `[0, 1]` again.
pub open spec fn one_behaves<F: Fn(Op, u32, u32) -> u32>(fpu: F) -> bool {
    &&& forall|t: u32|
        t <= ONE || t == bits::SIGN ==> {
            &&& #[trigger] arith::eval(fpu, Op::Mul, t, ONE) == t
            &&& arith::eval(fpu, Op::Sub, ONE, t) <= ONE
            &&& mixed(fpu, ONE, MINUS_ONE, bits::saturated(t)) == arith::eval(
                fpu,
                Op::Sub,
                ONE,
                t,
            )
        }
    &&& forall|t: u32| t <= ONE ==> #[trigger] mixed(fpu, ZERO, ONE, t) == t
}

/// The inversion comes before the table: shading a number in `[0, 1]` inverted
/// is shading its complement to one plainly.
pub proof fn law_inverting_shades_the_complement<F: Fn(Op, u32, u32) -> u32>(
    fpu: F,
    t: u32,
    lut: Seq<u8>,
)
    requires
        one_behaves(fpu),
        !bits::is_nan(t),
        0 <= bits::value(t) <= bits::unit(),
    ensures
        shaded(fpu, t, ONE, ONE, MINUS_ONE, lut) == shaded(
            fpu,
            arith::eval(fpu, Op::Sub, ONE, t),
            ONE,
            ZERO,
            ONE,
            lut,
        ),
{
    bits::lemma_order_against_one(t);
    let complement = arith::eval(fpu, Op::Sub, ONE, t);
    assert(arith::eval(fpu, Op::Mul, t, ONE) == t);
    assert(arith::eval(fpu, Op::Mul, complement, ONE) == complement);
    bits::lemma_order_against_one(complement);
    assert(bits::saturated(complement) == complement);
    assert(mixed(fpu, ZERO, ONE, complement) == complement);
}

/// A cell of the two channel matrix is the difference of its two samples, as the
/// unit gives it, without its sign.
pub proof fn law_two_channel_cells_are_distances<F: Fn(Op, u32, u32) -> u32>(
    matrix: Matrix,
    fpu: F,
    x: int,
    y: int,
)
    requires
        matrix.plot == Plot::Two,
    ensures
        matrix.cell(fpu, x, y) < 0x8000_0000,
        ({
            let difference = arith::eval(fpu, Op::Sub, matrix.v1[x], matrix.v2[y]);
            ||| difference == matrix.cell(fpu, x, y)
            ||| difference == matrix.cell(fpu, x, y) + 0x8000_0000
        }),
{
}

/// A cell of the three channel matrix is the product of the cells of three two
/// channel matrices: of the first and the second channel, of the first and the
/// third, and of the third and the second.
pub proof fn law_three_channels_multiply_three_pairs<F: Fn(Op, u32, u32) -> u32>(
    matrix: Matrix,
    fpu: F,
    x: int,
    y: int,
)
    requires
        matrix.plot == Plot::Three,
    ensures
        ({
            let pair = Matrix { plot: Plot::Two, ..matrix };
            let a = (Matrix { v1: matrix.v1, v2: matrix.v2, ..pair }).cell(fpu, x, y);
            let b = (Matrix { v1: matrix.v1, v2: matrix.v3, ..pair }).cell(fpu, x, y);
            let c = (Matrix { v1: matrix.v3, v2: matrix.v2, ..pair }).cell(fpu, x, y);
            matrix.cell(fpu, x, y) == arith::eval(
                fpu,
                Op::Mul,
                arith::eval(fpu, Op::Mul, a, b),
                c,
            )
        }),
{
}

/// Only what a cell compares decides its value: no other sample, no setting, and
/// no place of the crop does.
pub proof fn law_cells_depend_on_their_samples<F: Fn(Op, u32, u32) -> u32>(
    a: Matrix,
    b: Matrix,
    fpu: F,
    x: int,
    y: int,
    i: int,
    j: int,
)
    requires
        a.plot == b.plot,
        a.v1[x] == b.v1[i],
        a.v2[y] == b.v2[j],
        a.plot == Plot::Three ==> a.v3[x] == b.v3[i] && a.v3[y] == b.v3[j],
    ensures
        a.cell(fpu, x, y) == b.cell(fpu, i, j),
{
}

/// The factor scales what the cells hold, and is otherwise no more than that: a
/// cell under a factor looks as the scaled cell does under factor one, provided
/// that a product with one changes nothing.
pub proof fn law_factor_scales_the_cells<F: Fn(Op, u32, u32) -> u32>(
    matrix: Matrix,
    scaled: Matrix,
    fpu: F,
    x: int,
    y: int,
    i: int,
    j: int,
)
    requires
        scaled.factor == 0x3f80_0000,
        scaled.lut == matrix.lut,
        scaled.bwmode == matrix.bwmode,
        scaled.cell(fpu, i, j) == arith::eval(
            fpu,
            Op::Mul,
            matrix.cell(fpu, x, y),
            matrix.factor,
        ),
        arith::eval(fpu, Op::Mul, scaled.cell(fpu, i, j), 0x3f80_0000) == scaled.cell(fpu, i, j),
    ensures
        matrix.grey(fpu, x, y) == scaled.grey(fpu, i, j),
{
}

/// Shading under a factor is shading the product under factor one, provided that
/// a product with one changes nothing.
pub proof fn law_shading_by_a_factor_shades_the_product<F: Fn(Op, u32, u32) -> u32>(
    fpu: F,
    val: u32,
    factor: u32,
    offset: u32,
    scale: u32,
    lut: Seq<u8>,
)
    requires
        ({
            let product = arith::eval(fpu, Op::Mul, val, factor);
            arith::eval(fpu, Op::Mul, product, 0x3f80_0000) == product
        }),
    ensures
        shaded(fpu, val, factor, offset, scale, lut) == shaded(
            fpu,
            arith::eval(fpu, Op::Mul, val, factor),
            0x3f80_0000,
            offset,
            scale,
            lut,
        ),
{
}

/// A cell is shaded by the settings of its matrix: by its factor and its table,
/// and, where `bwmode` is one, as one less the value, otherwise as the value.
pub proof fn law_cells_are_shaded<F: Fn(Op, u32, u32) -> u32>(
    matrix: Matrix,
    fpu: F,
    x: int,
    y: int,
)
    ensures
        matrix.bwmode == 1 ==> matrix.grey(fpu, x, y) == shaded(
            fpu,
            matrix.cell(fpu, x, y),
            matrix.factor,
            0x3f80_0000,
            0xbf80_0000,
            matrix.lut,
        ),
        matrix.bwmode != 1 ==> matrix.grey(fpu, x, y) == shaded(
            fpu,
            matrix.cell(fpu, x, y),
            matrix.factor,
            0,
            0x3f80_0000,
            matrix.lut,
        ),
{
}

/// A value is shaded by the entry that it falls on. Where the scaled value is a
/// number in `[0, 1]`, that is the entry of `offset + scale * value`; above, the one
/// of `offset + scale`, and below, or where it is no number, the one of `offset`,
/// as the unit gives them.
pub proof fn law_values_saturate_before_the_table<F: Fn(Op, u32, u32) -> u32>(
    fpu: F,
    val: u32,
    factor: u32,
    offset: u32,
    scale: u32,
    lut: Seq<u8>,
    t: u32,
)
    requires
        ({
            let product = arith::eval(fpu, Op::Mul, val, factor);
            let number = !bits::is_nan(product);
            &&& t < 0x8000_0000
            &&& number && 0 <= bits::value(product) <= bits::unit() ==> bits::value(t)
                == bits::value(product)
            &&& number && bits::value(product) > bits::unit() ==> bits::value(t) == bits::unit()
            &&& !number || bits::value(product) < 0 ==> bits::value(t) == 0
        }),
    ensures
        ({
            let toned = arith::eval(fpu, Op::Add, offset, arith::eval(fpu, Op::Mul, scale, t));
            shaded(fpu, val, factor, offset, scale, lut) == lut[(toned / 0x4000) as int]
        }),
{
    let s = bits::saturated(arith::eval(fpu, Op::Mul, val, factor));
    bits::law_saturation(arith::eval(fpu, Op::Mul, val, factor));
    bits::lemma_order_against_one(arith::eval(fpu, Op::Mul, val, factor));
    assert(bits::value(t) == bits::value(s));
    if t < s {
        bits::lemma_scale_increases(t, s);
    } else if s < t {
        bits::lemma_scale_increases(s, t);
    }
}

/// A crop shows what the whole picture shows there: the pixel in its column `col`
/// and row `row` is the one in column `start_x + col` and row `start_y + row` of the
/// picture of the whole matrix, and it is opaque grey.
pub proof fn law_crops_show_part_of_the_whole<F: Fn(Op, u32, u32) -> u32>(
    blank: Seq<u8>,
    crop: Seq<u8>,
    matrix: Matrix,
    whole_blank: Seq<u8>,
    whole: Seq<u8>,
    n: int,
    fpu: F,
    row: int,
    col: int,
)
    requires
        drawn(blank, crop, matrix, fpu),
        drawn(
            whole_blank,
            whole,
            (Matrix { start_x: 0, start_y: 0, view: n, ..matrix }),
            fpu,
        ),
        0 <= matrix.start_x,
        0 <= matrix.start_y,
        0 <= row,
        0 <= col < matrix.view,
        matrix.start_x + col < n,
        row * matrix.view + col < crop.len() / 4,
        (matrix.start_y + row) * n + (matrix.start_x + col) < whole.len() / 4,
    ensures
        ({
            let p = 4 * (row * matrix.view + col);
            let q = 4 * ((matrix.start_y + row) * n + (matrix.start_x + col));
            &&& crop[p] == whole[q]
            &&& crop[p] == crop[p + 1] == crop[p + 2]
            &&& crop[p + 3] == 255
        }),
{
    let full = Matrix { start_x: 0, start_y: 0, view: n, ..matrix };
    let (x, y) = (matrix.start_x + col, matrix.start_y + row);
    let (p, q) = (row * matrix.view + col, y * n + x);
    assert(p >= 0 && q >= 0) by (nonlinear_arith)
        requires
            p == row * matrix.view + col,
            q == y * n + x,
            0 <= row,
            0 <= col < matrix.view,
            0 <= y,
            0 <= x < n,
    ;
    vstd::arithmetic::div_mod::lemma_fundamental_div_mod_converse(p, matrix.view, row, col);
    vstd::arithmetic::div_mod::lemma_fundamental_div_mod_converse(q, n, y, x);
    assert(painted(
        crop,
        p,
        matrix.grey(fpu, matrix.start_x + p % matrix.view, matrix.start_y + p / matrix.view),
    ));
    assert(painted(
        whole,
        q,
        full.grey(fpu, full.start_x + q % full.view, full.start_y + q / full.view),
    ));
    assert(full.cell(fpu, x, y) == matrix.cell(fpu, x, y));
    assert(full.grey(fpu, x, y) == matrix.grey(fpu, x, y));
}

/// The pixel in column `col` and row `row` is the grey of the cell in column
/// `start_x + col` and row `start_y + row` of the matrix, opaque, and bytes behind the
/// last pixel stay.
pub proof fn law_pixels_show_their_cells<F: Fn(Op, u32, u32) -> u32>(
    before: Seq<u8>,
    after: Seq<u8>,
    matrix: Matrix,
    fpu: F,
    row: int,
    col: int,
    b: int,
)
    requires
        drawn(before, after, matrix, fpu),
        0 <= row,
        0 <= col < matrix.view,
        row * matrix.view + col < after.len() / 4,
    ensures
        after.len() == before.len(),
        ({
            let p = 4 * (row * matrix.view + col);
            let grey = matrix.grey(fpu, matrix.start_x + col, matrix.start_y + row);
            after[p] == grey && after[p + 1] == grey && after[p + 2] == grey && after[p + 3] == 255
        }),
        after.len() - after.len() % 4 <= b < after.len() ==> after[b] == before[b],
{
    let p = row * matrix.view + col;
    assert(p >= 0) by (nonlinear_arith)
        requires
            p == row * matrix.view + col,
            0 <= row,
            0 <= col < matrix.view,
    ;
    vstd::arithmetic::div_mod::lemma_fundamental_div_mod_converse(p, matrix.view, row, col);
    assert(painted(
        after,
        p,
        matrix.grey(fpu, matrix.start_x + p % matrix.view, matrix.start_y + p / matrix.view),
    ));
}

} // verus!
