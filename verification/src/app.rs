//! The state of the visualizer between two frames, and how a frame is made.
use ringbuf::{Consumer, Producer};
use vstd::prelude::*;

use crate::arith;
use crate::arith::{apply, Op};
use crate::bits;
use crate::bits::{ceil_to_size, differ, max_one, of_size, NAN, ONE};
use crate::buffer;
use crate::buffer::FilteredBuffer;
use crate::lut;
use crate::lut::{fill_table, LUT_SIZE};
use crate::plot;
use crate::plot::{fill_pixels_three, fill_pixels_two, Matrix, Plot};
use crate::ring;
use crate::ring::drain;

verus! {

/// How many samples the audio side is assumed to deliver at a time.
pub const FRAME_SIZE: usize = 1024;

/// How many samples a ring between the two threads holds.
pub const RING_SIZE: usize = FRAME_SIZE * 10;

/// The largest side length of the matrix: it is uploaded as a texture, and this
/// is what every GL 3.2 implementation guarantees.
pub const MAX_LENGTH: usize = 4096;

/// One second, in nanoseconds.
pub const SECOND: u64 = 1_000_000_000;

/// The crop of the matrix that is visible: its side length, and the column and
/// the row of its top left corner.
#[derive(Clone, Copy, Debug, PartialEq, Eq, Structural)]
pub struct Crop {
    pub view: usize,
    pub start_x: usize,
    pub start_y: usize,
}

/// What is to be put on the screen.
#[derive(Clone, Copy, Debug, PartialEq, Eq, Structural)]
pub enum Frame {
    /// A black screen: some window is not full yet.
    Blank,
    /// The pixels of the given crop, stretched over the screen.
    Plot(Crop),
}

/// The visualizer. Numbers that are not counts are kept as the bits of their
/// single-precision encoding.
pub struct App {
    /// Scratch RGBA8 buffer, `length * length * 4` bytes.
    pub pixels: Vec<u8>,
    /// Scratch for draining the audio ring buffers.
    pub scratch: Vec<u32>,
    pub length: usize,
    /// One per input channel; `plot` decides how many there are.
    pub buffers: Vec<FilteredBuffer>,
    pub plot: Plot,
    pub lut: Vec<u8>,
    /// The exponent the current `lut` was built for.
    pub lut_exponent: u32,
    pub factor: u32,
    pub exponent: u32,
    pub bwmode: u8,
    pub offset_x: i32,
    pub offset_y: i32,
    pub zoom: u32,
    /// Diagnostics: frames drawn since the last report. The count wraps.
    pub frames: u64,
    /// Diagnostics: samples captured since the last report. The count wraps.
    pub samples: u64,
}

/// A crop offset as a matrix index: negative offsets count as zero, and the
/// crop of side `view` stays inside the matrix of side `n`.
pub open spec fn crop_start(n: int, view: int, offset: int) -> int {
    let wanted = if offset < 0 {
        0
    } else {
        offset
    };
    if n - view < wanted {
        n - view
    } else {
        wanted
    }
}

/// The side length of the visible crop: the matrix side divided by the zoom,
/// rounded up, between one and the whole side. A zoom below one counts as one.
pub open spec fn visible<F: Fn(Op, u32, u32) -> u32>(fpu: F, n: int, zoom: u32) -> int {
    let side = bits::encoding(n);
    let cells = bits::ceiling_of(arith::eval(fpu, Op::Div, side, bits::at_least_one(zoom)));
    if cells < 1 {
        1
    } else if cells > n {
        n
    } else {
        cells as int
    }
}

impl App {
    /// The parts fit together.
    pub open spec fn wf(self) -> bool {
        &&& 1 <= self.length <= MAX_LENGTH
        &&& self.pixels@.len() == self.length * self.length * 4
        &&& self.buffers@.len() == self.plot.channels()
        &&& self.lut@.len() == LUT_SIZE
        &&& forall|i: int|
            0 <= i < self.buffers@.len() ==> {
                &&& (#[trigger] self.buffers@[i]).wf()
                &&& self.buffers@[i].target_length == self.length
                &&& self.buffers@[i].chunk_size == 1
            }
    }

    /// Every window spans its whole length.
    pub open spec fn ready(self) -> bool {
        forall|i: int|
            0 <= i < self.buffers@.len() ==> (#[trigger] self.buffers@[i])@.len() >= self.length
    }

    /// The crop that zoom and offsets ask for.
    pub open spec fn crop<F: Fn(Op, u32, u32) -> u32>(self, fpu: F) -> Crop {
        let n = self.length as int;
        let view = visible(fpu, n, self.zoom);
        Crop {
            view: view as usize,
            start_x: crop_start(n, view, self.offset_x as int) as usize,
            start_y: crop_start(n, view, self.offset_y as int) as usize,
        }
    }

    /// The table is the one for the exponent that it says it is for.
    pub open spec fn lut_current<F: Fn(Op, u32, u32) -> u32>(self, fpu: F) -> bool {
        self.lut@ == lut::table(fpu, self.lut_exponent)
    }

    /// The crop of the matrix, toned by the table `table`.
    pub open spec fn matrix<F: Fn(Op, u32, u32) -> u32>(self, fpu: F, table: Seq<u8>) -> Matrix {
        let crop = self.crop(fpu);
        Matrix {
            plot: self.plot,
            v1: self.buffers@[0]@,
            v2: self.buffers@[1]@,
            v3: if self.plot == Plot::Three {
                self.buffers@[2]@
            } else {
                self.buffers@[1]@
            },
            lut: table,
            factor: self.factor,
            bwmode: self.bwmode,
            start_x: crop.start_x as int,
            start_y: crop.start_y as int,
            view: crop.view as int,
        }
    }

    /// The table that a frame is drawn with: the one there is, unless the
    /// exponent is another one now.
    pub open spec fn frame_table<F: Fn(Op, u32, u32) -> u32>(self, fpu: F) -> Seq<u8> {
        if bits::unequal(self.lut_exponent, self.exponent) {
            lut::table(fpu, self.exponent)
        } else {
            self.lut@
        }
    }

    /// A visualizer of a matrix of side `length`, with empty windows and the
    /// whole matrix in view, in plain tones.
    pub fn new<F: Fn(Op, u32, u32) -> u32 + Sync>(length: usize, plot: Plot, fpu: &F) -> (r: Self)
        requires
            1 <= length <= MAX_LENGTH,
            arith::functional(*fpu),
        ensures
            r.wf(),
            r.length == length,
            r.plot == plot,
            forall|i: int|
                0 <= i < r.buffers@.len() ==> (#[trigger] r.buffers@[i])@ == Seq::<u32>::empty(),
            forall|b: int| 0 <= b < r.pixels@.len() ==> #[trigger] r.pixels@[b] == 0,
            r.scratch@.len() == 0,
            r.factor == ONE,
            r.exponent == ONE,
            r.lut_exponent == ONE,
            r.lut_current(*fpu),
            r.bwmode == 0,
            r.offset_x == 0,
            r.offset_y == 0,
            r.zoom == ONE,
            r.frames == 0,
            r.samples == 0,
    {
        assert(length * length * 4 <= 0x400_0000) by (nonlinear_arith)
            requires
                length <= MAX_LENGTH,
        ;
        assert(length * length <= 0x100_0000) by (nonlinear_arith)
            requires
                length <= MAX_LENGTH,
        ;
        let pixels: Vec<u8> = vec![0u8; length * length * 4];
        let mut buffers: Vec<FilteredBuffer> = Vec::new();
        let inputs: usize = plot.inputs();
        while buffers.len() < inputs
            invariant
                1 <= length <= MAX_LENGTH,
                inputs == plot.channels(),
                buffers@.len() <= inputs,
                forall|i: int|
                    0 <= i < buffers@.len() ==> {
                        &&& (#[trigger] buffers@[i]).wf()
                        &&& buffers@[i].target_length == length
                        &&& buffers@[i].chunk_size == 1
                        &&& buffers@[i]@ == Seq::<u32>::empty()
                    },
            decreases inputs - buffers@.len(),
        {
            buffers.push(FilteredBuffer::new(length, 1));
        }
        let mut app = App {
            pixels,
            scratch: Vec::with_capacity(RING_SIZE),
            length,
            buffers,
            plot,
            lut: vec![0u8; LUT_SIZE],
            lut_exponent: NAN,
            factor: ONE,
            exponent: ONE,
            bwmode: 0,
            offset_x: 0,
            offset_y: 0,
            zoom: ONE,
            frames: 0,
            samples: 0,
        };
        app.rebuild_lut(fpu);
        app
    }

    /// Rebuilds the table for the current exponent.
    pub fn rebuild_lut<F: Fn(Op, u32, u32) -> u32 + Sync>(&mut self, fpu: &F)
        requires
            old(self).wf(),
            arith::functional(*fpu),
        ensures
            *final(self) == (App {
                lut: final(self).lut,
                lut_exponent: old(self).exponent,
                ..*old(self)
            }),
            final(self).lut_current(*fpu),
            final(self).wf(),
    {
        let exponent: u32 = self.exponent;
        fill_table(&mut self.lut, exponent, fpu);
        self.lut_exponent = exponent;
    }

    /// Visible crop of the matrix.
    pub fn view_rect<F: Fn(Op, u32, u32) -> u32>(&self, fpu: &F) -> (r: Crop)
        requires
            self.wf(),
            arith::functional(*fpu),
        ensures
            r == self.crop(*fpu),
            1 <= r.view <= self.length,
            r.start_x + r.view <= self.length,
            r.start_y + r.view <= self.length,
    {
        let n: usize = self.length;
        let cells: usize = ceil_to_size(apply(fpu, Op::Div, of_size(n), max_one(self.zoom)));
        let view: usize = if cells < 1 {
            1
        } else if cells > n {
            n
        } else {
            cells
        };
        Crop {
            view,
            start_x: clamp_start(n - view, self.offset_x),
            start_y: clamp_start(n - view, self.offset_y),
        }
    }

    /// Makes the next frame: counts it, and, once every window is full, brings
    /// the table up to date and draws the visible crop into the front of
    /// `pixels`. Only the crop is drawn, so zooming in costs less, not more.
    pub fn render<F: Fn(Op, u32, u32) -> u32 + Sync>(&mut self, fpu: &F) -> (r: Frame)
        requires
            old(self).wf(),
            arith::functional(*fpu),
            plot::keeps_unit(*fpu),
        ensures
            final(self).wf(),
            *final(self) == (App {
                frames: ((old(self).frames + 1) % 0x1_0000_0000_0000_0000) as u64,
                pixels: final(self).pixels,
                lut: final(self).lut,
                lut_exponent: final(self).lut_exponent,
                ..*old(self)
            }),
            !old(self).ready() ==> {
                &&& r == Frame::Blank
                &&& final(self).pixels == old(self).pixels
                &&& final(self).lut == old(self).lut
                &&& final(self).lut_exponent == old(self).lut_exponent
            },
            old(self).ready() ==> {
                let size = old(self).crop(*fpu).view * old(self).crop(*fpu).view * 4;
                &&& r == Frame::Plot(old(self).crop(*fpu))
                &&& final(self).lut@ == old(self).frame_table(*fpu)
                &&& final(self).lut_exponent == if bits::unequal(
                    old(self).lut_exponent,
                    old(self).exponent,
                ) {
                    old(self).exponent
                } else {
                    old(self).lut_exponent
                }
                &&& plot::drawn(
                    old(self).pixels@.take(size),
                    final(self).pixels@.take(size),
                    old(self).matrix(*fpu, old(self).frame_table(*fpu)),
                    *fpu,
                )
                &&& final(self).pixels@.skip(size) == old(self).pixels@.skip(size)
            },
    {
        self.frames = self.frames.wrapping_add(1);
        if !self.is_ready() {
            return Frame::Blank;
        }
        if differ(self.lut_exponent, self.exponent) {
            self.rebuild_lut(fpu);
        }
        let crop: Crop = self.view_rect(fpu);
        self.draw(&crop, fpu);
        Frame::Plot(crop)
    }

    /// Whether every window spans its whole length.
    fn is_ready(&self) -> (r: bool)
        requires
            self.wf(),
        ensures
            r == self.ready(),
    {
        let mut i: usize = 0;
        while i < self.buffers.len()
            invariant
                self.wf(),
                i <= self.buffers@.len(),
                forall|k: int|
                    0 <= k < i ==> (#[trigger] self.buffers@[k])@.len() >= self.length,
            decreases self.buffers@.len() - i,
        {
            if !self.buffers[i].is_full() {
                return false;
            }
            i = i + 1;
        }
        true
    }

    /// Draws the crop into the front of `pixels`.
    fn draw<F: Fn(Op, u32, u32) -> u32 + Sync>(&mut self, crop: &Crop, fpu: &F)
        requires
            old(self).wf(),
            old(self).ready(),
            *crop == old(self).crop(*fpu),
            1 <= crop.view <= old(self).length,
            crop.start_x + crop.view <= old(self).length,
            crop.start_y + crop.view <= old(self).length,
            arith::functional(*fpu),
            plot::keeps_unit(*fpu),
        ensures
            final(self).wf(),
            *final(self) == (App { pixels: final(self).pixels, ..*old(self) }),
            plot::drawn(
                old(self).pixels@.take(crop.view * crop.view * 4),
                final(self).pixels@.take(crop.view * crop.view * 4),
                old(self).matrix(*fpu, old(self).lut@),
                *fpu,
            ),
            final(self).pixels@.skip(crop.view * crop.view * 4) == old(self).pixels@.skip(
                crop.view * crop.view * 4,
            ),
    {
        let view: usize = crop.view;
        proof {
            let n = self.length as int;
            assert(view * view * 4 <= n * n * 4 && n * n * 4 <= 0x400_0000 && view * view
                <= n * n) by (nonlinear_arith)
                requires
                    1 <= view <= n <= MAX_LENGTH,
            ;
            lemma_whole_crop(view as int);
            assert(plot::tones_fit(*fpu, self.bwmode, LUT_SIZE as nat));
        }
        let size: usize = view * view * 4;
        let (front, _rest) = self.pixels.as_mut_slice().split_at_mut(size);
        let ghost front_before = front@;
        let ghost front_after = final(front)@;
        match self.plot {
            Plot::Three => fill_pixels_three(
                front,
                self.buffers[0].buffer.as_slice(),
                self.buffers[1].buffer.as_slice(),
                self.buffers[2].buffer.as_slice(),
                self.lut.as_slice(),
                self.factor,
                self.bwmode,
                crop.start_x,
                crop.start_y,
                view,
                fpu,
            ),
            Plot::Two => fill_pixels_two(
                front,
                self.buffers[0].buffer.as_slice(),
                self.buffers[1].buffer.as_slice(),
                self.lut.as_slice(),
                self.factor,
                self.bwmode,
                crop.start_x,
                crop.start_y,
                view,
                fpu,
            ),
        }
        proof {
            assert(front_before =~= old(self).pixels@.take(size as int));
            assert(front_after =~= self.pixels@.take(size as int));
        }
    }
}

/// Window `i` took in what consumer `i` gave out.
pub open spec fn channel_moved(
    before: App,
    after: App,
    given: Seq<Consumer<u32>>,
    left: Seq<Consumer<u32>>,
    i: int,
) -> bool {
    &&& ring::drained(given[i], left[i])
    &&& after.buffers@[i]@ == buffer::recent(
        before.buffers@[i]@ + ring::fresh(given[i], left[i]),
        before.length as nat,
    )
}

/// Window `i` holds the most recent of all samples that consumer `i` gave out.
pub open spec fn tracks(app: App, consumers: Seq<Consumer<u32>>, i: int) -> bool {
    app.buffers@[i]@ == buffer::recent(ring::taken(consumers[i]), app.length as nat)
}

impl App {
    /// Moves what waits in the rings into the windows, all of it as of one look at
    /// each ring.
    ///
    /// The samples of the first channel are counted: the channels run together,
    /// so one is enough for the rate.
    pub fn update(&mut self, consumers: &mut Vec<Consumer<u32>>)
        requires
            old(self).wf(),
        ensures
            final(self).wf(),
            *final(self) == (App {
                buffers: final(self).buffers,
                scratch: final(self).scratch,
                samples: final(self).samples,
                ..*old(self)
            }),
            final(consumers)@.len() == old(consumers)@.len(),
            forall|i: int|
                0 <= i < old(consumers)@.len() && i < old(self).buffers@.len()
                    ==> #[trigger] channel_moved(
                    *old(self),
                    *final(self),
                    old(consumers)@,
                    final(consumers)@,
                    i,
                ),
            forall|i: int|
                old(self).buffers@.len() <= i < old(consumers)@.len()
                    ==> #[trigger] final(consumers)@[i] == old(consumers)@[i],
            forall|i: int|
                old(consumers)@.len() <= i < old(self).buffers@.len()
                    ==> #[trigger] final(self).buffers@[i] == old(self).buffers@[i],
            final(self).samples == if old(consumers)@.len() == 0 {
                old(self).samples as int
            } else {
                (old(self).samples + ring::fresh(
                    old(consumers)@[0],
                    final(consumers)@[0],
                ).len()) % 0x1_0000_0000_0000_0000
            },
            forall|i: int|
                0 <= i < old(consumers)@.len() && i < old(self).buffers@.len() && #[trigger] tracks(
                    *old(self),
                    old(consumers)@,
                    i,
                ) ==> tracks(*final(self), final(consumers)@, i),
    {
        let channels: usize = if consumers.len() < self.buffers.len() {
            consumers.len()
        } else {
            self.buffers.len()
        };
        let mut i: usize = 0;
        while i < channels
            invariant
                old(self).wf(),
                self.wf(),
                channels <= old(consumers)@.len(),
                channels <= old(self).buffers@.len(),
                channels == old(consumers)@.len() || channels == old(self).buffers@.len(),
                i <= channels,
                consumers@.len() == old(consumers)@.len(),
                self.buffers@.len() == old(self).buffers@.len(),
                *self == (App {
                    buffers: self.buffers,
                    scratch: self.scratch,
                    samples: self.samples,
                    ..*old(self)
                }),
                forall|k: int|
                    0 <= k < i ==> #[trigger] channel_moved(
                        *old(self),
                        *self,
                        old(consumers)@,
                        consumers@,
                        k,
                    ),
                forall|k: int|
                    i <= k < consumers@.len() ==> #[trigger] consumers@[k] == old(consumers)@[k],
                forall|k: int|
                    i <= k < self.buffers@.len() ==> #[trigger] self.buffers@[k] == old(
                        self,
                    ).buffers@[k],
                forall|k: int|
                    0 <= k < i && #[trigger] tracks(*old(self), old(consumers)@, k) ==> tracks(
                        *self,
                        consumers@,
                        k,
                    ),
                self.samples == if i == 0 {
                    old(self).samples as int
                } else {
                    (old(self).samples + ring::fresh(old(consumers)@[0], consumers@[0]).len())
                        % 0x1_0000_0000_0000_0000
                },
            decreases channels - i,
        {
            let ghost before = *self;
            let ghost given = consumers@;
            let moved: u64 = drain(&mut consumers[i], &mut self.scratch, &mut self.buffers[i]);
            // One channel is enough for the rate; they all run together.
            if i == 0 {
                self.samples = self.samples.wrapping_add(moved);
            }
            proof {
                buffer::law_step_of_one_keeps_all(
                    ring::fresh(given[i as int], consumers@[i as int]),
                );
                assert(channel_moved(*old(self), *self, old(consumers)@, consumers@, i as int));
                assert forall|k: int| 0 <= k < i implies #[trigger] channel_moved(
                    *old(self),
                    *self,
                    old(consumers)@,
                    consumers@,
                    k,
                ) by {
                    assert(channel_moved(*old(self), before, old(consumers)@, given, k));
                }
                assert forall|k: int|
                    0 <= k <= i && #[trigger] tracks(
                        *old(self),
                        old(consumers)@,
                        k,
                    ) implies tracks(*self, consumers@, k) by {
                    if k < i {
                        assert(tracks(before, given, k));
                    }
                }
            }
            i = i + 1;
        }
    }

    /// The frames and the samples since the last report, if the last report was
    /// at least a second ago; `elapsed` says how long, in nanoseconds. The
    /// counting then begins anew.
    pub fn report(&mut self, elapsed: u64) -> (r: Option<(u64, u64)>)
        ensures
            elapsed >= SECOND ==> {
                &&& r == Some((old(self).frames, old(self).samples))
                &&& *final(self) == (App { frames: 0, samples: 0, ..*old(self) })
            },
            elapsed < SECOND ==> r is None && *final(self) == *old(self),
    {
        if elapsed < SECOND {
            return None;
        }
        let counts: (u64, u64) = (self.frames, self.samples);
        self.frames = 0;
        self.samples = 0;
        Some(counts)
    }
}

/// A crop offset as a matrix index, at most `room`.
fn clamp_start(room: usize, offset: i32) -> (r: usize)
    requires
        room <= i32::MAX,
    ensures
        r == crop_start(room as int, 0, offset as int),
{
    if offset <= 0 {
        0
    } else if (offset as u32) as usize > room {
        room
    } else {
        (offset as u32) as usize
    }
}

/// Zoom one, like every zoom that is no larger or no number, shows the whole
/// matrix, whatever the offsets, provided that dividing by one changes nothing.
pub proof fn law_zoom_one_shows_everything<F: Fn(Op, u32, u32) -> u32>(app: App, fpu: F)
    requires
        app.wf(),
        bits::is_nan(app.zoom) || bits::value(app.zoom) <= bits::unit(),
        arith::eval(fpu, Op::Div, bits::encoding(app.length as int), ONE) == bits::encoding(
            app.length as int,
        ),
    ensures
        app.crop(fpu) == (Crop { view: app.length, start_x: 0, start_y: 0 }),
{
    let n = app.length as int;
    bits::lemma_integers_are_encoded(n);
    bits::lemma_one_is_unit();
    let u = bits::unit();
    let value = bits::value(bits::encoding(n));
    assert(value > 0 && value + u - 1 == n * u + (u - 1)) by (nonlinear_arith)
        requires
            value == n * u,
            n >= 1,
            u > 0,
    ;
    vstd::arithmetic::div_mod::lemma_fundamental_div_mod_converse(value + u - 1, u, n, u - 1);
    bits::lemma_order_against_one(bits::encoding(n));
}

/// Division behaves as in IEEE 754 arithmetic, for finite numbers from zero on
/// and divisors from one on: the result is a number, and a larger divisor gives no
/// larger result.
pub open spec fn division_behaves<F: Fn(Op, u32, u32) -> u32>(fpu: F) -> bool {
    forall|n: u32, x: u32, y: u32|
        #![trigger arith::eval(fpu, Op::Div, n, x), arith::eval(fpu, Op::Div, n, y)]
        n < bits::INFINITY && ONE <= x <= y <= bits::INFINITY ==> {
            &&& !bits::is_nan(arith::eval(fpu, Op::Div, n, x))
            &&& !bits::is_nan(arith::eval(fpu, Op::Div, n, y))
            &&& bits::value(arith::eval(fpu, Op::Div, n, y)) <= bits::value(
                arith::eval(fpu, Op::Div, n, x),
            )
        }
}

/// More zoom never shows more cells.
pub proof fn law_more_zoom_shows_no_more<F: Fn(Op, u32, u32) -> u32>(a: App, b: App, fpu: F)
    requires
        a.wf(),
        b.wf(),
        a.length == b.length,
        !bits::is_nan(a.zoom),
        !bits::is_nan(b.zoom),
        bits::value(a.zoom) <= bits::value(b.zoom),
        division_behaves(fpu),
    ensures
        b.crop(fpu).view <= a.crop(fpu).view,
{
    let n = bits::encoding(a.length as int);
    let (x, y) = (bits::at_least_one(a.zoom), bits::at_least_one(b.zoom));
    bits::lemma_integers_are_encoded(a.length as int);
    bits::lemma_order_against_one(a.zoom);
    bits::lemma_order_against_one(b.zoom);
    if b.zoom < a.zoom < bits::SIGN {
        bits::lemma_scale_increases(b.zoom, a.zoom);
    }
    assert(ONE <= x <= y <= bits::INFINITY);
    bits::lemma_integers_are_finite(a.length as int);
    let (wide, narrow) = (arith::eval(fpu, Op::Div, n, x), arith::eval(fpu, Op::Div, n, y));
    assert(bits::value(narrow) <= bits::value(wide));
    bits::lemma_ceiling_increases(narrow, wide);
}

/// The visible crop never leaves the matrix, whatever zoom and offsets are.
pub proof fn law_crop_stays_inside<F: Fn(Op, u32, u32) -> u32>(app: App, fpu: F)
    requires
        app.wf(),
    ensures
        1 <= app.crop(fpu).view <= app.length,
        app.crop(fpu).start_x + app.crop(fpu).view <= app.length,
        app.crop(fpu).start_y + app.crop(fpu).view <= app.length,
{
}

/// Once a ring is drained, the window shows the most recent of all samples that
/// went into the ring, whatever slid out on the way.
pub proof fn law_drained_windows_show_the_latest_input(
    app: App,
    producer: Producer<u32>,
    consumers: Seq<Consumer<u32>>,
    i: int,
)
    requires
        tracks(app, consumers, i),
        ring::one_ring(producer, consumers[i]),
        ring::taken(consumers[i]).len() == ring::accepted(producer).len(),
    ensures
        app.buffers@[i]@ == buffer::recent(ring::accepted(producer), app.length as nat),
{
    assert(ring::taken(consumers[i]) =~= ring::accepted(producer)) by {
        assert forall|k: int|
            0 <= k < ring::accepted(producer).len() implies #[trigger] ring::taken(
            consumers[i],
        )[k] == ring::accepted(producer)[k] by {
            ring::law_samples_come_out_as_they_went_in(producer, consumers[i], k);
        }
    }
}

/// A square crop touches as many rows and columns as its side.
proof fn lemma_whole_crop(view: int)
    requires
        view >= 1,
    ensures
        plot::rows_touched(view * view * 4, view) == view,
        plot::columns_touched(view * view * 4, view) == view,
{
    assert(view * view * 4 + 4 * view - 1 == view * (4 * view) + (4 * view - 1))
        by (nonlinear_arith);
    vstd::arithmetic::div_mod::lemma_fundamental_div_mod_converse(
        view * view * 4 + 4 * view - 1,
        4 * view,
        view,
        4 * view - 1,
    );
    assert(view * view >= view) by (nonlinear_arith)
        requires
            view >= 1,
    ;
}

/// The view is the matrix side divided by the zoom, rounded up: with `q` the
/// quotient that the unit gives, `view - 1 < q <= view` wherever that is between one
/// and the side, so that the whole matrix is shown only where `q` is more than the
/// side less one. A smaller quotient shows one cell, a larger one the whole side. A
/// zoom of no more than one, or that is no number, divides by one.
pub proof fn law_view_is_the_quotient_rounded_up<F: Fn(Op, u32, u32) -> u32>(
    app: App,
    fpu: F,
    side: u32,
    divisor: u32,
)
    requires
        app.wf(),
        side < 0x8000_0000,
        bits::value(side) == app.length * bits::unit(),
        divisor == if bits::is_nan(app.zoom) || bits::value(app.zoom) <= bits::unit() {
            0x3f80_0000
        } else {
            app.zoom
        },
    ensures
        ({
            let q = arith::eval(fpu, Op::Div, side, divisor);
            let view = app.crop(fpu).view as int;
            &&& !bits::is_nan(q) && bits::unit() <= bits::value(q) <= app.length * bits::unit()
                ==> (view - 1) * bits::unit() < bits::value(q) <= view * bits::unit()
            &&& !bits::is_nan(q) && bits::value(q) > app.length * bits::unit() ==> view
                == app.length
            &&& bits::is_nan(q) || bits::value(q) < bits::unit() ==> view == 1
        }),
{
    let q = arith::eval(fpu, Op::Div, side, divisor);
    let (v, u, n) = (bits::value(q), bits::unit(), app.length as int);
    bits::lemma_one_is_unit();
    bits::law_integers_have_their_pattern(n, side);
    bits::law_ceiling_is_the_integer_above(q);
    bits::lemma_order_against_one(app.zoom);
    assert(bits::at_least_one(app.zoom) == divisor);
    let cells = bits::ceiling_of(q) as int;
    assert(u <= n * u <= usize::MAX * u) by (nonlinear_arith)
        requires
            1 <= n <= usize::MAX,
            u > 0,
    ;
    if !bits::is_nan(q) && 0 <= v <= usize::MAX * u {
        assert((u <= v <= n * u ==> 1 <= cells <= n) && (v > n * u ==> cells > n) && (v < u
            ==> cells <= 1)) by (nonlinear_arith)
            requires
                (cells - 1) * u < v <= cells * u,
                u > 0,
                n >= 1,
        ;
    }
}

/// The crop begins where its offsets say, wherever it then stays inside the
/// matrix; otherwise it begins as near to that as it can. Each axis goes by its own
/// offset.
pub proof fn law_crop_begins_at_its_offsets<F: Fn(Op, u32, u32) -> u32>(app: App, fpu: F)
    requires
        app.wf(),
    ensures
        ({
            let crop = app.crop(fpu);
            let room = app.length - crop.view;
            &&& 0 <= app.offset_x <= room ==> crop.start_x == app.offset_x
            &&& app.offset_x < 0 ==> crop.start_x == 0
            &&& app.offset_x > room ==> crop.start_x == room
            &&& 0 <= app.offset_y <= room ==> crop.start_y == app.offset_y
            &&& app.offset_y < 0 ==> crop.start_y == 0
            &&& app.offset_y > room ==> crop.start_y == room
        }),
{
}

/// What is drawn is what the visualizer holds: its windows in the order of the
/// channels, under its own settings, at its own crop.
pub proof fn law_frames_draw_the_windows<F: Fn(Op, u32, u32) -> u32>(
    app: App,
    fpu: F,
    table: Seq<u8>,
)
    ensures
        ({
            let matrix = app.matrix(fpu, table);
            &&& matrix.plot == app.plot
            &&& matrix.v1 == app.buffers@[0].buffer@
            &&& matrix.v2 == app.buffers@[1].buffer@
            &&& app.plot == Plot::Three ==> matrix.v3 == app.buffers@[2].buffer@
            &&& matrix.lut == table
            &&& matrix.factor == app.factor
            &&& matrix.bwmode == app.bwmode
            &&& matrix.start_x == app.crop(fpu).start_x
            &&& matrix.start_y == app.crop(fpu).start_y
            &&& matrix.view == app.crop(fpu).view
        }),
{
}

/// A frame is drawn with a table for the exponent of now, or for one that is equal
/// to it as a number, whatever the exponent was when the table was made.
pub proof fn law_frames_go_by_the_exponent<F: Fn(Op, u32, u32) -> u32>(app: App, fpu: F)
    requires
        app.lut@ == lut::table(fpu, app.lut_exponent),
    ensures
        app.frame_table(fpu) == lut::table(fpu, app.exponent) || (app.frame_table(fpu)
            == lut::table(fpu, app.lut_exponent) && !bits::is_nan(app.exponent) && !bits::is_nan(
            app.lut_exponent,
        ) && bits::value(app.lut_exponent) == bits::value(app.exponent)),
{
}

/// A table is current just where it is the table of its exponent, and the
/// visualizer is ready just where no window is shorter than the matrix.
pub proof fn law_ready_when_no_window_is_short<F: Fn(Op, u32, u32) -> u32>(app: App, fpu: F, i: int)
    ensures
        app.lut_current(fpu) <==> app.lut@ == lut::table(fpu, app.lut_exponent),
        app.ready() && 0 <= i < app.buffers@.len() ==> app.buffers@[i].buffer@.len()
            >= app.length,
        !app.ready() ==> exists|k: int|
            0 <= k < app.buffers@.len() && (#[trigger] app.buffers@[k]).buffer@.len()
                < app.length,
{
}

/// An update puts what a ring gave out behind what its window held and keeps the
/// newest: counted from the end, the window then holds the samples given out, and
/// before them what it held, as far as the matrix is long.
pub proof fn law_updates_append_what_was_given_out(
    before: App,
    after: App,
    given: Seq<Consumer<u32>>,
    left: Seq<Consumer<u32>>,
    i: int,
    back: int,
)
    requires
        channel_moved(before, after, given, left, i),
        0 <= back < before.length,
    ensures
        ring::drained(given[i], left[i]),
        ({
            let (window, now) = (before.buffers@[i].buffer@, after.buffers@[i].buffer@);
            let (old_count, count) = (
                ring::taken(given[i]).len() as int,
                ring::taken(left[i]).len() as int,
            );
            &&& now.len() == if window.len() + (count - old_count) < before.length {
                window.len() + (count - old_count)
            } else {
                before.length as int
            }
            &&& back < count - old_count ==> now[now.len() - 1 - back] == ring::taken(
                left[i],
            )[count - 1 - back]
            &&& count - old_count <= back < count - old_count + window.len() ==> now[now.len() - 1
                - back] == window[window.len() - 1 - (back - (count - old_count))]
        }),
{
    let (window, new) = (before.buffers@[i].buffer@, ring::fresh(given[i], left[i]));
    let all = window + new;
    if back < all.len() {
        buffer::law_window_holds_the_newest(all, before.length as nat, back);
    }
    if back < new.len() {
        assert(all[all.len() - 1 - back] == new[new.len() - 1 - back]);
    }
}

/// A window tracks its ring just where it holds the newest of all that the ring gave
/// out.
pub proof fn law_tracking_windows_hold_the_newest(
    app: App,
    consumers: Seq<Consumer<u32>>,
    i: int,
    back: int,
)
    requires
        tracks(app, consumers, i),
        0 <= back < app.length,
        back < ring::taken(consumers[i]).len(),
    ensures
        ({
            let (window, given) = (app.buffers@[i].buffer@, ring::taken(consumers[i]));
            window[window.len() - 1 - back] == given[given.len() - 1 - back]
        }),
{
    buffer::law_window_holds_the_newest(ring::taken(consumers[i]), app.length as nat, back);
}

} // verus!
