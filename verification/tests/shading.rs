use recurrent_visualizer::app::{App, Crop, Frame};
use recurrent_visualizer::arith::Op;
use recurrent_visualizer::bits::{self, ONE};
use recurrent_visualizer::buffer::FilteredBuffer;
use recurrent_visualizer::lut::{fill_table, lut_index, lut_value, LUT_SIZE};
use recurrent_visualizer::plot::{bw_terms, fill_pixels_three, fill_pixels_two, shade, Plot};

fn fpu(op: Op, a: u32, b: u32) -> u32 {
    let (a, b) = (f32::from_bits(a), f32::from_bits(b));
    match op {
        Op::Add => a + b,
        Op::Sub => a - b,
        Op::Mul => a * b,
        Op::Div => a / b,
        Op::Pow => a.powf(b),
    }
    .to_bits()
}

fn build_lut(exponent: f32) -> Vec<u8> {
    (0..LUT_SIZE)
        .map(|i| {
            (f32::from_bits(lut_value(i)).min(1.0).powf(exponent).clamp(0.0, 1.0) * 255.0 + 0.5)
                as u8
        })
        .collect()
}

/// White at `alpha` over a black background, i.e. grey level == alpha.
#[allow(clippy::too_many_arguments)]
fn reference(
    plot: Plot,
    v1: &[f32],
    v2: &[f32],
    v3: &[f32],
    x: usize,
    y: usize,
    factor: f32,
    exponent: f32,
    bwmode: u8,
) -> f32 {
    let val = match plot {
        Plot::Three => (v1[x] - v2[y]).abs() * (v1[x] - v3[y]).abs() * (v3[x] - v2[y]).abs(),
        Plot::Two => (v1[x] - v2[y]).abs(),
    };
    let mut value = (val * factor).clamp(0.0, 1.0);
    if bwmode == 1 {
        value = 1.0 - value;
    }
    value.powf(exponent).clamp(0.0, 1.0) * 255.0
}

fn signals(n: usize) -> (Vec<f32>, Vec<f32>, Vec<f32>) {
    let f = |k: f32, p: f32| {
        (0..n)
            .map(|i| (i as f32 * k + p).sin() * 0.9)
            .collect::<Vec<f32>>()
    };
    (f(0.31, 0.0), f(0.07, 1.3), f(0.53, 2.7))
}

fn encoded(v: &[f32]) -> Vec<u32> {
    v.iter().map(|x| x.to_bits()).collect()
}

#[allow(clippy::too_many_arguments)]
fn check(
    plot: Plot,
    view: usize,
    start_x: usize,
    start_y: usize,
    factor: f32,
    exponent: f32,
    bwmode: u8,
) {
    let n = 64;
    let (v1, v2, v3) = signals(n);
    let lut = build_lut(exponent);
    let mut pixels = vec![0u8; view * view * 4];

    match plot {
        Plot::Three => fill_pixels_three(
            &mut pixels,
            &encoded(&v1),
            &encoded(&v2),
            &encoded(&v3),
            &lut,
            factor.to_bits(),
            bwmode,
            start_x,
            start_y,
            view,
            &fpu,
        ),
        Plot::Two => fill_pixels_two(
            &mut pixels,
            &encoded(&v1),
            &encoded(&v2),
            &lut,
            factor.to_bits(),
            bwmode,
            start_x,
            start_y,
            view,
            &fpu,
        ),
    }

    for row in 0..view {
        for col in 0..view {
            let px = &pixels[(row * view + col) * 4..][..4];
            let expected = reference(
                plot,
                &v1,
                &v2,
                &v3,
                start_x + col,
                start_y + row,
                factor,
                exponent,
                bwmode,
            );
            let diff = (px[0] as f32 - expected).abs();
            assert!(
                diff <= 1.0,
                "({}, {}): got {}, expected {:.2}",
                col,
                row,
                px[0],
                expected
            );
            assert_eq!([px[0], px[1], px[2], px[3]], [px[0], px[0], px[0], 255]);
        }
    }
}

#[test]
fn shading_matches_old_renderer() {
    for &exponent in &[0.25, 0.5, 1.0, 1.25, 2.0, 4.0] {
        for &factor in &[0.5, 1.0, 2.0, 8.0] {
            for &bwmode in &[0, 1] {
                check(Plot::Three, 64, 0, 0, factor, exponent, bwmode);
            }
        }
    }
}

/// Column index maps to matrix x, row index to matrix y.
#[test]
fn crop_offsets_select_the_right_cells() {
    for &plot in &[Plot::Three, Plot::Two] {
        check(plot, 16, 0, 0, 2.0, 1.0, 0);
        check(plot, 16, 40, 7, 2.0, 1.0, 0);
        check(plot, 16, 48, 48, 2.0, 1.0, 0);
        check(plot, 1, 63, 63, 2.0, 1.0, 0);
    }
}

#[test]
fn two_channel_shading_matches_reference() {
    for &exponent in &[0.25, 0.5, 1.0, 1.25, 2.0, 4.0] {
        for &factor in &[0.5, 1.0, 2.0, 8.0] {
            for &bwmode in &[0, 1] {
                check(Plot::Two, 64, 0, 0, factor, exponent, bwmode);
            }
        }
    }
}

/// With two identical inputs the cross recurrence collapses onto the line of
/// identity: `|v[x]-v[y]|` is zero exactly where `x == y`, so the main diagonal
/// goes black while the rest does not.
#[test]
fn two_channel_identical_inputs_give_a_black_diagonal() {
    let n = 64;
    let (v1, _, _) = signals(n);
    let v1 = encoded(&v1);
    let lut = build_lut(1.0);
    let mut pixels = vec![0u8; n * n * 4];

    fill_pixels_two(&mut pixels, &v1, &v1, &lut, 4.0f32.to_bits(), 0, 0, 0, n, &fpu);

    let at = |x: usize, y: usize| pixels[(y * n + x) * 4];
    let mut off_total = 0u64;
    for i in 0..n {
        assert_eq!(at(i, i), 0, "diagonal cell {} should be black", i);
        for j in 0..n {
            if i != j {
                off_total += at(i, j) as u64;
            }
        }
    }
    assert!(off_total > 0, "the rest of the plot should not be black");
}

/// Zoom/offset clamping: the crop must always stay inside the matrix.
#[test]
fn view_rect_stays_in_bounds() {
    let cases: &[(f32, usize)] = &[
        (0.0, 0),
        (1.0, 0),
        (1.0, 5000),
        (3.7, 0),
        (3.7, 900),
        (3.7, 100000),
        (1e9, 10),
    ];
    let n = 1000usize;
    let mut app = App::new(n, Plot::Three, &fpu);
    for &(zoom, off) in cases {
        app.zoom = zoom.to_bits();
        app.offset_x = off as i32;
        let crop = app.view_rect(&fpu);
        let view = ((n as f32 / zoom.max(1.0)).ceil() as usize).clamp(1, n);
        let start_x = (n - view).min(off);
        assert_eq!((crop.view, crop.start_x), (view, start_x));
        assert!(crop.view >= 1 && crop.view <= n);
        assert!(crop.start_x + crop.view <= n, "zoom {} off {}", zoom, off);
    }
}

#[test]
fn view_rect_follows_zoom_and_offsets() {
    let mut app = App::new(1000, Plot::Two, &fpu);
    assert_eq!(app.view_rect(&fpu), Crop { view: 1000, start_x: 0, start_y: 0 });
    app.zoom = 4.0f32.to_bits();
    app.offset_x = 100;
    app.offset_y = -7;
    assert_eq!(app.view_rect(&fpu), Crop { view: 250, start_x: 100, start_y: 0 });
    app.zoom = 3.0f32.to_bits();
    app.offset_y = 900;
    assert_eq!(app.view_rect(&fpu), Crop { view: 334, start_x: 100, start_y: 666 });
    app.zoom = f32::NAN.to_bits();
    assert_eq!(app.view_rect(&fpu), Crop { view: 1000, start_x: 0, start_y: 0 });
    app.zoom = f32::INFINITY.to_bits();
    assert_eq!(app.view_rect(&fpu), Crop { view: 1, start_x: 100, start_y: 900 });
}

/// Any two equal channels of three darken the diagonal.
#[test]
fn three_channel_duplicates_darken_the_diagonal() {
    let n = 64;
    let (v1, v2, v3) = signals(n);
    let (v1, v2, v3) = (encoded(&v1), encoded(&v2), encoded(&v3));
    let lut = build_lut(1.0);
    for (a, b, c) in [(&v1, &v1, &v3), (&v1, &v2, &v1), (&v1, &v2, &v2), (&v1, &v1, &v1)] {
        let mut pixels = vec![0u8; n * n * 4];
        fill_pixels_three(&mut pixels, a, b, c, &lut, 8.0f32.to_bits(), 0, 0, 0, n, &fpu);
        assert!((0..n).all(|i| pixels[(i * n + i) * 4] == lut[0]));
        assert!(pixels.chunks(4).any(|px| px[0] > 0));
    }
    let mut pixels = vec![0u8; n * n * 4];
    fill_pixels_three(&mut pixels, &v1, &v2, &v3, &lut, 8.0f32.to_bits(), 0, 0, 0, n, &fpu);
    assert!((0..n).any(|i| pixels[(i * n + i) * 4] > 0));
}

/// One signal in all channels mirrors at the diagonal, what is no number included.
#[test]
fn one_signal_draws_a_symmetric_picture() {
    let n = 32;
    let (v, w, _) = signals(n);
    let mut v = encoded(&v);
    v[5] = f32::NAN.to_bits();
    v[9] = f32::INFINITY.to_bits();
    let w = encoded(&w);
    let lut = build_lut(0.5);
    let mirrored = |pixels: &[u8]| {
        (0..n).all(|x| (0..n).all(|y| pixels[(y * n + x) * 4] == pixels[(x * n + y) * 4]))
    };
    for bwmode in [0, 1] {
        let mut pixels = vec![0u8; n * n * 4];
        fill_pixels_three(&mut pixels, &v, &v, &v, &lut, ONE, bwmode, 0, 0, n, &fpu);
        assert!(mirrored(&pixels));
        fill_pixels_two(&mut pixels, &v, &v, &lut, ONE, bwmode, 0, 0, n, &fpu);
        assert!(mirrored(&pixels));
        fill_pixels_two(&mut pixels, &v, &w, &lut, ONE, bwmode, 0, 0, n, &fpu);
        assert!(!mirrored(&pixels));
    }
}

/// Exchanging channels and offsets transposes the two channel picture.
#[test]
fn exchanged_channels_transpose_the_picture() {
    let (n, view, a, b) = (32, 8, 3, 20);
    let (v1, v2, _) = signals(n);
    let (mut v1, v2) = (encoded(&v1), encoded(&v2));
    v1[5] = f32::NAN.to_bits();
    let lut = build_lut(0.5);
    for bwmode in [0, 1] {
        let mut p = vec![0u8; view * view * 4];
        let mut q = p.clone();
        fill_pixels_two(&mut p, &v1, &v2, &lut, ONE, bwmode, a, b, view, &fpu);
        fill_pixels_two(&mut q, &v2, &v1, &lut, ONE, bwmode, b, a, view, &fpu);
        assert_ne!(p, q);
        for row in 0..view {
            for col in 0..view {
                for k in 0..4 {
                    assert_eq!(q[4 * (row * view + col) + k], p[4 * (col * view + row) + k]);
                }
            }
        }
    }
}

/// Inverting comes before the table, so it shades the complement.
#[test]
fn inverting_shades_the_complement() {
    let lut = build_lut(2.0);
    let (one, minus_one) = (1.0f32.to_bits(), (-1.0f32).to_bits());
    for t in (0..=1000).map(|k| k as f32 / 1000.0).chain([-0.0, f32::MIN_POSITIVE]) {
        let inverted = shade(t.to_bits(), one, one, minus_one, &lut, &fpu);
        assert_eq!(inverted, shade((1.0 - t).to_bits(), one, 0, one, &lut, &fpu));
    }
    let plain = shade(0.5f32.to_bits(), one, 0, one, &lut, &fpu);
    let inverted = shade(0.5f32.to_bits(), one, one, minus_one, &lut, &fpu);
    assert_eq!((plain, inverted), (64, 64));
}

#[test]
fn more_zoom_shows_no_more() {
    let mut app = App::new(1000, Plot::Two, &fpu);
    let mut last = app.length;
    for zoom in [-1.0, 0.0, 0.5, 1.0, 1.0001, 1.5, 2.0, 3.7, 999.0, 1000.0, 1e9, f32::INFINITY] {
        app.zoom = f32::to_bits(zoom);
        let view = app.view_rect(&fpu).view;
        assert!(view <= last);
        last = view;
    }
    assert_eq!(last, 1);
}

#[test]
fn a_buffer_that_ends_inside_a_row_is_filled_as_far_as_it_goes() {
    let n = 8;
    let (v1, v2, _) = signals(n);
    let (v1, v2) = (encoded(&v1), encoded(&v2));
    let lut = build_lut(1.0);
    let mut whole = vec![0u8; n * n * 4];
    fill_pixels_two(&mut whole, &v1, &v2, &lut, ONE, 0, 0, 0, n, &fpu);
    let mut part = vec![9u8; 3 * n * 4 + 6];
    fill_pixels_two(&mut part, &v1, &v2, &lut, ONE, 0, 0, 0, n, &fpu);
    let full = 3 * n * 4 + 4;
    assert_eq!(part[..full], whole[..full]);
    assert_eq!(part[full..], [9, 9]);
}

#[test]
fn shade_saturates_and_inverts() {
    let lut = build_lut(1.0);
    let tone = |val: f32, factor: f32, bwmode: u8| {
        let (bw_offset, bw_scale) = bw_terms(bwmode);
        shade(val.to_bits(), factor.to_bits(), bw_offset, bw_scale, &lut, &fpu)
    };
    assert_eq!(tone(0.5, 1.0, 0), 128);
    assert_eq!(tone(0.25, 2.0, 0), 128);
    assert_eq!(tone(3.0, 1.0, 0), 255);
    assert_eq!(tone(3.0, -1.0, 0), 0);
    assert_eq!(tone(0.0, 1.0, 1), 255);
    assert_eq!(tone(9.0, 1.0, 1), 0);
    assert_eq!(tone(f32::NAN, 1.0, 0), 0);
    assert_eq!(tone(f32::NAN, 1.0, 1), 255);
    assert_eq!(tone(f32::INFINITY, 0.0, 0), 0);
    assert_eq!(tone(f32::INFINITY, 1.0, 0), 255);
    // Only one inverts.
    assert_eq!(tone(0.0, 1.0, 2), 0);
}

#[test]
fn shade_reads_one_entry() {
    let one = 1.0f32.to_bits();
    assert_eq!(shade(0, one, 0, one, &[9], &fpu), 9);
    assert_eq!(shade(f32::NAN.to_bits(), one, 0, one, &[9], &fpu), 9);
}

#[test]
fn nothing_to_draw_asks_for_nothing() {
    let v = [ONE];
    fill_pixels_two(&mut [], &v, &v, &[], ONE, 0, 100, 200, 3, &fpu);
    fill_pixels_three(&mut [], &v, &v, &[], &[], ONE, 1, usize::MAX, 200, 3, &fpu);
    let mut rest = [7u8; 3];
    fill_pixels_two(&mut rest, &[], &v, &[], ONE, 0, 100, 0, 3, &fpu);
    assert_eq!(rest, [7, 7, 7]);
}

#[test]
fn the_table_begins_black() {
    for &exponent in &[0.25f32, 0.5, 1.0, 4.0] {
        let mut lut = vec![7u8; LUT_SIZE];
        fill_table(&mut lut, exponent.to_bits(), &fpu);
        assert_eq!(lut[0], 0);
    }
    let mut flat = vec![7u8; LUT_SIZE];
    fill_table(&mut flat, 0, &fpu);
    assert_eq!(flat[0], 255);
}

#[test]
fn bw_terms_are_the_identity_or_the_complement() {
    assert_eq!(bw_terms(0), (0.0f32.to_bits(), 1.0f32.to_bits()));
    assert_eq!(bw_terms(1), (1.0f32.to_bits(), (-1.0f32).to_bits()));
    assert_eq!(bw_terms(255), (0.0f32.to_bits(), 1.0f32.to_bits()));
}

#[test]
fn the_table_is_the_curve() {
    for &exponent in &[0.25f32, 1.0, 2.0, 4.0] {
        let mut lut = vec![7u8; LUT_SIZE];
        fill_table(&mut lut, exponent.to_bits(), &fpu);
        assert_eq!(lut, build_lut(exponent));
    }
    let mut lut = vec![7u8; LUT_SIZE];
    fill_table(&mut lut, f32::NAN.to_bits(), &fpu);
    let one = lut_index(ONE);
    assert!(lut[..one].iter().all(|&level| level == 0));
    // One to any power is one.
    assert!(lut[one..].iter().all(|&level| level == 255));
}

#[test]
fn the_table_covers_the_unit_interval() {
    assert_eq!(lut_index(1.0f32.to_bits()), 65024);
    assert_eq!(lut_index(0), 0);
    assert_eq!(lut_value(0), 0x2000);
    assert_eq!(lut_value(65024), 0x3f80_2000);
    for i in 0..LUT_SIZE {
        assert_eq!(lut_index(lut_value(i)), i);
    }
    for &v in &[1.0e-30f32, 0.001, 0.1, 0.5, 0.77, 1.0] {
        let w = f32::from_bits(lut_value(lut_index(v.to_bits())));
        assert!((w - v).abs() * 1024.0 <= v);
    }
}

#[test]
fn plots_say_how_many_inputs_they_compare() {
    assert_eq!(Plot::Two.inputs(), 2);
    assert_eq!(Plot::Three.inputs(), 3);
}

#[test]
fn bit_patterns_behave_as_their_numbers() {
    let mut patterns: Vec<u32> = (0..=u32::MAX).step_by(65521).collect();
    for v in [0.0, 0.5, 1.0, 1.5, 254.5, 255.0, 255.5, 256.0, 1e9, 5e18, 2e19, f32::INFINITY] {
        for w in [v, -v] {
            let b: u32 = w.to_bits();
            patterns.extend([b.wrapping_sub(1), b, b.wrapping_add(1)]);
        }
    }
    patterns.push(f32::NAN.to_bits());
    for &b in &patterns {
        let v = f32::from_bits(b);
        assert_eq!(bits::abs(b), v.abs().to_bits());
        let t = if v > 1.0 {
            1.0
        } else if v > 0.0 {
            v
        } else {
            0.0
        };
        assert_eq!(bits::saturate(b), t.to_bits());
        assert_eq!(bits::max_one(b), v.max(1.0).to_bits());
        assert_eq!(bits::min_one(b), v.min(1.0).to_bits());
        if !v.is_nan() {
            assert_eq!(bits::clamp_unit(b), v.clamp(0.0, 1.0).to_bits());
        } else {
            assert_eq!(bits::clamp_unit(b), b);
        }
        assert_eq!(bits::to_byte(b), v as u8);
        assert_eq!(bits::ceil_to_size(b), v.ceil() as usize);
        for &c in &[0, 0x8000_0000, ONE, b, b ^ 0x8000_0000, bits::NAN] {
            assert_eq!(bits::differ(b, c), v != f32::from_bits(c));
        }
    }
    for n in (0..0x100_0000usize).step_by(997).chain([1, 2, 3, 0xff_ffff]) {
        assert_eq!(bits::of_size(n), (n as f32).to_bits());
    }
}

fn filled(plot: Plot, n: usize) -> App {
    let mut app = App::new(n, plot, &fpu);
    let (v1, v2, v3) = signals(n);
    for (buffer, v) in app.buffers.iter_mut().zip([v1, v2, v3]) {
        buffer.input(&encoded(&v));
    }
    app
}

#[test]
fn frames_are_blank_until_the_windows_are_full() {
    let mut app = App::new(4, Plot::Two, &fpu);
    assert_eq!(app.render(&fpu), Frame::Blank);
    app.buffers[0].input(&[1, 2, 3, 4]);
    app.buffers[1].input(&[1, 2, 3]);
    assert_eq!(app.render(&fpu), Frame::Blank);
    assert!(app.pixels.iter().all(|&b| b == 0));
    app.buffers[1].input(&[4]);
    assert_eq!(app.render(&fpu), Frame::Plot(Crop { view: 4, start_x: 0, start_y: 0 }));
    assert_eq!(app.frames, 3);
    assert!(app.pixels.iter().skip(3).step_by(4).all(|&b| b == 255));
}

#[test]
fn a_frame_draws_the_crop_with_the_current_curve() {
    for plot in [Plot::Two, Plot::Three] {
        let mut app = filled(plot, 16);
        app.factor = 2.0f32.to_bits();
        app.exponent = 0.5f32.to_bits();
        app.bwmode = 1;
        app.zoom = 2.0f32.to_bits();
        app.offset_x = 3;
        app.offset_y = 6;
        let frame = app.render(&fpu);
        assert_eq!(frame, Frame::Plot(Crop { view: 8, start_x: 3, start_y: 6 }));
        assert_eq!(app.lut, build_lut(0.5));
        assert_eq!(app.lut_exponent, app.exponent);
        let (v1, v2, v3) = signals(16);
        for row in 0..8 {
            for col in 0..8 {
                let got = app.pixels[(row * 8 + col) * 4];
                let expected = reference(plot, &v1, &v2, &v3, 3 + col, 6 + row, 2.0, 0.5, 1);
                assert!((got as f32 - expected).abs() <= 1.0);
            }
        }
        assert!(app.pixels[8 * 8 * 4..].iter().all(|&b| b == 0));
    }
}

#[test]
fn the_table_is_rebuilt_when_the_exponent_changes() {
    let mut app = filled(Plot::Two, 4);
    assert_eq!(app.lut, build_lut(1.0));
    app.lut[5] = 77;
    app.render(&fpu);
    assert_eq!(app.lut[5], 77);
    app.exponent = 4.0f32.to_bits();
    app.render(&fpu);
    assert_eq!(app.lut, build_lut(4.0));
}

#[test]
fn reports_come_once_a_second() {
    let mut app = App::new(2, Plot::Two, &fpu);
    app.frames = 60;
    app.samples = 48000;
    assert_eq!(app.report(999_999_999), None);
    assert_eq!(app.frames, 60);
    assert_eq!(app.report(1_000_000_000), Some((60, 48000)));
    assert_eq!((app.frames, app.samples), (0, 0));
    app.frames = u64::MAX;
    app.render(&fpu);
    assert_eq!(app.frames, 0);
}

#[test]
fn windows_hold_the_most_recent_samples() {
    let mut window = FilteredBuffer::new(4, 1);
    assert!(!window.is_full());
    window.input(&[1, 2, 3]);
    assert_eq!(window.buffer, vec![1, 2, 3]);
    window.input(&[]);
    window.input(&[4, 5]);
    assert_eq!(window.buffer, vec![2, 3, 4, 5]);
    assert!(window.is_full());
    window.input(&[6, 7, 8, 9, 10, 11]);
    assert_eq!(window.buffer, vec![8, 9, 10, 11]);

    let mut pieces = FilteredBuffer::new(4, 1);
    let mut once = FilteredBuffer::new(4, 1);
    pieces.input(&[1, 2, 3, 4, 5]);
    pieces.input(&[6, 7]);
    once.input(&[1, 2, 3, 4, 5, 6, 7]);
    assert_eq!(pieces.buffer, once.buffer);
}

#[test]
fn windows_take_every_nth_sample() {
    let mut window = FilteredBuffer::new(3, 3);
    window.input(&[1, 2, 3, 4, 5, 6, 7]);
    assert_eq!(window.buffer, vec![1, 4, 7]);
    window.input(&[8]);
    assert_eq!(window.buffer, vec![4, 7, 8]);
    window.input(&[9, 10, 11]);
    assert_eq!(window.buffer, vec![7, 8, 9]);
    let mut none = FilteredBuffer::new(0, 1);
    none.input(&[1]);
    assert!(none.buffer.is_empty() && none.is_full());
}
