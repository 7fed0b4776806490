use dsp_blocks::complex::Complex;
use dsp_blocks::fft_filter::FftFilter;
use dsp_blocks::xor_const::XorConst;
use dsp_blocks::Error;

type CF = rustfft::num_complex::Complex<f32>;

fn c(re: f32, im: f32) -> Complex {
    Complex::new(re.to_bits(), im.to_bits())
}

fn to_cf(s: Complex) -> CF {
    CF::new(f32::from_bits(s.re), f32::from_bits(s.im))
}

fn assert_almost_equal_complex(left: &[CF], right: &[CF]) {
    assert_eq!(left.len(), right.len());
    for i in 0..left.len() {
        let d = left[i] - right[i];
        assert!(
            d.norm() < 0.001,
            "index {}: {} != {}",
            i,
            left[i],
            right[i]
        );
    }
}

/// Drives the engine over one chunk, calling `work` until the chunk is
/// consumed, and appends everything emitted.
fn feed_chunk(f: &mut FftFilter, mut chunk: &[Complex], out: &mut Vec<Complex>) {
    while !chunk.is_empty() {
        let (consumed, emitted) = f.work(chunk);
        assert!(consumed > 0, "work must make progress on nonempty input");
        out.extend_from_slice(&emitted);
        chunk = &chunk[consumed..];
    }
}

/// Filters a whole stream, fed in chunks of the given sizes (the last chunk
/// takes whatever remains).
fn filter_stream(taps: &[Complex], stream: &[Complex], chunk_sizes: &[usize]) -> Vec<Complex> {
    let mut f = FftFilter::new(taps).expect("taps must not be empty");
    let mut out = Vec::new();
    let mut pos = 0usize;
    let mut sizes = chunk_sizes.iter().copied().cycle();
    while pos < stream.len() {
        let n = sizes.next().unwrap().max(1).min(stream.len() - pos);
        feed_chunk(&mut f, &stream[pos..pos + n], &mut out);
        pos += n;
    }
    out
}

/// Direct linear convolution of the stream against the taps, in
/// single-precision complex arithmetic.
fn direct_convolution(taps: &[CF], stream: &[CF], len: usize) -> Vec<CF> {
    let mut out = vec![CF::new(0.0, 0.0); len];
    for k in 0..len {
        for (j, t) in taps.iter().enumerate() {
            if k >= j && k - j < stream.len() {
                out[k] += t * stream[k - j];
            }
        }
    }
    out
}

#[test]
fn fft_then_ifft() {
    let buf = vec![
        CF { re: -0.045228414, im: 0.05276649 },
        CF { re: 0.045228407, im: 0.0075380574 },
        CF { re: 0.015076124, im: 0.06030453 },
        CF { re: -0.015076143, im: -0.03769034 },
        CF { re: -0.045228403, im: 0.105532974 },
        CF { re: -0.05276649, im: 0.17337555 },
        CF { re: -0.06784265, im: 0.007538076 },
        CF { re: -0.075380675, im: 0.08291874 },
        CF { re: 5.3462292e-9, im: -0.03015228 },
        CF { re: -0.015076158, im: 0.060304545 },
        CF { re: -0.015076132, im: 0.10553298 },
        CF { re: -0.045228425, im: 0.045228384 },
        CF { re: 0.07538068, im: -0.0150761455 },
        CF { re: 0.067842625, im: 0.01507613 },
        CF { re: 0.0301523, im: 0.07538069 },
        CF { re: -0.015076129, im: 0.067842595 },
        CF { re: -0.015076145, im: -0.052766465 },
        CF { re: -0.052766472, im: 0.022614188 },
        CF { re: -0.09799488, im: 0.10553297 },
        CF { re: -0.015076136, im: 0.0075380704 },
        CF { re: -0.015076153, im: -4.566649e-9 },
        CF { re: 0.06784262, im: -0.05276648 },
        CF { re: 0.03015228, im: 0.022614205 },
        CF { re: 0.09045683, im: -0.07538069 },
        CF { re: 0.0075380807, im: -0.12814716 },
        CF { re: 0.015076138, im: 0.06784261 },
        CF { re: 0.075380705, im: -0.0150761455 },
        CF { re: -0.060304567, im: -0.007538066 },
    ];
    let mut buf_fft = buf.clone();

    let mut planner = rustfft::FftPlanner::new();
    let fft = planner.plan_fft_forward(buf.len());
    let ifft = planner.plan_fft_inverse(buf.len());
    fft.process(&mut buf_fft);
    ifft.process(&mut buf_fft);
    for i in 0..buf.len() {
        buf_fft[i] *= 1.0 / buf.len() as f32;
    }
    assert_eq!(buf.len(), buf_fft.len());
    assert_almost_equal_complex(&buf_fft, &buf);
}

#[test]
fn block_sizes_concrete() {
    // (ntaps, expected fftsize): smallest power of two >= ntaps, doubled.
    let cases: [(usize, usize); 8] =
        [(1, 2), (2, 4), (3, 8), (4, 8), (5, 16), (31, 64), (32, 64), (33, 128)];
    for (ntaps, fftsize) in cases {
        let taps = vec![c(1.0, 0.0); ntaps];
        let f = FftFilter::new(&taps).unwrap();
        assert_eq!(f.fftsize, fftsize, "ntaps = {ntaps}");
        assert_eq!(f.ntaps, ntaps);
        assert_eq!(f.nsamples, fftsize - ntaps);
        assert!(f.nsamples > 0);
        assert!(f.fftsize >= 2 * ntaps);
        assert_eq!(f.fftsize & (f.fftsize - 1), 0, "power of two");
        assert_eq!(f.taps_fft.len(), fftsize);
        assert_eq!(f.tail.len(), ntaps);
        assert_eq!(f.buf.len(), 0);
    }
}

#[test]
fn zero_taps_rejected() {
    let taps: Vec<Complex> = Vec::new();
    let r = FftFilter::new(&taps);
    assert_eq!(r.unwrap_err(), Error::InvalidFilterSpec);
}

#[test]
fn differencer_impulse_scenario() {
    // A 4-tap differencer with lag 3 fed a unit impulse and 20 zeros.
    let taps = [c(1.0, 0.0), c(0.0, 0.0), c(0.0, 0.0), c(-1.0, 0.0)];
    let mut stream = vec![c(0.0, 0.0); 21];
    stream[0] = c(1.0, 0.0);
    let out = filter_stream(&taps, &stream, &[stream.len()]);
    assert!(out.len() >= 4, "got {} samples", out.len());
    let expected = [1.0f32, 0.0, 0.0, -1.0];
    for i in 0..out.len() {
        let v = to_cf(out[i]);
        let want = if i < 4 { expected[i] } else { 0.0 };
        assert!(
            (v.re - want).abs() < 1e-5 && v.im.abs() < 1e-5,
            "index {i}: {v} != {want}"
        );
    }
}

#[test]
fn impulse_recovers_taps() {
    let taps = [c(0.5, 0.25), c(-0.125, 1.0), c(0.75, -0.5), c(0.0, 0.3), c(-0.9, 0.1)];
    // fftsize 16, nsamples 11: feed one block's worth.
    let mut stream = vec![c(0.0, 0.0); 11];
    stream[0] = c(1.0, 0.0);
    let out = filter_stream(&taps, &stream, &[1]);
    assert_eq!(out.len(), 11);
    for i in 0..taps.len() {
        let got = to_cf(out[i]);
        let want = to_cf(taps[i]);
        assert!((got - want).norm() < 1e-5, "index {i}: {got} != {want}");
    }
    for i in taps.len()..out.len() {
        assert!(to_cf(out[i]).norm() < 1e-5, "index {i} should be ~0");
    }
}

#[test]
fn filter_is_linear() {
    let taps = [c(0.3, -0.2), c(1.1, 0.4), c(-0.6, 0.05)];
    let x: Vec<CF> = (0..16).map(|i| CF::new((i as f32 * 0.37).sin(), (i as f32 * 0.61).cos())).collect();
    let y: Vec<CF> = (0..16).map(|i| CF::new((i as f32 * 0.83).cos(), (i as f32 * 0.29).sin())).collect();
    let a = CF::new(2.0, -1.0);
    let b = CF::new(0.5, 0.5);
    let mix: Vec<Complex> = x.iter().zip(y.iter()).map(|(u, v)| {
        let m = a * u + b * v;
        c(m.re, m.im)
    }).collect();
    let xs: Vec<Complex> = x.iter().map(|u| c(u.re, u.im)).collect();
    let ys: Vec<Complex> = y.iter().map(|u| c(u.re, u.im)).collect();

    let out_mix = filter_stream(&taps, &mix, &[4]);
    let out_x = filter_stream(&taps, &xs, &[4]);
    let out_y = filter_stream(&taps, &ys, &[4]);
    assert_eq!(out_mix.len(), out_x.len());
    assert_eq!(out_mix.len(), out_y.len());
    assert!(out_mix.len() >= 10);
    for i in 0..out_mix.len() {
        let want = a * to_cf(out_x[i]) + b * to_cf(out_y[i]);
        let got = to_cf(out_mix[i]);
        assert!((got - want).norm() < 1e-4, "index {i}: {got} != {want}");
    }
}

#[test]
fn chunking_does_not_change_output() {
    let taps = [c(1.0, 0.0), c(0.0, 0.0), c(0.0, 0.0), c(-1.0, 0.0)];
    let stream: Vec<Complex> = (0..40)
        .map(|i| c((i as f32 * 0.17).sin(), (i as f32 * 0.41).cos()))
        .collect();
    let all_at_once = filter_stream(&taps, &stream, &[stream.len()]);
    let one_by_one = filter_stream(&taps, &stream, &[1]);
    let irregular = filter_stream(&taps, &stream, &[3, 1, 7, 2, 5]);
    // Identical consumed samples give bitwise-identical output, however the
    // stream was cut.
    assert_eq!(all_at_once, one_by_one);
    assert_eq!(all_at_once, irregular);
}

#[test]
fn streaming_matches_direct_convolution() {
    let taps = [c(0.5, 0.1), c(-0.25, 0.0), c(0.125, -0.3), c(1.0, 0.2)];
    let stream: Vec<Complex> = (0..40)
        .map(|i| c((i as f32 * 0.23).cos(), (i as f32 * 0.53).sin()))
        .collect();
    let out = filter_stream(&taps, &stream, &[1, 2, 3]);
    assert_eq!(out.len(), 40); // nsamples = 4 divides 40
    let taps_f: Vec<CF> = taps.iter().map(|s| to_cf(*s)).collect();
    let stream_f: Vec<CF> = stream.iter().map(|s| to_cf(*s)).collect();
    let direct = direct_convolution(&taps_f, &stream_f, out.len());
    for i in 0..out.len() {
        let got = to_cf(out[i]);
        assert!((got - direct[i]).norm() < 1e-4, "index {i}: {got} != {}", direct[i]);
    }
}

#[test]
fn xor_const_one() {
    let xc = XorConst::new(0xdead_beef);
    assert_eq!(xc.process_one(&0), 0xdead_beef);
    assert_eq!(xc.process_one(&0xdead_beef), 0);
    assert_eq!(xc.process_one(&0xffff_ffff), !0xdead_beefu32);
}

#[test]
fn xor_const_block() {
    let xc = XorConst::new(0x0f0f_0f0f);
    let input = [0u32, 1, 0x0f0f_0f0f, 0xffff_ffff];
    let out = xc.process_block(&input);
    assert_eq!(out, vec![0x0f0f_0f0f, 0x0f0f_0f0e, 0, 0xf0f0_f0f0]);
}
