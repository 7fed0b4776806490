//! The trusted transform layer: the discrete Fourier transform and the
//! per-sample complex arithmetic, supplied by `rustfft` and `num_complex`.
//!
//! Verified code cannot state what a floating-point transform returns, so
//! each operation's result is given a name: an uninterpreted spec function
//! of the operands alone. Every operation here is deterministic in its
//! arguments — it reads no clock, no environment, no randomness — so naming
//! the result is sound. The engine's contracts are then exact over these
//! names: two equal blocks always filter to two equal outputs.
//!
//! A sample crosses the boundary as its bit patterns (`crate::complex`):
//! `bytemuck::cast` reinterprets the two words as one `num_complex`
//! single-precision complex value and back.
use vstd::prelude::*;

use crate::complex::Complex;

verus! {

/// The forward discrete Fourier transform of a block, at the block's own
/// length.
pub uninterp spec fn fft_of(s: Seq<Complex>) -> Seq<Complex>;

/// The inverse discrete Fourier transform of a block, at the block's own
/// length, without any re-normalization.
pub uninterp spec fn ifft_of(s: Seq<Complex>) -> Seq<Complex>;

/// The product of two complex samples.
pub uninterp spec fn cmul_of(a: Complex, b: Complex) -> Complex;

/// The sum of two complex samples.
pub uninterp spec fn cadd_of(a: Complex, b: Complex) -> Complex;

/// A complex sample divided by a positive integer.
pub uninterp spec fn cscale_of(a: Complex, n: int) -> Complex;

/// Relies on `rustfft::FftPlanner::plan_fft_forward` and `Fft::process`:
/// an in-place forward FFT over the whole buffer, whose result depends on
/// the buffer's contents (and length) alone.
#[verifier::external_body]
pub(crate) fn fft_forward_in_place(buf: &mut Vec<Complex>)
    ensures
        final(buf)@.len() == old(buf)@.len(),
        final(buf)@ == fft_of(old(buf)@),
{
    let mut b: Vec<num_complex::Complex32> =
        buf.iter().map(|s| bytemuck::cast([s.re, s.im])).collect();
    rustfft::FftPlanner::new().plan_fft_forward(b.len()).process(&mut b);
    *buf = b
        .iter()
        .map(|c| {
            let w: [u32; 2] = bytemuck::cast(*c);
            Complex { re: w[0], im: w[1] }
        })
        .collect();
}

/// Relies on `rustfft::FftPlanner::plan_fft_inverse` and `Fft::process`:
/// an in-place inverse FFT over the whole buffer (not re-normalized), whose
/// result depends on the buffer's contents (and length) alone.
#[verifier::external_body]
pub(crate) fn fft_inverse_in_place(buf: &mut Vec<Complex>)
    ensures
        final(buf)@.len() == old(buf)@.len(),
        final(buf)@ == ifft_of(old(buf)@),
{
    let mut b: Vec<num_complex::Complex32> =
        buf.iter().map(|s| bytemuck::cast([s.re, s.im])).collect();
    rustfft::FftPlanner::new().plan_fft_inverse(b.len()).process(&mut b);
    *buf = b
        .iter()
        .map(|c| {
            let w: [u32; 2] = bytemuck::cast(*c);
            Complex { re: w[0], im: w[1] }
        })
        .collect();
}

/// Relies on `num_complex::Complex::mul`: the complex product of the two
/// samples.
#[verifier::external_body]
pub(crate) fn cmul(a: Complex, b: Complex) -> (r: Complex)
    ensures
        r == cmul_of(a, b),
{
    let ca: num_complex::Complex32 = bytemuck::cast([a.re, a.im]);
    let cb: num_complex::Complex32 = bytemuck::cast([b.re, b.im]);
    let w: [u32; 2] = bytemuck::cast(ca * cb);
    Complex { re: w[0], im: w[1] }
}

/// Relies on `num_complex::Complex::add`: the complex sum of the two
/// samples.
#[verifier::external_body]
pub(crate) fn cadd(a: Complex, b: Complex) -> (r: Complex)
    ensures
        r == cadd_of(a, b),
{
    let ca: num_complex::Complex32 = bytemuck::cast([a.re, a.im]);
    let cb: num_complex::Complex32 = bytemuck::cast([b.re, b.im]);
    let w: [u32; 2] = bytemuck::cast(ca + cb);
    Complex { re: w[0], im: w[1] }
}

/// Relies on `num_complex::Complex::div` by a scalar: the sample divided by
/// `n`, used to fold the transform pair's `1/fftsize` normalization into the
/// frequency response.
#[verifier::external_body]
pub(crate) fn cscale_down(a: Complex, n: usize) -> (r: Complex)
    requires
        1 <= n,
    ensures
        r == cscale_of(a, n as int),
{
    let ca: num_complex::Complex32 = bytemuck::cast([a.re, a.im]);
    let f: <num_complex::Complex32 as num_complex::ComplexFloat>::Real =
        rustfft::num_traits::cast(n).unwrap();
    let w: [u32; 2] = bytemuck::cast(ca / f);
    Complex { re: w[0], im: w[1] }
}

} // verus!
