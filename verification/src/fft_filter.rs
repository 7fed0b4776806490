//! An overlap-add FFT filter: applies a finite-impulse-response filter to an
//! unbounded stream of complex samples by frequency-domain multiplication.
//!
//! Construction turns the tap sequence into a normalized frequency response
//! (`response_spec`); each full block of `nsamples` new samples is then
//! zero-padded to `fftsize`, transformed, multiplied against the response,
//! transformed back, and stitched to the previous block with a carried
//! `ntaps`-sample tail, so the emitted stream is the linear convolution of
//! the input against the taps, streamed in fixed-size chunks.
use vstd::prelude::*;

use crate::complex::{zero_sample, zero_seq, Complex};
use crate::transform::{
    cadd, cadd_of, cmul, cmul_of, cscale_down, cscale_of, fft_forward_in_place, fft_inverse_in_place,
    fft_of, ifft_of,
};
use crate::Error;

verus! {

/// Tap counts up to this bound are accepted; it keeps the derived transform
/// size within `usize`.
pub const MAX_TAPS: usize = 0x2000_0000;

/// Two to the power `k`.
pub open spec fn pow2(k: nat) -> nat
    decreases k,
{
    if k == 0 {
        1
    } else {
        2 * pow2((k - 1) as nat)
    }
}

/// The smallest power of two that is at least `n` (and at least 1).
pub open spec fn clp2(n: nat) -> nat
    decreases n,
{
    if n <= 1 {
        1
    } else {
        2 * clp2(((n + 1) / 2) as nat)
    }
}

/// The transform block length derived from a tap count: the smallest power
/// of two at least `ntaps`, doubled. The doubling leaves a zero guard band
/// that absorbs circular-convolution wraparound.
pub open spec fn fftsize_spec(ntaps: nat) -> nat {
    2 * clp2(ntaps)
}

proof fn lemma_pow2_pos(k: nat)
    ensures
        1 <= pow2(k),
    decreases k,
{
    if k > 0 {
        lemma_pow2_pos((k - 1) as nat);
    }
}

proof fn lemma_pow2_le(a: nat, b: nat)
    requires
        a <= b,
    ensures
        pow2(a) <= pow2(b),
    decreases b,
{
    if a < b {
        lemma_pow2_le(a, (b - 1) as nat);
        lemma_pow2_pos((b - 1) as nat);
    }
}

/// `clp2(n)` is a power of two and bounds `n` from above.
proof fn lemma_clp2_basic(n: nat)
    ensures
        n <= clp2(n),
        1 <= clp2(n),
        exists|k: nat| clp2(n) == pow2(k),
    decreases n,
{
    if n <= 1 {
        assert(clp2(n) == pow2(0));
    } else {
        let m = ((n + 1) / 2) as nat;
        lemma_clp2_basic(m);
        let k = choose|k: nat| clp2(m) == pow2(k);
        assert(clp2(n) == pow2(k + 1));
    }
}

/// No power of two at least `n` is smaller than `clp2(n)`.
proof fn lemma_clp2_minimal(n: nat, k: nat)
    requires
        n <= pow2(k),
    ensures
        clp2(n) <= pow2(k),
    decreases n,
{
    if n <= 1 {
        lemma_pow2_pos(k);
    } else {
        let m = ((n + 1) / 2) as nat;
        // pow2(k) >= n >= 2, so k >= 1 and pow2(k - 1) >= ceil(n / 2) = m.
        if k == 0 {
            assert(false);
        } else {
            let k1 = (k - 1) as nat;
            assert(pow2(k) == 2 * pow2(k1));
            assert(m <= pow2(k1));
            lemma_clp2_minimal(m, k1);
        }
    }
}

/// `clp2` never overshoots by a factor of two: `clp2(n) < 2 * n` for
/// positive `n`.
proof fn lemma_clp2_tight(n: nat)
    requires
        1 <= n,
    ensures
        clp2(n) < 2 * n,
    decreases n,
{
    if n > 1 {
        let m = ((n + 1) / 2) as nat;
        lemma_clp2_tight(m);
        if n % 2 == 1 {
            // clp2(m) is even (m >= 2 here), while 2 * m - 1 == n is odd,
            // so clp2(m) <= n forces clp2(m) <= n - 1.
            assert(m >= 2);
            assert(clp2(m) == 2 * clp2(((m + 1) / 2) as nat));
        }
    }
}

/// The sizing facts every block of the engine rests on: for any positive tap
/// count the derived transform length is a power of two, carries at least
/// `ntaps` samples of guard band (`fftsize >= 2 * ntaps`) and no more than
/// twice that (`fftsize < 4 * ntaps`), and leaves a strictly positive number
/// of fresh samples per block, itself at least `ntaps`.
pub proof fn lemma_block_sizes(ntaps: nat)
    requires
        1 <= ntaps,
    ensures
        exists|k: nat| fftsize_spec(ntaps) == pow2(k),
        2 * ntaps <= fftsize_spec(ntaps),
        fftsize_spec(ntaps) < 4 * ntaps,
        ntaps <= fftsize_spec(ntaps) - ntaps,
        1 <= fftsize_spec(ntaps) - ntaps,
{
    lemma_clp2_basic(ntaps);
    lemma_clp2_tight(ntaps);
    let k = choose|k: nat| clp2(ntaps) == pow2(k);
    assert(fftsize_spec(ntaps) == pow2(k + 1));
}

/// The transform block length for `from` taps: the smallest power of two at
/// least `from`, doubled.
fn calc_fftsize(from: usize) -> (r: usize)
    requires
        1 <= from <= MAX_TAPS,
    ensures
        r == fftsize_spec(from as nat),
{
    let mut n: usize = 1;
    proof {
        lemma_clp2_basic(from as nat);
        assert(n == pow2(0));
    }
    let ghost mut k: nat = 0;
    while n < from
        invariant
            1 <= n,
            from <= MAX_TAPS,
            n == pow2(k),
            n <= clp2(from as nat),
            n < 2 * from,
        decreases 2 * from - n,
    {
        proof {
            // n is a power of two strictly below clp2(from), so doubling it
            // still cannot pass clp2(from).
            let kc = choose|kc: nat| clp2(from as nat) == pow2(kc);
            lemma_clp2_basic(from as nat);
            if k >= kc {
                lemma_pow2_le(kc, k);
                assert(false);
            }
            lemma_pow2_le(k + 1, kc);
            assert(pow2(k + 1) == 2 * pow2(k));
        }
        n = n * 2;
        proof {
            k = k + 1;
        }
    }
    proof {
        // n is a power of two with from <= n <= clp2(from); minimality pins
        // n to clp2(from) exactly.
        lemma_clp2_minimal(from as nat, k);
    }
    2 * n
}

/// `s` zero-padded on the right to length `n` (for `n >= s.len()`).
pub open spec fn padded_to(s: Seq<Complex>, n: nat) -> Seq<Complex> {
    s + zero_seq((n - s.len()) as nat)
}

/// The frequency response derived from a tap sequence: the taps zero-padded
/// to the derived block length, forward-transformed, and scaled by
/// `1/fftsize`. The scaling makes one forward and one (unnormalized)
/// inverse transform per block come out at unity gain.
pub open spec fn response_spec(taps: Seq<Complex>) -> Seq<Complex> {
    let fs = fftsize_spec(taps.len());
    let spectrum = fft_of(padded_to(taps, fs));
    Seq::new(fs, |i: int| cscale_of(spectrum[i], fs as int))
}

/// One block through the filter, before splitting into emitted samples and
/// carried tail: the block zero-padded to the response's length, forward
/// transformed, multiplied index-for-index against the response, inverse
/// transformed, with the previous tail added into the first `tail.len()`
/// entries.
pub open spec fn filtered_block(resp: Seq<Complex>, block: Seq<Complex>, tail: Seq<Complex>) -> Seq<
    Complex,
> {
    let spectrum = fft_of(padded_to(block, resp.len()));
    let shaped = Seq::new(resp.len(), |i: int| cmul_of(spectrum[i], resp[i]));
    let time = ifft_of(shaped);
    Seq::new(
        time.len(),
        |i: int|
            if i < tail.len() {
                cadd_of(time[i], tail[i])
            } else {
                time[i]
            },
    )
}

/// The samples a full block emits: the first `nsamples` entries of the
/// filtered block.
pub open spec fn block_out(resp: Seq<Complex>, block: Seq<Complex>, tail: Seq<Complex>) -> Seq<
    Complex,
> {
    filtered_block(resp, block, tail).take(resp.len() - tail.len())
}

/// The tail a full block carries into the next one: the entries of the
/// filtered block past the emitted `nsamples`.
pub open spec fn block_tail(resp: Seq<Complex>, block: Seq<Complex>, tail: Seq<Complex>) -> Seq<
    Complex,
> {
    filtered_block(resp, block, tail).skip(resp.len() - tail.len())
}

/// The engine's whole observable behaviour on a batch of accepted input,
/// one sample at a time: each sample joins the accumulation buffer, and
/// whenever the buffer reaches `nsamples` (`resp.len() - tail.len()`) the
/// full block is filtered, its output appended, and its tail carried.
/// Returns the final accumulation buffer, the final tail, and everything
/// emitted, in order.
pub open spec fn feed(
    resp: Seq<Complex>,
    acc: Seq<Complex>,
    tail: Seq<Complex>,
    input: Seq<Complex>,
) -> (Seq<Complex>, Seq<Complex>, Seq<Complex>)
    decreases input.len(),
{
    if input.len() == 0 {
        (acc, tail, Seq::<Complex>::empty())
    } else {
        let acc1 = acc.push(input[0]);
        if acc1.len() == resp.len() - tail.len() {
            let rest = feed(resp, Seq::<Complex>::empty(), block_tail(resp, acc1, tail), input.drop_first());
            (rest.0, rest.1, block_out(resp, acc1, tail) + rest.2)
        } else {
            feed(resp, acc1, tail, input.drop_first())
        }
    }
}

/// The overlap-add FFT filter engine. It owns the precomputed frequency
/// response, the accumulation buffer for the block being gathered, and the
/// tail carried from the previous block.
#[derive(Debug)]
pub struct FftFilter {
    /// Accumulation buffer: the samples gathered towards the next block;
    /// always shorter than `nsamples` between calls.
    pub buf: Vec<Complex>,
    /// The frequency response: `response_spec` of the taps given at
    /// construction; `fftsize` entries, never changed.
    pub taps_fft: Vec<Complex>,
    /// New input samples consumed per processed block: `fftsize - ntaps`.
    pub nsamples: usize,
    /// The transform block length: `fftsize_spec(ntaps)`.
    pub fftsize: usize,
    /// The tap count the filter was built from.
    pub ntaps: usize,
    /// The carried tail: exactly `ntaps` samples, added into the start of
    /// the next block's filtered output.
    pub tail: Vec<Complex>,
}

impl FftFilter {
    /// The engine's structural invariant: the sizes are the ones derived
    /// from the tap count, the response and tail have their fixed lengths,
    /// and the accumulation buffer is still short of a full block.
    pub open spec fn wf(self) -> bool {
        &&& 1 <= self.ntaps
        &&& self.fftsize == fftsize_spec(self.ntaps as nat)
        &&& self.nsamples == self.fftsize - self.ntaps
        &&& self.ntaps <= self.nsamples
        &&& self.taps_fft@.len() == self.fftsize
        &&& self.tail@.len() == self.ntaps
        &&& self.buf@.len() < self.nsamples
    }

    /// Build a filter from a tap sequence. An empty tap sequence has no
    /// frequency response and is rejected with `Error::InvalidFilterSpec`;
    /// any other tap sequence (up to `MAX_TAPS`) yields a ready engine with
    /// the precomputed response, an empty accumulation buffer, and an
    /// all-zero tail.
    pub fn new(taps: &[Complex]) -> (r: Result<FftFilter, Error>)
        requires
            taps@.len() <= MAX_TAPS,
        ensures
            taps@.len() == 0 <==> r matches Err(Error::InvalidFilterSpec),
            r matches Ok(f) ==> {
                &&& f.wf()
                &&& f.ntaps == taps@.len()
                &&& f.fftsize == fftsize_spec(taps@.len())
                &&& f.nsamples == f.fftsize - f.ntaps
                &&& f.taps_fft@ == response_spec(taps@)
                &&& f.tail@ == zero_seq(taps@.len())
                &&& f.buf@ == Seq::<Complex>::empty()
            },
    {
        let ntaps = taps.len();
        if ntaps == 0 {
            return Err(Error::InvalidFilterSpec);
        }
        proof {
            lemma_block_sizes(ntaps as nat);
        }
        let fftsize = calc_fftsize(ntaps);
        let nsamples = fftsize - ntaps;

        // Zero-pad the taps to the block length.
        let mut padded: Vec<Complex> = Vec::new();
        let mut i: usize = 0;
        while i < ntaps
            invariant
                i <= ntaps,
                ntaps == taps@.len(),
                padded@ == taps@.take(i as int),
            decreases ntaps - i,
        {
            padded.push(taps[i]);
            i = i + 1;
        }
        assert(padded@ == taps@);
        while padded.len() < fftsize
            invariant
                taps@.len() <= padded@.len() <= fftsize,
                padded@.take(taps@.len() as int) == taps@,
                forall|j: int| taps@.len() <= j < padded@.len() ==> padded@[j] == zero_sample(),
            decreases fftsize - padded@.len(),
        {
            padded.push(Complex::zero());
        }
        assert(padded@ =~= padded_to(taps@, fftsize as nat));

        // Forward-transform and fold the block normalization into the
        // response.
        fft_forward_in_place(&mut padded);
        let mut taps_fft: Vec<Complex> = Vec::new();
        let mut i: usize = 0;
        while i < fftsize
            invariant
                i <= fftsize,
                padded@.len() == fftsize,
                1 <= fftsize,
                padded@ == fft_of(padded_to(taps@, fftsize as nat)),
                taps_fft@.len() == i,
                forall|j: int|
                    0 <= j < i ==> taps_fft@[j] == cscale_of(
                        fft_of(padded_to(taps@, fftsize as nat))[j],
                        fftsize as int,
                    ),
            decreases fftsize - i,
        {
            taps_fft.push(cscale_down(padded[i], fftsize));
            i = i + 1;
        }
        assert(taps_fft@ =~= response_spec(taps@));

        // A fresh, all-zero tail of exactly `ntaps` samples.
        let mut tail: Vec<Complex> = Vec::new();
        while tail.len() < ntaps
            invariant
                tail@.len() <= ntaps,
                forall|j: int| 0 <= j < tail@.len() ==> tail@[j] == zero_sample(),
            decreases ntaps - tail@.len(),
        {
            tail.push(Complex::zero());
        }
        assert(tail@ =~= zero_seq(taps@.len()));

        Ok(
            FftFilter {
                buf: Vec::new(),
                taps_fft,
                nsamples,
                fftsize,
                ntaps,
                tail,
            },
        )
    }

    /// How many more samples the accumulation buffer wants before the next
    /// block is full.
    pub open spec fn want(self) -> int {
        self.nsamples - self.buf@.len()
    }

    /// One scheduling tick. Copies `min(input.len(), want)` samples from
    /// `input` into the accumulation buffer and reports that count as
    /// consumed; if that completes a block of `nsamples`, filters it and
    /// returns the `nsamples` emitted samples, carrying the new tail.
    /// Otherwise returns no output — waiting for more data is the normal
    /// case, not an error.
    ///
    /// The whole effect — final buffer, final tail, emitted samples — is
    /// exactly `feed` of the consumed prefix, so output depends only on the
    /// samples consumed, never on how the stream was chunked.
    pub fn work(&mut self, input: &[Complex]) -> (r: (usize, Vec<Complex>))
        requires
            old(self).wf(),
        ensures
            final(self).wf(),
            final(self).taps_fft@ == old(self).taps_fft@,
            final(self).fftsize == old(self).fftsize,
            final(self).nsamples == old(self).nsamples,
            final(self).ntaps == old(self).ntaps,
            r.0 as int == if input@.len() as int <= old(self).want() {
                input@.len() as int
            } else {
                old(self).want()
            },
            ({
                let fed = feed(
                    old(self).taps_fft@,
                    old(self).buf@,
                    old(self).tail@,
                    input@.take(r.0 as int),
                );
                &&& final(self).buf@ == fed.0
                &&& final(self).tail@ == fed.1
                &&& r.1@ == fed.2
            }),
            r.1@.len() == 0 || r.1@.len() == old(self).nsamples,
    {
        let ghost resp0 = self.taps_fft@;
        let ghost acc0 = self.buf@;
        let ghost tail0 = self.tail@;

        let want = self.nsamples - self.buf.len();
        let add = if input.len() < want {
            input.len()
        } else {
            want
        };

        // Accumulate the consumed samples.
        let mut i: usize = 0;
        while i < add
            invariant
                i <= add,
                add <= input@.len(),
                self.buf@ == acc0 + input@.take(i as int),
                self.taps_fft@ == resp0,
                self.tail@ == tail0,
                self.nsamples == old(self).nsamples,
                self.fftsize == old(self).fftsize,
                self.ntaps == old(self).ntaps,
            decreases add - i,
        {
            self.buf.push(input[i]);
            i = i + 1;
        }
        let ghost consumed = input@.take(add as int);
        let ghost full = acc0 + consumed;
        assert(self.buf@ == full);

        proof {
            lemma_feed_fill(resp0, acc0, tail0, consumed);
        }

        if self.buf.len() < self.nsamples {
            // Not enough data yet: the buffer simply grew.
            return (add, Vec::new());
        }

        // A full block is ready: zero-pad it to the transform length.
        let mut work_buf: Vec<Complex> = Vec::new();
        let mut j: usize = 0;
        while j < self.fftsize
            invariant
                j <= self.fftsize,
                self.buf@ == full,
                full.len() == self.nsamples,
                self.nsamples <= self.fftsize,
                work_buf@.len() == j,
                forall|k: int|
                    0 <= k < j ==> work_buf@[k] == (if k < full.len() {
                        full[k]
                    } else {
                        zero_sample()
                    }),
            decreases self.fftsize - j,
        {
            if j < self.nsamples {
                work_buf.push(self.buf[j]);
            } else {
                work_buf.push(Complex::zero());
            }
            j = j + 1;
        }
        assert(work_buf@ =~= padded_to(full, self.fftsize as nat));

        // Forward transform, multiply against the response, inverse
        // transform.
        fft_forward_in_place(&mut work_buf);
        let ghost spectrum = fft_of(padded_to(full, self.fftsize as nat));
        let mut shaped: Vec<Complex> = Vec::new();
        let mut j: usize = 0;
        while j < self.fftsize
            invariant
                j <= self.fftsize,
                work_buf@ == spectrum,
                work_buf@.len() == self.fftsize,
                self.taps_fft@ == resp0,
                resp0.len() == self.fftsize,
                shaped@.len() == j,
                forall|k: int| 0 <= k < j ==> shaped@[k] == cmul_of(spectrum[k], resp0[k]),
            decreases self.fftsize - j,
        {
            shaped.push(cmul(work_buf[j], self.taps_fft[j]));
            j = j + 1;
        }
        assert(shaped@ =~= Seq::new(resp0.len(), |i: int| cmul_of(spectrum[i], resp0[i])));
        fft_inverse_in_place(&mut shaped);
        let ghost time = ifft_of(Seq::new(resp0.len(), |i: int| cmul_of(spectrum[i], resp0[i])));
        assert(shaped@ == time);
        assert(time.len() == self.fftsize);

        // Overlap-add the previous tail into the emitted region.
        let mut outv: Vec<Complex> = Vec::new();
        let mut j: usize = 0;
        while j < self.nsamples
            invariant
                j <= self.nsamples,
                shaped@ == time,
                time.len() == self.fftsize,
                self.tail@ == tail0,
                tail0.len() == self.ntaps,
                self.ntaps <= self.nsamples <= self.fftsize,
                outv@.len() == j,
                forall|k: int|
                    0 <= k < j ==> outv@[k] == (if k < tail0.len() {
                        cadd_of(time[k], tail0[k])
                    } else {
                        time[k]
                    }),
            decreases self.nsamples - j,
        {
            if j < self.ntaps {
                outv.push(cadd(shaped[j], self.tail[j]));
            } else {
                outv.push(shaped[j]);
            }
            j = j + 1;
        }
        assert(outv@ =~= block_out(resp0, full, tail0));

        // Stash the new tail: the filtered samples past the emitted block,
        // untouched by the overlap-add since `ntaps <= nsamples`.
        let mut new_tail: Vec<Complex> = Vec::new();
        let mut j: usize = self.nsamples;
        while j < self.fftsize
            invariant
                self.nsamples <= j <= self.fftsize,
                shaped@ == time,
                time.len() == self.fftsize,
                self.ntaps <= self.nsamples,
                new_tail@.len() == j - self.nsamples,
                forall|k: int|
                    0 <= k < new_tail@.len() ==> new_tail@[k] == time[self.nsamples + k],
            decreases self.fftsize - j,
        {
            new_tail.push(shaped[j]);
            j = j + 1;
        }
        assert(new_tail@ =~= block_tail(resp0, full, tail0));

        self.tail = new_tail;
        self.buf = Vec::new();
        (add, outv)
    }
}

/// Feeding at most one block's worth of samples into an engine whose buffer
/// is still short of a block either just grows the buffer (no output), or —
/// when the batch lands exactly on the block boundary — filters that one
/// full block.
proof fn lemma_feed_fill(
    resp: Seq<Complex>,
    acc: Seq<Complex>,
    tail: Seq<Complex>,
    input: Seq<Complex>,
)
    requires
        tail.len() < resp.len(),
        acc.len() + input.len() <= resp.len() - tail.len(),
    ensures
        acc.len() + input.len() < resp.len() - tail.len() ==> feed(resp, acc, tail, input) == (
            acc + input,
            tail,
            Seq::<Complex>::empty(),
        ),
        (acc.len() + input.len() == resp.len() - tail.len() && input.len() >= 1) ==> feed(
            resp,
            acc,
            tail,
            input,
        ) == (Seq::<Complex>::empty(), block_tail(resp, acc + input, tail), block_out(
            resp,
            acc + input,
            tail,
        )),
    decreases input.len(),
{
    if input.len() == 0 {
        assert(acc + input =~= acc);
    } else {
        let acc1 = acc.push(input[0]);
        assert(acc1 =~= acc + input.take(1));
        if acc1.len() == resp.len() - tail.len() {
            assert(input.len() == 1);
            assert(acc1 =~= acc + input);
            let rest = feed(
                resp,
                Seq::<Complex>::empty(),
                block_tail(resp, acc1, tail),
                input.drop_first(),
            );
            assert(rest.2 =~= Seq::<Complex>::empty());
            assert(block_out(resp, acc1, tail) + rest.2 =~= block_out(resp, acc + input, tail));
        } else {
            lemma_feed_fill(resp, acc1, tail, input.drop_first());
            assert(acc1 + input.drop_first() =~= acc + input);
        }
    }
}

/// Streaming equivalence: feeding a stream in two chunks is the same as
/// feeding it whole. Together with `FftFilter::work`'s contract — whose
/// whole effect is `feed` of the consumed prefix — and induction over a
/// chunk list, the samples an engine emits depend only on the stream of
/// samples consumed, never on how that stream was cut into process-step
/// batches.
pub proof fn lemma_feed_split(
    resp: Seq<Complex>,
    acc: Seq<Complex>,
    tail: Seq<Complex>,
    a: Seq<Complex>,
    b: Seq<Complex>,
)
    ensures
        ({
            let first = feed(resp, acc, tail, a);
            let second = feed(resp, first.0, first.1, b);
            let whole = feed(resp, acc, tail, a + b);
            &&& whole.0 == second.0
            &&& whole.1 == second.1
            &&& whole.2 == first.2 + second.2
        }),
    decreases a.len(),
{
    let first = feed(resp, acc, tail, a);
    let second = feed(resp, first.0, first.1, b);
    let whole = feed(resp, acc, tail, a + b);
    if a.len() == 0 {
        assert(a + b =~= b);
        assert(first.2 + second.2 =~= second.2);
    } else {
        assert((a + b)[0] == a[0]);
        assert((a + b).drop_first() =~= a.drop_first() + b);
        let acc1 = acc.push(a[0]);
        if acc1.len() == resp.len() - tail.len() {
            let tail1 = block_tail(resp, acc1, tail);
            lemma_feed_split(resp, Seq::<Complex>::empty(), tail1, a.drop_first(), b);
            let f1 = feed(resp, Seq::<Complex>::empty(), tail1, a.drop_first());
            let s1 = feed(resp, f1.0, f1.1, b);
            assert(whole.2 =~= block_out(resp, acc1, tail) + (f1.2 + s1.2));
            assert(first.2 + second.2 =~= block_out(resp, acc1, tail) + (f1.2 + s1.2));
        } else {
            lemma_feed_split(resp, acc1, tail, a.drop_first(), b);
        }
    }
}

/// `feed`, batch after batch: the final buffer and tail after each chunk
/// carry into the next, and the emitted samples accumulate in order.
pub open spec fn feed_chunks(
    resp: Seq<Complex>,
    acc: Seq<Complex>,
    tail: Seq<Complex>,
    chunks: Seq<Seq<Complex>>,
) -> (Seq<Complex>, Seq<Complex>, Seq<Complex>)
    decreases chunks.len(),
{
    if chunks.len() == 0 {
        (acc, tail, Seq::<Complex>::empty())
    } else {
        let first = feed(resp, acc, tail, chunks[0]);
        let rest = feed_chunks(resp, first.0, first.1, chunks.drop_first());
        (rest.0, rest.1, first.2 + rest.2)
    }
}

/// Streaming equivalence in full: feeding a stream in arbitrarily small,
/// irregular chunks leaves the engine in the same state and emits exactly
/// the same samples as feeding the whole stream at once.
pub proof fn lemma_chunking_irrelevant(
    resp: Seq<Complex>,
    acc: Seq<Complex>,
    tail: Seq<Complex>,
    chunks: Seq<Seq<Complex>>,
)
    ensures
        feed_chunks(resp, acc, tail, chunks) == feed(resp, acc, tail, chunks.flatten()),
    decreases chunks.len(),
{
    let chunked = feed_chunks(resp, acc, tail, chunks);
    let whole = feed(resp, acc, tail, chunks.flatten());
    if chunks.len() == 0 {
        assert(chunks.flatten() =~= Seq::<Complex>::empty());
    } else {
        let first = feed(resp, acc, tail, chunks[0]);
        lemma_chunking_irrelevant(resp, first.0, first.1, chunks.drop_first());
        assert(chunks.flatten() == chunks[0] + chunks.drop_first().flatten());
        lemma_feed_split(resp, acc, tail, chunks[0], chunks.drop_first().flatten());
    }
    assert(chunked.2 =~= whole.2);
    assert(chunked =~~= whole);
}

} // verus!
