//! Format adaptation and sample arithmetic: every track is resampled and
//! channel-remapped once, at enqueue time, into the process-wide output
//! format negotiated at startup, and the volume control scales samples with
//! fixed-point gain.

use vstd::prelude::*;

verus! {

/// The sample value emitted while paused, muted, or with an empty queue.
pub const SILENCE: i32 = 0;

/// The denominator of the fixed-point volume gain: a volume of
/// `VOLUME_UNIT` plays samples unchanged.
pub const VOLUME_UNIT: u32 = 1000;

/// The initial volume gain: half amplitude.
pub const DEFAULT_VOLUME: u32 = 500;

/// The longest decoded source accepted, in samples.
pub const MAX_SOURCE_SAMPLES: u64 = 0x8000_0000;

/// The process-wide output format, fixed after startup.
#[derive(PartialEq, Eq, Structural, Clone, Copy, Debug)]
pub struct AudioFormat {
    pub channels: u16,
    pub sample_rate: u32,
}

impl AudioFormat {
    /// A usable format has at least one channel and a positive rate.
    pub open spec fn wf(&self) -> bool {
        self.channels >= 1 && self.sample_rate >= 1
    }

    pub fn is_well_formed(&self) -> (r: bool)
        ensures
            r == self.wf(),
    {
        self.channels >= 1 && self.sample_rate >= 1
    }
}

/// One track's decoded audio, interleaved by frame, in its native format.
/// Decoding happens outside this crate, before anything is enqueued.
#[derive(Debug)]
pub struct DecodedAudio {
    pub channels: u16,
    pub sample_rate: u32,
    pub samples: Vec<i32>,
}

impl DecodedAudio {
    /// Whole frames only, a positive rate, at least one channel, and a
    /// bounded length.
    pub open spec fn wf(&self) -> bool {
        &&& self.channels >= 1
        &&& self.sample_rate >= 1
        &&& self.samples@.len() as int % (self.channels as int) == 0
        &&& self.samples@.len() <= MAX_SOURCE_SAMPLES
    }

    /// The number of whole frames the source holds.
    pub open spec fn frame_count(&self) -> int {
        self.samples@.len() as int / self.channels as int
    }

    pub fn is_well_formed(&self) -> (r: bool)
        ensures
            r == self.wf(),
    {
        self.channels >= 1 && self.sample_rate >= 1 && (self.channels == 0
            || self.samples.len() % (self.channels as usize) == 0) && self.samples.len() as u64
            <= MAX_SOURCE_SAMPLES
    }
}

/// Floor division by a positive divisor, which in ghost arithmetic is
/// division itself.
fn div_floor(a: i64, d: i64) -> (q: i64)
    requires
        d >= 1,
        a > i64::MIN,
    ensures
        q == a as int / d as int,
{
    if a >= 0 {
        let qm = (a as u64) / (d as u64);
        proof {
            assert(qm == a as int / d as int);
            assert(qm <= a) by {
                vstd::arithmetic::div_mod::lemma_div_nonincreasing(a as int, d as int);
            }
        }
        qm as i64
    } else {
        let m = (-a) as u64;
        let qe = m / (d as u64);
        let re = m % (d as u64);
        proof {
            assert(qe == m as int / d as int && re == m as int % d as int);
            vstd::arithmetic::div_mod::lemma_fundamental_div_mod(m as int, d as int);
            assert(m as int == d as int * (qe as int) + re);
            assert(m as int == -(a as int));
            if re == 0 {
                assert(a as int / d as int == -(qe as int)) by (nonlinear_arith)
                    requires
                        d >= 1,
                        -(a as int) == d as int * (qe as int),
                ;
            } else {
                assert(0 < d - re < d) by {
                    vstd::arithmetic::div_mod::lemma_remainder_upper(m as int, d as int);
                }
                assert(a as int / d as int == -(qe as int) - 1) by (nonlinear_arith)
                    requires
                        d >= 1,
                        0 < d - re < d,
                        -(a as int) == d as int * (qe as int) + re,
                ;
            }
            assert(qe <= m) by {
                vstd::arithmetic::div_mod::lemma_div_nonincreasing(m as int, d as int);
            }
        }
        if re == 0 {
            -(qe as i64)
        } else {
            -(qe as i64) - 1
        }
    }
}

/// Number of output frames of a resampling: the input frame count scaled
/// by the ratio of rates, rounded up.
pub open spec fn out_frame_count(frames: int, in_rate: int, out_rate: int) -> int {
    (frames * out_rate + in_rate - 1) / in_rate
}

/// Linear interpolation of input channel `c` at output frame `t`: the
/// output frame falls at input position `t * in_rate / out_rate`, and the
/// sample is interpolated between the two input frames around it (rounded
/// toward negative infinity), or held at the last frame.
pub open spec fn interp_at(
    samples: Seq<i32>,
    in_ch: int,
    in_rate: int,
    out_rate: int,
    t: int,
    c: int,
) -> int {
    let frames = samples.len() as int / in_ch;
    let pos = t * in_rate;
    let i = pos / out_rate;
    let rem = pos % out_rate;
    let s0 = samples[i * in_ch + c] as int;
    if rem == 0 || i + 1 >= frames {
        s0
    } else {
        let s1 = samples[(i + 1) * in_ch + c] as int;
        s0 + ((s1 - s0) * rem) / out_rate
    }
}

/// The sum of the interpolated values of the first `k` input channels at
/// output frame `t`.
pub open spec fn interp_sum(
    samples: Seq<i32>,
    in_ch: int,
    in_rate: int,
    out_rate: int,
    t: int,
    k: int,
) -> int
    decreases k,
{
    if k <= 0 {
        0
    } else {
        interp_sum(samples, in_ch, in_rate, out_rate, t, k - 1) + interp_at(
            samples,
            in_ch,
            in_rate,
            out_rate,
            t,
            k - 1,
        )
    }
}

/// The adapted sample at channel `c` of output frame `t`: equal channel
/// counts pass each channel through; a mono output averages the input
/// channels; otherwise output channel `c` duplicates input channel
/// `min(c, in_ch - 1)`.
pub open spec fn adapted_at(
    samples: Seq<i32>,
    in_ch: int,
    in_rate: int,
    out_ch: int,
    out_rate: int,
    t: int,
    c: int,
) -> int {
    if out_ch == in_ch {
        interp_at(samples, in_ch, in_rate, out_rate, t, c)
    } else if out_ch == 1 {
        interp_sum(samples, in_ch, in_rate, out_rate, t, in_ch) / in_ch
    } else if c < in_ch {
        interp_at(samples, in_ch, in_rate, out_rate, t, c)
    } else {
        interp_at(samples, in_ch, in_rate, out_rate, t, in_ch - 1)
    }
}

/// The length of the adapted sample vector.
pub open spec fn adapted_len(
    src_len: int,
    in_ch: int,
    in_rate: int,
    out_ch: int,
    out_rate: int,
) -> int {
    out_frame_count(src_len / in_ch, in_rate, out_rate) * out_ch
}

/// The whole adapted sample sequence of one source.
pub open spec fn adapted_seq(
    samples: Seq<i32>,
    in_ch: int,
    in_rate: int,
    out_ch: int,
    out_rate: int,
) -> Seq<i32> {
    Seq::new(
        adapted_len(samples.len() as int, in_ch, in_rate, out_ch, out_rate) as nat,
        |j: int|
            adapted_at(samples, in_ch, in_rate, out_ch, out_rate, j / out_ch, j % out_ch) as i32,
    )
}

/// Bounds on the interpolation position of one output frame: it points at
/// an input frame, and the index arithmetic stays within the source.
proof fn lemma_pos_bounds(len: int, in_ch: int, in_rate: int, out_rate: int, t: int)
    requires
        1 <= in_ch <= 0x1_0000,
        1 <= in_rate <= 0xffff_ffff,
        1 <= out_rate <= 0xffff_ffff,
        len % in_ch == 0,
        0 <= len <= MAX_SOURCE_SAMPLES,
        0 <= t < out_frame_count(len / in_ch, in_rate, out_rate),
    ensures
        len / in_ch >= 1,
        t * in_rate <= (len / in_ch) * out_rate - 1,
        (len / in_ch) * out_rate <= 0x8000_0000_0000_0000,
        (t * in_rate) / out_rate <= len / in_ch - 1,
        ((t * in_rate) / out_rate) * in_ch + in_ch <= len,
        len == (len / in_ch) * in_ch,
        0 <= (t * in_rate) / out_rate,
{
    let fr = len / in_ch;
    let n = out_frame_count(fr, in_rate, out_rate);
    vstd::arithmetic::div_mod::lemma_div_nonincreasing(len, in_ch);
    vstd::arithmetic::div_mod::lemma_div_pos_is_pos(len, in_ch);
    if fr == 0 {
        assert((0 * out_rate + in_rate - 1) / in_rate == 0) by {
            vstd::arithmetic::div_mod::lemma_basic_div(in_rate - 1, in_rate);
        }
        assert(false);
    }
    assert(fr * out_rate <= 0x8000_0000 * 0xffff_ffff) by (nonlinear_arith)
        requires
            1 <= fr <= 0x8000_0000,
            1 <= out_rate <= 0xffff_ffff,
    ;
    vstd::arithmetic::div_mod::lemma_fundamental_div_mod(fr * out_rate + in_rate - 1, in_rate);
    let rr = (fr * out_rate + in_rate - 1) % in_rate;
    assert(0 <= rr < in_rate) by {
        vstd::arithmetic::div_mod::lemma_mod_bound(fr * out_rate + in_rate - 1, in_rate);
    }
    assert(in_rate * n <= fr * out_rate + in_rate - 1);
    assert(t * in_rate <= (n - 1) * in_rate) by {
        vstd::arithmetic::mul::lemma_mul_inequality(t, n - 1, in_rate);
    }
    assert((n - 1) * in_rate == in_rate * n - in_rate) by (nonlinear_arith);
    assert(t * in_rate <= fr * out_rate - 1);
    let pos = t * in_rate;
    assert(pos >= 0) by {
        vstd::arithmetic::mul::lemma_mul_nonnegative(t, in_rate);
    }
    assert(fr * out_rate - 1 == out_rate * (fr - 1) + (out_rate - 1)) by (nonlinear_arith);
    assert((fr * out_rate - 1) / out_rate == fr - 1) by {
        vstd::arithmetic::div_mod::lemma_fundamental_div_mod_converse(
            fr * out_rate - 1,
            out_rate,
            fr - 1,
            out_rate - 1,
        );
    }
    assert(pos / out_rate <= fr - 1) by {
        vstd::arithmetic::div_mod::lemma_div_is_ordered(pos, fr * out_rate - 1, out_rate);
    }
    let i = pos / out_rate;
    assert(i >= 0) by {
        vstd::arithmetic::div_mod::lemma_div_pos_is_pos(pos, out_rate);
    }
    assert(len == fr * in_ch) by {
        vstd::arithmetic::div_mod::lemma_fundamental_div_mod(len, in_ch);
        assert(len == in_ch * fr + len % in_ch);
        assert(in_ch * fr == fr * in_ch) by (nonlinear_arith);
    }
    assert(i * in_ch + in_ch <= len) by (nonlinear_arith)
        requires
            0 <= i <= fr - 1,
            in_ch >= 1,
            len == fr * in_ch,
    ;
}

/// Interpolates between two samples at a fractional position
/// `rem / out_rate`, rounding toward negative infinity.
fn interp_step(s0: i32, s1: i32, rem: u64, out_rate: u32) -> (v: i32)
    requires
        out_rate >= 1,
        rem < out_rate,
    ensures
        v as int == s0 + ((s1 - s0) * rem) / (out_rate as int),
{
    let rr: u64 = out_rate as u64;
    if s1 >= s0 {
        let delta: u64 = (s1 as i64 - s0 as i64) as u64;
        proof {
            assert(delta * rem <= 0xffff_ffff * 0xffff_ffff) by (nonlinear_arith)
                requires
                    0 <= delta <= 0xffff_ffff,
                    0 <= rem <= 0xffff_ffff,
            ;
        }
        let num: u64 = delta * rem;
        let q: u64 = num / rr;
        proof {
            assert(num <= delta as int * rr as int) by (nonlinear_arith)
                requires
                    num == delta as int * rem as int,
                    0 <= rem <= rr,
                    0 <= delta,
            ;
            assert((delta as int * rr as int) / (rr as int) == delta) by {
                vstd::arithmetic::div_mod::lemma_div_by_multiple(delta as int, rr as int);
            }
            assert(q <= delta) by {
                vstd::arithmetic::div_mod::lemma_div_is_ordered(
                    num as int,
                    delta as int * rr as int,
                    rr as int,
                );
            }
            assert(((s1 - s0) * rem) == num) by (nonlinear_arith)
                requires
                    delta == s1 - s0,
                    num == delta * rem,
            ;
        }
        let v64: i64 = s0 as i64 + q as i64;
        v64 as i32
    } else {
        let delta: u64 = (s0 as i64 - s1 as i64) as u64;
        proof {
            assert(delta * rem <= 0xffff_ffff * 0xffff_ffff) by (nonlinear_arith)
                requires
                    0 <= delta <= 0xffff_ffff,
                    0 <= rem <= 0xffff_ffff,
            ;
        }
        let num: u64 = delta * rem;
        let qe: u64 = num / rr;
        let re: u64 = num % rr;
        proof {
            vstd::arithmetic::div_mod::lemma_fundamental_div_mod(num as int, rr as int);
            assert(num == rr * qe + re);
            assert(((s1 - s0) * rem) == -(num as int)) by (nonlinear_arith)
                requires
                    delta == s0 - s1,
                    num == delta * rem,
            ;
            if re == 0 {
                assert((-(num as int)) / (rr as int) == -(qe as int)) by (nonlinear_arith)
                    requires
                        rr >= 1,
                        num == rr * qe,
                ;
            } else {
                assert(0 < rr - re < rr) by {
                    vstd::arithmetic::div_mod::lemma_mod_bound(num as int, rr as int);
                }
                assert((-(num as int)) / (rr as int) == -(qe as int) - 1) by (nonlinear_arith)
                    requires
                        rr >= 1,
                        0 < rr - re < rr,
                        num == rr * qe + re,
                ;
            }
            // the step down never exceeds the gap between the samples
            if delta == 0 {
                assert(num == 0) by (nonlinear_arith)
                    requires
                        num == delta * rem,
                        delta == 0,
                ;
                assert(qe == 0 && re == 0) by {
                    vstd::arithmetic::div_mod::lemma_div_of0(rr as int);
                    vstd::arithmetic::div_mod::lemma_small_mod(0, rr as nat);
                }
            } else {
                assert(num <= delta * rr - delta) by (nonlinear_arith)
                    requires
                        num == delta * rem,
                        rem <= rr - 1,
                        delta >= 1,
                ;
                assert(delta * rr - 1 == rr * (delta - 1) + (rr - 1)) by (nonlinear_arith);
                assert((delta * rr - 1) / (rr as int) == delta - 1) by {
                    vstd::arithmetic::div_mod::lemma_fundamental_div_mod_converse(
                        delta * rr - 1,
                        rr as int,
                        delta as int - 1,
                        rr as int - 1,
                    );
                }
                assert(qe <= delta - 1) by {
                    vstd::arithmetic::div_mod::lemma_div_is_ordered(
                        num as int,
                        delta * rr - 1,
                        rr as int,
                    );
                }
            }
        }
        let adj: i64 = if re != 0 {
            1
        } else {
            0
        };
        let v64: i64 = s0 as i64 - (qe as i64) - adj;
        v64 as i32
    }
}

/// Reads the interpolated value of input channel `c` at output frame `t`.
fn interp(samples: &Vec<i32>, in_ch: u16, in_rate: u32, out_rate: u32, t: u64, c: u16) -> (v: i32)
    requires
        in_ch >= 1,
        in_rate >= 1,
        out_rate >= 1,
        samples@.len() as int % (in_ch as int) == 0,
        samples@.len() <= MAX_SOURCE_SAMPLES,
        c < in_ch,
        t < out_frame_count(
            samples@.len() as int / in_ch as int,
            in_rate as int,
            out_rate as int,
        ),
    ensures
        v as int == interp_at(
            samples@,
            in_ch as int,
            in_rate as int,
            out_rate as int,
            t as int,
            c as int,
        ),
{
    proof {
        lemma_pos_bounds(
            samples@.len() as int,
            in_ch as int,
            in_rate as int,
            out_rate as int,
            t as int,
        );
    }
    let frames: usize = samples.len() / (in_ch as usize);
    let pos: u64 = t * (in_rate as u64);
    let i: u64 = pos / (out_rate as u64);
    let rem: u64 = pos % (out_rate as u64);
    proof {
        assert(rem < out_rate) by {
            vstd::arithmetic::div_mod::lemma_mod_bound(pos as int, out_rate as int);
        }
        assert((i * in_ch + c) < samples@.len());
    }
    let idx0: usize = (i as usize) * (in_ch as usize) + (c as usize);
    let s0 = samples[idx0];
    if rem == 0 || i + 1 >= frames as u64 {
        s0
    } else {
        proof {
            assert((i + 1) * in_ch + c == i * in_ch + c + in_ch) by (nonlinear_arith);
            let fr = samples@.len() as int / in_ch as int;
            assert((i + 1) * in_ch + c < samples@.len()) by (nonlinear_arith)
                requires
                    i + 1 <= fr - 1,
                    0 <= i,
                    0 <= c < in_ch,
                    in_ch >= 1,
                    samples@.len() == fr * in_ch,
            ;
        }
        let idx1: usize = idx0 + (in_ch as usize);
        let s1 = samples[idx1];
        interp_step(s0, s1, rem, out_rate)
    }
}

/// Averages the interpolated values of every input channel at output frame
/// `t`, for a mono output.
fn mixdown(samples: &Vec<i32>, in_ch: u16, in_rate: u32, out_rate: u32, t: u64) -> (v: i32)
    requires
        in_ch >= 1,
        in_rate >= 1,
        out_rate >= 1,
        samples@.len() as int % (in_ch as int) == 0,
        samples@.len() <= MAX_SOURCE_SAMPLES,
        t < out_frame_count(
            samples@.len() as int / in_ch as int,
            in_rate as int,
            out_rate as int,
        ),
    ensures
        v as int == interp_sum(
            samples@,
            in_ch as int,
            in_rate as int,
            out_rate as int,
            t as int,
            in_ch as int,
        ) / (in_ch as int),
{
    let mut sum: i64 = 0;
    let mut c: u16 = 0;
    while c < in_ch
        invariant
            c <= in_ch,
            in_ch >= 1,
            in_rate >= 1,
            out_rate >= 1,
            samples@.len() as int % (in_ch as int) == 0,
            samples@.len() <= MAX_SOURCE_SAMPLES,
            t < out_frame_count(
                samples@.len() as int / in_ch as int,
                in_rate as int,
                out_rate as int,
            ),
            sum == interp_sum(
                samples@,
                in_ch as int,
                in_rate as int,
                out_rate as int,
                t as int,
                c as int,
            ),
            -(c as int) * 0x8000_0000 <= sum <= (c as int) * 0x7fff_ffff,
        decreases in_ch - c,
    {
        let x = interp(samples, in_ch, in_rate, out_rate, t, c);
        proof {
            assert(-((c + 1) as int) * 0x8000_0000 <= sum + x
                <= ((c + 1) as int) * 0x7fff_ffff) by (nonlinear_arith)
                requires
                    -(c as int) * 0x8000_0000 <= sum <= (c as int) * 0x7fff_ffff,
                    -0x8000_0000 <= x as int <= 0x7fff_ffff,
            ;
        }
        sum = sum + (x as i64);
        c = c + 1;
    }
    let q = div_floor(sum, in_ch as i64);
    proof {
        let total = interp_sum(
            samples@,
            in_ch as int,
            in_rate as int,
            out_rate as int,
            t as int,
            in_ch as int,
        );
        assert(-(in_ch as int) * 0x8000_0000 <= total <= (in_ch as int) * 0x7fff_ffff);
        assert((-(in_ch as int) * 0x8000_0000) / (in_ch as int) == -0x8000_0000) by {
            assert(-(in_ch as int) * 0x8000_0000 == (in_ch as int) * (-0x8000_0000))
                by (nonlinear_arith);
            vstd::arithmetic::div_mod::lemma_div_multiples_vanish(-0x8000_0000, in_ch as int);
        }
        assert(((in_ch as int) * 0x7fff_ffff) / (in_ch as int) == 0x7fff_ffff) by {
            vstd::arithmetic::div_mod::lemma_div_multiples_vanish(0x7fff_ffff, in_ch as int);
        }
        assert(-0x8000_0000 <= q <= 0x7fff_ffff) by {
            vstd::arithmetic::div_mod::lemma_div_is_ordered(
                -(in_ch as int) * 0x8000_0000,
                total,
                in_ch as int,
            );
            vstd::arithmetic::div_mod::lemma_div_is_ordered(
                total,
                (in_ch as int) * 0x7fff_ffff,
                in_ch as int,
            );
        }
    }
    q as i32
}

/// Adapts one decoded source into the output format: linear resampling at
/// the ratio of the rates, and channel duplication or mixdown. The result
/// holds `adapted_len` samples, interleaved by output frame.
pub fn adapt(src: &DecodedAudio, fmt: &AudioFormat) -> (r: Vec<i32>)
    requires
        src.wf(),
        fmt.wf(),
    ensures
        r@.len() == adapted_len(
            src.samples@.len() as int,
            src.channels as int,
            src.sample_rate as int,
            fmt.channels as int,
            fmt.sample_rate as int,
        ),
        forall|j: int|
            0 <= j < r@.len() ==> #[trigger] r@[j] == adapted_at(
                src.samples@,
                src.channels as int,
                src.sample_rate as int,
                fmt.channels as int,
                fmt.sample_rate as int,
                j / (fmt.channels as int),
                j % (fmt.channels as int),
            ),
{
    let in_ch: u16 = src.channels;
    let in_rate: u32 = src.sample_rate;
    let out_ch: u16 = fmt.channels;
    let out_rate: u32 = fmt.sample_rate;
    let frames: u64 = (src.samples.len() as u64) / (in_ch as u64);
    proof {
        assert(frames * out_rate <= 0x8000_0000 * 0xffff_ffff) by (nonlinear_arith)
            requires
                0 <= frames <= 0x8000_0000,
                1 <= out_rate <= 0xffff_ffff,
        ;
    }
    let n: u64 = (frames * (out_rate as u64) + (in_rate as u64 - 1)) / (in_rate as u64);
    let ghost gfr = src.samples@.len() as int / in_ch as int;
    let ghost gn = out_frame_count(gfr, in_rate as int, out_rate as int);
    let mut out: Vec<i32> = Vec::new();
    let mut t: u64 = 0;
    while t < n
        invariant
            t <= n,
            n == gn,
            gfr == src.samples@.len() as int / in_ch as int,
            gn == out_frame_count(gfr, in_rate as int, out_rate as int),
            in_ch == src.channels,
            in_rate == src.sample_rate,
            out_ch == fmt.channels,
            out_rate == fmt.sample_rate,
            src.wf(),
            fmt.wf(),
            out@.len() == t * out_ch,
            forall|j: int|
                0 <= j < out@.len() ==> #[trigger] out@[j] == adapted_at(
                    src.samples@,
                    in_ch as int,
                    in_rate as int,
                    out_ch as int,
                    out_rate as int,
                    j / (out_ch as int),
                    j % (out_ch as int),
                ),
        decreases n - t,
    {
        let mut c: u16 = 0;
        while c < out_ch
            invariant
                c <= out_ch,
                t < n,
                n == gn,
                gfr == src.samples@.len() as int / in_ch as int,
                gn == out_frame_count(gfr, in_rate as int, out_rate as int),
                in_ch == src.channels,
                in_rate == src.sample_rate,
                out_ch == fmt.channels,
                out_rate == fmt.sample_rate,
                src.wf(),
                fmt.wf(),
                out@.len() == t * out_ch + c,
                forall|j: int|
                    0 <= j < out@.len() ==> #[trigger] out@[j] == adapted_at(
                        src.samples@,
                        in_ch as int,
                        in_rate as int,
                        out_ch as int,
                        out_rate as int,
                        j / (out_ch as int),
                        j % (out_ch as int),
                    ),
            decreases out_ch - c,
        {
            let v: i32 = if in_ch == out_ch {
                interp(&src.samples, in_ch, in_rate, out_rate, t, c)
            } else if out_ch == 1 {
                mixdown(&src.samples, in_ch, in_rate, out_rate, t)
            } else if c < in_ch {
                interp(&src.samples, in_ch, in_rate, out_rate, t, c)
            } else {
                interp(&src.samples, in_ch, in_rate, out_rate, t, in_ch - 1)
            };
            proof {
                let j = t * out_ch + c;
                assert(j / (out_ch as int) == t as int && j % (out_ch as int) == c as int) by {
                    vstd::arithmetic::div_mod::lemma_fundamental_div_mod_converse(
                        j,
                        out_ch as int,
                        t as int,
                        c as int,
                    );
                }
                assert(v as int == adapted_at(
                    src.samples@,
                    in_ch as int,
                    in_rate as int,
                    out_ch as int,
                    out_rate as int,
                    t as int,
                    c as int,
                ));
            }
            out.push(v);
            c = c + 1;
        }
        proof {
            assert(t as int * out_ch as int + out_ch as int == (t + 1) as int * out_ch as int)
                by (nonlinear_arith);
        }
        t = t + 1;
    }
    proof {
        assert(out@.len() == gn * out_ch as int);
    }
    out
}

/// Computes how many samples adapting a source to a format will produce,
/// so a caller can refuse a source before adapting it.
pub fn adapted_sample_count(src: &DecodedAudio, fmt: &AudioFormat) -> (r: u128)
    requires
        src.wf(),
        fmt.wf(),
    ensures
        r == adapted_len(
            src.samples@.len() as int,
            src.channels as int,
            src.sample_rate as int,
            fmt.channels as int,
            fmt.sample_rate as int,
        ),
{
    let frames: u64 = (src.samples.len() as u64) / (src.channels as u64);
    proof {
        assert(frames * fmt.sample_rate <= 0x8000_0000 * 0xffff_ffff) by (nonlinear_arith)
            requires
                0 <= frames <= 0x8000_0000,
                1 <= fmt.sample_rate <= 0xffff_ffff,
        ;
    }
    let n: u64 = (frames * (fmt.sample_rate as u64) + (src.sample_rate as u64 - 1)) / (
    src.sample_rate as u64);
    proof {
        assert(n as int * fmt.channels as int == adapted_len(
            src.samples@.len() as int,
            src.channels as int,
            src.sample_rate as int,
            fmt.channels as int,
            fmt.sample_rate as int,
        ));
        vstd::arithmetic::div_mod::lemma_div_pos_is_pos(
            frames as int * fmt.sample_rate as int + src.sample_rate - 1,
            src.sample_rate as int,
        );
        assert(frames as int * fmt.sample_rate as int >= 0) by {
            vstd::arithmetic::mul::lemma_mul_nonnegative(frames as int, fmt.sample_rate as int);
        }
        assert(n as int * fmt.channels as int <= 0xffff_ffff_ffff_ffff * 0x1_0000)
            by (nonlinear_arith)
            requires
                0 <= n <= 0xffff_ffff_ffff_ffff,
                1 <= fmt.channels <= 0x1_0000,
        ;
    }
    (n as u128) * (fmt.channels as u128)
}

/// A sample scaled by the fixed-point volume gain, rounded toward negative
/// infinity.
pub open spec fn scaled_sample(s: int, volume: int) -> int {
    (s * volume) / (VOLUME_UNIT as int)
}

/// Applies the volume gain to one sample.
pub fn scale_sample(s: i32, volume: u32) -> (r: i64)
    ensures
        r == scaled_sample(s as int, volume as int),
{
    proof {
        assert(-0x7fff_ffff_ffff_ffff <= s as int * volume as int
            <= 0x7fff_ffff_ffff_ffff) by (nonlinear_arith)
            requires
                -0x8000_0000 <= s as int <= 0x7fff_ffff,
                0 <= volume as int <= 0xffff_ffff,
        ;
    }
    let p: i64 = (s as i64) * (volume as i64);
    div_floor(p, VOLUME_UNIT as i64)
}

} // verus!
