//! Polyphase sample-rate conversion on 16-bit samples.
//!
//! The converter walks a position through the input in steps of
//! `dst_incr / src_incr` phases, where one input sample spans `phase_count`
//! phases. At every step it convolves the input around the position with the
//! filter of the current phase, rounds, saturates and emits one output sample.
//! The filter taps themselves are data: they are handed to the constructor.

use vstd::prelude::*;
use vstd::arithmetic::div_mod::lemma_div_is_ordered;
use vstd::arithmetic::div_mod::lemma_fundamental_div_mod;
use vstd::arithmetic::div_mod::lemma_fundamental_div_mod_converse;
use vstd::arithmetic::div_mod::lemma_mod_bound;
use vstd::arithmetic::power2::lemma2_to64;
use vstd::arithmetic::power2::lemma_pow2_pos;
use vstd::arithmetic::power2::lemma_pow2_strictly_increases;
use vstd::arithmetic::power2::pow2;
use vstd::bits::lemma_u64_shl_is_mul;

verus! {

/// Number of fractional bits in a filter tap: taps of one phase sum to `1 << 15`.
pub const FILTER_SHIFT: u32 = 15;

/// Largest supported phase shift.
pub const MAX_PHASE_SHIFT: i32 = 30;

/// Largest input block, in samples, that one call of `resample` accepts.
pub const MAX_SOURCE_LEN: usize = 0x7fff_ffff;

/// `a` limited to the interval from `a_min` to `a_max`.
pub open spec fn clip_spec(a: int, a_min: int, a_max: int) -> int {
    if a < a_min {
        a_min
    } else if a > a_max {
        a_max
    } else {
        a
    }
}

/// Limits `a` to the interval from `a_min` to `a_max`.
pub fn clip(a: i64, a_min: i64, a_max: i64) -> (clipped: i64)
    ensures
        clipped == clip_spec(a as int, a_min as int, a_max as int),
{
    if a < a_min {
        a_min
    } else if a > a_max {
        a_max
    } else {
        a
    }
}

/// The absolute value of `x`.
pub open spec fn magnitude(x: int) -> int {
    if x < 0 {
        -x
    } else {
        x
    }
}

/// The input position that tap `i` reads when the filter window starts at
/// `sample_index`: the window itself, or, left of the first sample, its
/// reflection folded into the block.
pub open spec fn tap_position(sample_index: int, i: int, len: int) -> int {
    if sample_index >= 0 {
        sample_index + i
    } else {
        magnitude(sample_index + 1 + i) % len
    }
}

/// An accumulated sum scaled back by `FILTER_SHIFT` bits, rounding half up,
/// and saturated to the range of a 16-bit sample.
pub open spec fn round_and_saturate(sum: int) -> int {
    clip_spec((sum + 16384) / 32768, -32768, 32767)
}

/// The mathematical state of a `Resampler`.
#[verifier::ext_equal]
pub struct ResamplerState {
    /// Number of phases per input sample, a power of two.
    pub phase_count: int,
    /// Number of taps in the filter of one phase.
    pub filter_length: int,
    /// The taps, phase after phase, followed by one closing phase.
    pub filter_bank: Seq<i16>,
    /// Denominator of the step: the output rate.
    pub src_incr: int,
    /// Numerator of the step: the input rate times `phase_count`.
    pub dst_incr: int,
    /// Position of the next output, in phases from the start of the next block.
    pub index: int,
    /// Fractional part of the position, in units of `1 / src_incr` phases.
    pub frac: int,
}

impl ResamplerState {
    /// The position before any output is negative by half a filter: the first
    /// window is centred on the first input sample.
    pub open spec fn start_index(self) -> int {
        -(self.phase_count * ((self.filter_length - 1) / 2))
    }

    /// The state invariant.
    pub open spec fn wf(self) -> bool {
        &&& 1 <= self.phase_count <= 0x4000_0000
        &&& 1 <= self.filter_length <= 0x7fff_ffff
        &&& self.filter_bank.len() == self.filter_length * (self.phase_count + 1)
        &&& 1 <= self.src_incr <= 0x7fff_ffff
        &&& 1 <= self.dst_incr <= 0x7fff_ffff
        &&& 0 <= self.frac < self.src_incr
        &&& self.start_index() <= self.index < self.phase_count
    }

    /// Whether the step from one output to the next is shorter than a filter
    /// window, so that every input sample lies in a window.
    pub open spec fn never_skips(self) -> bool {
        self.dst_incr / self.src_incr < self.filter_length * self.phase_count
    }

    /// The exact position before output `k`, in units of `1 / src_incr` phases.
    pub open spec fn time_at(self, k: int) -> int {
        self.index * self.src_incr + self.frac + k * self.dst_incr
    }

    /// The position before output `k`, in whole phases.
    pub open spec fn index_at(self, k: int) -> int {
        self.time_at(k) / self.src_incr
    }

    /// The fractional part of the position before output `k`.
    pub open spec fn frac_at(self, k: int) -> int {
        self.time_at(k) % self.src_incr
    }

    /// The input sample at which the filter window of output `k` starts.
    pub open spec fn sample_index_at(self, k: int) -> int {
        self.index_at(k) / self.phase_count
    }

    /// The phase whose filter produces output `k`.
    pub open spec fn phase_at(self, k: int) -> int {
        self.index_at(k) % self.phase_count
    }

    /// Whether the filter window of output `k` ends inside a block of `len`
    /// samples.
    pub open spec fn window_fits(self, k: int, len: int) -> bool {
        self.sample_index_at(k) + self.filter_length <= len
    }

    /// The sum of the first `n` products of input samples and taps for a
    /// window starting at `sample_index`, filtered with `phase`.
    pub open spec fn convolve(self, src: Seq<i16>, sample_index: int, phase: int, n: int) -> int
        decreases n,
    {
        if n <= 0 {
            0
        } else {
            self.convolve(src, sample_index, phase, n - 1) + src[tap_position(
                sample_index,
                n - 1,
                src.len() as int,
            )] * self.filter_bank[phase * self.filter_length + n - 1]
        }
    }

    /// Output sample `k` for the input block `src`.
    pub open spec fn output_at(self, src: Seq<i16>, k: int) -> int {
        round_and_saturate(
            self.convolve(src, self.sample_index_at(k), self.phase_at(k), self.filter_length),
        )
    }

    /// The number of outputs produced from output `k` on, for a block of `len`
    /// input samples and room for `limit` outputs in all: production stops at
    /// the first window that does not fit, or when the room is used up.
    pub open spec fn produced_from(self, len: int, limit: int, k: int) -> int
        decreases limit - k,
    {
        if k < limit && self.window_fits(k, len) {
            self.produced_from(len, limit, k + 1)
        } else {
            k
        }
    }

    /// The number of outputs that one call produces.
    pub open spec fn produced(self, len: int, limit: int) -> int {
        self.produced_from(len, limit, 0)
    }

    /// The number of input samples that are behind the position after `n`
    /// outputs.
    pub open spec fn consumed_after(self, n: int) -> int {
        if self.index_at(n) >= 0 {
            self.index_at(n) / self.phase_count
        } else {
            0
        }
    }

    /// The state after `n` outputs, with the position taken relative to the
    /// first input sample that was not consumed.
    pub open spec fn after(self, n: int) -> ResamplerState {
        ResamplerState {
            index: if self.index_at(n) >= 0 {
                self.index_at(n) % self.phase_count
            } else {
                self.index_at(n)
            },
            frac: self.frac_at(n),
            ..self
        }
    }
}

/// The closing phase of a filter bank: the first phase delayed by one tap.
pub open spec fn closing_phase(taps: Seq<i16>, filter_length: int) -> Seq<i16> {
    Seq::new(
        filter_length as nat,
        |i: int|
            if i == 0 {
                taps[filter_length - 1]
            } else {
                taps[i - 1]
            },
    )
}

/// A polyphase resampler for 16-bit samples.
pub struct Resampler {
    phase_count: i64,
    filter_length: i64,
    filter_bank: Vec<i16>,
    src_incr: i64,
    dst_incr: i64,
    index: i64,
    frac: i64,
}

impl View for Resampler {
    type V = ResamplerState;

    closed spec fn view(&self) -> ResamplerState {
        ResamplerState {
            phase_count: self.phase_count as int,
            filter_length: self.filter_length as int,
            filter_bank: self.filter_bank@,
            src_incr: self.src_incr as int,
            dst_incr: self.dst_incr as int,
            index: self.index as int,
            frac: self.frac as int,
        }
    }
}

/// Floor division by a positive divisor.
fn floor_div(a: i64, d: i64) -> (q: i64)
    requires
        d > 0,
        a > i64::MIN,
    ensures
        q == a as int / d as int,
{
    if a >= 0 {
        a / d
    } else {
        let b: i64 = -a - 1;
        let qb: i64 = b / d;
        proof {
            lemma_fundamental_div_mod(b as int, d as int);
            lemma_mod_bound(b as int, d as int);
            let rb = b as int % d as int;
            assert(d as int * qb as int == qb as int * d as int) by (nonlinear_arith);
            assert((-(qb as int) - 1) * d as int == -(qb as int * d as int) - d as int)
                by (nonlinear_arith);
            lemma_fundamental_div_mod_converse(
                a as int,
                d as int,
                -(qb as int) - 1,
                d as int - 1 - rb,
            );
        }
        -qb - 1
    }
}

impl Resampler {
    /// Builds a resampler from `in_rate` to `out_rate` around a filter bank of
    /// `1 << phase_shift` phases with `filter_length` taps each.
    ///
    /// The bank is closed with one more phase, the first phase delayed by one
    /// tap, so that the phase after the last one can be read without wrapping.
    /// The position starts half a filter before the first input sample.
    pub fn new(
        out_rate: i32,
        in_rate: i32,
        phase_shift: i32,
        filter_length: i32,
        taps: Vec<i16>,
    ) -> (resampler: Resampler)
        requires
            out_rate > 0,
            in_rate > 0,
            0 <= phase_shift <= MAX_PHASE_SHIFT,
            filter_length >= 1,
            in_rate * pow2(phase_shift as nat) <= i32::MAX,
            taps@.len() == filter_length * pow2(phase_shift as nat),
            taps@.len() + filter_length <= usize::MAX,
        ensures
            resampler@.wf(),
            resampler@.phase_count == pow2(phase_shift as nat),
            resampler@.filter_length == filter_length,
            resampler@.filter_bank == taps@ + closing_phase(taps@, filter_length as int),
            resampler@.src_incr == out_rate,
            resampler@.dst_incr == in_rate * pow2(phase_shift as nat),
            resampler@.index == resampler@.start_index(),
            resampler@.frac == 0,
    {
        let phase_count: i64 = pow2_i64(phase_shift);
        let length: i64 = filter_length as i64;
        let ghost given = taps@;
        let mut filter_bank = taps;
        proof {
            assert(length * phase_count >= length) by (nonlinear_arith)
                requires
                    length >= 1,
                    phase_count >= 1,
            ;
        }
        filter_bank.push(filter_bank[(filter_length - 1) as usize]);
        let mut i: usize = 0;
        while i < (filter_length - 1) as usize
            invariant
                filter_length >= 1,
                i <= filter_length - 1,
                given.len() >= filter_length,
                given.len() + filter_length <= usize::MAX,
                filter_bank@.len() == given.len() + 1 + i,
                filter_bank@.subrange(0, given.len() as int) == given,
                forall|j: int|
                    0 <= j < 1 + i ==> #[trigger] filter_bank@[given.len() + j]
                        == closing_phase(given, filter_length as int)[j],
            decreases filter_length - 1 - i,
        {
            let tap = filter_bank[i];
            assert(tap == given[i as int]) by {
                assert(filter_bank@.subrange(0, given.len() as int)[i as int]
                    == filter_bank@[i as int]);
            }
            let ghost before = filter_bank@;
            filter_bank.push(tap);
            assert(filter_bank@.subrange(0, given.len() as int) =~= before.subrange(
                0,
                given.len() as int,
            ));
            assert forall|j: int| 0 <= j < 2 + i implies #[trigger] filter_bank@[given.len()
                + j] == closing_phase(given, filter_length as int)[j] by {
                if j < 1 + i {
                    assert(filter_bank@[given.len() + j] == before[given.len() + j]);
                }
            }
            i += 1;
        }
        proof {
            let closing = closing_phase(given, filter_length as int);
            assert(filter_bank@ =~= given + closing) by {
                assert forall|j: int| 0 <= j < filter_bank@.len() implies filter_bank@[j] == (
                given + closing)[j] by {
                    if j < given.len() {
                        assert(filter_bank@.subrange(0, given.len() as int)[j]
                            == filter_bank@[j]);
                    } else {
                        let d = j - given.len();
                        assert(filter_bank@[given.len() + d] == closing[d]);
                    }
                }
            }
            assert(length * (phase_count + 1) == length * phase_count + length)
                by (nonlinear_arith);
        }
        let half: i64 = (length - 1) / 2;
        proof {
            assert(0 <= phase_count * half <= 0x4000_0000 * 0x4000_0000) by (nonlinear_arith)
                requires
                    0 <= phase_count <= 0x4000_0000,
                    0 <= half <= 0x4000_0000,
            ;
        }
        proof {
            assert(in_rate * phase_count >= 1) by (nonlinear_arith)
                requires
                    in_rate >= 1,
                    phase_count >= 1,
            ;
        }
        let dst_incr: i64 = (in_rate as i64) * phase_count;
        Resampler {
            phase_count,
            filter_length: length,
            filter_bank,
            src_incr: out_rate as i64,
            dst_incr,
            index: -(phase_count * half),
            frac: 0,
        }
    }
}

impl ResamplerState {
    /// Before the first output the position is the stored one.
    pub proof fn lemma_position_at_start(self)
        requires
            self.src_incr > 0,
            0 <= self.frac < self.src_incr,
        ensures
            self.index_at(0) == self.index,
            self.frac_at(0) == self.frac,
    {
        assert(self.time_at(0) == self.index * self.src_incr + self.frac);
        lemma_fundamental_div_mod_converse(
            self.time_at(0),
            self.src_incr,
            self.index,
            self.frac,
        );
    }

    /// Each output advances the position by the whole part of the step, and
    /// by one phase more whenever the fractional parts add up to a whole.
    pub proof fn lemma_position_step(self, k: int)
        requires
            self.src_incr > 0,
        ensures
            ({
                let whole = self.dst_incr / self.src_incr;
                let part = self.dst_incr % self.src_incr;
                if self.frac_at(k) + part >= self.src_incr {
                    &&& self.index_at(k + 1) == self.index_at(k) + whole + 1
                    &&& self.frac_at(k + 1) == self.frac_at(k) + part - self.src_incr
                } else {
                    &&& self.index_at(k + 1) == self.index_at(k) + whole
                    &&& self.frac_at(k + 1) == self.frac_at(k) + part
                }
            }),
    {
        let s = self.src_incr;
        let d = self.dst_incr;
        let whole = d / s;
        let part = d % s;
        let i = self.index_at(k);
        let f = self.frac_at(k);
        lemma_fundamental_div_mod(self.time_at(k), s);
        lemma_fundamental_div_mod(d, s);
        lemma_mod_bound(self.time_at(k), s);
        lemma_mod_bound(d, s);
        assert(self.time_at(k + 1) == self.time_at(k) + d) by (nonlinear_arith)
            requires
                self.time_at(k + 1) == self.index * s + self.frac + (k + 1) * d,
                self.time_at(k) == self.index * s + self.frac + k * d,
        ;
        if f + part >= s {
            assert(self.time_at(k + 1) == (i + whole + 1) * s + (f + part - s))
                by (nonlinear_arith)
                requires
                    self.time_at(k + 1) == self.time_at(k) + d,
                    self.time_at(k) == s * i + f,
                    d == s * whole + part,
            ;
            lemma_fundamental_div_mod_converse(
                self.time_at(k + 1),
                s,
                i + whole + 1,
                f + part - s,
            );
        } else {
            assert(self.time_at(k + 1) == (i + whole) * s + (f + part)) by (nonlinear_arith)
                requires
                    self.time_at(k + 1) == self.time_at(k) + d,
                    self.time_at(k) == s * i + f,
                    d == s * whole + part,
            ;
            lemma_fundamental_div_mod_converse(self.time_at(k + 1), s, i + whole, f + part);
        }
    }
}

impl ResamplerState {
    /// Production stops at the first window that does not fit, or when the
    /// room for outputs is used up, and not before.
    pub proof fn lemma_produced_from(self, len: int, limit: int, k: int)
        requires
            0 <= k <= limit,
        ensures
            k <= self.produced_from(len, limit, k) <= limit,
            self.produced_from(len, limit, k) < limit ==> !self.window_fits(
                self.produced_from(len, limit, k),
                len,
            ),
            forall|j: int|
                k <= j < self.produced_from(len, limit, k) ==> self.window_fits(j, len),
        decreases limit - k,
    {
        if k < limit && self.window_fits(k, len) {
            self.lemma_produced_from(len, limit, k + 1);
        }
    }

    /// The state after any number of outputs is a valid state again.
    pub proof fn lemma_after_wf(self, n: int)
        requires
            self.wf(),
            n >= 0,
        ensures
            self.after(n).wf(),
    {
        let s = self.src_incr;
        let pc = self.phase_count;
        self.lemma_position_at_start();
        assert(self.time_at(0) <= self.time_at(n)) by (nonlinear_arith)
            requires
                self.time_at(0) == self.index * s + self.frac + 0 * self.dst_incr,
                self.time_at(n) == self.index * s + self.frac + n * self.dst_incr,
                n >= 0,
                self.dst_incr >= 1,
        ;
        lemma_div_is_ordered(self.time_at(0), self.time_at(n), s);
        lemma_mod_bound(self.time_at(n), s);
        lemma_mod_bound(self.index_at(n), pc);
    }

    /// Whether a block of `block` samples with room for `block` outputs always
    /// moves the position past at least one input sample: the filter fits
    /// into the block, and `block` steps span the half filter before the
    /// first sample and one sample more.
    pub open spec fn advances_on(self, block: int) -> bool {
        &&& self.filter_length <= block
        &&& block * self.dst_incr >= self.src_incr * (self.phase_count * (1 + (self.filter_length
            - 1) / 2))
    }

    /// On a block that it advances on, a resampler produces at least one
    /// output and consumes at least one input sample.
    pub proof fn lemma_advances(self, block: int)
        requires
            self.wf(),
            self.advances_on(block),
            block >= 1,
        ensures
            self.produced(block, block) >= 1,
            self.consumed_after(self.produced(block, block)) >= 1,
    {
        let s = self.src_incr;
        let d = self.dst_incr;
        let pc = self.phase_count;
        let half = (self.filter_length - 1) / 2;
        let n = self.produced(block, block);
        self.lemma_produced_from(block, block, 0);
        self.lemma_position_at_start();
        // The first window fits: it starts at or before the first sample.
        assert(self.sample_index_at(0) <= 0) by {
            lemma_fundamental_div_mod(self.index, pc);
            lemma_mod_bound(self.index, pc);
            assert(self.index / pc <= 0) by (nonlinear_arith)
                requires
                    self.index == pc * (self.index / pc) + self.index % pc,
                    0 <= self.index % pc,
                    self.index < pc,
                    pc >= 1,
            ;
        }
        assert(self.window_fits(0, block));
        self.lemma_produced_from(block, block, 1);
        let index = self.index_at(n);
        if n < block {
            assert(self.sample_index_at(n) >= 1);
            lemma_fundamental_div_mod(index, pc);
            lemma_mod_bound(index, pc);
            assert(index >= pc) by (nonlinear_arith)
                requires
                    index == pc * (index / pc) + index % pc,
                    0 <= index % pc,
                    index / pc >= 1,
                    pc >= 1,
            ;
        } else {
            let time = self.time_at(n);
            assert(time >= s * pc) by (nonlinear_arith)
                requires
                    time == self.index * s + self.frac + n * d,
                    n == block,
                    block * d >= s * (pc * (1 + half)),
                    self.index >= -(pc * half),
                    self.frac >= 0,
                    s >= 1,
            ;
            lemma_div_is_ordered(s * pc, time, s);
            assert((s * pc) / s == pc) by (nonlinear_arith)
                requires
                    s >= 1,
            ;
        }
        assert(index / pc >= 1) by (nonlinear_arith)
            requires
                index >= pc,
                pc >= 1,
        ;
    }
}

impl Resampler {
    /// The sum of the products of the taps of `phase` with the input around
    /// `sample_index`.
    fn convolve_window(&self, src: &[i16], sample_index: i64, phase: i64) -> (sum: i64)
        requires
            self@.wf(),
            src@.len() <= MAX_SOURCE_LEN,
            0 <= phase < self@.phase_count,
            -self@.filter_length < sample_index,
            sample_index + self@.filter_length <= src@.len(),
        ensures
            sum == self@.convolve(
                src@,
                sample_index as int,
                phase as int,
                self@.filter_length,
            ),
            -0x2000_0000_0000_0000 <= sum <= 0x2000_0000_0000_0000,
    {
        let len: i64 = src.len() as i64;
        let length: i64 = self.filter_length;
        proof {
            assert(0 <= phase * length && phase * length + length <= self@.phase_count * length)
                by (nonlinear_arith)
                requires
                    0 <= phase < self@.phase_count,
                    length >= 1,
            ;
            assert(self@.phase_count * length <= 0x4000_0000 * 0x7fff_ffff) by (nonlinear_arith)
                requires
                    1 <= self@.phase_count <= 0x4000_0000,
                    1 <= length <= 0x7fff_ffff,
            ;
            assert(length * (self@.phase_count + 1) == self@.phase_count * length + length)
                by (nonlinear_arith);
        }
        let base: i64 = phase * length;
        let bank_len: usize = self.filter_bank.len();
        let mut sum: i64 = 0;
        let mut i: i64 = 0;
        while i < length
            invariant
                self@.wf(),
                length == self@.filter_length,
                len == src@.len(),
                len <= MAX_SOURCE_LEN,
                0 <= i <= length,
                -length < sample_index,
                sample_index + length <= len,
                base == phase * length,
                0 <= base,
                bank_len == self.filter_bank@.len(),
                base + length <= bank_len,
                base + length <= 0x4000_0000 * 0x7fff_ffff,
                self.filter_bank@ == self@.filter_bank,
                sum == self@.convolve(src@, sample_index as int, phase as int, i as int),
                -0x4000_0000 * i <= sum <= 0x4000_0000 * i,
            decreases length - i,
        {
            let position: i64 = if sample_index >= 0 {
                sample_index + i
            } else {
                let folded: i64 = sample_index + 1 + i;
                let distance: i64 = if folded < 0 {
                    -folded
                } else {
                    folded
                };
                distance % len
            };
            assert(position == tap_position(sample_index as int, i as int, len as int));
            assert(0 <= position < len) by {
                if sample_index < 0 {
                    lemma_mod_bound(magnitude(sample_index + 1 + i), len as int);
                }
            }
            let sample: i64 = src[position as usize] as i64;
            let tap: i64 = self.filter_bank[(base + i) as usize] as i64;
            proof {
                assert(-0x4000_0000 <= sample * tap <= 0x4000_0000) by (nonlinear_arith)
                    requires
                        -32768 <= sample <= 32767,
                        -32768 <= tap <= 32767,
                ;
            }
            assert(self@.convolve(src@, sample_index as int, phase as int, i + 1) == sum + sample
                * tap) by {
                assert(phase * self@.filter_length + (i + 1) - 1 == base + i);
            }
            sum = sum + sample * tap;
            i += 1;
        }
        sum
    }

    /// Resamples the block `src` into `dst`.
    ///
    /// Outputs are produced one by one until `dst` is full or the filter
    /// window of the next output reaches past the end of `src`. A window that
    /// starts left of the first sample reads the input reflected. Each output
    /// is the convolution of its window with the filter of its phase, scaled
    /// back by `FILTER_SHIFT` bits with rounding and saturated to 16 bits; the
    /// sum itself is exact.
    ///
    /// Returns the number of input samples that are consumed, which the caller
    /// drops before the next call, and the index of the last output written
    /// to `dst` (0 if there is none). The position carries over to the next
    /// call, relative to the first sample that was not consumed. No more than
    /// the block is consumed as long as a step is shorter than a filter
    /// window.
    pub fn resample(&mut self, src: &[i16], dst: &mut [i16]) -> (result: (usize, usize))
        requires
            old(self)@.wf(),
            src@.len() <= MAX_SOURCE_LEN,
        ensures
            final(self)@.wf(),
            final(dst)@.len() == old(dst)@.len(),
            ({
                let n = old(self)@.produced(src@.len() as int, old(dst)@.len() as int);
                &&& 0 <= n <= old(dst)@.len()
                &&& forall|k: int|
                    0 <= k < n ==> #[trigger] final(dst)@[k] == old(self)@.output_at(src@, k)
                &&& forall|k: int|
                    n <= k < old(dst)@.len() ==> #[trigger] final(dst)@[k] == old(dst)@[k]
                &&& final(self)@ == old(self)@.after(n)
                &&& result.0 == old(self)@.consumed_after(n)
                &&& old(self)@.never_skips() ==> result.0 <= src@.len()
                &&& result.1 == if n == 0 {
                    0
                } else {
                    n - 1
                }
            }),
    {
        let ghost start = self@;
        let ghost untouched = dst@;
        let len: i64 = src.len() as i64;
        let limit: usize = dst.len();
        let phase_count: i64 = self.phase_count;
        let length: i64 = self.filter_length;
        let src_incr: i64 = self.src_incr;
        let whole: i64 = self.dst_incr / self.src_incr;
        let part: i64 = self.dst_incr % self.src_incr;
        let mut index: i64 = self.index;
        let mut frac: i64 = self.frac;
        let mut k: usize = 0;
        let mut running: bool = true;
        proof {
            start.lemma_position_at_start();
            lemma_mod_bound(start.dst_incr, start.src_incr);
            lemma_fundamental_div_mod(start.dst_incr, start.src_incr);
            assert(phase_count * ((length - 1) / 2) <= 0x4000_0000 * 0x4000_0000)
                by (nonlinear_arith)
                requires
                    1 <= phase_count <= 0x4000_0000,
                    0 <= (length - 1) / 2 <= 0x4000_0000,
            ;
            assert(phase_count <= (len + 1) * phase_count) by (nonlinear_arith)
                requires
                    len >= 0,
                    phase_count >= 1,
            ;
            assert(start.dst_incr / start.src_incr <= start.dst_incr) by (nonlinear_arith)
                requires
                    start.dst_incr >= 1,
                    start.src_incr >= 1,
            ;
            assert(start.dst_incr / start.src_incr >= 0) by (nonlinear_arith)
                requires
                    start.dst_incr >= 1,
                    start.src_incr >= 1,
            ;
        }
        while running && k < limit
            invariant
                start.wf(),
                self@ == start,
                len == src@.len(),
                len <= MAX_SOURCE_LEN,
                limit == dst@.len(),
                limit == untouched.len(),
                phase_count == start.phase_count,
                length == start.filter_length,
                src_incr == start.src_incr,
                whole == start.dst_incr / start.src_incr,
                part == start.dst_incr % start.src_incr,
                0 <= whole <= 0x7fff_ffff,
                0 <= part < src_incr,
                0 <= k <= limit,
                index == start.index_at(k as int),
                frac == start.frac_at(k as int),
                0 <= frac < src_incr,
                start.start_index() <= index < (len + 1) * phase_count + 0x8000_0000,
                start.never_skips() ==> index < (len + 1) * phase_count,
                -0x1000_0000_0000_0000 <= start.start_index(),
                start.produced_from(len as int, limit as int, k as int) == start.produced(
                    len as int,
                    limit as int,
                ),
                !running ==> k < limit && !start.window_fits(k as int, len as int),
                forall|j: int| 0 <= j < k ==> #[trigger] dst@[j] == start.output_at(src@, j),
                forall|j: int| k <= j < limit ==> #[trigger] dst@[j] == untouched[j],
            decreases limit - k + if running { 1int } else { 0int },
        {
            proof {
                assert((len + 1) * phase_count <= 0x8000_0000 * 0x4000_0000) by (nonlinear_arith)
                    requires
                        0 <= len <= 0x7fff_ffff,
                        1 <= phase_count <= 0x4000_0000,
                ;
            }
            let sample_index: i64 = floor_div(index, phase_count);
            proof {
                lemma_fundamental_div_mod(index as int, phase_count as int);
                lemma_mod_bound(index as int, phase_count as int);
                assert(sample_index <= len + 0x8000_0000) by (nonlinear_arith)
                    requires
                        index < (len + 1) * phase_count + 0x8000_0000,
                        index == phase_count * sample_index + index % phase_count,
                        0 <= index % phase_count,
                        phase_count >= 1,
                        len >= 0,
                ;
                assert(sample_index > -length) by (nonlinear_arith)
                    requires
                        -(phase_count * ((length - 1) / 2)) <= index,
                        index == phase_count * sample_index + index % phase_count,
                        index % phase_count < phase_count,
                        phase_count >= 1,
                        length >= 1,
                ;
                assert(-0x8000_0000 * 0x4000_0000 <= sample_index * phase_count <= 0x1_0000_0000
                    * 0x4000_0000) by (nonlinear_arith)
                    requires
                        -0x8000_0000 <= sample_index <= 0x1_0000_0000,
                        1 <= phase_count <= 0x4000_0000,
                ;
                assert(sample_index * phase_count == phase_count * sample_index)
                    by (nonlinear_arith);
            }
            if sample_index + length > len {
                running = false;
            } else {
                let phase: i64 = index - sample_index * phase_count;
                let sum: i64 = self.convolve_window(src, sample_index, phase);
                let rounded: i64 = floor_div(sum + 16384, 32768);
                let sample: i64 = clip(rounded, -32768, 32767);
                dst[k] = sample as i16;
                proof {
                    start.lemma_position_step(k as int);
                    assert(index < len * phase_count) by (nonlinear_arith)
                        requires
                            index == phase_count * sample_index + index % phase_count,
                            index % phase_count < phase_count,
                            sample_index + length <= len,
                            length >= 1,
                            phase_count >= 1,
                    ;
                    assert((len + 1) * phase_count == len * phase_count + phase_count)
                        by (nonlinear_arith);
                    if start.never_skips() {
                        assert(index + whole + 1 < (len + 1) * phase_count) by (nonlinear_arith)
                            requires
                                index == phase_count * sample_index + index % phase_count,
                                index % phase_count < phase_count,
                                sample_index + length <= len,
                                whole < length * phase_count,
                                phase_count >= 1,
                        ;
                    }
                }
                frac = frac + part;
                index = index + whole;
                if frac >= src_incr {
                    frac = frac - src_incr;
                    index = index + 1;
                }
                k += 1;
            }
        }
        let consumed: i64 = if index >= 0 {
            index / phase_count
        } else {
            0
        };
        proof {
            if index >= 0 {
                lemma_fundamental_div_mod(index as int, phase_count as int);
                lemma_mod_bound(index as int, phase_count as int);
                assert(index / phase_count <= len + 0x8000_0000) by (nonlinear_arith)
                    requires
                        index < (len + 1) * phase_count + 0x8000_0000,
                        index == phase_count * (index / phase_count) + index % phase_count,
                        0 <= index % phase_count,
                        phase_count >= 1,
                        len >= 0,
                ;
                if start.never_skips() {
                    assert(index / phase_count <= len) by (nonlinear_arith)
                        requires
                            index < (len + 1) * phase_count,
                            index == phase_count * (index / phase_count) + index % phase_count,
                            0 <= index % phase_count,
                            phase_count >= 1,
                    ;
                }
                assert(index / phase_count >= 0) by (nonlinear_arith)
                    requires
                        index >= 0,
                        phase_count >= 1,
                ;
            }
        }
        if index >= 0 {
            index = index % phase_count;
        }
        self.index = index;
        self.frac = frac;
        let last: usize = if k == 0 {
            0
        } else {
            k - 1
        };
        (consumed as usize, last)
    }
}

/// Two to the power of `shift`.
fn pow2_i64(shift: i32) -> (power: i64)
    requires
        0 <= shift <= MAX_PHASE_SHIFT,
    ensures
        power == pow2(shift as nat),
        1 <= power <= 0x4000_0000,
{
    proof {
        lemma2_to64();
        if shift < 30 {
            lemma_pow2_strictly_increases(shift as nat, 30);
        }
        lemma_pow2_pos(shift as nat);
        lemma_u64_shl_is_mul(1, shift as u64);
    }
    (1u64 << (shift as u64)) as i64
}

} // verus!
