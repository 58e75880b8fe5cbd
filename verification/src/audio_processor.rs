//! The front of the pipeline: samples at the input rate go in, in pieces of
//! any length, and resampled blocks come out.
//!
//! The input is cut into blocks of `MAX_BUFFER_SIZE` samples. Each block is
//! resampled, and the stream advances by the number of samples that the
//! resampler consumed, so that the next block starts with the samples that the
//! resampler still needs.

use vstd::prelude::*;
use crate::resampler::Resampler;
use crate::resampler::ResamplerState;
use crate::resampler::closing_phase;
use crate::slicer::SliceConsumer;
use crate::slicer::Slicer;
use crate::slicer::contents;
use crate::slicer::is_run;
use crate::slicer::is_step;
use crate::slicer::sliced;

verus! {

/// The number of samples in a block, and the room for the outputs of one
/// block.
pub const MAX_BUFFER_SIZE: usize = 32768;

/// The number of taps of the resampling filter at equal rates.
pub const RESAMPLE_FILTER_LENGTH: i32 = 16;

/// The share of the bandwidth of the output that the resampling filter lets
/// pass, in units of `1 / RESAMPLE_CUTOFF_SCALE`.
pub const RESAMPLE_CUTOFF: i32 = 4;

/// The number that the cutoff is multiplied by to make it whole.
pub const RESAMPLE_CUTOFF_SCALE: i32 = 5;

/// The resampler works with `1 << 8` phases per input sample.
pub const RESAMPLE_PHASE_SHIFT: i32 = 8;

/// The number of phases per input sample.
pub const RESAMPLE_PHASE_COUNT: usize = 256;

/// The samples that a resampler in state `state` makes of the block `block`:
/// its outputs, or a single zero sample where it produces none.
pub open spec fn resample_block(state: ResamplerState, block: Seq<i16>) -> Seq<i16> {
    let n = state.produced(block.len() as int, MAX_BUFFER_SIZE as int);
    if n == 0 {
        seq![0i16]
    } else {
        Seq::new(n as nat, |k: int| state.output_at(block, k) as i16)
    }
}

/// The state in which a resampler in state `state` leaves a block of `len`
/// samples.
pub open spec fn state_after_block(state: ResamplerState, len: nat) -> ResamplerState {
    state.after(state.produced(len as int, MAX_BUFFER_SIZE as int))
}

/// The number of samples that a resampler in state `state` consumes of a
/// block of `len` samples.
pub open spec fn consumed_of_block(state: ResamplerState, len: nat) -> int {
    state.consumed_after(state.produced(len as int, MAX_BUFFER_SIZE as int))
}

/// What becomes of a stream of samples.
pub struct Resampled {
    /// The resampled blocks, in order.
    pub chunks: Seq<Seq<i16>>,
    /// The state of the resampler after the last block.
    pub state: ResamplerState,
    /// The samples after the last block, less than one block.
    pub rest: Seq<i16>,
}

/// What becomes of `stream` when a resampler in state `state` takes it block
/// by block: each block of `MAX_BUFFER_SIZE` samples is resampled, and the
/// next block starts after the samples that were consumed. A resampler that
/// would not advance by at least one sample and at most a block ends it.
pub open spec fn resample_stream(state: ResamplerState, stream: Seq<i16>) -> Resampled
    decreases stream.len(),
{
    let consumed = consumed_of_block(state, MAX_BUFFER_SIZE as nat);
    if stream.len() < MAX_BUFFER_SIZE || consumed < 1 || consumed > MAX_BUFFER_SIZE {
        Resampled { chunks: Seq::empty(), state, rest: stream }
    } else {
        let tail = resample_stream(
            state_after_block(state, MAX_BUFFER_SIZE as nat),
            stream.skip(consumed),
        );
        Resampled {
            chunks: seq![resample_block(state, stream.take(MAX_BUFFER_SIZE as int))] + tail.chunks,
            state: tail.state,
            rest: tail.rest,
        }
    }
}

/// The resampler together with the blocks that it has made and that were not
/// handed out yet.
pub struct ResampleStage {
    /// The resampler.
    pub resampler: Resampler,
    /// The resampled blocks.
    pub chunks: Vec<Vec<i16>>,
}

impl ResampleStage {
    /// Resamples the block `src`. Returns the number of samples consumed and
    /// the resampled block.
    pub fn resample_slice(&mut self, src: Vec<i16>) -> (result: (usize, Vec<i16>))
        requires
            old(self).resampler@.wf(),
            old(self).resampler@.never_skips(),
            src@.len() <= MAX_BUFFER_SIZE,
        ensures
            final(self).resampler@.wf(),
            final(self).resampler@ == state_after_block(old(self).resampler@, src@.len()),
            final(self).chunks@ == old(self).chunks@,
            result.0 == consumed_of_block(old(self).resampler@, src@.len()),
            result.0 <= src@.len(),
            result.1@ == resample_block(old(self).resampler@, src@),
    {
        let mut dst: Vec<i16> = vec![0i16; MAX_BUFFER_SIZE];
        let (consumed_size, last_idx) = self.resampler.resample(
            src.as_slice(),
            dst.as_mut_slice(),
        );
        dst.truncate(last_idx + 1);
        assert(dst@ =~= resample_block(old(self).resampler@, src@));
        (consumed_size, dst)
    }
}

impl SliceConsumer<i16> for ResampleStage {
    open spec fn ready(&self, size: nat) -> bool {
        &&& size == MAX_BUFFER_SIZE
        &&& self.resampler@.wf()
        &&& self.resampler@.never_skips()
        &&& self.resampler@.advances_on(MAX_BUFFER_SIZE as int)
    }

    open spec fn step(&self, window: Seq<i16>, advance: nat, next: Self) -> bool {
        &&& advance == consumed_of_block(self.resampler@, window.len())
        &&& next.resampler@ == state_after_block(self.resampler@, window.len())
        &&& contents(next.chunks@) == contents(self.chunks@).push(
            resample_block(self.resampler@, window),
        )
    }

    fn consume(&mut self, window: Vec<i16>) -> (advance: usize) {
        proof {
            self.resampler@.lemma_advances(MAX_BUFFER_SIZE as int);
        }
        let (consumed_size, dst) = self.resample_slice(window);
        let ghost made = dst@;
        self.chunks.push(dst);
        assert(contents(self.chunks@) =~= contents(old(self).chunks@).push(made));
        consumed_size
    }
}

/// In a run of a `ResampleStage`, what follows window `i` is what the stream
/// from the start of that window on becomes.
pub proof fn lemma_stage_run(
    stream: Seq<i16>,
    states: Seq<ResampleStage>,
    starts: Seq<nat>,
    i: int,
)
    requires
        is_run(MAX_BUFFER_SIZE as nat, stream, states, starts),
        0 <= i < starts.len(),
        states[i].resampler@.wf(),
        states[i].resampler@.advances_on(MAX_BUFFER_SIZE as int),
    ensures
        ({
            let becomes = resample_stream(states[i].resampler@, stream.skip(starts[i] as int));
            &&& contents(states.last().chunks@) == contents(states[i].chunks@) + becomes.chunks
            &&& states.last().resampler@ == becomes.state
            &&& stream.skip(starts.last() as int) == becomes.rest
        }),
    decreases starts.len() - i,
{
    let state = states[i].resampler@;
    let here = stream.skip(starts[i] as int);
    if i == starts.len() - 1 {
        assert(contents(states[i].chunks@) + Seq::<Seq<i16>>::empty() =~= contents(
            states[i].chunks@,
        ));
    } else {
        assert(is_step(MAX_BUFFER_SIZE as nat, stream, states, starts, i));
        state.lemma_advances(MAX_BUFFER_SIZE as int);
        let window = stream.subrange(starts[i] as int, starts[i] + MAX_BUFFER_SIZE);
        assert(window =~= here.take(MAX_BUFFER_SIZE as int));
        let consumed = consumed_of_block(state, MAX_BUFFER_SIZE as nat);
        assert(here.skip(consumed) =~= stream.skip(starts[i + 1] as int));
        let next = states[i + 1].resampler@;
        assert(next.advances_on(MAX_BUFFER_SIZE as int));
        state.lemma_produced_from(MAX_BUFFER_SIZE as int, MAX_BUFFER_SIZE as int, 0);
        state.lemma_after_wf(state.produced(MAX_BUFFER_SIZE as int, MAX_BUFFER_SIZE as int));
        lemma_stage_run(stream, states, starts, i + 1);
        let tail = resample_stream(next, stream.skip(starts[i + 1] as int));
        assert(contents(states[i].chunks@).push(resample_block(state, window)) + tail.chunks
            =~= contents(states[i].chunks@) + (seq![resample_block(state, window)]
            + tail.chunks));
    }
}

/// Resampling of a stream of samples that arrives in pieces.
pub struct AudioProcessor {
    slicer: Slicer<i16>,
    stage: ResampleStage,
}

/// Whether a resampler can be built for these rates around a filter bank of
/// `taps_len` taps with `filter_length` taps in each of its 256 phases, such
/// that every block advances the stream.
pub open spec fn valid_parameters(
    target_sample_rate: u16,
    input_sample_rate: u16,
    filter_length: i32,
    taps_len: nat,
) -> bool {
    &&& target_sample_rate > 0
    &&& input_sample_rate > 0
    &&& 1 <= filter_length <= MAX_BUFFER_SIZE
    &&& taps_len == filter_length * RESAMPLE_PHASE_COUNT
    &&& (input_sample_rate * RESAMPLE_PHASE_COUNT) / (target_sample_rate as int) < filter_length
        * RESAMPLE_PHASE_COUNT
    &&& MAX_BUFFER_SIZE * input_sample_rate >= target_sample_rate * (1 + (filter_length - 1) / 2)
}

impl AudioProcessor {
    /// The state invariant.
    pub closed spec fn wf(&self) -> bool {
        &&& self.slicer.wf()
        &&& self.slicer.slice_size() == MAX_BUFFER_SIZE
        &&& self.slicer.buffered().len() < MAX_BUFFER_SIZE
        &&& self.stage.resampler@.wf()
        &&& self.stage.resampler@.never_skips()
        &&& self.stage.resampler@.advances_on(MAX_BUFFER_SIZE as int)
        &&& self.stage.chunks@.len() == 0
    }

    /// The state of the resampler.
    pub closed spec fn resampler(&self) -> ResamplerState {
        self.stage.resampler@
    }

    /// The samples that arrived and were not consumed yet.
    pub closed spec fn buffered(&self) -> Seq<i16> {
        self.slicer.buffered()
    }

    /// Whether the parameters are fit for `new`.
    pub fn accepts(
        target_sample_rate: u16,
        input_sample_rate: u16,
        filter_length: i32,
        taps_len: usize,
    ) -> (ok: bool)
        ensures
            ok == valid_parameters(
                target_sample_rate,
                input_sample_rate,
                filter_length,
                taps_len as nat,
            ),
    {
        if target_sample_rate == 0 || input_sample_rate == 0 {
            return false;
        }
        if filter_length < 1 || filter_length > 32768 {
            return false;
        }
        let length: u64 = filter_length as u64;
        let target: u64 = target_sample_rate as u64;
        let input: u64 = input_sample_rate as u64;
        if taps_len as u64 != length * 256 {
            return false;
        }
        if (input * 256) / target >= length * 256 {
            return false;
        }
        let half: u64 = (length - 1) / 2;
        assert(target * (1 + half) <= 65535 * 16385) by (nonlinear_arith)
            requires
                0 <= target <= 65535,
                0 <= half <= 16384,
        ;
        32768 * input >= target * (1 + half)
    }

    /// A processor that resamples from `input_sample_rate` to
    /// `target_sample_rate` with the filter bank `taps`: 256 phases of
    /// `filter_length` taps each.
    pub fn new(
        target_sample_rate: u16,
        input_sample_rate: u16,
        filter_length: i32,
        taps: Vec<i16>,
    ) -> (processor: AudioProcessor)
        requires
            valid_parameters(target_sample_rate, input_sample_rate, filter_length, taps@.len()),
        ensures
            processor.wf(),
            processor.buffered() == Seq::<i16>::empty(),
            processor.resampler().wf(),
            processor.resampler().phase_count == RESAMPLE_PHASE_COUNT,
            processor.resampler().filter_length == filter_length,
            processor.resampler().filter_bank == taps@ + closing_phase(
                taps@,
                filter_length as int,
            ),
            processor.resampler().src_incr == target_sample_rate,
            processor.resampler().dst_incr == input_sample_rate * RESAMPLE_PHASE_COUNT,
            processor.resampler().index == processor.resampler().start_index(),
            processor.resampler().frac == 0,
    {
        proof {
            vstd::arithmetic::power2::lemma2_to64();
        }
        let resampler = Resampler::new(
            target_sample_rate as i32,
            input_sample_rate as i32,
            RESAMPLE_PHASE_SHIFT,
            filter_length,
            taps,
        );
        proof {
            let half = (filter_length - 1) / 2;
            assert(MAX_BUFFER_SIZE * (input_sample_rate * 256) >= target_sample_rate * (256 * (1
                + half))) by (nonlinear_arith)
                requires
                    MAX_BUFFER_SIZE * input_sample_rate >= target_sample_rate * (1 + half),
            ;
        }
        AudioProcessor {
            slicer: Slicer::new(MAX_BUFFER_SIZE),
            stage: ResampleStage { resampler, chunks: Vec::new() },
        }
    }

    /// Takes `data` after what is buffered and returns the resampled blocks of
    /// every whole block of input, in order. The rest stays buffered.
    pub fn feed(&mut self, data: &[i16]) -> (chunks: Vec<Vec<i16>>)
        requires
            old(self).wf(),
            data@.len() <= usize::MAX - MAX_BUFFER_SIZE,
        ensures
            final(self).wf(),
            ({
                let becomes = resample_stream(
                    old(self).resampler(),
                    old(self).buffered() + data@,
                );
                &&& contents(chunks@) == becomes.chunks
                &&& final(self).resampler() == becomes.state
                &&& final(self).buffered() == becomes.rest
            }),
    {
        let ghost stream = self.slicer.buffered() + data@;
        let ghost first = self.stage;
        self.slicer.process(data, &mut self.stage);
        let mut chunks: Vec<Vec<i16>> = Vec::new();
        std::mem::swap(&mut self.stage.chunks, &mut chunks);
        proof {
            let last = ResampleStage { resampler: self.stage.resampler, chunks };
            assert(sliced(MAX_BUFFER_SIZE as nat, stream, first, last, self.slicer.buffered()));
            let (states, starts): (Seq<ResampleStage>, Seq<nat>) = choose|
                states: Seq<ResampleStage>,
                starts: Seq<nat>,
            |
                {
                    &&& #[trigger] is_run(MAX_BUFFER_SIZE as nat, stream, states, starts)
                    &&& states[0] == first
                    &&& states.last() == last
                    &&& self.slicer.buffered() == stream.skip(starts.last() as int)
                };
            lemma_stage_run(stream, states, starts, 0);
            assert(stream.skip(0) =~= stream);
            assert(contents(first.chunks@) =~= Seq::<Seq<i16>>::empty());
            let becomes = resample_stream(first.resampler@, stream);
            assert(contents(chunks@) =~= becomes.chunks);
        }
        chunks
    }

    /// Resamples what is buffered, as a last block that may be short, and
    /// leaves the buffer empty. Returns nothing if nothing was buffered.
    pub fn flush(&mut self) -> (last: Option<Vec<i16>>)
        requires
            old(self).wf(),
        ensures
            final(self).wf(),
            final(self).buffered() == Seq::<i16>::empty(),
            old(self).buffered().len() == 0 ==> last is None && final(self).resampler() == old(
                self,
            ).resampler(),
            old(self).buffered().len() > 0 ==> last is Some && last->0@ == resample_block(
                old(self).resampler(),
                old(self).buffered(),
            ) && final(self).resampler() == state_after_block(
                old(self).resampler(),
                old(self).buffered().len(),
            ),
    {
        let remaining = self.slicer.flush();
        if remaining.len() == 0 {
            return None;
        }
        let (_, dst) = self.stage.resample_slice(remaining);
        Some(dst)
    }
}

} // verus!
