//! From samples to power spectra.
//!
//! The samples are cut into frames of `FRAME_SIZE` samples that overlap.
//! Every frame is transformed, and the power spectrum of the transform is
//! taken. The transform itself, with the window that goes before it, is a
//! function of the caller: it takes a frame and gives its bins, as pairs of a
//! real and an imaginary part.

use vstd::prelude::*;
use vstd::std_specs::ops::AddSpec;
use vstd::std_specs::ops::MulSpec;
use std::ops::Add;
use std::ops::Mul;
use crate::arithmetic::adds_freely;
use crate::arithmetic::multiplies_freely;
use crate::slicer::FixedSlicer;
use crate::slicer::remainder;
use crate::slicer::window_count;
use crate::slicer::windows;

verus! {

/// The power of a bin with the real part `re` and the imaginary part `im`:
/// the sum of their squares.
pub open spec fn power<T: Add<Output = T> + Mul<Output = T>>(re: T, im: T) -> T {
    re.mul_spec(re).add_spec(im.mul_spec(im))
}

/// The one-sided power spectrum of a transform whose bins are given as pairs
/// of a real and an imaginary part: the power of the bins from 0 up to half
/// the length, both ends included.
pub fn fold_output<T: Add<Output = T> + Mul<Output = T> + Copy>(fft: &[(T, T)]) -> (output: Vec<T>)
    requires
        fft@.len() >= 1,
        adds_freely::<T>(),
        multiplies_freely::<T>(),
    ensures
        output@.len() == fft@.len() / 2 + 1,
        T::obeys_add_spec() && T::obeys_mul_spec() ==> forall|idx: int|
            0 <= idx < output@.len() ==> #[trigger] output@[idx] == power(fft@[idx].0, fft@[idx].1),
{
    let half_input: usize = fft.len() / 2;
    let mut output: Vec<T> = Vec::new();

    let mut idx: usize = 0;
    while idx <= half_input
        invariant
            half_input == fft@.len() / 2,
            fft@.len() >= 1,
            0 <= idx <= half_input + 1,
            adds_freely::<T>(),
            multiplies_freely::<T>(),
            output@.len() == idx,
            T::obeys_add_spec() && T::obeys_mul_spec() ==> forall|k: int|
                0 <= k < idx ==> #[trigger] output@[k] == power(fft@[k].0, fft@[k].1),
        decreases half_input + 1 - idx,
    {
        let (re, im) = fft[idx];
        output.push(re * re + im * im);
        idx += 1;
    }

    output
}

/// The number of samples in a frame.
pub const FRAME_SIZE: usize = 4096;

/// Whether `spectrum` is the power spectrum of the bins `bins`: one power
/// for every bin up to half the length, which in an arithmetic that goes by
/// its specification is the sum of the squares of the two parts of the bin.
pub open spec fn is_power_spectrum<T: Add<Output = T> + Mul<Output = T>>(
    bins: Seq<(T, T)>,
    spectrum: Seq<T>,
) -> bool {
    &&& spectrum.len() == bins.len() / 2 + 1
    &&& T::obeys_add_spec() && T::obeys_mul_spec() ==> forall|idx: int|
        0 <= idx < spectrum.len() ==> #[trigger] spectrum[idx] == power(bins[idx].0, bins[idx].1)
}

/// Whether `spectrum` is a power spectrum that `transform` may give for
/// `frame`: the power spectrum of what `transform` makes of the frame.
pub open spec fn is_spectrum<T: Add<Output = T> + Mul<Output = T>, F: Fn(Vec<i16>) -> Vec<(T, T)>>(
    transform: F,
    frame: Seq<i16>,
    spectrum: Seq<T>,
) -> bool {
    exists|input: Vec<i16>, bins: Vec<(T, T)>|
        {
            &&& input@ == frame
            &&& #[trigger] call_ensures(transform, (input,), bins)
            &&& is_power_spectrum(bins@, spectrum)
        }
}

/// Whether `transform` takes every frame and gives as many bins as the frame
/// has samples.
pub open spec fn transforms_frames<T, F: Fn(Vec<i16>) -> Vec<(T, T)>>(transform: F) -> bool {
    &&& forall|input: Vec<i16>| #[trigger] call_requires(transform, (input,))
    &&& forall|input: Vec<i16>, bins: Vec<(T, T)>| #[trigger]
        call_ensures(transform, (input,), bins) ==> bins@.len() == input@.len()
}

/// The stage that turns samples into power spectra of overlapping frames.
pub struct Fft {
    slicer: FixedSlicer<i16>,
}

impl Fft {
    /// The samples that arrived and belong to no complete frame yet, from the
    /// start of the next frame on.
    pub closed spec fn buffered(&self) -> Seq<i16> {
        self.slicer.buffered()
    }

    /// The number of samples from the start of one frame to the start of the
    /// next.
    pub closed spec fn stride(&self) -> nat {
        self.slicer.increment()
    }

    /// The state invariant: frames have `FRAME_SIZE` samples and start at
    /// least one sample and at most a whole frame apart.
    pub closed spec fn wf(&self) -> bool {
        &&& self.slicer.wf()
        &&& self.slicer.slice_size() == FRAME_SIZE
        &&& 1 <= self.slicer.increment() <= FRAME_SIZE
    }

    /// A stage whose frames share `overlap` samples with their neighbours.
    pub fn new(overlap: usize) -> (fft: Fft)
        requires
            overlap < FRAME_SIZE,
        ensures
            fft.wf(),
            fft.stride() == FRAME_SIZE - overlap,
            fft.buffered() == Seq::<i16>::empty(),
    {
        Fft { slicer: FixedSlicer::new(FRAME_SIZE, FRAME_SIZE - overlap) }
    }

    /// Takes `data` after what is buffered and returns the power spectrum of
    /// every frame that is complete, in order. The rest stays buffered.
    pub fn consume<T: Add<Output = T> + Mul<Output = T> + Copy, F: Fn(Vec<i16>) -> Vec<(T, T)>>(
        &mut self,
        data: &[i16],
        transform: &F,
    ) -> (spectra: Vec<Vec<T>>)
        requires
            old(self).wf(),
            old(self).buffered().len() + data@.len() <= usize::MAX,
            transforms_frames(*transform),
            adds_freely::<T>(),
            multiplies_freely::<T>(),
        ensures
            final(self).wf(),
            final(self).stride() == old(self).stride(),
            final(self).buffered() == remainder(
                old(self).buffered() + data@,
                FRAME_SIZE as nat,
                old(self).stride(),
            ),
            spectra@.len() == window_count(
                old(self).buffered().len() + data@.len(),
                FRAME_SIZE as nat,
                old(self).stride(),
            ),
            forall|i: int|
                0 <= i < spectra@.len() ==> is_spectrum(
                    *transform,
                    windows(old(self).buffered() + data@, FRAME_SIZE as nat, old(self).stride())[i],
                    (#[trigger] spectra@[i])@,
                ),
    {
        let ghost stream = self.slicer.buffered() + data@;
        let ghost stride = self.slicer.increment();
        let frames = self.slicer.process(data);
        let ghost cut = frames@;
        let mut spectra: Vec<Vec<T>> = Vec::new();
        for frame in iter: frames.into_iter()
            invariant
                iter.seq() == cut,
                transforms_frames(*transform),
                adds_freely::<T>(),
                multiplies_freely::<T>(),
                crate::slicer::contents(cut) == windows(stream, FRAME_SIZE as nat, stride),
                forall|i: int| 0 <= i < cut.len() ==> (#[trigger] cut[i])@.len() == FRAME_SIZE,
                spectra@.len() == iter.index(),
                forall|i: int|
                    0 <= i < spectra@.len() ==> is_spectrum(
                        *transform,
                        windows(stream, FRAME_SIZE as nat, stride)[i],
                        (#[trigger] spectra@[i])@,
                    ),
        {
            let ghost at = iter.index() as int;
            let ghost input = frame;
            assert(frame == cut[at]);
            assert(crate::slicer::contents(cut)[at] == cut[at]@);
            let bins = transform(frame);
            let spectrum = fold_output(&bins);
            assert(is_power_spectrum(bins@, spectrum@));
            assert(is_spectrum(
                *transform,
                windows(stream, FRAME_SIZE as nat, stride)[at],
                spectrum@,
            )) by {
                assert(call_ensures(*transform, (input,), bins));
            }
            spectra.push(spectrum);
        }
        spectra
    }
}

} // verus!
