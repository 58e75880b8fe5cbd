//! The table that assigns spectrum bins to pitch classes.
//!
//! A spectrum of `frame_size` bins at `sample_rate` is folded onto twelve
//! pitch classes, 0 for A up to 11 for G sharp. Only the bins between two
//! frequencies take part. Which pitch class a bin belongs to is a matter of
//! logarithms and is decided by the caller, bin by bin; this module decides
//! which bins take part, keeps the table and folds the spectra.

use vstd::prelude::*;
use vstd::std_specs::ops::AddSpec;
use std::ops::Add;
use crate::arithmetic::adds_freely;
use crate::arithmetic::is_additive;

verus! {

/// The number of pitch classes.
pub const NOTE_COUNT: u8 = 12;

/// The index of the spectrum bin nearest to `freq`: the quotient
/// `freq * frame_size / sample_rate` rounded to the nearest integer, halves
/// up, and limited to the range of `u32`.
pub open spec fn freq_to_idx_spec(freq: u32, frame_size: u32, sample_rate: u32) -> int {
    let nearest = (2 * freq * frame_size + sample_rate) / (2 * sample_rate);
    if nearest > u32::MAX {
        u32::MAX as int
    } else {
        nearest
    }
}

/// Converts a frequency in Hz to the index of the nearest bin of a spectrum
/// of `frame_size` bins at `sample_rate`.
pub fn freq_to_idx(freq: u32, frame_size: u32, sample_rate: u32) -> (idx: u32)
    requires
        sample_rate > 0,
    ensures
        idx == freq_to_idx_spec(freq, frame_size, sample_rate),
{
    proof {
        assert(0 <= freq * frame_size <= 0xffff_ffff * 0xffff_ffff) by (nonlinear_arith)
            requires
                0 <= freq <= 0xffff_ffff,
                0 <= frame_size <= 0xffff_ffff,
        ;
        assert(2 * freq * frame_size == 2 * (freq * frame_size)) by (nonlinear_arith);
    }
    let product: u128 = (freq as u128) * (frame_size as u128);
    let numerator: u128 = 2 * product + (sample_rate as u128);
    let nearest: u128 = numerator / (2 * (sample_rate as u128));
    if nearest > 0xffff_ffff {
        0xffff_ffff
    } else {
        nearest as u32
    }
}

/// The first bin that takes part: the bin of `min_freq`, but never bin 0.
pub open spec fn min_idx_spec(min_freq: u32, frame_size: u32, sample_rate: u32) -> int {
    let idx = freq_to_idx_spec(min_freq, frame_size, sample_rate);
    if idx < 1 {
        1
    } else {
        idx
    }
}

/// The bin after the last one that takes part: the bin of `max_freq`, but at
/// most half the frame.
pub open spec fn max_idx_spec(max_freq: u32, frame_size: u32, sample_rate: u32) -> int {
    let idx = freq_to_idx_spec(max_freq, frame_size, sample_rate);
    if idx > frame_size / 2 {
        (frame_size / 2) as int
    } else {
        idx
    }
}

/// Whether `note_for_idx` can be asked about every bin from `min_idx` up to
/// `max_idx` and answers with a pitch class.
pub open spec fn gives_notes<F: Fn(u32) -> u8>(
    note_for_idx: F,
    min_idx: int,
    max_idx: int,
) -> bool {
    &&& forall|idx: u32|
        min_idx <= idx < max_idx ==> #[trigger] call_requires(note_for_idx, (idx,))
    &&& forall|idx: u32, note: u8|
        min_idx <= idx < max_idx && #[trigger] call_ensures(note_for_idx, (idx,), note) ==> note
            < NOTE_COUNT
}

/// The bins that take part and the pitch class of each.
pub struct NoteRange {
    min_idx: u32,
    max_idx: u32,
    notes: Vec<u8>,
}

impl NoteRange {
    /// The first bin that takes part.
    pub closed spec fn spec_min_idx(&self) -> int {
        self.min_idx as int
    }

    /// The bin after the last one that takes part.
    pub closed spec fn spec_max_idx(&self) -> int {
        self.max_idx as int
    }

    /// The table: one entry for every bin of the frame.
    pub closed spec fn spec_notes(&self) -> Seq<u8> {
        self.notes@
    }

    /// The state invariant: the table covers the bins that take part, and
    /// every entry is a pitch class.
    pub open spec fn wf(&self) -> bool {
        &&& self.spec_min_idx() >= 1
        &&& self.spec_max_idx() <= self.spec_notes().len()
        &&& forall|idx: int|
            0 <= idx < self.spec_notes().len() ==> #[trigger] self.spec_notes()[idx] < NOTE_COUNT
    }

    /// Builds the table for a spectrum of `frame_size` bins at `sample_rate`
    /// in which the bins from `min_freq` up to `max_freq` take part.
    ///
    /// `note_for_idx` gives the pitch class of a bin. It is asked once for
    /// every bin that takes part, in rising order; the other bins get 0.
    pub fn new<F: Fn(u32) -> u8>(
        min_freq: u32,
        max_freq: u32,
        frame_size: u32,
        sample_rate: u32,
        note_for_idx: F,
    ) -> (range: NoteRange)
        requires
            sample_rate > 0,
            frame_size <= usize::MAX,
            gives_notes(
                note_for_idx,
                min_idx_spec(min_freq, frame_size, sample_rate),
                max_idx_spec(max_freq, frame_size, sample_rate),
            ),
        ensures
            range.wf(),
            range.spec_min_idx() == min_idx_spec(min_freq, frame_size, sample_rate),
            range.spec_max_idx() == max_idx_spec(max_freq, frame_size, sample_rate),
            range.spec_notes().len() == frame_size,
            forall|idx: int|
                range.spec_min_idx() <= idx < range.spec_max_idx() ==> call_ensures(
                    note_for_idx,
                    (idx as u32,),
                    #[trigger] range.spec_notes()[idx],
                ),
            forall|idx: int|
                0 <= idx < frame_size && !(range.spec_min_idx() <= idx < range.spec_max_idx())
                    ==> #[trigger] range.spec_notes()[idx] == 0,
    {
        let low: u32 = freq_to_idx(min_freq, frame_size, sample_rate);
        let min_idx: u32 = if low < 1 {
            1
        } else {
            low
        };
        let high: u32 = freq_to_idx(max_freq, frame_size, sample_rate);
        let max_idx: u32 = if high > frame_size / 2 {
            frame_size / 2
        } else {
            high
        };
        let mut notes: Vec<u8> = vec![0u8; frame_size as usize];
        let mut idx: u32 = min_idx;
        while idx < max_idx
            invariant
                1 <= min_idx,
                max_idx <= frame_size / 2,
                min_idx <= idx,
                idx <= max_idx || idx == min_idx,
                notes@.len() == frame_size,
                gives_notes(note_for_idx, min_idx as int, max_idx as int),
                forall|i: int|
                    min_idx <= i < idx ==> call_ensures(
                        note_for_idx,
                        (i as u32,),
                        #[trigger] notes@[i],
                    ),
                forall|i: int|
                    0 <= i < frame_size && !(min_idx <= i < idx) ==> #[trigger] notes@[i] == 0,
                forall|i: int| 0 <= i < frame_size ==> #[trigger] notes@[i] < NOTE_COUNT,
            decreases max_idx - idx,
        {
            let note: u8 = note_for_idx(idx);
            notes[idx as usize] = note;
            idx += 1;
        }
        NoteRange { min_idx, max_idx, notes }
    }

    /// The first bin that takes part.
    pub fn min_idx(&self) -> (idx: u32)
        ensures
            idx == self.spec_min_idx(),
    {
        self.min_idx
    }

    /// The bin after the last one that takes part.
    pub fn max_idx(&self) -> (idx: u32)
        ensures
            idx == self.spec_max_idx(),
    {
        self.max_idx
    }

    /// The table of pitch classes, one entry for every bin of the frame.
    pub fn notes(&self) -> (notes: &[u8])
        ensures
            notes@ == self.spec_notes(),
    {
        self.notes.as_slice()
    }
}

/// The sum of the bins of the pitch class `note` among the bins from `min_idx`
/// up to `max_idx` of the spectrum `frame`, added in rising order to `zero`.
pub open spec fn class_sum<T: Add<Output = T>>(
    notes: Seq<u8>,
    frame: Seq<T>,
    zero: T,
    note: int,
    min_idx: int,
    max_idx: int,
) -> T
    decreases max_idx - min_idx,
{
    if max_idx <= min_idx {
        zero
    } else if notes[max_idx - 1] == note {
        class_sum(notes, frame, zero, note, min_idx, max_idx - 1).add_spec(frame[max_idx - 1])
    } else {
        class_sum(notes, frame, zero, note, min_idx, max_idx - 1)
    }
}

/// The sum of the values of the bins of the pitch class `note` among the bins
/// from `min_idx` up to `max_idx`.
pub open spec fn class_value<T>(
    notes: Seq<u8>,
    frame: Seq<T>,
    value: spec_fn(T) -> int,
    note: int,
    min_idx: int,
    max_idx: int,
) -> int
    decreases max_idx - min_idx,
{
    if max_idx <= min_idx {
        0
    } else if notes[max_idx - 1] == note {
        class_value(notes, frame, value, note, min_idx, max_idx - 1) + value(frame[max_idx - 1])
    } else {
        class_value(notes, frame, value, note, min_idx, max_idx - 1)
    }
}

/// Where the addition is exact, an entry of the chroma has the value of the
/// sum of the bins of its pitch class.
pub proof fn lemma_class_sum_value<T: Add<Output = T>>(
    notes: Seq<u8>,
    frame: Seq<T>,
    zero: T,
    value: spec_fn(T) -> int,
    note: int,
    min_idx: int,
    max_idx: int,
)
    requires
        is_additive(value, zero),
    ensures
        value(class_sum(notes, frame, zero, note, min_idx, max_idx)) == class_value(
            notes,
            frame,
            value,
            note,
            min_idx,
            max_idx,
        ),
    decreases max_idx - min_idx,
{
    if max_idx > min_idx {
        lemma_class_sum_value(notes, frame, zero, value, note, min_idx, max_idx - 1);
    }
}

/// The bins of a spectrum in which only bin `bin` has a value add up to that
/// value in the pitch class of the bin, and to nothing in every other pitch
/// class.
pub proof fn lemma_class_value_of_a_single_bin<T>(
    notes: Seq<u8>,
    frame: Seq<T>,
    value: spec_fn(T) -> int,
    note: int,
    min_idx: int,
    max_idx: int,
    bin: int,
)
    requires
        forall|idx: int|
            min_idx <= idx < max_idx && idx != bin ==> value(#[trigger] frame[idx]) == 0,
    ensures
        class_value(notes, frame, value, note, min_idx, max_idx) == if min_idx <= bin < max_idx
            && notes[bin] == note {
            value(frame[bin])
        } else {
            0
        },
    decreases max_idx - min_idx,
{
    if max_idx > min_idx {
        lemma_class_value_of_a_single_bin(notes, frame, value, note, min_idx, max_idx - 1, bin);
        if max_idx - 1 != bin {
            assert(value(frame[max_idx - 1]) == 0);
        }
    }
}

/// Where the addition is exact, a spectrum in which only one of the bins
/// that take part has a value gives a chroma with that value in the entry of
/// the pitch class of the bin, and nothing in every other entry.
pub proof fn lemma_chroma_of_a_single_bin<T: Add<Output = T>>(
    notes: Seq<u8>,
    frame: Seq<T>,
    zero: T,
    value: spec_fn(T) -> int,
    note: int,
    min_idx: int,
    max_idx: int,
    bin: int,
)
    requires
        is_additive(value, zero),
        min_idx <= bin < max_idx,
        forall|idx: int|
            min_idx <= idx < max_idx && idx != bin ==> value(#[trigger] frame[idx]) == 0,
    ensures
        value(class_sum(notes, frame, zero, note, min_idx, max_idx)) == if notes[bin] == note {
            value(frame[bin])
        } else {
            0
        },
{
    lemma_class_sum_value(notes, frame, zero, value, note, min_idx, max_idx);
    lemma_class_value_of_a_single_bin(notes, frame, value, note, min_idx, max_idx, bin);
}

/// The folding of spectra onto pitch classes.
pub struct Chroma {
    note_range: NoteRange,
}

impl Chroma {
    /// The table of this folding.
    pub closed spec fn spec_note_range(&self) -> NoteRange {
        self.note_range
    }

    /// Prepares the folding of spectra of `frame_size` bins at `sample_rate`
    /// in which the bins from `min_freq` up to `max_freq` take part, with
    /// `note_for_idx` giving the pitch class of a bin.
    pub fn new<F: Fn(u32) -> u8>(
        min_freq: u32,
        max_freq: u32,
        frame_size: u32,
        sample_rate: u32,
        note_for_idx: F,
    ) -> (chroma: Chroma)
        requires
            sample_rate > 0,
            frame_size <= usize::MAX,
            gives_notes(
                note_for_idx,
                min_idx_spec(min_freq, frame_size, sample_rate),
                max_idx_spec(max_freq, frame_size, sample_rate),
            ),
        ensures
            chroma.spec_note_range().wf(),
            chroma.spec_note_range().spec_min_idx() == min_idx_spec(
                min_freq,
                frame_size,
                sample_rate,
            ),
            chroma.spec_note_range().spec_max_idx() == max_idx_spec(
                max_freq,
                frame_size,
                sample_rate,
            ),
            chroma.spec_note_range().spec_notes().len() == frame_size,
            forall|idx: int|
                chroma.spec_note_range().spec_min_idx() <= idx
                    < chroma.spec_note_range().spec_max_idx() ==> call_ensures(
                    note_for_idx,
                    (idx as u32,),
                    #[trigger] chroma.spec_note_range().spec_notes()[idx],
                ),
            forall|idx: int|
                0 <= idx < frame_size && !(chroma.spec_note_range().spec_min_idx() <= idx
                    < chroma.spec_note_range().spec_max_idx())
                    ==> #[trigger] chroma.spec_note_range().spec_notes()[idx] == 0,
    {
        Chroma {
            note_range: NoteRange::new(min_freq, max_freq, frame_size, sample_rate, note_for_idx),
        }
    }

    /// Folds one spectrum onto the pitch classes: every bin that takes part is
    /// added to the entry of its pitch class, in rising order of the bins,
    /// starting from `zero` in every entry.
    pub fn handle_frame<T: Add<Output = T> + Copy>(&self, frame: &[T], zero: T) -> (chroma: [T; 12])
        requires
            self.spec_note_range().wf(),
            self.spec_note_range().spec_max_idx() <= frame@.len(),
            adds_freely::<T>(),
        ensures
            T::obeys_add_spec() ==> forall|note: int|
                0 <= note < NOTE_COUNT ==> #[trigger] chroma[note] == class_sum(
                    self.spec_note_range().spec_notes(),
                    frame@,
                    zero,
                    note,
                    self.spec_note_range().spec_min_idx(),
                    self.spec_note_range().spec_max_idx(),
                ),
    {
        let mut notes: [T; 12] = [zero;12];
        let note_for_idx = self.note_range.notes();
        let min_idx: u32 = self.note_range.min_idx();
        let max_idx: u32 = self.note_range.max_idx();

        let mut idx: u32 = min_idx;
        while idx < max_idx
            invariant
                self.spec_note_range().wf(),
                adds_freely::<T>(),
                note_for_idx@ == self.spec_note_range().spec_notes(),
                min_idx == self.spec_note_range().spec_min_idx(),
                max_idx == self.spec_note_range().spec_max_idx(),
                max_idx <= frame@.len(),
                min_idx <= idx,
                idx <= max_idx || idx == min_idx,
                T::obeys_add_spec() ==> forall|note: int|
                    0 <= note < NOTE_COUNT ==> #[trigger] notes[note] == class_sum(
                        note_for_idx@,
                        frame@,
                        zero,
                        note,
                        min_idx as int,
                        idx as int,
                    ),
            decreases max_idx - idx,
        {
            let note: usize = note_for_idx[idx as usize] as usize;
            assert(note < NOTE_COUNT) by {
                assert(self.spec_note_range().spec_notes()[idx as int] < NOTE_COUNT);
            }
            notes[note] = notes[note] + frame[idx as usize];
            idx += 1;
        }

        notes
    }

    /// The table of this folding.
    pub fn note_range(&self) -> (range: &NoteRange)
        ensures
            *range == self.spec_note_range(),
    {
        &self.note_range
    }
}

} // verus!
