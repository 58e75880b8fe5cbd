//! Cutting a stream that arrives in pieces into windows of a fixed size.
//!
//! A slicer keeps what has arrived and was not yet handed out. Whenever it
//! holds a whole window it hands a copy to a consumer, which answers how far
//! to advance before the next window starts. Advancing by less than a window
//! makes consecutive windows overlap.

use vstd::prelude::*;
use crate::combined_buffer::CombinedBuffer;

verus! {

/// The receiver of the windows that a `Slicer` cuts.
pub trait SliceConsumer<T>: Sized {
    /// Whether the consumer can take windows of `size` elements.
    spec fn ready(&self, size: nat) -> bool;

    /// Whether a consumer in this state, given `window`, may answer `advance`
    /// and be in the state `next` afterwards.
    spec fn step(&self, window: Seq<T>, advance: nat, next: Self) -> bool;

    /// Takes one window and answers by how many elements the stream advances
    /// before the next window: at least one, at most the whole window.
    fn consume(&mut self, window: Vec<T>) -> (advance: usize)
        requires
            old(self).ready(window@.len()),
        ensures
            final(self).ready(window@.len()),
            old(self).step(window@, advance as nat, *final(self)),
            1 <= advance <= window@.len(),
    ;
}

/// Whether step `i` of a run is in order: window `i` lies inside `stream`, it
/// takes the consumer from `states[i]` to `states[i + 1]`, and window `i + 1`
/// starts further on by the consumer's answer.
pub open spec fn is_step<T, C: SliceConsumer<T>>(
    size: nat,
    stream: Seq<T>,
    states: Seq<C>,
    starts: Seq<nat>,
    i: int,
) -> bool {
    &&& starts[i] + size <= stream.len()
    &&& 1 <= starts[i + 1] - starts[i] <= size
    &&& states[i].step(
        stream.subrange(starts[i] as int, (starts[i] + size) as int),
        (starts[i + 1] - starts[i]) as nat,
        states[i + 1],
    )
}

/// Whether `states` and `starts` record a run of a consumer over `stream`:
/// window `i` starts at `starts[i]`, takes the consumer from `states[i]` to
/// `states[i + 1]`, and the next window starts further on by its answer. The
/// last start is where less than a whole window is left.
pub open spec fn is_run<T, C: SliceConsumer<T>>(
    size: nat,
    stream: Seq<T>,
    states: Seq<C>,
    starts: Seq<nat>,
) -> bool {
    &&& states.len() == starts.len()
    &&& starts.len() >= 1
    &&& starts[0] == 0
    &&& forall|i: int|
        0 <= i < starts.len() - 1 ==> #[trigger] is_step(size, stream, states, starts, i)
    &&& starts.last() <= stream.len() < starts.last() + size
}

/// Whether a consumer that starts as `first` can end as `last`, with `rest`
/// left over, when `stream` is cut into windows of `size` elements: while a
/// whole window is left, the consumer takes it and the stream advances by its
/// answer.
pub open spec fn sliced<T, C: SliceConsumer<T>>(
    size: nat,
    stream: Seq<T>,
    first: C,
    last: C,
    rest: Seq<T>,
) -> bool {
    exists|states: Seq<C>, starts: Seq<nat>|
        {
            &&& #[trigger] is_run(size, stream, states, starts)
            &&& states[0] == first
            &&& states.last() == last
            &&& rest == stream.skip(starts.last() as int)
        }
}

/// A buffer that cuts its input into windows of `slice_size` elements.
pub struct Slicer<T> {
    slice_size: usize,
    buffer: Vec<T>,
}

impl<T> Slicer<T> {
    /// The state invariant: a window holds at least one element.
    pub closed spec fn wf(&self) -> bool {
        self.slice_size >= 1
    }

    /// The number of elements in a window.
    pub closed spec fn slice_size(&self) -> nat {
        self.slice_size as nat
    }

    /// The elements that arrived and were not yet advanced over.
    pub closed spec fn buffered(&self) -> Seq<T> {
        self.buffer@
    }
}

/// Appends a copy of every element of `data` to `buffer`.
fn append<T: Copy>(buffer: &mut Vec<T>, data: &[T])
    ensures
        final(buffer)@ == old(buffer)@ + data@,
{
    let mut i: usize = 0;
    assert(buffer@ =~= old(buffer)@ + data@.subrange(0, 0));
    while i < data.len()
        invariant
            0 <= i <= data@.len(),
            buffer@ == old(buffer)@ + data@.subrange(0, i as int),
        decreases data@.len() - i,
    {
        buffer.push(data[i]);
        assert(buffer@ =~= old(buffer)@ + data@.subrange(0, i + 1));
        i += 1;
    }
    assert(data@.subrange(0, data@.len() as int) =~= data@);
}

impl<T: Copy> Slicer<T> {
    /// An empty slicer for windows of `slice_size` elements.
    pub fn new(slice_size: usize) -> (slicer: Slicer<T>)
        requires
            slice_size >= 1,
        ensures
            slicer.wf(),
            slicer.slice_size() == slice_size,
            slicer.buffered() == Seq::<T>::empty(),
    {
        Slicer { slice_size, buffer: Vec::new() }
    }

    /// Takes `data` after what is buffered and hands every whole window to
    /// `consumer`, advancing by its answers. What is left, less than one
    /// window, stays buffered.
    pub fn process<C: SliceConsumer<T>>(&mut self, data: &[T], consumer: &mut C)
        requires
            old(self).wf(),
            old(consumer).ready(old(self).slice_size()),
            old(self).buffered().len() + data@.len() <= usize::MAX,
        ensures
            final(self).wf(),
            final(consumer).ready(old(self).slice_size()),
            final(self).slice_size() == old(self).slice_size(),
            final(self).buffered().len() < old(self).slice_size(),
            sliced(
                old(self).slice_size(),
                old(self).buffered() + data@,
                *old(consumer),
                *final(consumer),
                final(self).buffered(),
            ),
    {
        let ghost stream = self.buffer@ + data@;
        let ghost mut states: Seq<C> = seq![*consumer];
        let ghost mut starts: Seq<nat> = seq![0nat];
        let size: usize = self.slice_size;
        if self.buffer.len() + data.len() < size {
            append(&mut self.buffer, data);
            proof {
                assert(stream.skip(0) =~= stream);
                assert(is_run(size as nat, stream, states, starts));
            }
            return ;
        }
        let rest = {
            let combined = CombinedBuffer::new(self.buffer.as_slice(), data);
            let total: usize = combined.len();
            let mut offset: usize = 0;
            while size <= total - offset
                invariant
                    size >= 1,
                    combined@ == stream,
                    total == stream.len(),
                    0 <= offset <= total,
                    consumer.ready(size as nat),
                    states.len() == starts.len(),
                    starts.len() >= 1,
                    starts[0] == 0,
                    states[0] == *old(consumer),
                    states.last() == *consumer,
                    starts.last() == offset,
                    forall|i: int|
                        0 <= i < starts.len() - 1 ==> #[trigger] is_step(
                            size as nat,
                            stream,
                            states,
                            starts,
                            i,
                        ),
                decreases total - offset,
            {
                let slice = combined.read(offset, size);
                let bytes_processed = consumer.consume(slice);
                proof {
                    let before_states = states;
                    let before_starts = starts;
                    states = states.push(*consumer);
                    starts = starts.push((offset + bytes_processed) as nat);
                    assert forall|i: int| 0 <= i < starts.len() - 1 implies #[trigger] is_step(
                        size as nat,
                        stream,
                        states,
                        starts,
                        i,
                    ) by {
                        if i < before_starts.len() - 1 {
                            assert(is_step(size as nat, stream, before_states, before_starts, i));
                        }
                    }
                }
                offset += bytes_processed;
            }
            let left: usize = combined.len() - offset;
            let buffer = combined.read(offset, left);
            proof {
                assert(buffer@ =~= stream.skip(offset as int));
                assert(is_run(size as nat, stream, states, starts));
            }
            buffer
        };
        self.buffer = rest;
    }

    /// Hands out what is buffered and leaves the slicer empty.
    pub fn flush(&mut self) -> (tail: Vec<T>)
        requires
            old(self).wf(),
        ensures
            final(self).wf(),
            tail@ == old(self).buffered(),
            final(self).buffered() == Seq::<T>::empty(),
            final(self).slice_size() == old(self).slice_size(),
    {
        let mut tail: Vec<T> = Vec::new();
        std::mem::swap(&mut self.buffer, &mut tail);
        tail
    }
}

/// The number of windows of `size` elements, `stride` apart, in a stream of
/// `len` elements.
pub open spec fn window_count(len: nat, size: nat, stride: nat) -> nat {
    if len < size {
        0
    } else {
        ((len - size) / (stride as int) + 1) as nat
    }
}

/// Window `i` of a stream: `size` elements from `i * stride` on.
pub open spec fn window<T>(stream: Seq<T>, size: nat, stride: nat, i: int) -> Seq<T> {
    stream.subrange(i * stride, i * stride + size)
}

/// All windows of a stream, in order.
pub open spec fn windows<T>(stream: Seq<T>, size: nat, stride: nat) -> Seq<Seq<T>> {
    Seq::new(window_count(stream.len(), size, stride), |i: int| window(stream, size, stride, i))
}

/// What is left of a stream after its windows: everything from the start of
/// the first window that is not complete.
pub open spec fn remainder<T>(stream: Seq<T>, size: nat, stride: nat) -> Seq<T> {
    stream.skip((window_count(stream.len(), size, stride) * stride) as int)
}

/// The contents of a list of windows.
pub open spec fn contents<T>(list: Seq<Vec<T>>) -> Seq<Seq<T>> {
    list.map_values(|w: Vec<T>| w@)
}

/// A consumer that keeps every window and always advances by `increment`.
pub struct Collector<T> {
    /// The distance between the starts of two windows.
    pub increment: usize,
    /// The windows received so far.
    pub windows: Vec<Vec<T>>,
}

impl<T> SliceConsumer<T> for Collector<T> {
    open spec fn ready(&self, size: nat) -> bool {
        1 <= self.increment <= size
    }

    open spec fn step(&self, window: Seq<T>, advance: nat, next: Self) -> bool {
        &&& advance == self.increment
        &&& next.increment == self.increment
        &&& contents(next.windows@) == contents(self.windows@).push(window)
    }

    fn consume(&mut self, window: Vec<T>) -> (advance: usize) {
        let ghost taken = window@;
        self.windows.push(window);
        assert(contents(self.windows@) =~= contents(old(self).windows@).push(taken));
        self.increment
    }
}

/// One more window fits for every `stride` elements beyond the first window.
pub proof fn lemma_window_count_step(len: nat, size: nat, stride: nat)
    requires
        1 <= stride <= size <= len,
    ensures
        window_count(len, size, stride) == window_count((len - stride) as nat, size, stride) + 1,
        window_count(len, size, stride) * stride <= len,
{
    let d = stride as int;
    if len - stride < size {
        assert((len - size) / d == 0) by (nonlinear_arith)
            requires
                0 <= len - size < d,
        ;
    } else {
        assert((len - size) / d == (len - d - size) / d + 1) by (nonlinear_arith)
            requires
                len - d - size >= 0,
                d >= 1,
        ;
    }
    assert(((len - size) / d) * d <= len - size) by (nonlinear_arith)
        requires
            len - size >= 0,
            d >= 1,
    ;
    assert(((len - size) / d + 1) * d == ((len - size) / d) * d + d) by (nonlinear_arith);
}

/// The windows of a stream never reach past its end.
pub proof fn lemma_windows_inside(len: nat, size: nat, stride: nat, i: int)
    requires
        1 <= stride <= size,
        0 <= i < window_count(len, size, stride),
    ensures
        0 <= i * stride,
        i * stride + size <= len,
        window_count(len, size, stride) * stride <= len,
{
    let d = stride as int;
    lemma_window_count_step(len, size, stride);
    assert(i * d <= ((len - size) / d) * d) by (nonlinear_arith)
        requires
            0 <= i <= (len - size) / d,
            d >= 1,
    ;
    assert(((len - size) / d) * d <= len - size) by (nonlinear_arith)
        requires
            len - size >= 0,
            d >= 1,
    ;
    assert(0 <= i * d) by (nonlinear_arith)
        requires
            0 <= i,
            d >= 1,
    ;
}

/// Skipping `count` whole strides of a stream, where `count` windows fit,
/// leaves `count` windows fewer.
pub proof fn lemma_window_count_shift(len: nat, size: nat, stride: nat, count: nat)
    requires
        1 <= stride <= size,
        count == 0 || (count - 1) * stride + size <= len,
    ensures
        count * stride <= len,
        window_count(len, size, stride) == count + window_count(
            (len - count * stride) as nat,
            size,
            stride,
        ),
    decreases count,
{
    if count > 0 {
        let fewer = (count - 1) as nat;
        assert(fewer == 0 || (fewer - 1) * stride + size <= len) by (nonlinear_arith)
            requires
                fewer * stride + size <= len,
                fewer >= 0,
                stride >= 1,
        ;
        lemma_window_count_shift(len, size, stride, fewer);
        assert(fewer * stride + stride == count * stride) by (nonlinear_arith)
            requires
                fewer + 1 == count,
        ;
        lemma_window_count_step((len - fewer * stride) as nat, size, stride);
    }
}

/// A stream may arrive in pieces: the windows of a stream are the windows of
/// its first piece followed by the windows of what the first piece left over
/// and the second piece, and the same is left over in the end.
pub proof fn lemma_windows_of_pieces<T>(first: Seq<T>, second: Seq<T>, size: nat, stride: nat)
    requires
        1 <= stride <= size,
    ensures
        windows(first + second, size, stride) == windows(first, size, stride) + windows(
            remainder(first, size, stride) + second,
            size,
            stride,
        ),
        remainder(first + second, size, stride) == remainder(
            remainder(first, size, stride) + second,
            size,
            stride,
        ),
{
    let whole = first + second;
    let count = window_count(first.len(), size, stride);
    if count > 0 {
        lemma_windows_inside(first.len(), size, stride, count - 1);
    }
    lemma_window_count_shift(first.len(), size, stride, count);
    lemma_window_count_shift(whole.len(), size, stride, count);
    let skipped = (count * stride) as int;
    let later = remainder(first, size, stride) + second;
    assert(later =~= whole.skip(skipped));
    let more = window_count(later.len(), size, stride);
    let joined = windows(first, size, stride) + windows(later, size, stride);
    assert forall|i: int| 0 <= i < count + more implies #[trigger] windows(whole, size, stride)[i]
        == joined[i] by {
        lemma_windows_inside(whole.len(), size, stride, i);
        if i < count {
            lemma_windows_inside(first.len(), size, stride, i);
            assert(window(whole, size, stride, i) =~= window(first, size, stride, i));
        } else {
            lemma_windows_inside(later.len(), size, stride, i - count);
            assert((i - count) * stride + count * stride == i * stride) by (nonlinear_arith);
            assert(window(later, size, stride, i - count) =~= window(whole, size, stride, i));
        }
    }
    assert(windows(whole, size, stride) =~= joined);
    if more > 0 {
        lemma_windows_inside(later.len(), size, stride, more - 1);
    }
    lemma_window_count_shift(later.len(), size, stride, more);
    assert(more * stride + count * stride == (count + more) * stride) by (nonlinear_arith);
    assert(whole.skip(skipped).skip((more * stride) as int) =~= whole.skip(
        ((count + more) * stride) as int,
    ));
}

/// Every window of a stream has `size` elements.
pub proof fn lemma_window_len<T>(stream: Seq<T>, size: nat, stride: nat, i: int)
    requires
        1 <= stride <= size,
        0 <= i < window_count(stream.len(), size, stride),
    ensures
        windows(stream, size, stride)[i].len() == size,
{
    lemma_windows_inside(stream.len(), size, stride, i);
}

/// In a run of a `Collector`, window `i` starts at `i * increment`, and the
/// collector has received the windows before it.
pub proof fn lemma_collector_run<T>(
    size: nat,
    stream: Seq<T>,
    states: Seq<Collector<T>>,
    starts: Seq<nat>,
    i: int,
)
    requires
        1 <= states[0].increment <= size,
        is_run(size, stream, states, starts),
        0 <= i < starts.len(),
    ensures
        states[i].increment == states[0].increment,
        starts[i] == i * states[0].increment,
        contents(states[i].windows@).len() == contents(states[0].windows@).len() + i,
        forall|j: int|
            0 <= j < contents(states[0].windows@).len() ==> contents(states[i].windows@)[j]
                == contents(states[0].windows@)[j],
        forall|j: int|
            0 <= j < i ==> #[trigger] contents(states[i].windows@)[contents(
                states[0].windows@,
            ).len() + j] == window(stream, size, states[0].increment as nat, j),
    decreases i,
{
    let stride = states[0].increment as nat;
    if i > 0 {
        lemma_collector_run(size, stream, states, starts, i - 1);
        assert(is_step(size, stream, states, starts, i - 1));
        assert((i - 1) * stride + stride == i * stride) by (nonlinear_arith);
        let base = contents(states[0].windows@).len();
        assert forall|j: int| 0 <= j < i implies #[trigger] contents(states[i].windows@)[base
            + j] == window(stream, size, stride, j) by {
            if j < i - 1 {
                assert(contents(states[i - 1].windows@)[base + j] == window(
                    stream,
                    size,
                    stride,
                    j,
                ));
            }
        }
    }
}

/// A count of windows such that the last of them fits and one more would not
/// is the number of windows of the stream.
pub proof fn lemma_window_count_unique(len: nat, size: nat, stride: nat, count: nat)
    requires
        1 <= stride <= size,
        count * stride <= len < count * stride + size,
        count >= 1 ==> (count - 1) * stride + size <= len,
    ensures
        count == window_count(len, size, stride),
{
    let d = stride as int;
    if len >= size {
        let q = (len - size) / d;
        assert(q * d <= len - size < q * d + d) by (nonlinear_arith)
            requires
                q == (len - size) / d,
                len - size >= 0,
                d >= 1,
        ;
        assert(count == q + 1) by (nonlinear_arith)
            requires
                q * d <= len - size < q * d + d,
                count * d <= len < count * d + size,
                count >= 1 ==> (count - 1) * d + size <= len,
                d >= 1,
                len >= size,
                count >= 0,
                q >= 0,
                d <= size,
        ;
    } else {
        assert(count == 0) by (nonlinear_arith)
            requires
                count >= 1 ==> (count - 1) * d + size <= len,
                len < size,
                d >= 1,
                count >= 0,
        ;
    }
}

/// A `Collector` that is driven over a stream ends with all windows of the
/// stream after those it had, and the remainder is left over.
pub proof fn lemma_collected<T>(
    size: nat,
    stream: Seq<T>,
    first: Collector<T>,
    last: Collector<T>,
    rest: Seq<T>,
)
    requires
        1 <= first.increment <= size,
        sliced(size, stream, first, last, rest),
    ensures
        last.increment == first.increment,
        contents(last.windows@) == contents(first.windows@) + windows(
            stream,
            size,
            first.increment as nat,
        ),
        rest == remainder(stream, size, first.increment as nat),
{
    let stride = first.increment as nat;
    let (states, starts): (Seq<Collector<T>>, Seq<nat>) = choose|
        states: Seq<Collector<T>>,
        starts: Seq<nat>,
    |
        {
            &&& #[trigger] is_run(size, stream, states, starts)
            &&& states[0] == first
            &&& states.last() == last
            &&& rest == stream.skip(starts.last() as int)
        };
    let count = (starts.len() - 1) as nat;
    lemma_collector_run(size, stream, states, starts, count as int);
    if count >= 1 {
        lemma_collector_run(size, stream, states, starts, count - 1);
        assert(is_step(size, stream, states, starts, count - 1));
    }
    lemma_window_count_unique(stream.len(), size, stride, count);
    let base = contents(first.windows@).len();
    let all = contents(first.windows@) + windows(stream, size, stride);
    assert forall|j: int| 0 <= j < all.len() implies contents(last.windows@)[j] == all[j] by {
        if j >= base {
            assert(contents(last.windows@)[base + (j - base)] == window(
                stream,
                size,
                stride,
                j - base,
            ));
        }
    }
    assert(contents(last.windows@) =~= all);
}

/// A slicer whose windows start a fixed `increment` apart.
pub struct FixedSlicer<T> {
    slicer: Slicer<T>,
    increment: usize,
}

impl<T> FixedSlicer<T> {
    /// The state invariant: windows start at least one element and at most a
    /// whole window apart.
    pub closed spec fn wf(&self) -> bool {
        &&& self.slicer.wf()
        &&& 1 <= self.increment <= self.slicer.slice_size()
    }

    /// The number of elements in a window.
    pub closed spec fn slice_size(&self) -> nat {
        self.slicer.slice_size()
    }

    /// The distance between the starts of two windows.
    pub closed spec fn increment(&self) -> nat {
        self.increment as nat
    }

    /// The elements that arrived and belong to no complete window yet, from
    /// the start of the next window on.
    pub closed spec fn buffered(&self) -> Seq<T> {
        self.slicer.buffered()
    }
}

impl<T: Copy> FixedSlicer<T> {
    /// An empty slicer for windows of `slice_size` elements that start
    /// `increment` elements apart.
    pub fn new(slice_size: usize, increment: usize) -> (slicer: FixedSlicer<T>)
        requires
            1 <= increment <= slice_size,
        ensures
            slicer.wf(),
            slicer.slice_size() == slice_size,
            slicer.increment() == increment,
            slicer.buffered() == Seq::<T>::empty(),
    {
        FixedSlicer { slicer: Slicer::new(slice_size), increment }
    }

    /// Takes `data` after what is buffered and returns every window that is
    /// complete, in order. The rest stays buffered.
    pub fn process(&mut self, data: &[T]) -> (out: Vec<Vec<T>>)
        requires
            old(self).wf(),
            old(self).buffered().len() + data@.len() <= usize::MAX,
        ensures
            final(self).wf(),
            final(self).slice_size() == old(self).slice_size(),
            final(self).increment() == old(self).increment(),
            contents(out@) == windows(
                old(self).buffered() + data@,
                old(self).slice_size(),
                old(self).increment(),
            ),
            final(self).buffered() == remainder(
                old(self).buffered() + data@,
                old(self).slice_size(),
                old(self).increment(),
            ),
            out@.len() == window_count(
                old(self).buffered().len() + data@.len(),
                old(self).slice_size(),
                old(self).increment(),
            ),
            forall|i: int| 0 <= i < out@.len() ==> (#[trigger] out@[i])@.len() == old(
                self,
            ).slice_size(),
    {
        let mut collector = Collector { increment: self.increment, windows: Vec::new() };
        let ghost first = collector;
        self.slicer.process(data, &mut collector);
        proof {
            lemma_collected(
                old(self).slice_size(),
                old(self).buffered() + data@,
                first,
                collector,
                self.slicer.buffered(),
            );
            assert(contents(first.windows@) =~= Seq::<Seq<T>>::empty());
            assert(contents(collector.windows@) =~= windows(
                old(self).buffered() + data@,
                old(self).slice_size(),
                old(self).increment(),
            ));
            assert forall|i: int| 0 <= i < collector.windows@.len() implies (
            #[trigger] collector.windows@[i])@.len() == old(self).slice_size() by {
                lemma_window_len(
                    old(self).buffered() + data@,
                    old(self).slice_size(),
                    old(self).increment(),
                    i,
                );
                assert(contents(collector.windows@)[i] == collector.windows@[i]@);
            }
        }
        collector.windows
    }
}

} // verus!
