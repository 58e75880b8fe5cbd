//! Compression of a fingerprint into bytes.
//!
//! Consecutive sub-fingerprints differ in few bits, so each one is encoded as
//! the exclusive-or with its predecessor. The set bits of such a difference
//! are written as the gaps between them, counted from the least significant
//! bit, and a zero ends each difference. Gaps are split into a stream of
//! three-bit symbols and, for gaps of seven and more, a stream of five-bit
//! symbols that holds the excess.

use vstd::prelude::*;
use vstd::arithmetic::power2::lemma2_to64;
use vstd::arithmetic::power2::lemma_pow2_unfold;
use vstd::arithmetic::power2::pow2;
use crate::bit_writer::BitWriter;
use crate::bit_writer::packed;
use crate::bit_writer::packed_len;

verus! {

/// The largest symbol of the normal stream; it marks a gap that continues in
/// the exceptional stream.
pub const MAX_NORMAL_VALUE: u8 = 7;

/// Bits per symbol of the normal stream.
pub const NORMAL_BITS: u8 = 3;

/// Bits per symbol of the exceptional stream.
pub const EXCEPTIONAL_BITS: u8 = 5;

/// The gaps between the set bits of `x`, from the least significant bit up,
/// where the lowest bit of `x` stands at position `bit` and the last set bit
/// before it stood at position `last`.
pub open spec fn bit_gaps(x: nat, bit: nat, last: nat) -> Seq<u8>
    decreases x,
{
    if x == 0 {
        Seq::empty()
    } else if x % 2 == 1 {
        seq![(bit - last) as u8] + bit_gaps(x / 2, bit + 1, bit)
    } else {
        bit_gaps(x / 2, bit + 1, last)
    }
}

/// The gaps between the set bits of `x`; positions count from 1, so the first
/// gap is the position of the lowest set bit.
pub open spec fn gaps(x: u32) -> Seq<u8> {
    bit_gaps(x as nat, 1, 0)
}

/// The difference that stands for sub-fingerprint `i`: the first one stands
/// for itself, every other one is combined with its predecessor.
pub open spec fn delta(fingerprint: Seq<u32>, i: int) -> u32 {
    if i == 0 {
        fingerprint[0]
    } else {
        fingerprint[i] ^ fingerprint[i - 1]
    }
}

/// The gaps of the first `n` differences, each difference ended by a zero.
pub open spec fn gap_stream(fingerprint: Seq<u32>, n: nat) -> Seq<u8>
    decreases n,
{
    if n == 0 {
        Seq::empty()
    } else {
        gap_stream(fingerprint, (n - 1) as nat) + gaps(delta(fingerprint, n - 1)).push(0)
    }
}

/// The symbol of the normal stream for the gap `gap`.
pub open spec fn normal_symbol(gap: u8) -> u8 {
    if gap >= MAX_NORMAL_VALUE {
        MAX_NORMAL_VALUE
    } else {
        gap
    }
}

/// The normal stream of a sequence of gaps: one symbol per gap.
pub open spec fn normal_part(stream: Seq<u8>) -> Seq<u8> {
    stream.map_values(|gap: u8| normal_symbol(gap))
}

/// The exceptional stream of a sequence of gaps: the excess of every gap of
/// seven and more, in order.
pub open spec fn exceptional_part(stream: Seq<u8>) -> Seq<u8>
    decreases stream.len(),
{
    if stream.len() == 0 {
        Seq::empty()
    } else if stream.last() >= MAX_NORMAL_VALUE {
        exceptional_part(stream.drop_last()).push((stream.last() - MAX_NORMAL_VALUE) as u8)
    } else {
        exceptional_part(stream.drop_last())
    }
}

/// The normal symbols of a whole fingerprint.
pub open spec fn normal_symbols(fingerprint: Seq<u32>) -> Seq<u8> {
    normal_part(gap_stream(fingerprint, fingerprint.len()))
}

/// The exceptional symbols of a whole fingerprint.
pub open spec fn exceptional_symbols(fingerprint: Seq<u32>) -> Seq<u8> {
    exceptional_part(gap_stream(fingerprint, fingerprint.len()))
}

/// The four header bytes: the algorithm, then the low 24 bits of the number
/// of sub-fingerprints, most significant byte first.
pub open spec fn header(algorithm: u8, count: nat) -> Seq<u8> {
    seq![
        algorithm,
        ((count / 65536) % 256) as u8,
        ((count / 256) % 256) as u8,
        (count % 256) as u8,
    ]
}

/// The compressed form of a fingerprint.
pub open spec fn compressed(fingerprint: Seq<u32>, algorithm: u8) -> Seq<u8> {
    header(algorithm, fingerprint.len()) + packed(
        normal_symbols(fingerprint),
        NORMAL_BITS as nat,
    ) + packed(exceptional_symbols(fingerprint), EXCEPTIONAL_BITS as nat)
}

/// The exceptional stream of two sequences of gaps in a row is the two
/// exceptional streams in a row.
pub proof fn lemma_exceptional_part_concat(a: Seq<u8>, b: Seq<u8>)
    ensures
        exceptional_part(a + b) == exceptional_part(a) + exceptional_part(b),
    decreases b.len(),
{
    if b.len() == 0 {
        assert(a + b =~= a);
        assert(exceptional_part(a) + exceptional_part(b) =~= exceptional_part(a));
    } else {
        assert((a + b).drop_last() =~= a + b.drop_last());
        assert((a + b).last() == b.last());
        lemma_exceptional_part_concat(a, b.drop_last());
        if b.last() >= MAX_NORMAL_VALUE {
            let excess = (b.last() - MAX_NORMAL_VALUE) as u8;
            assert((exceptional_part(a) + exceptional_part(b.drop_last())).push(excess)
                =~= exceptional_part(a) + exceptional_part(b.drop_last()).push(excess));
        }
    }
}

/// The normal stream of two sequences of gaps in a row is the two normal
/// streams in a row.
pub proof fn lemma_normal_part_concat(a: Seq<u8>, b: Seq<u8>)
    ensures
        normal_part(a + b) == normal_part(a) + normal_part(b),
{
    assert(normal_part(a + b) =~= normal_part(a) + normal_part(b));
}

/// No gap stream has more exceptional symbols than gaps.
pub proof fn lemma_exceptional_part_len(stream: Seq<u8>)
    ensures
        exceptional_part(stream).len() <= stream.len(),
    decreases stream.len(),
{
    if stream.len() > 0 {
        lemma_exceptional_part_len(stream.drop_last());
    }
}

/// A number below `2^bits` has at most `bits` gaps.
pub proof fn lemma_bit_gaps_len(x: nat, bit: nat, last: nat, bits: nat)
    requires
        x < pow2(bits),
    ensures
        bit_gaps(x, bit, last).len() <= bits,
    decreases x,
{
    if x != 0 {
        if bits == 0 {
            lemma2_to64();
        } else {
            lemma_pow2_unfold(bits);
            if x % 2 == 1 {
                lemma_bit_gaps_len(x / 2, bit + 1, bit, (bits - 1) as nat);
            } else {
                lemma_bit_gaps_len(x / 2, bit + 1, last, (bits - 1) as nat);
            }
        }
    }
}

/// The first `n` differences have at most 33 symbols each.
pub proof fn lemma_gap_stream_len(fingerprint: Seq<u32>, n: nat)
    ensures
        gap_stream(fingerprint, n).len() <= 33 * n,
    decreases n,
{
    if n > 0 {
        lemma_gap_stream_len(fingerprint, (n - 1) as nat);
        lemma2_to64();
        lemma_bit_gaps_len(delta(fingerprint, n - 1) as nat, 1, 0, 32);
    }
}

/// No fingerprint has more exceptional symbols than normal symbols, and it
/// has at most 33 normal symbols for each sub-fingerprint.
pub proof fn lemma_symbol_counts(fingerprint: Seq<u32>)
    ensures
        exceptional_symbols(fingerprint).len() <= normal_symbols(fingerprint).len(),
        normal_symbols(fingerprint).len() <= 33 * fingerprint.len(),
{
    lemma_gap_stream_len(fingerprint, fingerprint.len());
    lemma_exceptional_part_len(gap_stream(fingerprint, fingerprint.len()));
}

/// A compressed fingerprint has at most 33 bytes for each sub-fingerprint
/// and five more.
pub proof fn lemma_compressed_len_bound(fingerprint: Seq<u32>, algorithm: u8)
    ensures
        compressed(fingerprint, algorithm).len() <= 33 * fingerprint.len() + 5,
{
    lemma_symbol_counts(fingerprint);
    lemma_compressed_len(fingerprint, algorithm);
}

/// The length of a compressed fingerprint: four header bytes, three bits for
/// each normal symbol and five for each exceptional symbol, each stream
/// rounded up to whole bytes.
pub proof fn lemma_compressed_len(fingerprint: Seq<u32>, algorithm: u8)
    ensures
        compressed(fingerprint, algorithm).len() == 4 + (3 * normal_symbols(fingerprint).len()
            + 7) / 8 + (5 * exceptional_symbols(fingerprint).len() + 7) / 8,
{
    let normal = normal_symbols(fingerprint).len();
    let exceptional = exceptional_symbols(fingerprint).len();
    assert(normal * 3 == 3 * normal);
    assert(exceptional * 5 == 5 * exceptional);
}

/// The number of bytes that hold `count` symbols of `bits` bits each.
fn packed_size(count: usize, bits: usize) -> (size: usize)
    requires
        1 <= bits <= 8,
        packed_len(count as nat, bits as nat) <= usize::MAX,
    ensures
        size == packed_len(count as nat, bits as nat),
{
    let whole: usize = count / 8;
    let left: usize = count % 8;
    proof {
        assert((count * bits + 7) / 8 == whole * bits + (left * bits + 7) / 8)
            by (nonlinear_arith)
            requires
                count == 8 * whole + left,
                0 <= left < 8,
                1 <= bits <= 8,
                whole >= 0,
        ;
        assert(left * bits <= 56) by (nonlinear_arith)
            requires
                0 <= left < 8,
                1 <= bits <= 8,
        ;
        assert(0 <= whole * bits) by (nonlinear_arith)
            requires
                whole >= 0,
                bits >= 1,
        ;
    }
    whole * bits + (left * bits + 7) / 8
}

/// Appends the symbols of one difference `x` to the two streams: its gaps,
/// split between the streams, and the closing zero of the normal stream.
pub fn process_subfingerprint(x: u32, normal_bits: &mut Vec<u8>, exceptional_bits: &mut Vec<u8>)
    ensures
        final(normal_bits)@ == old(normal_bits)@ + normal_part(gaps(x).push(0)),
        final(exceptional_bits)@ == old(exceptional_bits)@ + exceptional_part(gaps(x).push(0)),
{
    let ghost emitted: Seq<u8> = Seq::empty();
    let mut rest: u32 = x;
    let mut bit: u8 = 1;
    let mut last_bit: u8 = 0;
    proof {
        lemma2_to64();
        assert(normal_part(emitted) =~= Seq::<u8>::empty());
        assert(old(normal_bits)@ + normal_part(emitted) =~= old(normal_bits)@);
        assert(old(exceptional_bits)@ + exceptional_part(emitted) =~= old(exceptional_bits)@);
        assert(emitted + bit_gaps(x as nat, 1, 0) =~= gaps(x));
    }
    while rest != 0
        invariant
            1 <= bit <= 33,
            last_bit < bit,
            (rest as nat) < pow2((33 - bit) as nat),
            gaps(x) == emitted + bit_gaps(rest as nat, bit as nat, last_bit as nat),
            normal_bits@ == old(normal_bits)@ + normal_part(emitted),
            exceptional_bits@ == old(exceptional_bits)@ + exceptional_part(emitted),
        decreases rest,
    {
        proof {
            lemma2_to64();
            if bit == 33 {
                assert(pow2(0) == 1);
            }
            lemma_pow2_unfold((33 - bit) as nat);
            assert(rest & 1 == rest % 2) by (bit_vector);
            assert(rest >> 1 == rest / 2) by (bit_vector);
        }
        if rest & 1 != 0 {
            let value: u8 = bit - last_bit;
            let ghost before = emitted;
            if value >= MAX_NORMAL_VALUE {
                normal_bits.push(MAX_NORMAL_VALUE);
                exceptional_bits.push(value - MAX_NORMAL_VALUE);
            } else {
                normal_bits.push(value);
            }
            proof {
                emitted = before.push(value);
                assert(emitted.drop_last() =~= before);
                assert(normal_part(emitted) =~= normal_part(before).push(normal_symbol(value)));
                assert(old(normal_bits)@ + normal_part(emitted) =~= (old(normal_bits)@
                    + normal_part(before)).push(normal_symbol(value)));
                if value >= MAX_NORMAL_VALUE {
                    assert(old(exceptional_bits)@ + exceptional_part(emitted) =~= (old(
                        exceptional_bits,
                    )@ + exceptional_part(before)).push((value - MAX_NORMAL_VALUE) as u8));
                }
                assert(emitted + bit_gaps((rest / 2) as nat, (bit + 1) as nat, bit as nat)
                    =~= before + bit_gaps(rest as nat, bit as nat, last_bit as nat));
            }
            last_bit = bit;
        }
        rest >>= 1;
        bit += 1;
    }
    normal_bits.push(0);
    proof {
        assert(gaps(x) =~= emitted);
        let closed = emitted.push(0);
        assert(closed.drop_last() =~= emitted);
        assert(normal_part(closed) =~= normal_part(emitted).push(0));
        assert(old(normal_bits)@ + normal_part(closed) =~= (old(normal_bits)@ + normal_part(
            emitted,
        )).push(0));
    }
}

/// Writes the header of a fingerprint of `size` sub-fingerprints to the first
/// four bytes of `output`.
pub fn write_header(output: &mut [u8], size: usize, algorithm: u8)
    requires
        old(output)@.len() >= 4,
    ensures
        final(output)@.len() == old(output)@.len(),
        final(output)@.subrange(0, 4) == header(algorithm, size as nat),
        forall|j: int| 4 <= j < old(output)@.len() ==> final(output)@[j] == old(output)@[j],
{
    proof {
        assert(((size >> 16) & 255) == (size / 65536) % 256) by (bit_vector);
        assert(((size >> 8) & 255) == (size / 256) % 256) by (bit_vector);
        assert((size & 255) == size % 256) by (bit_vector);
    }
    output[0] = algorithm;
    output[1] = ((size >> 16) & 255) as u8;
    output[2] = ((size >> 8) & 255) as u8;
    output[3] = (size & 255) as u8;
    assert(output@.subrange(0, 4) =~= header(algorithm, size as nat));
}

/// Compresses a fingerprint.
///
/// The result is the header for `algorithm` and the number of
/// sub-fingerprints, then the normal symbols packed with three bits each,
/// then, from the next whole byte on, the exceptional symbols packed with
/// five bits each. It depends on nothing but the arguments. The header has
/// room for 24 bits of the number; of a larger number it holds the low 24
/// bits. The compressed form has to fit into memory.
pub fn compress(fingerprint: &[u32], algorithm: u8) -> (output: Vec<u8>)
    requires
        compressed(fingerprint@, algorithm).len() <= usize::MAX,
    ensures
        output@ == compressed(fingerprint@, algorithm),
        output@.len() == 4 + (3 * normal_symbols(fingerprint@).len() + 7) / 8 + (5
            * exceptional_symbols(fingerprint@).len() + 7) / 8,
{
    let mut normal_bits: Vec<u8> = Vec::new();
    let mut exceptional_bits: Vec<u8> = Vec::new();
    let mut idx: usize = 0;
    proof {
        assert(normal_part(gap_stream(fingerprint@, 0)) =~= Seq::<u8>::empty());
    }
    while idx < fingerprint.len()
        invariant
            0 <= idx <= fingerprint@.len(),
            normal_bits@ == normal_part(gap_stream(fingerprint@, idx as nat)),
            exceptional_bits@ == exceptional_part(gap_stream(fingerprint@, idx as nat)),
        decreases fingerprint@.len() - idx,
    {
        let difference: u32 = if idx == 0 {
            fingerprint[0]
        } else {
            fingerprint[idx] ^ fingerprint[idx - 1]
        };
        process_subfingerprint(difference, &mut normal_bits, &mut exceptional_bits);
        proof {
            let seen = gap_stream(fingerprint@, idx as nat);
            let added = gaps(difference).push(0);
            assert(difference == delta(fingerprint@, idx as int));
            lemma_normal_part_concat(seen, added);
            lemma_exceptional_part_concat(seen, added);
        }
        idx += 1;
    }
    proof {
        lemma_compressed_len(fingerprint@, algorithm);
        assert(normal_bits@.len() * 3 == 3 * normal_bits@.len());
        assert(exceptional_bits@.len() * 5 == 5 * exceptional_bits@.len());
    }
    let header_size: usize = 4;
    let normal_bits_size: usize = packed_size(normal_bits.len(), 3);
    let exceptional_bits_size: usize = packed_size(exceptional_bits.len(), 5);
    let output_size: usize = header_size + normal_bits_size + exceptional_bits_size;

    let mut output: Vec<u8> = vec![0u8; output_size];
    let (head, body) = output.as_mut_slice().split_at_mut(4);
    write_header(head, fingerprint.len(), algorithm);
    let normal_bits_output_size = BitWriter::write_all_into(
        normal_bits.as_slice(),
        NORMAL_BITS,
        body,
    );
    let (normal_body, exceptional_body) = body.split_at_mut(normal_bits_output_size);
    let exceptional_bits_output_size = BitWriter::write_all_into(
        exceptional_bits.as_slice(),
        EXCEPTIONAL_BITS,
        exceptional_body,
    );
    output.truncate(header_size + exceptional_bits_output_size + normal_bits_output_size);
    proof {
        assert(output@ =~= compressed(fingerprint@, algorithm));
    }
    output
}

} // verus!
