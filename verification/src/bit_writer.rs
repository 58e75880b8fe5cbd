//! Packing of small symbols into bytes, least significant bit first.
//!
//! A stream of symbols of `width` bits each is read as one number: the first
//! symbol holds the least significant digits. The packed bytes are the
//! base-256 digits of that number, least significant first, with the last
//! byte padded by zero bits.

use vstd::prelude::*;
use vstd::arithmetic::div_mod::lemma_fundamental_div_mod;
use vstd::arithmetic::div_mod::lemma_fundamental_div_mod_converse;
use vstd::arithmetic::div_mod::lemma_mod_bound;
use vstd::arithmetic::div_mod::lemma_mod_multiples_vanish;
use vstd::arithmetic::div_mod::lemma_small_mod;
use vstd::arithmetic::power2::lemma2_to64;
use vstd::arithmetic::power2::lemma_pow2_adds;
use vstd::arithmetic::power2::lemma_pow2_pos;
use vstd::arithmetic::power2::lemma_pow2_strictly_increases;
use vstd::arithmetic::power2::pow2;
use vstd::bits::lemma_u16_low_bits_mask_is_mod;
use vstd::bits::lemma_u16_shl_is_mul;
use vstd::bits::lemma_u16_shr_is_div;
use vstd::bits::low_bits_mask;

verus! {

/// The number whose base-256 digits are `bytes`, least significant first.
pub open spec fn bytes_value(bytes: Seq<u8>) -> nat
    decreases bytes.len(),
{
    if bytes.len() == 0 {
        0
    } else {
        bytes_value(bytes.drop_last()) + bytes.last() as nat * pow2(
            (8 * (bytes.len() - 1)) as nat,
        )
    }
}

/// The number whose digits of `width` bits are the low `width` bits of each of
/// `symbols`, least significant first.
pub open spec fn symbols_value(symbols: Seq<u8>, width: nat) -> nat
    decreases symbols.len(),
{
    if symbols.len() == 0 {
        0
    } else {
        symbols_value(symbols.drop_last(), width) + (symbols.last() as nat % pow2(width)) * pow2(
            (width * (symbols.len() - 1)) as nat,
        )
    }
}

/// The number of bytes that hold `count` symbols of `width` bits each.
pub open spec fn packed_len(count: nat, width: nat) -> nat {
    (count * width + 7) / 8
}

/// The bytes that hold `symbols`, packed with `width` bits each.
pub open spec fn packed(symbols: Seq<u8>, width: nat) -> Seq<u8> {
    Seq::new(
        packed_len(symbols.len(), width),
        |j: int| ((symbols_value(symbols, width) / pow2((8 * j) as nat)) % 256) as u8,
    )
}

/// Appending a byte adds it as the next more significant digit.
pub proof fn lemma_bytes_value_push(bytes: Seq<u8>, byte: u8)
    ensures
        bytes_value(bytes.push(byte)) == bytes_value(bytes) + byte as nat * pow2(
            (8 * bytes.len()) as nat,
        ),
{
    assert(bytes.push(byte).drop_last() =~= bytes);
}

/// Appending a symbol adds its low `width` bits as the next digit.
pub proof fn lemma_symbols_value_push(symbols: Seq<u8>, symbol: u8, width: nat)
    ensures
        symbols_value(symbols.push(symbol), width) == symbols_value(symbols, width) + (symbol as nat
            % pow2(width)) * pow2((width * symbols.len()) as nat),
{
    assert(symbols.push(symbol).drop_last() =~= symbols);
}

/// A number of `n` bytes is below `256^n`.
pub proof fn lemma_bytes_value_bound(bytes: Seq<u8>)
    ensures
        bytes_value(bytes) < pow2((8 * bytes.len()) as nat),
    decreases bytes.len(),
{
    if bytes.len() == 0 {
        lemma2_to64();
    } else {
        let rest = bytes.drop_last();
        let shift = (8 * rest.len()) as nat;
        lemma_bytes_value_bound(rest);
        lemma_pow2_adds(8, shift);
        lemma2_to64();
        assert(bytes_value(rest) + bytes.last() as nat * pow2(shift) < 256 * pow2(shift))
            by (nonlinear_arith)
            requires
                bytes_value(rest) < pow2(shift),
                bytes.last() as nat <= 255,
        ;
    }
}

/// Each byte is the base-256 digit of the number at its place.
pub proof fn lemma_bytes_are_digits(bytes: Seq<u8>, j: int)
    requires
        0 <= j < bytes.len(),
    ensures
        bytes[j] as nat == (bytes_value(bytes) / pow2((8 * j) as nat)) % 256,
    decreases bytes.len(),
{
    let rest = bytes.drop_last();
    let top = (8 * rest.len()) as nat;
    let low = (8 * j) as nat;
    let unit = pow2(low);
    lemma_pow2_pos(low);
    lemma_bytes_value_bound(rest);
    lemma2_to64();
    if j == rest.len() {
        // The lower bytes vanish in the division.
        lemma_fundamental_div_mod_converse(
            bytes_value(bytes) as int,
            unit as int,
            bytes.last() as int,
            bytes_value(rest) as int,
        );
        lemma_small_mod(bytes.last() as nat, 256);
    } else {
        lemma_bytes_are_digits(rest, j);
        // The last byte sits a whole number of bytes above digit `j`.
        let gap = (top - low - 8) as nat;
        lemma_pow2_adds(low, (top - low) as nat);
        lemma_pow2_adds(8, gap);
        let lift = bytes.last() as nat * pow2(gap);
        assert(bytes.last() as nat * pow2(top) == (lift * 256) * unit) by (nonlinear_arith)
            requires
                pow2(top) == unit * pow2((top - low) as nat),
                pow2((top - low) as nat) == 256 * pow2(gap),
                lift == bytes.last() as nat * pow2(gap),
        ;
        let q = bytes_value(rest) / unit;
        let r = bytes_value(rest) % unit;
        lemma_fundamental_div_mod(bytes_value(rest) as int, unit as int);
        lemma_mod_bound(bytes_value(rest) as int, unit as int);
        assert(bytes_value(bytes) == (q + lift * 256) * unit + r) by (nonlinear_arith)
            requires
                bytes_value(bytes) == bytes_value(rest) + bytes.last() as nat * pow2(top),
                bytes.last() as nat * pow2(top) == (lift * 256) * unit,
                bytes_value(rest) == unit * q + r,
        ;
        lemma_fundamental_div_mod_converse(
            bytes_value(bytes) as int,
            unit as int,
            (q + lift * 256) as int,
            r as int,
        );
        lemma_mod_multiples_vanish(lift as int, q as int, 256);
        assert((256 * lift + q) == q + lift * 256) by (nonlinear_arith);
    }
}

/// A writer that packs symbols into a byte buffer.
///
/// Bits are staged in `buffer`; every complete byte moves to `output` at
/// `output_index`.
pub struct BitWriter<'a> {
    /// The buffer that receives the packed bytes.
    pub output: &'a mut [u8],
    /// The index in `output` of the next byte to be written.
    pub output_index: usize,
    /// The staged bits that do not yet fill a byte.
    pub buffer: u16,
    /// The number of staged bits.
    pub buffer_size: u8,
}

impl<'a> BitWriter<'a> {
    /// The state invariant: less than one byte is staged, and no bit is set
    /// above the staged ones.
    pub open spec fn wf(&self) -> bool {
        &&& self.output_index <= self.output@.len()
        &&& self.buffer_size < 8
        &&& (self.buffer as nat) < pow2(self.buffer_size as nat)
    }

    /// The bytes written so far.
    pub open spec fn written(&self) -> Seq<u8> {
        self.output@.subrange(0, self.output_index as int)
    }

    /// The number of bits written so far, staged bits included.
    pub open spec fn stream_bits(&self) -> nat {
        (8 * self.output_index + self.buffer_size) as nat
    }

    /// All bits written so far, read as one number.
    pub open spec fn stream_value(&self) -> nat {
        bytes_value(self.written()) + self.buffer as nat * pow2((8 * self.output_index) as nat)
    }

    /// A writer at the start of `output`, with nothing written.
    pub fn new(output: &'a mut [u8]) -> (writer: BitWriter<'a>)
        ensures
            writer.wf(),
            writer.output@ == old(output)@,
            final(writer.output)@ == final(output)@,
            writer.output_index == 0,
            writer.stream_bits() == 0,
            writer.stream_value() == 0,
    {
        proof {
            lemma2_to64();
        }
        let writer = BitWriter { output, output_index: 0, buffer: 0, buffer_size: 0 };
        assert(writer.written() =~= Seq::<u8>::empty());
        writer
    }

    /// Moves the low byte of the staged bits to the output.
    fn write_buffer_to_output(&mut self)
        requires
            old(self).output_index < old(self).output@.len(),
            old(self).buffer_size <= 16,
            (old(self).buffer as nat) < pow2(old(self).buffer_size as nat),
        ensures
            final(final(self).output)@ == final(old(self).output)@,
            final(self).output@ == old(self).output@.update(
                old(self).output_index as int,
                (old(self).buffer % 256) as u8,
            ),
            final(self).output_index == old(self).output_index + 1,
            final(self).buffer == old(self).buffer / 256,
            final(self).buffer_size == if old(self).buffer_size >= 8 {
                old(self).buffer_size - 8
            } else {
                0
            },
            final(self).stream_value() == old(self).stream_value(),
            (final(self).buffer as nat) < pow2(final(self).buffer_size as nat),
    {
        let ghost before = self.written();
        let ghost staged = self.buffer;
        let ghost index = self.output_index;
        let ghost size = self.buffer_size;
        let byte: u8 = (self.buffer & 255) as u8;
        proof {
            lemma2_to64();
            lemma_u16_low_bits_mask_is_mod(staged, 8);
            lemma_u16_shr_is_div(staged, 8);
            assert(low_bits_mask(8) == 255);
        }
        self.output[self.output_index] = byte;
        self.output_index += 1;
        self.buffer >>= 8;
        self.buffer_size = self.buffer_size.saturating_sub(8);
        proof {
            assert(self.written() =~= before.push(byte));
            lemma_bytes_value_push(before, byte);
            lemma_pow2_adds(8, (8 * index) as nat);
            let unit = pow2((8 * index) as nat);
            assert(byte as nat * unit + (staged as nat / 256) * (256 * unit) == staged as nat
                * unit) by (nonlinear_arith)
                requires
                    byte as nat == staged as nat % 256,
                    staged as nat == 256 * (staged as nat / 256) + staged as nat % 256,
            ;
            if size >= 8 {
                let rest = pow2((size - 8) as nat);
                lemma_pow2_adds(8, (size - 8) as nat);
                assert(staged as nat / 256 < rest) by (nonlinear_arith)
                    requires
                        (staged as nat) < 256 * rest,
                ;
            } else {
                lemma_pow2_strictly_increases(size as nat, 8);
            }
        }
    }

    /// Appends the low `bits` bits of `value` to the stream.
    ///
    /// Every byte that becomes complete moves to the output, which has to
    /// have room for it.
    pub fn write(&mut self, value: u8, bits: u8)
        requires
            old(self).wf(),
            bits <= 8,
            (old(self).stream_bits() + bits) / 8 <= old(self).output@.len(),
        ensures
            final(self).wf(),
            final(final(self).output)@ == final(old(self).output)@,
            final(self).output@.len() == old(self).output@.len(),
            final(self).stream_bits() == old(self).stream_bits() + bits,
            final(self).stream_value() == old(self).stream_value() + (value as nat % pow2(
                bits as nat,
            )) * pow2(old(self).stream_bits()),
            final(self).written().subrange(0, old(self).output_index as int) == old(
                self,
            ).written(),
            forall|j: int|
                final(self).output_index <= j < old(self).output@.len()
                    ==> #[trigger] final(self).output@[j] == old(self).output@[j],
    {
        let ghost staged = self.buffer;
        let ghost size = self.buffer_size;
        let ghost index = self.output_index;
        proof {
            lemma2_to64();
            lemma_pow2_pos(bits as nat);
            if bits < 8 {
                lemma_pow2_strictly_increases(bits as nat, 8);
            }
            lemma_u16_shl_is_mul(1, bits as u16);
        }
        let mask: u16 = (1u16 << (bits as u16)) - 1;
        let digit: u16 = (value as u16) & mask;
        proof {
            assert(mask == low_bits_mask(bits as nat));
            lemma_u16_low_bits_mask_is_mod(value as u16, bits as nat);
            lemma_mod_bound(value as int, pow2(bits as nat) as int);
            lemma_pow2_strictly_increases(size as nat, 8);
            lemma_pow2_adds(size as nat, bits as nat);
            lemma_pow2_pos(size as nat);
            if size + bits < 16 {
                lemma_pow2_strictly_increases((size + bits) as nat, 16);
            }
            assert(digit as nat * pow2(size as nat) + (staged as nat) < pow2((size + bits) as nat))
                by (nonlinear_arith)
                requires
                    (digit as nat) < pow2(bits as nat),
                    (staged as nat) < pow2(size as nat),
                    pow2((size + bits) as nat) == pow2(size as nat) * pow2(bits as nat),
            ;
            lemma_u16_shl_is_mul(digit, size as u16);
            lemma_u16_shl_is_mul(1, size as u16);
            let shifted = digit << (size as u16);
            assert(staged | shifted == staged + shifted) by (bit_vector)
                requires
                    size < 8,
                    staged < (1u16 << (size as u16)),
                    shifted == digit << (size as u16),
                    digit <= 255,
            ;
        }
        self.buffer |= digit << (self.buffer_size as u16);
        self.buffer_size += bits;
        proof {
            lemma_pow2_adds((8 * index) as nat, size as nat);
            let now = self.stream_value();
            let before = old(self).stream_value();
            let bytes = bytes_value(old(self).written());
            let unit = pow2((8 * index) as nat);
            let place = pow2(old(self).stream_bits());
            assert(self.written() =~= old(self).written());
            assert(now == before + (digit as nat) * place) by (nonlinear_arith)
                requires
                    now == bytes + (staged as nat + digit as nat * pow2(size as nat)) * unit,
                    before == bytes + staged as nat * unit,
                    place == unit * pow2(size as nat),
            ;
        }
        while self.buffer_size >= 8
            invariant
                self.output_index <= self.output@.len(),
                self.buffer_size < 16,
                (self.buffer as nat) < pow2(self.buffer_size as nat),
                final(self.output)@ == final(old(self).output)@,
                self.output@.len() == old(self).output@.len(),
                old(self).output_index <= self.output_index,
                self.stream_bits() == old(self).stream_bits() + bits,
                (old(self).stream_bits() + bits) / 8 <= old(self).output@.len(),
                self.stream_value() == old(self).stream_value() + (digit as nat) * pow2(
                    old(self).stream_bits(),
                ),
                self.written().subrange(0, old(self).output_index as int) == old(self).written(),
                forall|j: int|
                    self.output_index <= j < old(self).output@.len() ==> #[trigger] self.output@[j]
                        == old(self).output@[j],
            decreases self.buffer_size,
        {
            let ghost prefix = self.written();
            self.write_buffer_to_output();
            assert(self.written().subrange(0, old(self).output_index as int) =~= prefix.subrange(
                0,
                old(self).output_index as int,
            ));
        }
    }

    /// Appends the low `bits` bits of each of `values` to the stream, in order.
    pub fn write_all(&mut self, values: &[u8], bits: u8)
        requires
            old(self).wf(),
            bits <= 8,
            (old(self).stream_bits() + values@.len() * bits) / 8 <= old(self).output@.len(),
        ensures
            final(self).wf(),
            final(final(self).output)@ == final(old(self).output)@,
            final(self).output@.len() == old(self).output@.len(),
            final(self).stream_bits() == old(self).stream_bits() + values@.len() * bits,
            final(self).stream_value() == old(self).stream_value() + symbols_value(
                values@,
                bits as nat,
            ) * pow2(old(self).stream_bits()),
            final(self).written().subrange(0, old(self).output_index as int) == old(
                self,
            ).written(),
            forall|j: int|
                final(self).output_index <= j < old(self).output@.len()
                    ==> #[trigger] final(self).output@[j] == old(self).output@[j],
    {
        let mut i: usize = 0;
        assert(values@.subrange(0, 0) =~= Seq::<u8>::empty());
        while i < values.len()
            invariant
                self.wf(),
                bits <= 8,
                0 <= i <= values@.len(),
                final(self.output)@ == final(old(self).output)@,
                self.output@.len() == old(self).output@.len(),
                old(self).output_index <= self.output_index,
                (old(self).stream_bits() + values@.len() * bits) / 8 <= old(self).output@.len(),
                self.stream_bits() == old(self).stream_bits() + i * bits,
                self.stream_value() == old(self).stream_value() + symbols_value(
                    values@.subrange(0, i as int),
                    bits as nat,
                ) * pow2(old(self).stream_bits()),
                self.written().subrange(0, old(self).output_index as int) == old(self).written(),
                forall|j: int|
                    self.output_index <= j < old(self).output@.len() ==> #[trigger] self.output@[j]
                        == old(self).output@[j],
            decreases values@.len() - i,
        {
            let ghost prefix = self.written();
            let ghost seen = values@.subrange(0, i as int);
            proof {
                assert((i + 1) * bits <= values@.len() * bits) by (nonlinear_arith)
                    requires
                        i + 1 <= values@.len(),
                        bits >= 0,
                ;
                assert((i + 1) * bits == i * bits + bits) by (nonlinear_arith);
            }
            self.write(values[i], bits);
            proof {
                assert(values@.subrange(0, i + 1) =~= seen.push(values@[i as int]));
                lemma_symbols_value_push(seen, values@[i as int], bits as nat);
                lemma_pow2_adds(old(self).stream_bits(), (bits as nat * seen.len()) as nat);
                assert(bits as nat * seen.len() == i * bits) by (nonlinear_arith)
                    requires
                        seen.len() == i,
                ;
                let digit = values@[i as int] as nat % pow2(bits as nat);
                let base = pow2(old(self).stream_bits());
                let place = pow2((i * bits) as nat);
                assert((symbols_value(seen, bits as nat) + digit * place) * base == symbols_value(
                    seen,
                    bits as nat,
                ) * base + digit * (base * place)) by (nonlinear_arith);
                assert(self.written().subrange(0, old(self).output_index as int)
                    =~= prefix.subrange(0, old(self).output_index as int));
            }
            i += 1;
        }
        assert(values@.subrange(0, values@.len() as int) =~= values@);
    }

    /// Writes the staged bits, if any, as one last byte padded with zero bits.
    /// Returns the number of bytes of the output that are used.
    pub fn flush(&mut self) -> (used: usize)
        requires
            old(self).wf(),
            (old(self).stream_bits() + 7) / 8 <= old(self).output@.len(),
        ensures
            final(self).wf(),
            final(final(self).output)@ == final(old(self).output)@,
            final(self).output@.len() == old(self).output@.len(),
            used == (old(self).stream_bits() + 7) / 8,
            final(self).output_index == used,
            final(self).buffer_size == 0,
            bytes_value(final(self).written()) == old(self).stream_value(),
            final(self).written().subrange(0, old(self).output_index as int) == old(
                self,
            ).written(),
            forall|j: int|
                used <= j < old(self).output@.len() ==> #[trigger] final(self).output@[j] == old(
                    self,
                ).output@[j],
    {
        proof {
            lemma2_to64();
        }
        while self.buffer_size > 0
            invariant
                self.output_index <= self.output@.len(),
                self.buffer_size < 8,
                (self.buffer as nat) < pow2(self.buffer_size as nat),
                pow2(0) == 1,
                final(self.output)@ == final(old(self).output)@,
                self.output@.len() == old(self).output@.len(),
                old(self).output_index <= self.output_index,
                (self.stream_bits() + 7) / 8 == (old(self).stream_bits() + 7) / 8,
                (old(self).stream_bits() + 7) / 8 <= old(self).output@.len(),
                self.stream_value() == old(self).stream_value(),
                self.written().subrange(0, old(self).output_index as int) == old(self).written(),
                forall|j: int|
                    self.output_index <= j < old(self).output@.len() ==> #[trigger] self.output@[j]
                        == old(self).output@[j],
            decreases self.buffer_size,
        {
            let ghost prefix = self.written();
            self.write_buffer_to_output();
            assert(self.written().subrange(0, old(self).output_index as int) =~= prefix.subrange(
                0,
                old(self).output_index as int,
            ));
        }
        self.buffer_size = 0;
        proof {
            assert(self.buffer == 0);
            assert(self.buffer as nat * pow2((8 * self.output_index) as nat) == 0)
                by (nonlinear_arith)
                requires
                    self.buffer == 0,
            ;
        }
        self.output_index
    }

    /// Packs `input` with `bits` bits per symbol into the start of `output`.
    /// Returns the number of bytes used; the bytes after them are unchanged.
    pub fn write_all_into(input: &[u8], bits: u8, output: &mut [u8]) -> (used: usize)
        requires
            bits <= 8,
            packed_len(input@.len(), bits as nat) <= old(output)@.len(),
        ensures
            used == packed_len(input@.len(), bits as nat),
            final(output)@.len() == old(output)@.len(),
            final(output)@.subrange(0, used as int) == packed(input@, bits as nat),
            forall|j: int|
                used <= j < old(output)@.len() ==> #[trigger] final(output)@[j] == old(output)@[j],
    {
        let mut writer = BitWriter::new(output);
        proof {
            lemma2_to64();
            assert(input@.len() * bits == input@.len() * (bits as nat)) by (nonlinear_arith);
        }
        writer.write_all(input, bits);
        let used = writer.flush();
        proof {
            let bytes = writer.written();
            let value = symbols_value(input@, bits as nat);
            assert(bytes_value(bytes) == value) by (nonlinear_arith)
                requires
                    bytes_value(bytes) == 0 + value * pow2(0),
                    pow2(0) == 1,
            ;
            assert forall|j: int| 0 <= j < bytes.len() implies bytes[j] == packed(
                input@,
                bits as nat,
            )[j] by {
                lemma_bytes_are_digits(bytes, j);
            }
            assert(bytes =~= packed(input@, bits as nat));
        }
        used
    }
}

} // verus!
