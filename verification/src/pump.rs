//! A reader of bits, most significant bit first.
//!
//! The compressed strip is a stream of bits: bit 0 is the highest bit of the
//! first byte. Behind the last byte the stream goes on with zero bits, so a
//! read near the end is always defined; whether more bits were consumed than
//! the strip holds is recorded and can be asked for.

use crate::utils::{be_read_u32, spec_be_u32};
use vstd::arithmetic::div_mod::lemma_fundamental_div_mod_converse;
use vstd::arithmetic::power2::{lemma2_to64, lemma_pow2_pos, lemma_pow2_unfold, pow2};
use vstd::bits::{
    lemma_u64_low_bits_mask_is_mod, lemma_u64_shl_is_mul, lemma_u64_shr_is_div, low_bits_mask,
};
use vstd::prelude::*;

verus! {

/// Bit `j` of a byte, counted from the highest bit.
pub open spec fn bit_of_byte(b: u8, j: int) -> int {
    if j == 0 {
        b as int / 128 % 2
    } else if j == 1 {
        b as int / 64 % 2
    } else if j == 2 {
        b as int / 32 % 2
    } else if j == 3 {
        b as int / 16 % 2
    } else if j == 4 {
        b as int / 8 % 2
    } else if j == 5 {
        b as int / 4 % 2
    } else if j == 6 {
        b as int / 2 % 2
    } else {
        b as int % 2
    }
}

/// The byte at `p`, or zero behind the end.
pub open spec fn padded_byte(stream: Seq<u8>, p: int) -> u8 {
    if 0 <= p < stream.len() {
        stream[p]
    } else {
        0
    }
}

/// Bit `k` of the stream; zero behind the end.
pub open spec fn stream_bit(stream: Seq<u8>, k: int) -> int {
    bit_of_byte(padded_byte(stream, k / 8), k % 8)
}

/// The number that the `n` bits from bit `pos` on spell, the first bit
/// being the highest.
pub open spec fn bits_at(stream: Seq<u8>, pos: int, n: nat) -> int
    decreases n,
{
    if n == 0 {
        0
    } else {
        2 * bits_at(stream, pos, (n - 1) as nat) + stream_bit(stream, pos + n - 1)
    }
}

/// The four bytes at `p`, with zero for each that lies behind the end.
pub open spec fn padded_word(stream: Seq<u8>, p: int) -> Seq<u8> {
    seq![
        padded_byte(stream, p),
        padded_byte(stream, p + 1),
        padded_byte(stream, p + 2),
        padded_byte(stream, p + 3),
    ]
}

/// `n` bits spell a number below two to the `n`.
pub proof fn lemma_bits_bound(stream: Seq<u8>, pos: int, n: nat)
    ensures
        0 <= bits_at(stream, pos, n) < pow2(n),
    decreases n,
{
    if n == 0 {
        lemma2_to64();
    } else {
        lemma_bits_bound(stream, pos, (n - 1) as nat);
        lemma_pow2_unfold(n);
    }
}

/// The first `a` of `a + b` bits are the high part of the number, the last
/// `b` the low part.
pub proof fn lemma_bits_split(stream: Seq<u8>, pos: int, a: nat, b: nat)
    ensures
        bits_at(stream, pos, a + b) == bits_at(stream, pos, a) * pow2(b) + bits_at(
            stream,
            pos + a,
            b,
        ),
    decreases b,
{
    if b == 0 {
        lemma2_to64();
    } else {
        lemma_bits_split(stream, pos, a, (b - 1) as nat);
        lemma_pow2_unfold(b);
        let high = bits_at(stream, pos, a);
        let half = pow2((b - 1) as nat) as int;
        assert(2 * (high * half) == high * (2 * half)) by (nonlinear_arith);
    }
}

/// Behind the end every run of bits spells zero.
pub proof fn lemma_bits_behind_end(stream: Seq<u8>, pos: int, n: nat)
    requires
        pos >= 8 * stream.len(),
    ensures
        bits_at(stream, pos, n) == 0,
    decreases n,
{
    if n > 0 {
        lemma_bits_behind_end(stream, pos, (n - 1) as nat);
    }
}

proof fn lemma_byte_from_bits(b: u8)
    ensures
        b as int == 128 * bit_of_byte(b, 0) + 64 * bit_of_byte(b, 1) + 32 * bit_of_byte(b, 2) + 16
            * bit_of_byte(b, 3) + 8 * bit_of_byte(b, 4) + 4 * bit_of_byte(b, 5) + 2 * bit_of_byte(
            b,
            6,
        ) + bit_of_byte(b, 7),
{
    assert(b == 128 * (b / 128 % 2) + 64 * (b / 64 % 2) + 32 * (b / 32 % 2) + 16 * (b / 16 % 2) + 8
        * (b / 8 % 2) + 4 * (b / 4 % 2) + 2 * (b / 2 % 2) + b % 2) by (bit_vector);
}

/// Eight bits that start at a byte boundary spell that byte.
pub proof fn lemma_bits_of_byte(stream: Seq<u8>, p: int)
    requires
        p >= 0,
    ensures
        bits_at(stream, 8 * p, 8) == padded_byte(stream, p) as int,
{
    reveal_with_fuel(bits_at, 9);
    let b = padded_byte(stream, p);
    lemma_byte_from_bits(b);
    assert(stream_bit(stream, 8 * p + 0) == bit_of_byte(b, 0));
    assert(stream_bit(stream, 8 * p + 1) == bit_of_byte(b, 1));
    assert(stream_bit(stream, 8 * p + 2) == bit_of_byte(b, 2));
    assert(stream_bit(stream, 8 * p + 3) == bit_of_byte(b, 3));
    assert(stream_bit(stream, 8 * p + 4) == bit_of_byte(b, 4));
    assert(stream_bit(stream, 8 * p + 5) == bit_of_byte(b, 5));
    assert(stream_bit(stream, 8 * p + 6) == bit_of_byte(b, 6));
    assert(stream_bit(stream, 8 * p + 7) == bit_of_byte(b, 7));
}

/// Thirty-two bits that start at a byte boundary spell the four bytes there,
/// read high byte first.
pub proof fn lemma_bits_of_word(stream: Seq<u8>, p: int)
    requires
        p >= 0,
    ensures
        bits_at(stream, 8 * p, 32) == spec_be_u32(padded_word(stream, p), 0),
{
    lemma2_to64();
    lemma_bits_split(stream, 8 * p, 24, 8);
    lemma_bits_split(stream, 8 * p, 16, 8);
    lemma_bits_split(stream, 8 * p, 8, 8);
    lemma_bits_of_byte(stream, p);
    lemma_bits_of_byte(stream, p + 1);
    lemma_bits_of_byte(stream, p + 2);
    lemma_bits_of_byte(stream, p + 3);
}

/// What a pump stands for: the stream it reads, and the number of bits
/// consumed from it so far.
pub struct PumpView {
    pub stream: Seq<u8>,
    pub taken: nat,
}

/// A bit reader with a 64-bit accumulator that is refilled 32 bits at a time.
pub struct BitPumpMSB<'a> {
    buffer: &'a [u8],
    /// The next byte to fetch.
    pos: usize,
    /// The bits fetched and not yet consumed, in the low `nbits` bits.
    bits: u64,
    nbits: u32,
    /// How many of the buffered bits lie behind the end of the buffer.
    pad: u32,
    /// Whether bits behind the end were consumed.
    spent: bool,
    taken: Ghost<nat>,
}

impl<'a> View for BitPumpMSB<'a> {
    type V = PumpView;

    closed spec fn view(&self) -> PumpView {
        PumpView { stream: self.buffer@, taken: self.taken@ }
    }
}

impl<'a> BitPumpMSB<'a> {
    /// The accumulator holds the bits that follow the consumed ones.
    pub closed spec fn wf(&self) -> bool {
        &&& self.nbits < 64
        &&& self.pad <= self.nbits
        &&& self.pos <= self.buffer@.len()
        &&& self.bits as int == bits_at(self.buffer@, self.taken@ as int, self.nbits as nat)
        &&& if self.spent {
            &&& self.taken@ > 8 * self.buffer@.len()
            &&& self.pad == self.nbits
            &&& self.bits == 0
        } else {
            &&& self.taken@ + self.nbits == 8 * self.pos + self.pad
            &&& self.pad > 0 ==> self.pos == self.buffer@.len()
        }
    }

    /// The number of bits in the accumulator.
    pub closed spec fn buffered(&self) -> nat {
        self.nbits as nat
    }

    /// A pump at the first bit of `src`.
    pub fn new(src: &'a [u8]) -> (pump: BitPumpMSB<'a>)
        ensures
            pump.wf(),
            pump@ == (PumpView { stream: src@, taken: 0 }),
            pump.buffered() == 0,
    {
        BitPumpMSB { buffer: src, pos: 0, bits: 0, nbits: 0, pad: 0, spent: false, taken: Ghost(0) }
    }

    /// The four bytes at the fetch position as a big-endian number, with
    /// zero for each byte behind the end, and the number of bytes that were there.
    fn fetch_word(&self) -> (r: (u32, usize))
        requires
            self.pos <= self.buffer@.len(),
        ensures
            r.0 as int == spec_be_u32(padded_word(self.buffer@, self.pos as int), 0),
            r.1 <= 4,
            self.pos + r.1 <= usize::MAX,
            r.1 as int == if self.buffer@.len() - self.pos >= 4 {
                4
            } else {
                self.buffer@.len() - self.pos
            },
    {
        let rest = self.buffer.len() - self.pos;
        if rest >= 4 {
            let word = be_read_u32(&self.buffer[self.pos..self.pos + 4]);
            (word, 4)
        } else {
            let mut template: [u8; 4] = [0, 0, 0, 0];
            let mut i: usize = 0;
            while i < rest
                invariant
                    i <= rest < 4,
                    rest == self.buffer@.len() - self.pos,
                    self.pos + rest <= usize::MAX,
                    forall|k: int| 0 <= k < i ==> template@[k] == self.buffer@[self.pos + k],
                    forall|k: int| i <= k < 4 ==> template@[k] == 0,
                decreases rest - i,
            {
                template[i] = self.buffer[self.pos + i];
                i += 1;
            }
            assert(template@ =~= padded_word(self.buffer@, self.pos as int));
            (be_read_u32(template.as_slice()), rest)
        }
    }

    /// The next `num` bits, without consuming them. Where the accumulator
    /// holds fewer, the next four bytes are fetched first. Bits behind the end
    /// of the buffer read as zero.
    pub fn peek_bits(&mut self, num: u32) -> (r: u32)
        requires
            old(self).wf(),
            num <= 32,
        ensures
            final(self).wf(),
            final(self)@ == old(self)@,
            r as int == bits_at(old(self)@.stream, old(self)@.taken as int, num as nat),
            final(self).buffered() >= num,
            final(self).buffered() == if old(self).buffered() < num {
                old(self).buffered() + 32
            } else {
                old(self).buffered()
            },
    {
        if num > self.nbits {
            let ghost held = self.nbits as nat;
            proof {
                lemma2_to64();
                lemma_bits_bound(self.buffer@, self.taken@ as int, held);
                if held < 32 {
                    vstd::arithmetic::power2::lemma_pow2_strictly_increases(held, 32);
                }
                lemma_bits_split(self.buffer@, self.taken@ as int, held, 32);
            }
            let old_bits = self.bits;
            if self.spent {
                proof {
                    lemma_bits_behind_end(self.buffer@, self.taken@ as int, held + 32);
                }
                self.pad = self.pad + 32;
                self.nbits = self.nbits + 32;
            } else {
                let (word, fetched) = self.fetch_word();
                let inbits = word as u64;
                proof {
                    if self.pad == 0 {
                        lemma_bits_of_word(self.buffer@, self.pos as int);
                    } else {
                        lemma_bits_behind_end(self.buffer@, (self.taken@ + held) as int, 32);
                    }
                }
                assert((old_bits << 32) | inbits == old_bits * 0x1_0000_0000 + inbits)
                    by (bit_vector)
                    requires
                        old_bits < 0x1_0000_0000,
                        inbits < 0x1_0000_0000,
                ;
                self.bits = (old_bits << 32) | inbits;
                self.pos = self.pos + fetched;
                self.pad = self.pad + 8 * (4 - fetched as u32);
                self.nbits = self.nbits + 32;
            }
        }
        let shift = self.nbits - num;
        proof {
            lemma_bits_split(self.buffer@, self.taken@ as int, num as nat, shift as nat);
            lemma_bits_bound(self.buffer@, self.taken@ + num, shift as nat);
            lemma_bits_bound(self.buffer@, self.taken@ as int, num as nat);
            lemma_pow2_pos(shift as nat);
            lemma_u64_shr_is_div(self.bits, shift as u64);
            lemma_fundamental_div_mod_converse(
                self.bits as int,
                pow2(shift as nat) as int,
                bits_at(self.buffer@, self.taken@ as int, num as nat),
                bits_at(self.buffer@, self.taken@ + num, shift as nat),
            );
            lemma2_to64();
            if num < 32 {
                vstd::arithmetic::power2::lemma_pow2_strictly_increases(num as nat, 32);
            }
        }
        (self.bits >> shift) as u32
    }

    /// Consumes `num` of the bits that are in the accumulator.
    pub fn consume_bits(&mut self, num: u32)
        requires
            old(self).wf(),
            num <= old(self).buffered(),
        ensures
            final(self).wf(),
            final(self)@.stream == old(self)@.stream,
            final(self)@.taken == old(self)@.taken + num,
            final(self).buffered() == old(self).buffered() - num,
    {
        let left = self.nbits - num;
        proof {
            lemma_bits_split(self.buffer@, self.taken@ as int, num as nat, left as nat);
            lemma_bits_bound(self.buffer@, self.taken@ + num, left as nat);
            lemma_pow2_pos(left as nat);
            lemma_fundamental_div_mod_converse(
                self.bits as int,
                pow2(left as nat) as int,
                bits_at(self.buffer@, self.taken@ as int, num as nat),
                bits_at(self.buffer@, self.taken@ + num, left as nat),
            );
            lemma_u64_low_bits_mask_is_mod(self.bits, left as nat);
            vstd::bits::lemma_u64_pow2_no_overflow(left as nat);
            lemma_u64_shl_is_mul(1, left as u64);
        }
        if self.spent || left < self.pad {
            proof {
                lemma_bits_behind_end(self.buffer@, self.taken@ + num, left as nat);
            }
            self.spent = true;
            self.bits = 0;
            self.pad = left;
        } else {
            let mask = (1u64 << left) - 1;
            assert(mask == low_bits_mask(left as nat));
            self.bits = self.bits & mask;
        }
        self.nbits = left;
        proof {
            self.taken@ = self.taken@ + num as nat;
        }
    }

    /// The next `num` bits, consumed.
    pub fn get_bits(&mut self, num: u32) -> (r: u32)
        requires
            old(self).wf(),
            num <= 32,
        ensures
            final(self).wf(),
            final(self)@.stream == old(self)@.stream,
            final(self)@.taken == old(self)@.taken + num,
            r as int == bits_at(old(self)@.stream, old(self)@.taken as int, num as nat),
    {
        let r = self.peek_bits(num);
        self.consume_bits(num);
        r
    }

    /// Whether more bits were consumed than the buffer holds.
    pub fn underrun(&self) -> (r: bool)
        requires
            self.wf(),
        ensures
            r == (self@.taken > 8 * self@.stream.len()),
    {
        self.spent
    }
}

} // verus!
