//! Huffman tables in the form of a direct lookup, and the decoding of one
//! residual.
//!
//! A table is given in canonical form: for each code length the number of
//! codes of that length, and for each code, in code order, a symbol and a
//! shift. It is expanded so that the next fifteen bits of the stream,
//! taken as an index, lead to the code that these bits begin with.

use crate::error::Error;
use crate::pump::{bits_at, lemma_bits_bound, BitPumpMSB};
use vstd::arithmetic::power2::{lemma2_to64, lemma_pow2_unfold, pow2};
use vstd::prelude::*;

verus! {

/// The number of bits that index the lookup.
pub const LOOKUP_BITS: u32 = 15;

/// The number of entries of the lookup.
pub const LOOKUP_SIZE: usize = 32768;

/// The number of codes of the lengths `1..=upto`.
pub open spec fn code_count(bits: Seq<u8>, upto: int) -> int
    decreases upto,
{
    if upto <= 0 {
        0
    } else {
        code_count(bits, upto - 1) + bits[upto] as int
    }
}

/// The share of the code space that the codes of the lengths `1..=upto`
/// take, in units of a sixteen-bit code: a code of length `l` counts two to
/// the `16 - l`. A prefix code is complete when the codes of all sixteen
/// lengths together count two to the sixteen.
pub open spec fn kraft_sum(bits: Seq<u8>, upto: int) -> int
    decreases upto,
{
    if upto <= 0 {
        0
    } else {
        kraft_sum(bits, upto - 1) + bits[upto] as int * pow2((16 - upto) as nat)
    }
}

/// The entries of `count` codes of one length, the first of them being code
/// number `first`: each code fills as many entries as there are ways to go on
/// after it to fifteen bits.
pub open spec fn class_entries(
    length: int,
    count: int,
    first: int,
    huffval: Seq<u8>,
    shiftval: Seq<u8>,
) -> Seq<(u8, u8, u8)>
    decreases count,
{
    if count <= 0 {
        Seq::empty()
    } else {
        class_entries(length, count - 1, first, huffval, shiftval) + Seq::new(
            pow2((15 - length) as nat),
            |j: int| (length as u8, huffval[first + count - 1], shiftval[first + count - 1]),
        )
    }
}

/// The entries of all codes of the lengths `1..=upto`, in code order.
pub open spec fn expand(bits: Seq<u8>, huffval: Seq<u8>, shiftval: Seq<u8>, upto: int) -> Seq<
    (u8, u8, u8),
>
    decreases upto,
{
    if upto <= 0 {
        Seq::empty()
    } else {
        expand(bits, huffval, shiftval, upto - 1) + class_entries(
            upto,
            bits[upto] as int,
            code_count(bits, upto - 1),
            huffval,
            shiftval,
        )
    }
}

/// Whether a canonical table expands to a lookup: its codes form a complete
/// prefix code, none of them is longer than the fifteen bits of the index,
/// and each has a symbol and a shift.
pub open spec fn complete(bits: Seq<u8>, huffval: Seq<u8>, shiftval: Seq<u8>) -> bool {
    &&& kraft_sum(bits, 16) == 65536
    &&& bits[16] == 0
    &&& code_count(bits, 16) <= huffval.len()
    &&& code_count(bits, 16) <= shiftval.len()
}

/// The number of codes does not shrink as more lengths are counted.
pub proof fn lemma_code_count_grows(bits: Seq<u8>, a: int, b: int)
    requires
        a <= b,
    ensures
        0 <= code_count(bits, a) <= code_count(bits, b),
    decreases b,
{
    if b <= 0 {
    } else if a < b {
        lemma_code_count_grows(bits, a, b - 1);
    } else {
        lemma_code_count_grows(bits, a - 1, b - 1);
    }
}

/// The codes of one length fill `count` times two to the `15 - length`
/// entries.
pub proof fn lemma_class_len(
    length: int,
    count: int,
    first: int,
    huffval: Seq<u8>,
    shiftval: Seq<u8>,
)
    requires
        count >= 0,
    ensures
        class_entries(length, count, first, huffval, shiftval).len() == count * pow2(
            (15 - length) as nat,
        ),
    decreases count,
{
    if count > 0 {
        lemma_class_len(length, count - 1, first, huffval, shiftval);
        let width = pow2((15 - length) as nat) as int;
        assert((count - 1) * width + width == count * width) by (nonlinear_arith);
    } else {
        assert(0 * pow2((15 - length) as nat) == 0);
    }
}

/// The lookup of the codes of up to fifteen bits has half as many entries
/// as their share of the code space counts.
pub proof fn lemma_expand_len(bits: Seq<u8>, huffval: Seq<u8>, shiftval: Seq<u8>, upto: int)
    requires
        0 <= upto <= 15,
    ensures
        2 * expand(bits, huffval, shiftval, upto).len() == kraft_sum(bits, upto),
    decreases upto,
{
    if upto > 0 {
        lemma_expand_len(bits, huffval, shiftval, upto - 1);
        lemma_class_len(upto, bits[upto] as int, code_count(bits, upto - 1), huffval, shiftval);
        lemma_pow2_unfold((16 - upto) as nat);
        let count = bits[upto] as int;
        let width = pow2((15 - upto) as nat) as int;
        assert(2 * (count * width) == count * (2 * width)) by (nonlinear_arith);
    }
}

/// The number of bits that follow the code of `symbol`: the length in the
/// low half of the symbol less the shift in its high half, and none where the
/// shift is not the smaller.
pub open spec fn residual_bits(symbol: u8) -> nat {
    if symbol % 16 > symbol / 16 {
        (symbol % 16 - symbol / 16) as nat
    } else {
        0
    }
}

/// The residual that `symbol` and the bits `raw` that followed its code
/// stand for. The bits are shifted up by the symbol's shift with a one
/// behind them; a value whose top bit is clear is negative.
pub open spec fn residual(symbol: u8, raw: u32) -> int {
    let length = (symbol & 0x0F) as u32;
    let shift = (symbol >> 4) as u32;
    let diff = (((raw << 1) | 1) << shift) >> 1;
    if length > 0 && diff & (1u32 << ((length - 1) as u32)) == 0 {
        diff as int - ((1u32 << length) as int - if shift == 0 {
            1int
        } else {
            0int
        })
    } else {
        diff as int
    }
}

/// The residual decoded at bit `pos` of `stream`, and the bit at which the
/// next one starts: fifteen bits index the lookup, the code found is skipped,
/// and the bits that the symbol asks for are read behind it.
pub open spec fn decode_at(table: Seq<(u8, u8, u8)>, stream: Seq<u8>, pos: nat) -> (int, nat) {
    let entry = table[bits_at(stream, pos as int, 15)];
    let after_code = pos + entry.0 as nat;
    let count = residual_bits(entry.1);
    let raw = bits_at(stream, after_code as int, count) as u32;
    (residual(entry.1, raw), after_code + count)
}

/// A residual lies between minus two to the fifteen and two to the thirty.
pub proof fn lemma_residual_bound(symbol: u8, raw: u32)
    requires
        raw < 32768,
    ensures
        -32768 <= residual(symbol, raw) < 0x4000_0000,
{
    let length = (symbol & 0x0F) as u32;
    let shift = (symbol >> 4) as u32;
    let diff = (((raw << 1) | 1) << shift) >> 1;
    assert(length < 16 && shift < 16) by (bit_vector)
        requires
            length == (symbol & 0x0F) as u32,
            shift == (symbol >> 4) as u32,
    ;
    assert(diff < 0x4000_0000) by (bit_vector)
        requires
            raw < 32768,
            shift < 16,
            diff == (((raw << 1) | 1) << shift) >> 1,
    ;
    assert(1 <= (1u32 << length) <= 32768) by (bit_vector)
        requires
            length < 16,
    ;
}

/// A Huffman table expanded to a lookup of `(code length, symbol, shift)`.
#[derive(Debug, Clone)]
pub struct HuffTable {
    lookup: Vec<(u8, u8, u8)>,
}

impl View for HuffTable {
    type V = Seq<(u8, u8, u8)>;

    closed spec fn view(&self) -> Seq<(u8, u8, u8)> {
        self.lookup@
    }
}

fn push_run(table: &mut Vec<(u8, u8, u8)>, entry: (u8, u8, u8), n: usize)
    ensures
        final(table)@ == old(table)@ + Seq::new(n as nat, |j: int| entry),
{
    let ghost before = table@;
    let mut j: usize = 0;
    while j < n
        invariant
            j <= n,
            table@ == before + Seq::new(j as nat, |j: int| entry),
        decreases n - j,
    {
        table.push(entry);
        j += 1;
        assert(table@ =~= before + Seq::new(j as nat, |j: int| entry));
    }
    assert(before + Seq::new(0, |j: int| entry) =~= before);
}

impl HuffTable {
    /// The lookup has an entry for every index of fifteen bits, and the code
    /// of each entry has between one and fifteen bits.
    pub open spec fn wf(&self) -> bool {
        &&& self@.len() == LOOKUP_SIZE
        &&& forall|i: int| 0 <= i < self@.len() ==> 1 <= (#[trigger] self@[i]).0 <= 15
    }

    /// Expands a canonical table. `bits[l]` is the number of codes of
    /// length `l`, for `l` in `1..=16`; `huffval` and `shiftval` give the symbol
    /// and the shift of each code in code order. Fails where the table is not
    /// complete.
    pub fn new(bits: &[u8; 17], huffval: &[u8], shiftval: &[u8]) -> (r: Result<HuffTable, Error>)
        ensures
            match r {
                Ok(table) => complete(bits@, huffval@, shiftval@) && table.wf() && table@
                    == expand(bits@, huffval@, shiftval@, 15),
                Err(e) => e == Error::HuffmanIncomplete && !complete(bits@, huffval@, shiftval@),
            },
    {
        let mut sum: u64 = 0;
        let mut codes: usize = 0;
        let mut weight: u64 = 32768;
        let mut l: usize = 1;
        proof {
            lemma2_to64();
        }
        while l <= 16
            invariant
                1 <= l <= 17,
                sum as int == kraft_sum(bits@, l - 1),
                sum <= (l - 1) * 8355840,
                codes as int == code_count(bits@, l - 1),
                codes <= (l - 1) * 255,
                weight <= 32768,
                l <= 16 ==> weight == pow2((16 - l) as nat),
            decreases 17 - l,
        {
            let count = bits[l] as u64;
            assert(count * weight <= 8355840) by (nonlinear_arith)
                requires
                    count <= 255,
                    weight <= 32768,
            ;
            sum = sum + count * weight;
            codes = codes + bits[l] as usize;
            proof {
                if l < 16 {
                    lemma_pow2_unfold((16 - l) as nat);
                }
            }
            weight = weight / 2;
            l += 1;
        }
        if sum != 65536 || bits[16] != 0 || codes > huffval.len() || codes > shiftval.len() {
            return Err(Error::HuffmanIncomplete);
        }
        let mut table: Vec<(u8, u8, u8)> = Vec::new();
        let mut first: usize = 0;
        let mut width: usize = 16384;
        let mut l: usize = 1;
        while l <= 15
            invariant
                1 <= l <= 16,
                table@ == expand(bits@, huffval@, shiftval@, l - 1),
                first as int == code_count(bits@, l - 1),
                code_count(bits@, 16) <= huffval@.len() <= usize::MAX,
                code_count(bits@, 16) <= shiftval@.len(),
                l <= 15 ==> width == pow2((15 - l) as nat),
                forall|i: int| 0 <= i < table@.len() ==> 1 <= (#[trigger] table@[i]).0 <= 15,
            decreases 16 - l,
        {
            let count = bits[l] as usize;
            let ghost before = table@;
            proof {
                lemma_code_count_grows(bits@, l as int, 16);
            }
            let mut c: usize = 0;
            while c < count
                invariant
                    1 <= l <= 15,
                    c <= count,
                    count == bits@[l as int],
                    first + count <= huffval@.len() <= usize::MAX,
                    first + count <= shiftval@.len(),
                    width == pow2((15 - l) as nat),
                    table@ == before + class_entries(
                        l as int,
                        c as int,
                        first as int,
                        huffval@,
                        shiftval@,
                    ),
                    forall|i: int| 0 <= i < table@.len() ==> 1 <= (#[trigger] table@[i]).0 <= 15,
                decreases count - c,
            {
                let entry = (l as u8, huffval[first + c], shiftval[first + c]);
                push_run(&mut table, entry, width);
                c += 1;
                assert(table@ =~= before + class_entries(
                    l as int,
                    c as int,
                    first as int,
                    huffval@,
                    shiftval@,
                ));
            }
            first = first + count;
            proof {
                if l < 15 {
                    lemma_pow2_unfold((15 - l) as nat);
                }
            }
            width = width / 2;
            l += 1;
        }
        proof {
            lemma_expand_len(bits@, huffval@, shiftval@, 15);
            assert(kraft_sum(bits@, 16) == kraft_sum(bits@, 15) + bits@[16] as int * pow2(0));
        }
        Ok(HuffTable { lookup: table })
    }

    /// The entry that an index of fifteen bits leads to.
    pub fn entry(&self, index: usize) -> (e: (u8, u8, u8))
        requires
            (index as int) < self@.len(),
        ensures
            e == self@[index as int],
    {
        self.lookup[index]
    }

    /// Decodes one residual at the pump's position and moves the pump
    /// behind it.
    pub fn huff_decode(&self, pump: &mut BitPumpMSB<'_>) -> (diff: i32)
        requires
            self.wf(),
            old(pump).wf(),
        ensures
            final(pump).wf(),
            final(pump)@.stream == old(pump)@.stream,
            diff as int == decode_at(self@, old(pump)@.stream, old(pump)@.taken).0,
            final(pump)@.taken == decode_at(self@, old(pump)@.stream, old(pump)@.taken).1,
            -32768 <= diff < 0x4000_0000,
    {
        proof {
            lemma2_to64();
            lemma_bits_bound(pump@.stream, pump@.taken as int, 15);
        }
        let code = pump.peek_bits(LOOKUP_BITS) as usize;
        let (bits, symbol, _) = self.lookup[code];
        pump.consume_bits(bits as u32);
        let length: u32 = (symbol & 0x0F) as u32;
        let shift: u32 = (symbol >> 4) as u32;
        assert(length == symbol % 16 && shift == symbol / 16 && length < 16 && shift < 16)
            by (bit_vector)
            requires
                length == (symbol & 0x0F) as u32,
                shift == (symbol >> 4) as u32,
        ;
        let count: u32 = if length > shift {
            length - shift
        } else {
            0
        };
        proof {
            lemma_bits_bound(pump@.stream, pump@.taken as int, count as nat);
            if count < 15 {
                vstd::arithmetic::power2::lemma_pow2_strictly_increases(count as nat, 15);
            }
            lemma_residual_bound(
                symbol,
                bits_at(pump@.stream, pump@.taken as int, count as nat) as u32,
            );
        }
        let raw = pump.get_bits(count);
        assert((raw << 1) + 1 == (raw << 1) | 1 && (raw << 1) < 65536) by (bit_vector)
            requires
                raw < 32768,
        ;
        let wide: u32 = (((raw << 1) + 1) << shift) >> 1;
        assert(wide < 0x4000_0000) by (bit_vector)
            requires
                raw < 32768,
                shift < 16,
                wide == (((raw << 1) | 1) << shift) >> 1,
        ;
        let mut diff: i32 = wide as i32;
        if length > 0 && (wide & (1u32 << (length - 1))) == 0 {
            assert(1 <= (1u32 << length) <= 32768) by (bit_vector)
                requires
                    length < 16,
            ;
            let full: i32 = (1u32 << length) as i32;
            let one: i32 = if shift == 0 {
                1
            } else {
                0
            };
            diff = diff - (full - one);
        }
        diff
    }
}

} // verus!
