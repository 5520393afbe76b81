//! The Nikon decoder: the compiled-in Huffman tables, the decoder parameters
//! of the MakerNote, and the loop that turns a compressed strip into samples.
//!
//! The strip holds residuals. Two chains of predictors run through the
//! image: one down the first two columns, from row to the next row of the
//! same parity, and one along each row, from a pair of columns to the next.

use crate::curve::{
    clamp_sample, clampbits, curve_ok, curve_table, dither_sample, max_sample, next_rand,
    LookupTable,
};
use crate::error::Error;
use crate::hufftable::{code_count, complete, decode_at, expand, kraft_sum, HuffTable};
use crate::pump::{bits_at, BitPumpMSB};
use crate::unpacked::{image_fits, image_size_ok, MAX_IMAGE_SIDE};
use crate::utils::{le_u16_at, spec_le_u16};
use vstd::arithmetic::power2::{lemma2_to64, pow2};
use vstd::prelude::*;

verus! {

/// The number of compiled-in Huffman tables.
pub const NIKON_TABLES: usize = 6;

/// The code-length counts of table `num`: entry `l` is the number of codes
/// of length `l`.
pub open spec fn nikon_bits(num: int) -> Seq<u8> {
    if num == 0 {
        seq![0u8, 0, 1, 5, 1, 1, 1, 1, 1, 1, 2, 0, 0, 0, 0, 0]
    } else if num == 1 {
        seq![0u8, 0, 1, 5, 1, 1, 1, 1, 1, 1, 2, 0, 0, 0, 0, 0]
    } else if num == 2 {
        seq![0u8, 0, 1, 4, 2, 3, 1, 2, 0, 0, 0, 0, 0, 0, 0, 0]
    } else if num == 3 {
        seq![0u8, 0, 1, 4, 3, 1, 1, 1, 1, 1, 2, 0, 0, 0, 0, 0]
    } else if num == 4 {
        seq![0u8, 0, 1, 5, 1, 1, 1, 1, 1, 1, 1, 2, 0, 0, 0, 0]
    } else {
        seq![0u8, 0, 1, 4, 2, 2, 3, 1, 2, 0, 0, 0, 0, 0, 0, 0]
    }
}

/// The symbols of table `num` in code order.
pub open spec fn nikon_huffval(num: int) -> Seq<u8> {
    if num == 0 {
        seq![5u8, 4, 3, 6, 2, 7, 1, 0, 8, 9, 11, 10, 12, 0, 0, 0]
    } else if num == 1 {
        seq![6u8, 5, 5, 5, 5, 5, 4, 3, 2, 1, 0, 11, 12, 12, 0, 0]
    } else if num == 2 {
        seq![5u8, 4, 6, 3, 7, 2, 8, 1, 9, 0, 10, 11, 12, 0, 0, 0]
    } else if num == 3 {
        seq![5u8, 6, 4, 7, 8, 3, 9, 2, 1, 0, 10, 11, 12, 13, 14, 0]
    } else if num == 4 {
        seq![8u8, 7, 7, 7, 7, 7, 6, 5, 4, 3, 2, 1, 0, 13, 14, 0]
    } else {
        seq![7u8, 6, 8, 5, 9, 4, 10, 3, 11, 12, 2, 0, 1, 13, 14, 0]
    }
}

/// The shifts of table `num` in code order.
pub open spec fn nikon_shiftval(num: int) -> Seq<u8> {
    if num == 1 {
        seq![3u8, 5, 3, 2, 1, 0, 0, 0, 0, 0, 0, 0, 0, 0, 0, 0]
    } else if num == 4 {
        seq![0u8, 5, 4, 3, 2, 0, 0, 0, 0, 0, 0, 0, 0, 0, 0, 0]
    } else {
        seq![0u8, 0, 0, 0, 0, 0, 0, 0, 0, 0, 0, 0, 0, 0, 0, 0]
    }
}

/// The counts of table `num` as the seventeen entries that a table is
/// built from: the first fifteen of the compiled-in row, then zeros.
pub open spec fn nikon_counts(num: int) -> Seq<u8> {
    Seq::new(
        17,
        |l: int|
            if l < 15 {
                nikon_bits(num)[l]
            } else {
                0u8
            },
    )
}

/// The lookup of the compiled-in table `num`.
#[verifier::opaque]
pub open spec fn nikon_lookup(num: int) -> Seq<(u8, u8, u8)> {
    expand(nikon_counts(num), nikon_huffval(num), nikon_shiftval(num), 15)
}

/// The three rows of the compiled-in table `num`: counts, symbols, shifts.
fn nikon_tree(num: usize) -> (rows: ([u8; 16], [u8; 16], [u8; 16]))
    requires
        num < NIKON_TABLES,
    ensures
        rows.0@ == nikon_bits(num as int),
        rows.1@ == nikon_huffval(num as int),
        rows.2@ == nikon_shiftval(num as int),
{
    let zero: [u8; 16] = [0, 0, 0, 0, 0, 0, 0, 0, 0, 0, 0, 0, 0, 0, 0, 0];
    let rows = if num == 0 {
        // 12-bit lossy
        (
            [0, 0, 1, 5, 1, 1, 1, 1, 1, 1, 2, 0, 0, 0, 0, 0],
            [5, 4, 3, 6, 2, 7, 1, 0, 8, 9, 11, 10, 12, 0, 0, 0],
            zero,
        )
    } else if num == 1 {
        // 12-bit lossy after split
        (
            [0, 0, 1, 5, 1, 1, 1, 1, 1, 1, 2, 0, 0, 0, 0, 0],
            [6, 5, 5, 5, 5, 5, 4, 3, 2, 1, 0, 11, 12, 12, 0, 0],
            [3, 5, 3, 2, 1, 0, 0, 0, 0, 0, 0, 0, 0, 0, 0, 0],
        )
    } else if num == 2 {
        // 12-bit lossless
        (
            [0, 0, 1, 4, 2, 3, 1, 2, 0, 0, 0, 0, 0, 0, 0, 0],
            [5, 4, 6, 3, 7, 2, 8, 1, 9, 0, 10, 11, 12, 0, 0, 0],
            zero,
        )
    } else if num == 3 {
        // 14-bit lossy
        (
            [0, 0, 1, 4, 3, 1, 1, 1, 1, 1, 2, 0, 0, 0, 0, 0],
            [5, 6, 4, 7, 8, 3, 9, 2, 1, 0, 10, 11, 12, 13, 14, 0],
            zero,
        )
    } else if num == 4 {
        // 14-bit lossy after split
        (
            [0, 0, 1, 5, 1, 1, 1, 1, 1, 1, 1, 2, 0, 0, 0, 0],
            [8, 7, 7, 7, 7, 7, 6, 5, 4, 3, 2, 1, 0, 13, 14, 0],
            [0, 5, 4, 3, 2, 0, 0, 0, 0, 0, 0, 0, 0, 0, 0, 0],
        )
    } else {
        // 14-bit lossless
        (
            [0, 0, 1, 4, 2, 2, 3, 1, 2, 0, 0, 0, 0, 0, 0, 0],
            [7, 6, 8, 5, 9, 4, 10, 3, 11, 12, 2, 0, 1, 13, 14, 0],
            zero,
        )
    };
    assert(rows.0@ =~= nikon_bits(num as int));
    assert(rows.1@ =~= nikon_huffval(num as int));
    assert(rows.2@ =~= nikon_shiftval(num as int));
    rows
}

/// The share of the code space that a table takes, written out.
proof fn lemma_kraft_formula(bits: Seq<u8>)
    ensures
        kraft_sum(bits, 16) == 32768 * bits[1] as int + 16384 * bits[2] as int + 8192 * bits[3] as int + 4096 * bits[4] as int + 2048 * bits[5] as int + 1024 * bits[6] as int + 512 * bits[7] as int + 256 * bits[8] as int + 128 * bits[9] as int + 64 * bits[10] as int + 32 * bits[11] as int + 16 * bits[12] as int + 8 * bits[13] as int + 4 * bits[14] as int + 2 * bits[15] as int + 1 * bits[16] as int,
        code_count(bits, 16) == bits[1] as int + bits[2] as int + bits[3] as int + bits[4] as int + bits[5] as int + bits[6] as int + bits[7] as int + bits[8] as int + bits[9] as int + bits[10] as int + bits[11] as int + bits[12] as int + bits[13] as int + bits[14] as int + bits[15] as int + bits[16] as int,
{
    lemma2_to64();
    reveal_with_fuel(kraft_sum, 17);
    reveal_with_fuel(code_count, 17);
    assert(bits[1] as int * pow2(15) == 32768 * bits[1] as int) by (nonlinear_arith)
        requires
            pow2(15) == 32768,
    ;
    assert(bits[2] as int * pow2(14) == 16384 * bits[2] as int) by (nonlinear_arith)
        requires
            pow2(14) == 16384,
    ;
    assert(bits[3] as int * pow2(13) == 8192 * bits[3] as int) by (nonlinear_arith)
        requires
            pow2(13) == 8192,
    ;
    assert(bits[4] as int * pow2(12) == 4096 * bits[4] as int) by (nonlinear_arith)
        requires
            pow2(12) == 4096,
    ;
    assert(bits[5] as int * pow2(11) == 2048 * bits[5] as int) by (nonlinear_arith)
        requires
            pow2(11) == 2048,
    ;
    assert(bits[6] as int * pow2(10) == 1024 * bits[6] as int) by (nonlinear_arith)
        requires
            pow2(10) == 1024,
    ;
    assert(bits[7] as int * pow2(9) == 512 * bits[7] as int) by (nonlinear_arith)
        requires
            pow2(9) == 512,
    ;
    assert(bits[8] as int * pow2(8) == 256 * bits[8] as int) by (nonlinear_arith)
        requires
            pow2(8) == 256,
    ;
    assert(bits[9] as int * pow2(7) == 128 * bits[9] as int) by (nonlinear_arith)
        requires
            pow2(7) == 128,
    ;
    assert(bits[10] as int * pow2(6) == 64 * bits[10] as int) by (nonlinear_arith)
        requires
            pow2(6) == 64,
    ;
    assert(bits[11] as int * pow2(5) == 32 * bits[11] as int) by (nonlinear_arith)
        requires
            pow2(5) == 32,
    ;
    assert(bits[12] as int * pow2(4) == 16 * bits[12] as int) by (nonlinear_arith)
        requires
            pow2(4) == 16,
    ;
    assert(bits[13] as int * pow2(3) == 8 * bits[13] as int) by (nonlinear_arith)
        requires
            pow2(3) == 8,
    ;
    assert(bits[14] as int * pow2(2) == 4 * bits[14] as int) by (nonlinear_arith)
        requires
            pow2(2) == 4,
    ;
    assert(bits[15] as int * pow2(1) == 2 * bits[15] as int) by (nonlinear_arith)
        requires
            pow2(1) == 2,
    ;
    assert(bits[16] as int * pow2(0) == 1 * bits[16] as int) by (nonlinear_arith)
        requires
            pow2(0) == 1,
    ;
}

/// Each of the six compiled-in tables is a complete prefix code: the codes,
/// each counted as two to the sixteen less its length, sum to two to the
/// sixteen; none is longer than fifteen bits, and each has its symbol.
pub proof fn lemma_nikon_tables_complete(num: int)
    requires
        0 <= num < NIKON_TABLES,
    ensures
        kraft_sum(nikon_counts(num), 16) == 65536,
        complete(nikon_counts(num), nikon_huffval(num), nikon_shiftval(num)),
{
    let counts = nikon_counts(num);
    lemma_kraft_formula(counts);
    assert(counts[1] == nikon_bits(num)[1]);
    assert(counts[2] == nikon_bits(num)[2]);
    assert(counts[3] == nikon_bits(num)[3]);
    assert(counts[4] == nikon_bits(num)[4]);
    assert(counts[5] == nikon_bits(num)[5]);
    assert(counts[6] == nikon_bits(num)[6]);
    assert(counts[7] == nikon_bits(num)[7]);
    assert(counts[8] == nikon_bits(num)[8]);
    assert(counts[9] == nikon_bits(num)[9]);
    assert(counts[10] == nikon_bits(num)[10]);
    assert(counts[11] == nikon_bits(num)[11]);
    assert(counts[12] == nikon_bits(num)[12]);
    assert(counts[13] == nikon_bits(num)[13]);
    assert(counts[14] == nikon_bits(num)[14]);
    assert(counts[15] == 0);
    assert(counts[16] == 0);
}

/// Builds the compiled-in table `num`. Fails with `OutOfRange` where there
/// is no such table.
pub fn create_hufftable(num: usize) -> (r: Result<HuffTable, Error>)
    ensures
        match r {
            Ok(table) => num < NIKON_TABLES && table.wf() && table@ == nikon_lookup(num as int),
            Err(e) => e == Error::OutOfRange && num >= NIKON_TABLES,
        },
{
    if num >= NIKON_TABLES {
        return Err(Error::OutOfRange);
    }
    let (counts, huffval, shiftval) = nikon_tree(num);
    let mut bits: [u8; 17] = [0, 0, 0, 0, 0, 0, 0, 0, 0, 0, 0, 0, 0, 0, 0, 0, 0];
    let mut i: usize = 0;
    while i < 15
        invariant
            i <= 15,
            counts@ == nikon_bits(num as int),
            forall|l: int| 0 <= l < i ==> bits@[l] == counts@[l],
            forall|l: int| i <= l < 17 ==> bits@[l] == 0,
        decreases 15 - i,
    {
        bits[i] = counts[i];
        i += 1;
    }
    assert(bits@ =~= nikon_counts(num as int));
    proof {
        lemma_nikon_tables_complete(num as int);
        reveal(nikon_lookup);
    }
    match HuffTable::new(&bits, huffval.as_slice(), shiftval.as_slice()) {
        Ok(table) => Ok(table),
        Err(e) => Err(e),
    }
}

/// The decoder parameters that the MakerNote holds.
#[derive(Debug)]
pub struct NikonDecoderState {
    /// The two version bytes.
    pub version: (u8, u8),
    /// The initial predictors, by row parity and by column of the pair.
    pub vpred: [[u16; 2]; 2],
    /// The bit depth of the samples.
    pub bps: u32,
    /// The row at which the second Huffman table takes over; zero for none.
    pub split: usize,
    /// The number of the first Huffman table.
    pub table_selector: usize,
    /// The linearisation curve.
    pub curve: LookupTable,
}

/// The number of curve entries that a bit depth asks for.
pub open spec fn initial_max(bps: u32) -> int {
    ((1u32 << bps) & 0x7fff) as int
}

/// The bit depths that are decoded.
pub open spec fn supported_bps(bps: int) -> bool {
    bps == 12 || bps == 14
}

/// The number of the Huffman table for a version and a bit depth.
pub open spec fn spec_selector(v0: u8, bps: int) -> int {
    (if v0 == 0x46 {
        2int
    } else {
        0int
    }) + (if bps == 14 {
        3int
    } else {
        0int
    })
}

/// Whether the version is one that stores a split row.
pub open spec fn has_split(v0: u8, v1: u8) -> bool {
    v0 == 0x44 && (v1 == 0x20 || v1 == 0x40)
}

/// The distance between the stored samples of an interpolated curve.
pub open spec fn curve_step(csize: int, max: int) -> int {
    if csize > 1 {
        max / (csize - 1)
    } else {
        0
    }
}

/// Whether the curve is stored as samples to interpolate between. Such a
/// curve is not decoded.
pub open spec fn interpolated(v0: u8, v1: u8, csize: int, max: int) -> bool {
    v0 == 0x44 && v1 == 0x20 && curve_step(csize, max) > 0
}

/// The number of curve entries in use before the stored points are read: a
/// quarter of what the bit depth asks for in the 14-bit lossless variant.
pub open spec fn working_max(v0: u8, v1: u8, bps: u32) -> int {
    if v0 == 0x44 && v1 == 0x40 {
        initial_max(bps) / 4
    } else {
        initial_max(bps)
    }
}

/// Whether the blob stores the points of the curve one by one.
pub open spec fn stored_directly(v0: u8, csize: int) -> bool {
    v0 != 0x46 && csize <= 0x4001
}

/// The points of the curve before trailing repetitions are cut: the stored
/// points where the blob stores them, else each index as its own value.
pub open spec fn raw_points(blob: Seq<u8>, bps: u32) -> Seq<u16> {
    let csize = spec_le_u16(blob, 10);
    if stored_directly(blob[0], csize) {
        Seq::new(csize as nat, |i: int| spec_le_u16(blob, 12 + 2 * i) as u16)
    } else {
        Seq::new(working_max(blob[0], blob[1], bps) as nat, |i: int| i as u16)
    }
}

/// The length that is left of the first `n` points when the last point is
/// dropped for as long as it repeats the one before it and more than two
/// points are left.
pub open spec fn trimmed_len(points: Seq<u16>, n: int) -> int
    decreases n,
{
    if n > 2 && n <= points.len() && points[n - 2] == points[n - 1] {
        trimmed_len(points, n - 1)
    } else {
        n
    }
}

/// The points of the curve.
pub open spec fn curve_points(blob: Seq<u8>, bps: u32) -> Seq<u16> {
    let points = raw_points(blob, bps);
    points.subrange(0, trimmed_len(points, points.len() as int))
}

/// Whether the blob holds all that its version says it holds.
pub open spec fn blob_fits(blob: Seq<u8>) -> bool {
    &&& blob.len() >= 12
    &&& has_split(blob[0], blob[1]) ==> blob.len() >= 564
    &&& stored_directly(blob[0], spec_le_u16(blob, 10)) ==> 12 + 2 * spec_le_u16(blob, 10)
        <= blob.len()
}

/// Why a blob gives no decoder parameters, if it gives none.
pub open spec fn state_error(blob: Seq<u8>, bps: u16) -> Option<Error> {
    if blob.len() < 12 || !supported_bps(bps as int) {
        Some(Error::OutOfRange)
    } else if interpolated(blob[0], blob[1], spec_le_u16(blob, 10), initial_max(bps as u32)) {
        Some(Error::UnsupportedVersion(blob[0], blob[1]))
    } else if !blob_fits(blob) || !curve_ok(curve_points(blob, bps as u32)) {
        Some(Error::OutOfRange)
    } else {
        None
    }
}

/// The split row that a blob stores; zero where its version stores none.
pub open spec fn spec_split(blob: Seq<u8>) -> int {
    if has_split(blob[0], blob[1]) {
        spec_le_u16(blob, 562)
    } else {
        0
    }
}

impl NikonDecoderState {
    /// The parameters are those that `blob` spells for samples of `bps` bits.
    pub open spec fn matches(&self, blob: Seq<u8>, bps: u16) -> bool {
        &&& self.version == (blob[0], blob[1])
        &&& self.vpred@[0]@[0] as int == spec_le_u16(blob, 2)
        &&& self.vpred@[0]@[1] as int == spec_le_u16(blob, 4)
        &&& self.vpred@[1]@[0] as int == spec_le_u16(blob, 6)
        &&& self.vpred@[1]@[1] as int == spec_le_u16(blob, 8)
        &&& self.bps == bps
        &&& self.split as int == spec_split(blob)
        &&& self.table_selector as int == spec_selector(blob[0], bps as int)
        &&& self.curve@ == curve_table(curve_points(blob, bps as u32))
    }
}

/// Reads the decoder parameters from the blob of MakerNote tag 0x96, for
/// samples of `tiff_bps` bits. The blob holds the version, four predictors,
/// the number of curve points and the points; some versions hold a split row.
/// Fails with `UnsupportedVersion` for a curve that is stored for
/// interpolation, and with `OutOfRange` where the bit depth is not 12 or 14,
/// the blob is too short, or a curve point has no table entry.
pub fn parse_decoder_state(blob: &[u8], tiff_bps: u16) -> (r: Result<NikonDecoderState, Error>)
    ensures
        match state_error(blob@, tiff_bps) {
            Some(e) => r == Err::<NikonDecoderState, Error>(e),
            None => r is Ok && r->Ok_0.matches(blob@, tiff_bps),
        },
{
    if blob.len() < 12 || !(tiff_bps == 12 || tiff_bps == 14) {
        return Err(Error::OutOfRange);
    }
    let ver0 = blob[0];
    let ver1 = blob[1];
    let vpred: [[u16; 2]; 2] = [
        [le_u16_at(blob, 2), le_u16_at(blob, 4)],
        [le_u16_at(blob, 6), le_u16_at(blob, 8)],
    ];
    let bps = tiff_bps as u32;
    assert(((1u32 << bps) & 0x7fff) == (if bps == 12 {
        4096u32
    } else {
        16384u32
    })) by (bit_vector)
        requires
            bps == 12 || bps == 14,
    ;
    let mut max: usize = ((1u32 << bps) & 0x7fff) as usize;
    let csize = le_u16_at(blob, 10) as usize;
    let step = if csize > 1 {
        max / (csize - 1)
    } else {
        0
    };
    if ver0 == 0x44 && ver1 == 0x20 && step > 0 {
        return Err(Error::UnsupportedVersion(ver0, ver1));
    }
    let mut split: usize = 0;
    if ver0 == 0x44 && (ver1 == 0x20 || ver1 == 0x40) {
        if blob.len() < 564 {
            return Err(Error::OutOfRange);
        }
        split = le_u16_at(blob, 562) as usize;
    }
    if ver0 == 0x44 && ver1 == 0x40 {
        max = max / 4;
    }
    let mut points: Vec<u16> = Vec::new();
    if ver0 != 0x46 && csize <= 0x4001 {
        if (blob.len() - 12) / 2 < csize {
            return Err(Error::OutOfRange);
        }
        let mut i: usize = 0;
        while i < csize
            invariant
                i <= csize,
                12 + 2 * csize <= blob@.len() <= usize::MAX,
                points@.len() == i,
                forall|k: int|
                    0 <= k < i ==> (#[trigger] points@[k]) as int == spec_le_u16(blob@, 12 + 2 * k),
            decreases csize - i,
        {
            points.push(le_u16_at(blob, 12 + 2 * i));
            i += 1;
        }
    } else {
        let mut i: usize = 0;
        while i < max
            invariant
                i <= max <= 16384,
                points@.len() == i,
                forall|k: int| 0 <= k < i ==> (#[trigger] points@[k]) as int == k,
            decreases max - i,
        {
            points.push(i as u16);
            i += 1;
        }
    }
    assert(points@ =~= raw_points(blob@, bps));
    let mut n = points.len();
    while n > 2 && points[n - 2] == points[n - 1]
        invariant
            n <= points@.len(),
            trimmed_len(points@, points@.len() as int) == trimmed_len(points@, n as int),
        decreases n,
    {
        n -= 1;
    }
    let trimmed = vstd::slice::slice_subrange(points.as_slice(), 0, n);
    assert(trimmed@ =~= curve_points(blob@, bps));
    let curve = match LookupTable::checked(trimmed) {
        Ok(curve) => curve,
        Err(e) => {
            return Err(e);
        },
    };
    let mut table_selector: usize = if ver0 == 0x46 {
        2
    } else {
        0
    };
    if tiff_bps == 14 {
        table_selector += 3;
    }
    Ok(NikonDecoderState { version: (ver0, ver1), vpred, bps, split, table_selector, curve })
}

/// What a frame is decoded from.
pub struct Frame {
    /// The compressed strip.
    pub stream: Seq<u8>,
    pub width: nat,
    pub height: nat,
    /// The bit depth of the samples.
    pub bps: u32,
    /// The row from which on the second table is used; zero for none.
    pub split: nat,
    /// The Huffman table of the rows before the split row.
    pub first: Seq<(u8, u8, u8)>,
    /// The Huffman table of the rows from the split row on.
    pub second: Seq<(u8, u8, u8)>,
    /// The linearisation curve.
    pub curve: Seq<(u16, u16, u16)>,
}

/// The state of the decoder between two steps.
pub struct Cursor {
    /// The number of bits of the strip consumed so far.
    pub pos: nat,
    /// The state of the dither.
    pub rand: u32,
    /// The predictors at the head of the even rows, one per column of a pair.
    pub even: (int, int),
    /// The predictors at the head of the odd rows.
    pub odd: (int, int),
    /// The predictors of the pair last decoded in the current row.
    pub left: (int, int),
    /// The samples so far, row by row.
    pub out: Seq<u16>,
    /// Whether a predictor had no entry in the curve.
    pub bad: bool,
}

/// The Huffman table in use in `row`.
pub open spec fn table_for(frame: Frame, row: nat) -> Seq<(u8, u8, u8)> {
    if frame.split > 0 && row >= frame.split {
        frame.second
    } else {
        frame.first
    }
}

/// The next two residuals at bit `pos`, and the bit behind them.
pub open spec fn take_two(table: Seq<(u8, u8, u8)>, stream: Seq<u8>, pos: nat) -> (int, int, nat) {
    let one = decode_at(table, stream, pos);
    let two = decode_at(table, stream, one.1);
    (one.0, two.0, two.1)
}

/// The sample that a predictor becomes: it is clamped to the bit depth,
/// looked up in the curve and dithered. A clamped predictor behind the end of
/// the curve gives zero.
pub open spec fn sample_of(curve: Seq<(u16, u16, u16)>, bps: u32, value: int, rand: u32) -> u16 {
    if clamp_sample(value, bps) < curve.len() {
        dither_sample(curve[clamp_sample(value, bps)], rand)
    } else {
        0
    }
}

/// The state after one more sample was emitted for the predictor `value`.
pub open spec fn emit(curve: Seq<(u16, u16, u16)>, bps: u32, cur: Cursor, value: int) -> Cursor {
    Cursor {
        pos: cur.pos,
        rand: next_rand(cur.rand),
        even: cur.even,
        odd: cur.odd,
        left: cur.left,
        out: cur.out.push(sample_of(curve, bps, value, cur.rand)),
        bad: cur.bad || clamp_sample(value, bps) >= curve.len(),
    }
}

/// The state at the head of `row`: two residuals are added to the
/// predictors of the row's parity, and the row starts from these.
pub open spec fn row_start(frame: Frame, cur: Cursor, row: nat) -> Cursor {
    let got = take_two(table_for(frame, row), frame.stream, cur.pos);
    if row % 2 == 0 {
        let up = (cur.even.0 + got.0, cur.even.1 + got.1);
        Cursor {
            pos: got.2,
            rand: cur.rand,
            even: up,
            odd: cur.odd,
            left: up,
            out: cur.out,
            bad: cur.bad,
        }
    } else {
        let up = (cur.odd.0 + got.0, cur.odd.1 + got.1);
        Cursor {
            pos: got.2,
            rand: cur.rand,
            even: cur.even,
            odd: up,
            left: up,
            out: cur.out,
            bad: cur.bad,
        }
    }
}

/// The state after the next pair of `row`: but for the first pair of a row,
/// two residuals are added to the predictors of the pair before; then the two
/// samples are emitted.
pub open spec fn pair_step(frame: Frame, cur: Cursor, row: nat, first: bool) -> Cursor {
    let got = take_two(table_for(frame, row), frame.stream, cur.pos);
    let moved = if first {
        cur
    } else {
        Cursor {
            pos: got.2,
            rand: cur.rand,
            even: cur.even,
            odd: cur.odd,
            left: (cur.left.0 + got.0, cur.left.1 + got.1),
            out: cur.out,
            bad: cur.bad,
        }
    };
    emit(
        frame.curve,
        frame.bps,
        emit(frame.curve, frame.bps, moved, moved.left.0),
        moved.left.1,
    )
}

/// The state after the first `n` pairs of `row`, from the state at the
/// row's head.
pub open spec fn pairs(frame: Frame, head: Cursor, row: nat, n: nat) -> Cursor
    decreases n,
{
    if n == 0 {
        head
    } else {
        pair_step(frame, pairs(frame, head, row, (n - 1) as nat), row, n == 1)
    }
}

/// The state after `row`: all pairs of the row are decoded; the last
/// column of an image of odd width is not decoded and holds zero.
pub open spec fn row_step(frame: Frame, cur: Cursor, row: nat) -> Cursor {
    let done = pairs(frame, row_start(frame, cur, row), row, frame.width / 2);
    if frame.width % 2 == 1 {
        Cursor {
            pos: done.pos,
            rand: done.rand,
            even: done.even,
            odd: done.odd,
            left: done.left,
            out: done.out.push(0),
            bad: done.bad,
        }
    } else {
        done
    }
}

/// The state after the first `n` rows.
pub open spec fn rows(frame: Frame, start: Cursor, n: nat) -> Cursor
    decreases n,
{
    if n == 0 {
        start
    } else {
        row_step(frame, rows(frame, start, (n - 1) as nat), (n - 1) as nat)
    }
}

/// The state before the first row: no bit is consumed, the dither starts
/// from the first 24 bits of the strip, and the predictors are those given.
pub open spec fn initial(stream: Seq<u8>, even: (int, int), odd: (int, int)) -> Cursor {
    Cursor {
        pos: 0,
        rand: bits_at(stream, 0, 24) as u32,
        even,
        odd,
        left: (0, 0),
        out: Seq::empty(),
        bad: false,
    }
}

/// The samples of a frame. Decoding fails with `BitPumpUnderrun` where the
/// rows consumed more bits than the strip holds, and with `OutOfRange` where
/// a predictor had no entry in the curve.
pub open spec fn spec_decode(frame: Frame, even: (int, int), odd: (int, int)) -> Result<
    Seq<u16>,
    Error,
> {
    let end = rows(frame, initial(frame.stream, even, odd), frame.height);
    if end.pos > 8 * frame.stream.len() {
        Err(Error::BitPumpUnderrun)
    } else if end.bad {
        Err(Error::OutOfRange)
    } else {
        Ok(end.out)
    }
}

/// The frame that is one column narrower and the same in all else.
pub open spec fn narrower(frame: Frame) -> Frame {
    Frame {
        stream: frame.stream,
        width: (frame.width - 1) as nat,
        height: frame.height,
        bps: frame.bps,
        split: frame.split,
        first: frame.first,
        second: frame.second,
        curve: frame.curve,
    }
}

/// Whether two frames differ in their size at most.
pub open spec fn same_coding(one: Frame, other: Frame) -> bool {
    &&& one.stream == other.stream
    &&& one.bps == other.bps
    &&& one.split == other.split
    &&& one.first == other.first
    &&& one.second == other.second
    &&& one.curve == other.curve
}

/// Whether two states differ in the samples emitted so far at most.
pub open spec fn same_state(one: Cursor, other: Cursor) -> bool {
    &&& one.pos == other.pos
    &&& one.rand == other.rand
    &&& one.even == other.even
    &&& one.odd == other.odd
    &&& one.left == other.left
    &&& one.bad == other.bad
}

/// Whether `after` is `before` with `count` more samples.
pub open spec fn extends(after: Seq<u16>, before: Seq<u16>, count: int) -> bool {
    &&& after.len() == before.len() + count
    &&& forall|i: int| 0 <= i < before.len() ==> after[i] == before[i]
}

/// Whether the last `count` samples of two sequences are the same.
pub open spec fn same_tail(one: Seq<u16>, other: Seq<u16>, count: int) -> bool {
    &&& one.len() >= count
    &&& other.len() >= count
    &&& one.subrange(one.len() - count, one.len() as int) == other.subrange(
        other.len() - count,
        other.len() as int,
    )
}

/// The place of the cell in `row` and `col` of an image of this width.
pub open spec fn cell(width: int, row: int, col: int) -> int {
    row * width + col
}

/// The pairs of a row are decoded alike in two frames of one coding, from
/// two states that differ in their samples at most: the states after them
/// differ in their samples at most, and the samples that were added are the
/// same.
pub proof fn lemma_pairs_agree(
    one: Frame,
    other: Frame,
    head: Cursor,
    other_head: Cursor,
    row: nat,
    n: nat,
)
    requires
        same_coding(one, other),
        same_state(head, other_head),
    ensures
        same_state(pairs(one, head, row, n), pairs(other, other_head, row, n)),
        extends(pairs(one, head, row, n).out, head.out, 2 * n as int),
        extends(pairs(other, other_head, row, n).out, other_head.out, 2 * n as int),
        same_tail(
            pairs(one, head, row, n).out,
            pairs(other, other_head, row, n).out,
            2 * n as int,
        ),
    decreases n,
{
    if n > 0 {
        lemma_pairs_agree(one, other, head, other_head, row, (n - 1) as nat);
        let before = pairs(one, head, row, (n - 1) as nat);
        let other_before = pairs(other, other_head, row, (n - 1) as nat);
        let after = pairs(one, head, row, n);
        let other_after = pairs(other, other_head, row, n);
        assert(after == pair_step(one, before, row, n == 1));
        assert(other_after == pair_step(other, other_before, row, n == 1));
        assert(table_for(one, row) == table_for(other, row));
        let moved = if n == 1 {
            before
        } else {
            let got = take_two(table_for(one, row), one.stream, before.pos);
            Cursor {
                pos: got.2,
                rand: before.rand,
                even: before.even,
                odd: before.odd,
                left: (before.left.0 + got.0, before.left.1 + got.1),
                out: before.out,
                bad: before.bad,
            }
        };
        let first = sample_of(one.curve, one.bps, moved.left.0, moved.rand);
        let second = sample_of(one.curve, one.bps, moved.left.1, next_rand(moved.rand));
        assert(after.out == before.out.push(first).push(second));
        assert(other_after.out == other_before.out.push(first).push(second));
        let count = 2 * n as int;
        let tail = before.out.subrange(before.out.len() - (count - 2), before.out.len() as int);
        let other_tail = other_before.out.subrange(
            other_before.out.len() - (count - 2),
            other_before.out.len() as int,
        );
        assert(tail == other_tail);
        assert(after.out.subrange(after.out.len() - count, after.out.len() as int) =~= tail.push(
            first,
        ).push(second));
        assert(other_after.out.subrange(
            other_after.out.len() - count,
            other_after.out.len() as int,
        ) =~= other_tail.push(first).push(second));
    } else {
        assert(head.out.subrange(head.out.len() as int, head.out.len() as int)
            =~= other_head.out.subrange(other_head.out.len() as int, other_head.out.len() as int));
    }
}

/// What the rows of a frame of odd width have in common with the rows of
/// the frame one column narrower, after `n` rows: the state but for the
/// samples, and each sample but those of the last column, which are zero.
pub open spec fn rows_agree(wide: Cursor, slim: Cursor, width: int, n: int) -> bool {
    &&& same_state(wide, slim)
    &&& wide.out.len() == n * width
    &&& slim.out.len() == n * (width - 1)
    &&& forall|row: int, col: int|
        0 <= row < n && 0 <= col < width - 1 ==> #[trigger] wide.out[cell(width, row, col)]
            == slim.out[cell(width - 1, row, col)]
    &&& forall|row: int| 0 <= row < n ==> #[trigger] wide.out[cell(width, row, width - 1)] == 0
}

/// One row of a frame of odd width is decoded as the row of the frame one
/// column narrower: the states after it differ in their samples at most; the
/// wide row adds the samples of the narrow row and a zero behind them.
pub proof fn lemma_row_agrees(frame: Frame, wide: Cursor, slim: Cursor, row: nat)
    requires
        frame.width % 2 == 1,
        same_state(wide, slim),
    ensures
        same_state(row_step(frame, wide, row), row_step(narrower(frame), slim, row)),
        extends(row_step(frame, wide, row).out, wide.out, frame.width as int),
        extends(row_step(narrower(frame), slim, row).out, slim.out, frame.width - 1),
        row_step(frame, wide, row).out.subrange(
            wide.out.len() as int,
            wide.out.len() + frame.width - 1,
        ) == row_step(narrower(frame), slim, row).out.subrange(
            slim.out.len() as int,
            slim.out.len() + frame.width - 1,
        ),
        row_step(frame, wide, row).out[wide.out.len() + frame.width - 1] == 0,
{
    let slim_frame = narrower(frame);
    let head = row_start(frame, wide, row);
    let slim_head = row_start(slim_frame, slim, row);
    let count = (frame.width / 2) as nat;
    assert(slim_frame.width / 2 == count);
    assert(2 * count == frame.width - 1);
    lemma_pairs_agree(frame, slim_frame, head, slim_head, row, count);
    let done = pairs(frame, head, row, count);
    let slim_done = pairs(slim_frame, slim_head, row, count);
    assert(row_step(frame, wide, row).out == done.out.push(0));
    assert(row_step(slim_frame, slim, row) == slim_done);
    assert(done.out.push(0).subrange(wide.out.len() as int, wide.out.len() + frame.width - 1)
        =~= done.out.subrange(done.out.len() - 2 * count, done.out.len() as int));
}

/// The place of a cell lies inside the rows before and with its own.
pub proof fn lemma_cell_inside(width: int, row: int, col: int, n: int)
    requires
        0 <= row < n,
        0 <= col < width,
    ensures
        0 <= cell(width, row, col) < n * width,
        row * width <= cell(width, row, col) < row * width + width,
        (n + 1) * width == n * width + width,
{
    assert(0 <= row * width && row * width + width <= n * width) by (nonlinear_arith)
        requires
            0 <= row < n,
            0 <= width,
    ;
    assert((n + 1) * width == n * width + width) by (nonlinear_arith);
}

/// A sequence that extends one that agrees with another row by row, by a
/// row that agrees as well, agrees with the other's extension row by row.
proof fn lemma_rows_extend(
    wide: Seq<u16>,
    slim: Seq<u16>,
    after: Seq<u16>,
    slim_after: Seq<u16>,
    width: int,
    n: int,
)
    requires
        width >= 1,
        n >= 0,
        wide.len() == n * width,
        slim.len() == n * (width - 1),
        forall|row: int, col: int|
            0 <= row < n && 0 <= col < width - 1 ==> #[trigger] wide[cell(width, row, col)]
                == slim[cell(width - 1, row, col)],
        forall|row: int| 0 <= row < n ==> #[trigger] wide[cell(width, row, width - 1)] == 0,
        extends(after, wide, width),
        extends(slim_after, slim, width - 1),
        after.subrange(wide.len() as int, wide.len() + width - 1) == slim_after.subrange(
            slim.len() as int,
            slim.len() + width - 1,
        ),
        after[wide.len() + width - 1] == 0,
    ensures
        after.len() == (n + 1) * width,
        slim_after.len() == (n + 1) * (width - 1),
        forall|row: int, col: int|
            0 <= row < n + 1 && 0 <= col < width - 1 ==> #[trigger] after[cell(width, row, col)]
                == slim_after[cell(width - 1, row, col)],
        forall|row: int| 0 <= row < n + 1 ==> #[trigger] after[cell(width, row, width - 1)] == 0,
{
    assert((n + 1) * width == n * width + width) by (nonlinear_arith);
    assert((n + 1) * (width - 1) == n * (width - 1) + (width - 1)) by (nonlinear_arith);
    let row_of_wide = after.subrange(wide.len() as int, wide.len() + width - 1);
    let row_of_slim = slim_after.subrange(slim.len() as int, slim.len() + width - 1);
    assert forall|row: int, col: int| 0 <= row < n + 1 && 0 <= col < width - 1 implies
        #[trigger] after[cell(width, row, col)] == slim_after[cell(width - 1, row, col)] by {
        if row < n {
            lemma_cell_inside(width, row, col, n);
            lemma_cell_inside(width - 1, row, col, n);
            assert(wide[cell(width, row, col)] == slim[cell(width - 1, row, col)]);
        } else {
            assert(row_of_wide[col] == after[wide.len() + col]);
            assert(row_of_slim[col] == slim_after[slim.len() + col]);
        }
    }
    assert forall|row: int| 0 <= row < n + 1 implies #[trigger] after[cell(
        width,
        row,
        width - 1,
    )] == 0 by {
        if row < n {
            lemma_cell_inside(width, row, width - 1, n);
            assert(wide[cell(width, row, width - 1)] == 0);
        }
    }
}

/// The rows of a frame of odd width agree with the rows of the frame one
/// column narrower.
pub proof fn lemma_rows_agree(frame: Frame, start: Cursor, n: nat)
    requires
        frame.width % 2 == 1,
        start.out.len() == 0,
    ensures
        rows_agree(
            rows(frame, start, n),
            rows(narrower(frame), start, n),
            frame.width as int,
            n as int,
        ),
    decreases n,
{
    let width = frame.width as int;
    if n == 0 {
        assert(0 * width == 0 && 0 * (width - 1) == 0) by (nonlinear_arith);
    } else {
        let row = (n - 1) as nat;
        lemma_rows_agree(frame, start, row);
        let wide = rows(frame, start, row);
        let slim = rows(narrower(frame), start, row);
        lemma_row_agrees(frame, wide, slim, row);
        lemma_rows_extend(
            wide.out,
            slim.out,
            row_step(frame, wide, row).out,
            row_step(narrower(frame), slim, row).out,
            width,
            row as int,
        );
    }
}

/// An image of odd width decodes as the image one column narrower does,
/// with a column of zeros behind it: both decodes succeed or both fail alike;
/// the samples of all columns but the last are those of the narrower image,
/// which takes the same residuals and the same dither; and the last column is
/// not decoded and holds zero.
pub proof fn lemma_odd_width_drops_last_column(frame: Frame, even: (int, int), odd: (int, int))
    requires
        frame.width % 2 == 1,
    ensures
        match (spec_decode(frame, even, odd), spec_decode(narrower(frame), even, odd)) {
            (Ok(wide), Ok(slim)) => {
                &&& wide.len() == frame.height * frame.width
                &&& slim.len() == frame.height * (frame.width - 1)
                &&& forall|row: int, col: int|
                    0 <= row < frame.height && 0 <= col < frame.width - 1 ==> #[trigger] wide[cell(
                        frame.width as int,
                        row,
                        col,
                    )] == slim[cell(frame.width - 1, row, col)]
                &&& forall|row: int|
                    0 <= row < frame.height ==> #[trigger] wide[cell(
                        frame.width as int,
                        row,
                        frame.width - 1,
                    )] == 0
            },
            (Err(one), Err(other)) => one == other,
            _ => false,
        },
{
    let start = initial(frame.stream, even, odd);
    lemma_rows_agree(frame, start, frame.height);
    assert(initial(narrower(frame).stream, even, odd) == start);
}

/// Why a frame of this shape is not decoded at all: it is larger than any
/// sensor, its samples do not fit in 16 bits, its split row is not a row of
/// the image, or it asks for a Huffman table that does not exist.
pub open spec fn frame_error(width: int, height: int, bps: u32, split: int, selector: int) -> Option<
    Error,
> {
    if !image_fits(width, height) || bps > 16 || (split > 0 && split >= height) || selector
        >= NIKON_TABLES || (split > 0 && selector + 1 >= NIKON_TABLES) {
        Some(Error::OutOfRange)
    } else {
        None
    }
}

impl NikonDecoderState {
    /// The frame that these parameters make of a strip.
    pub open spec fn frame(&self, stream: Seq<u8>, width: nat, height: nat) -> Frame {
        Frame {
            stream,
            width,
            height,
            bps: self.bps,
            split: self.split as nat,
            first: nikon_lookup(self.table_selector as int),
            second: nikon_lookup(self.table_selector + 1),
            curve: self.curve@,
        }
    }

    /// The predictors at the head of the even rows.
    pub open spec fn even(&self) -> (int, int) {
        (self.vpred@[0]@[0] as int, self.vpred@[0]@[1] as int)
    }

    /// The predictors at the head of the odd rows.
    pub open spec fn odd(&self) -> (int, int) {
        (self.vpred@[1]@[0] as int, self.vpred@[1]@[1] as int)
    }
}

/// Whether the greatest value that an entry of the curve can be dithered to
/// is a sample of `bps` bits.
pub open spec fn entry_within(entry: (u16, u16, u16), bps: u32) -> bool {
    entry.1 as int + (entry.2 as int * 2047 + 1024) / 4096 <= max_sample(bps)
}

/// Whether every entry of the curve stays within the samples of `bps` bits.
pub open spec fn curve_within(curve: Seq<(u16, u16, u16)>, bps: u32) -> bool {
    forall|i: int| 0 <= i < curve.len() ==> entry_within(#[trigger] curve[i], bps)
}

/// Whether every sample is one of `bps` bits.
pub open spec fn samples_within(out: Seq<u16>, bps: u32) -> bool {
    forall|i: int| 0 <= i < out.len() ==> (#[trigger] out[i]) as int <= max_sample(bps)
}

/// A sample from a curve that stays within the bit depth is a sample of
/// that bit depth.
pub proof fn lemma_sample_within(curve: Seq<(u16, u16, u16)>, bps: u32, value: int, rand: u32)
    requires
        bps <= 16,
        curve_within(curve, bps),
    ensures
        0 <= sample_of(curve, bps, value, rand) as int <= max_sample(bps),
{
    assert(1 <= (1u32 << bps) <= 65536) by (bit_vector)
        requires
            bps <= 16,
    ;
    let at = clamp_sample(value, bps);
    if at < curve.len() {
        let entry = curve[at];
        assert(entry_within(entry, bps));
        let low = rand as int % 2048;
        let delta = entry.2 as int;
        assert(delta * low <= delta * 2047) by (nonlinear_arith)
            requires
                0 <= delta,
                0 <= low <= 2047,
        ;
        assert(0 <= delta * low) by (nonlinear_arith)
            requires
                0 <= delta,
                0 <= low,
        ;
    }
}

/// The decoder's variables.
struct DecodeRun {
    rand: u32,
    even0: i64,
    even1: i64,
    odd0: i64,
    odd1: i64,
    left0: i64,
    left1: i64,
    out: Vec<u16>,
    bad: bool,
}

/// Whether a predictor is what it can be after `steps` residuals.
spec fn within(value: i64, steps: int) -> bool {
    -65535 - steps * 0x4000_0000 <= value <= 65535 + steps * 0x4000_0000
}

impl DecodeRun {
    spec fn cursor(&self, pos: nat) -> Cursor {
        Cursor {
            pos,
            rand: self.rand,
            even: (self.even0 as int, self.even1 as int),
            odd: (self.odd0 as int, self.odd1 as int),
            left: (self.left0 as int, self.left1 as int),
            out: self.out@,
            bad: self.bad,
        }
    }

    spec fn heads_within(&self, steps: int) -> bool {
        &&& within(self.even0, steps)
        &&& within(self.even1, steps)
        &&& within(self.odd0, steps)
        &&& within(self.odd1, steps)
    }

    spec fn left_within(&self, steps: int) -> bool {
        within(self.left0, steps) && within(self.left1, steps)
    }

    /// Emits the sample of one predictor.
    fn emit(&mut self, curve: &LookupTable, bps: u32, value: i64)
        requires
            bps <= 16,
        ensures
            forall|pos: nat|
                final(self).cursor(pos) == emit(curve@, bps, old(self).cursor(pos), value as int),
            final(self).even0 == old(self).even0,
            final(self).even1 == old(self).even1,
            final(self).odd0 == old(self).odd0,
            final(self).odd1 == old(self).odd1,
            final(self).left0 == old(self).left0,
            final(self).left1 == old(self).left1,
            final(self).out@.len() == old(self).out@.len() + 1,
            curve_within(curve@, bps) && samples_within(old(self).out@, bps) ==> samples_within(
                final(self).out@,
                bps,
            ),
    {
        assert(1 <= (1u32 << bps) <= 65536) by (bit_vector)
            requires
                bps <= 16,
        ;
        let narrow: i32 = if value < 0 {
            -1
        } else if value > 65536 {
            65536
        } else {
            value as i32
        };
        let clamped = clampbits(narrow, bps);
        assert(clamped as int == clamp_sample(value as int, bps));
        proof {
            if curve_within(curve@, bps) {
                lemma_sample_within(curve@, bps, value as int, self.rand);
            }
        }
        let ghost before = self.out@;
        if (clamped as usize) < curve.table.len() {
            let sample = curve.dither(clamped, &mut self.rand);
            self.out.push(sample);
        } else {
            self.rand = step_rand(self.rand);
            self.out.push(0);
            self.bad = true;
        }
        assert(self.out@ =~= before.push(sample_of(curve@, bps, value as int, old(self).rand)));
    }
}

/// The random state that follows `rand`.
fn step_rand(rand: u32) -> (next: u32)
    ensures
        next == next_rand(rand),
{
    let low16 = rand & 65535;
    let high16 = rand >> 16;
    assert(low16 == rand % 65536 && high16 == rand / 65536) by (bit_vector)
        requires
            low16 == rand & 65535,
            high16 == rand >> 16,
    ;
    15700 * low16 + high16
}

/// Decodes two residuals.
fn decode_two(table: &HuffTable, pump: &mut BitPumpMSB<'_>) -> (got: (i32, i32))
    requires
        table.wf(),
        old(pump).wf(),
    ensures
        final(pump).wf(),
        final(pump)@.stream == old(pump)@.stream,
        got.0 as int == take_two(table@, old(pump)@.stream, old(pump)@.taken).0,
        got.1 as int == take_two(table@, old(pump)@.stream, old(pump)@.taken).1,
        final(pump)@.taken == take_two(table@, old(pump)@.stream, old(pump)@.taken).2,
        -32768 <= got.0 < 0x4000_0000,
        -32768 <= got.1 < 0x4000_0000,
{
    let one = table.huff_decode(pump);
    let two = table.huff_decode(pump);
    (one, two)
}

/// Decodes one row and appends its samples.
fn decode_row(
    table: &HuffTable,
    pump: &mut BitPumpMSB<'_>,
    run: &mut DecodeRun,
    curve: &LookupTable,
    bps: u32,
    width: usize,
    row: usize,
    Ghost(frame): Ghost<Frame>,
)
    requires
        table.wf(),
        table@ == table_for(frame, row as nat),
        frame.curve == curve@,
        frame.bps == bps,
        frame.width == width,
        frame.stream == old(pump)@.stream,
        bps <= 16,
        width <= MAX_IMAGE_SIDE,
        row < MAX_IMAGE_SIDE,
        old(pump).wf(),
        old(run).heads_within(row as int),
    ensures
        final(pump).wf(),
        final(pump)@.stream == old(pump)@.stream,
        final(run).cursor(final(pump)@.taken) == row_step(
            frame,
            old(run).cursor(old(pump)@.taken),
            row as nat,
        ),
        final(run).heads_within(row + 1),
        final(run).out@.len() == old(run).out@.len() + width,
        curve_within(curve@, bps) && samples_within(old(run).out@, bps) ==> samples_within(
            final(run).out@,
            bps,
        ),
{
    let ghost before = run.cursor(pump@.taken);
    let ghost length = run.out@.len();
    let (up0, up1) = decode_two(table, pump);
    if row % 2 == 0 {
        run.even0 = run.even0 + up0 as i64;
        run.even1 = run.even1 + up1 as i64;
        run.left0 = run.even0;
        run.left1 = run.even1;
    } else {
        run.odd0 = run.odd0 + up0 as i64;
        run.odd1 = run.odd1 + up1 as i64;
        run.left0 = run.odd0;
        run.left1 = run.odd1;
    }
    let ghost head = run.cursor(pump@.taken);
    assert(head == row_start(frame, before, row as nat));
    let pairs_per_row = width / 2;
    let mut pair: usize = 0;
    while pair < pairs_per_row
        invariant
            pair <= pairs_per_row,
            row < MAX_IMAGE_SIDE,
            width <= MAX_IMAGE_SIDE,
            pairs_per_row == width / 2,
            bps <= 16,
            frame.curve == curve@,
            frame.bps == bps,
            frame.stream == pump@.stream,
            table.wf(),
            table@ == table_for(frame, row as nat),
            pump.wf(),
            run.cursor(pump@.taken) == pairs(frame, head, row as nat, pair as nat),
            run.heads_within(row + 1),
            run.left_within(row + 1 + pair),
            run.out@.len() == length + 2 * pair,
            curve_within(curve@, bps) && samples_within(old(run).out@, bps) ==> samples_within(
                run.out@,
                bps,
            ),
        decreases pairs_per_row - pair,
    {
        let ghost at = run.cursor(pump@.taken);
        if pair > 0 {
            let (diff0, diff1) = decode_two(table, pump);
            run.left0 = run.left0 + diff0 as i64;
            run.left1 = run.left1 + diff1 as i64;
        }
        let ghost moved = run.cursor(pump@.taken);
        let value0 = run.left0;
        let value1 = run.left1;
        run.emit(curve, bps, value0);
        assert(run.cursor(pump@.taken) == emit(curve@, bps, moved, value0 as int));
        let ghost once = run.cursor(pump@.taken);
        run.emit(curve, bps, value1);
        assert(run.cursor(pump@.taken) == emit(curve@, bps, once, value1 as int));
        pair += 1;
        assert(run.cursor(pump@.taken) == pair_step(frame, at, row as nat, pair == 1));
    }
    if width % 2 == 1 {
        run.out.push(0);
        assert(1 <= (1u32 << bps)) by (bit_vector)
            requires
                bps <= 16,
        ;
    }
}

/// Decodes all rows. Gives the samples, and whether decoding failed: by a
/// predictor without an entry in the curve, or by running out of bits.
fn decode_rows(
    src: &[u8],
    width: usize,
    height: usize,
    state: &NikonDecoderState,
    first: &HuffTable,
    second: &Option<HuffTable>,
) -> (r: (Vec<u16>, bool, bool))
    requires
        width <= MAX_IMAGE_SIDE,
        height <= MAX_IMAGE_SIDE,
        state.bps <= 16,
        first.wf(),
        first@ == state.frame(src@, width as nat, height as nat).first,
        state.split > 0 ==> *second is Some && second->Some_0.wf() && second->Some_0@
            == state.frame(src@, width as nat, height as nat).second,
    ensures
        ({
            let end = rows(
                state.frame(src@, width as nat, height as nat),
                initial(src@, state.even(), state.odd()),
                height as nat,
            );
            &&& r.0@ == end.out
            &&& r.1 == end.bad
            &&& r.2 == (end.pos > 8 * src@.len())
        }),
        r.0@.len() == width * height,
        curve_within(state.curve@, state.bps) ==> samples_within(r.0@, state.bps),
{
    let ghost frame = state.frame(src@, width as nat, height as nat);
    let ghost start = initial(src@, state.even(), state.odd());
    let mut pump = BitPumpMSB::new(src);
    let seed = pump.peek_bits(24);
    let mut run = DecodeRun {
        rand: seed,
        even0: state.vpred[0][0] as i64,
        even1: state.vpred[0][1] as i64,
        odd0: state.vpred[1][0] as i64,
        odd1: state.vpred[1][1] as i64,
        left0: 0,
        left1: 0,
        out: Vec::new(),
        bad: false,
    };
    let mut row: usize = 0;
    assert(run.cursor(pump@.taken) == start);
    while row < height
        invariant
            row <= height <= MAX_IMAGE_SIDE,
            width <= MAX_IMAGE_SIDE,
            state.bps <= 16,
            frame == state.frame(src@, width as nat, height as nat),
            start == initial(src@, state.even(), state.odd()),
            first.wf(),
            first@ == frame.first,
            state.split > 0 ==> *second is Some && second->Some_0.wf() && second->Some_0@
                == frame.second,
            pump.wf(),
            pump@.stream == src@,
            run.cursor(pump@.taken) == rows(frame, start, row as nat),
            run.heads_within(row as int),
            run.out@.len() == row * width,
            curve_within(state.curve@, state.bps) ==> samples_within(run.out@, state.bps),
        decreases height - row,
    {
        let table: &HuffTable = match second {
            Some(after) => if state.split > 0 && row >= state.split {
                after
            } else {
                first
            },
            None => first,
        };
        decode_row(table, &mut pump, &mut run, &state.curve, state.bps, width, row, Ghost(frame));
        assert((row + 1) * width == row * width + width) by (nonlinear_arith);
        row += 1;
    }
    assert(height * width == width * height) by (nonlinear_arith);
    let underrun = pump.underrun();
    (run.out, run.bad, underrun)
}

/// Decodes a compressed strip into `width * height` samples, row by row.
///
/// Each row starts from the predictors of its parity, to which the first
/// two residuals of the row are added; each further pair of columns adds two
/// residuals to the pair before it. A predictor is clamped to the bit depth,
/// looked up in the curve and dithered. From the split row on the residuals
/// are decoded with the table that follows the selected one. The last column
/// of an image of odd width is not decoded and holds zero.
pub fn do_decode(src: &[u8], width: usize, height: usize, state: &NikonDecoderState) -> (r: Result<
    Vec<u16>,
    Error,
>)
    ensures
        match frame_error(
            width as int,
            height as int,
            state.bps,
            state.split as int,
            state.table_selector as int,
        ) {
            Some(e) => r == Err::<Vec<u16>, Error>(e),
            None => match spec_decode(
                state.frame(src@, width as nat, height as nat),
                state.even(),
                state.odd(),
            ) {
                Ok(samples) => r is Ok && r->Ok_0@ == samples && samples.len() == width * height,
                Err(e) => r == Err::<Vec<u16>, Error>(e),
            },
        },
        r is Ok && curve_within(state.curve@, state.bps) ==> samples_within(r->Ok_0@, state.bps),
        r is Ok ==> state.split == 0 || state.split < height,
{
    if !image_size_ok(width, height) || state.bps > 16 || (state.split > 0 && state.split
        >= height) {
        return Err(Error::OutOfRange);
    }
    let first = match create_hufftable(state.table_selector) {
        Ok(table) => table,
        Err(e) => {
            return Err(e);
        },
    };
    let second: Option<HuffTable> = if state.split > 0 {
        match create_hufftable(state.table_selector + 1) {
            Ok(table) => Some(table),
            Err(e) => {
                return Err(e);
            },
        }
    } else {
        None
    };
    let (out, bad, underrun) = decode_rows(src, width, height, state, &first, &second);
    if underrun {
        Err(Error::BitPumpUnderrun)
    } else if bad {
        Err(Error::OutOfRange)
    } else {
        Ok(out)
    }
}

} // verus!
