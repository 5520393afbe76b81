//! The linearisation curve and its dither.
//!
//! The sensor's samples are stored through a curve: a table of points that
//! maps a stored value to a linear one. Between neighbouring points the
//! decoder spreads the result with a small deterministic noise, so that the
//! steps of the curve do not show as bands.

use crate::error::Error;
use vstd::prelude::*;

verus! {

/// The largest sample of `bits` bits.
pub open spec fn max_sample(bits: u32) -> int {
    (1u32 << bits) as int - 1
}

/// `val` brought into the range of samples of `bits` bits.
pub open spec fn clamp_sample(val: int, bits: u32) -> int {
    if val < 0 {
        0
    } else if val > max_sample(bits) {
        max_sample(bits)
    } else {
        val
    }
}

/// Clamps a predictor to the samples of `bits` bits.
pub fn clampbits(val: i32, bits: u32) -> (r: u16)
    requires
        bits <= 16,
    ensures
        r as int == clamp_sample(val as int, bits),
        0 <= r as int <= max_sample(bits),
{
    assert(1 <= (1u32 << bits) <= 65536) by (bit_vector)
        requires
            bits <= 16,
    ;
    let max: u32 = (1u32 << bits) - 1;
    if val < 0 {
        0
    } else if val as u32 > max {
        max as u16
    } else {
        val as u16
    }
}

/// The point below `i`, or the point at `i` where there is none below.
pub open spec fn curve_lower(points: Seq<u16>, i: int) -> int {
    if i > 0 {
        points[i - 1] as int
    } else {
        points[i] as int
    }
}

/// The point above `i`, or the point at `i` where there is none above.
pub open spec fn curve_upper(points: Seq<u16>, i: int) -> int {
    if i < points.len() - 1 {
        points[i + 1] as int
    } else {
        points[i] as int
    }
}

/// How far the neighbours of point `i` lie apart.
pub open spec fn curve_delta(points: Seq<u16>, i: int) -> int {
    curve_upper(points, i) - curve_lower(points, i)
}

/// The least value that point `i` is dithered to.
pub open spec fn curve_base(points: Seq<u16>, i: int) -> int {
    if points[i] == 0 {
        0
    } else {
        points[i] as int - (curve_delta(points, i) + 2) / 4
    }
}

/// Whether point `i` gives a table entry: its neighbours do not descend,
/// and its base does not fall below zero.
pub open spec fn curve_point_ok(points: Seq<u16>, i: int) -> bool {
    curve_delta(points, i) >= 0 && curve_base(points, i) >= 0
}

/// Whether every point gives a table entry.
pub open spec fn curve_ok(points: Seq<u16>) -> bool {
    forall|i: int| 0 <= i < points.len() ==> curve_point_ok(points, i)
}

/// The table entry of point `i`: the point, its base and its delta.
pub open spec fn curve_entry(points: Seq<u16>, i: int) -> (u16, u16, u16) {
    (points[i], curve_base(points, i) as u16, curve_delta(points, i) as u16)
}

/// The table of a curve.
pub open spec fn curve_table(points: Seq<u16>) -> Seq<(u16, u16, u16)> {
    Seq::new(points.len(), |i: int| curve_entry(points, i))
}

/// The dithered value of a table entry before it is cut to 16 bits: the
/// base plus a share of the delta that the low eleven bits of `rand` pick.
pub open spec fn dither_sum(entry: (u16, u16, u16), rand: u32) -> int {
    entry.1 as int + (entry.2 as int * (rand as int % 2048) + 1024) / 4096
}

/// The dithered value of a table entry.
pub open spec fn dither_sample(entry: (u16, u16, u16), rand: u32) -> u16 {
    (dither_sum(entry, rand) % 65536) as u16
}

/// The random state that follows `rand`.
pub open spec fn next_rand(rand: u32) -> u32 {
    (15700 * (rand as int % 65536) + rand as int / 65536) as u32
}

/// A linearisation curve as a table of `(center, base, delta)`.
#[derive(Debug, Clone)]
pub struct LookupTable {
    pub table: Vec<(u16, u16, u16)>,
}

impl View for LookupTable {
    type V = Seq<(u16, u16, u16)>;

    open spec fn view(&self) -> Seq<(u16, u16, u16)> {
        self.table@
    }
}

/// Whether the points of a curve give a table.
pub fn curve_is_valid(table: &[u16]) -> (r: bool)
    ensures
        r == curve_ok(table@),
{
    let n = table.len();
    let mut i: usize = 0;
    while i < n
        invariant
            i <= n,
            n == table@.len(),
            forall|k: int| 0 <= k < i ==> curve_point_ok(table@, k),
        decreases n - i,
    {
        let center = table[i];
        let lower = if i > 0 {
            table[i - 1]
        } else {
            center
        };
        let upper = if i < n - 1 {
            table[i + 1]
        } else {
            center
        };
        if upper < lower {
            assert(!curve_point_ok(table@, i as int));
            return false;
        }
        if center != 0 && (center as u32) < (upper as u32 - lower as u32 + 2) / 4 {
            assert(!curve_point_ok(table@, i as int));
            return false;
        }
        assert(curve_point_ok(table@, i as int));
        i += 1;
    }
    true
}

impl LookupTable {
    /// Builds the table of a curve: for each point its value, the least
    /// value it is dithered to, and the distance of its neighbours.
    pub fn new(table: &[u16]) -> (r: LookupTable)
        requires
            curve_ok(table@),
        ensures
            r@ == curve_table(table@),
    {
        let n = table.len();
        let mut tbl: Vec<(u16, u16, u16)> = Vec::new();
        let mut i: usize = 0;
        while i < n
            invariant
                i <= n,
                n == table@.len(),
                curve_ok(table@),
                tbl@.len() == i,
                forall|k: int| 0 <= k < i ==> tbl@[k] == curve_entry(table@, k),
            decreases n - i,
        {
            let center = table[i];
            let lower = if i > 0 {
                table[i - 1]
            } else {
                center
            };
            let upper = if i < n - 1 {
                table[i + 1]
            } else {
                center
            };
            assert(curve_point_ok(table@, i as int));
            let delta = upper - lower;
            let base = if center == 0 {
                0
            } else {
                center - ((delta as u32 + 2) / 4) as u16
            };
            tbl.push((center, base, delta));
            i += 1;
        }
        assert(tbl@ =~= curve_table(table@));
        LookupTable { table: tbl }
    }

    /// Builds the table of a curve, or reports that a point has no entry
    /// of 16-bit fields: its neighbours descend, or its base would be negative.
    pub fn checked(table: &[u16]) -> (r: Result<LookupTable, Error>)
        ensures
            match r {
                Ok(curve) => curve_ok(table@) && curve@ == curve_table(table@),
                Err(e) => e == Error::OutOfRange && !curve_ok(table@),
            },
    {
        if curve_is_valid(table) {
            Ok(LookupTable::new(table))
        } else {
            Err(Error::OutOfRange)
        }
    }

    /// Looks `value` up and dithers it: the result is the entry's base plus
    /// a share of its delta picked by `rand`, cut to 16 bits. `rand` moves on
    /// to its successor, which depends on `rand` alone.
    pub fn dither(&self, value: u16, rand: &mut u32) -> (r: u16)
        requires
            (value as int) < self@.len(),
        ensures
            r == dither_sample(self@[value as int], *old(rand)),
            *final(rand) == next_rand(*old(rand)),
    {
        let (_, sbase, sdelta) = self.table[value as usize];
        let base = sbase as u32;
        let delta = sdelta as u32;
        let seed = *rand;
        let low = seed & 2047;
        assert(low == seed % 2048) by (bit_vector)
            requires
                low == seed & 2047,
        ;
        assert(delta * low + 1024 <= 65535 * 2047 + 1024) by (nonlinear_arith)
            requires
                delta <= 65535,
                low <= 2047,
        ;
        let scaled = delta * low + 1024;
        let share = scaled >> 12;
        assert(share == scaled / 4096) by (bit_vector)
            requires
                share == scaled >> 12,
        ;
        let pixel = base + share;
        let cut = pixel & 0xffff;
        assert(cut == pixel % 65536) by (bit_vector)
            requires
                cut == pixel & 0xffff,
        ;
        let low16 = seed & 65535;
        let high16 = seed >> 16;
        assert(low16 == seed % 65536 && high16 == seed / 65536) by (bit_vector)
            requires
                low16 == seed & 65535,
                high16 == seed >> 16,
        ;
        *rand = 15700 * low16 + high16;
        cut as u16
    }
}

/// Dithering is a function of the curve, the value and the random state:
/// two calls that agree in these agree in the sample they give and in the
/// state they leave. The state that a call leaves depends on the state before
/// it alone: a call on another curve or another value leaves the same state.
pub proof fn lemma_dither_is_pure(
    curve: Seq<(u16, u16, u16)>,
    value: u16,
    rand: u32,
    first: (u16, u32),
    second: (u16, u32),
    other_curve: Seq<(u16, u16, u16)>,
    other_value: u16,
    third: (u16, u32),
)
    requires
        (value as int) < curve.len(),
        (other_value as int) < other_curve.len(),
        first == (dither_sample(curve[value as int], rand), next_rand(rand)),
        second == (dither_sample(curve[value as int], rand), next_rand(rand)),
        third == (dither_sample(other_curve[other_value as int], rand), next_rand(rand)),
    ensures
        first == second,
        third.1 == first.1,
{
}

} // verus!
