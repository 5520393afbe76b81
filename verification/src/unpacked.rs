//! Images whose samples are stored unpacked, two bytes each.

use crate::utils::{le_read_u16, spec_le_u16};
use vstd::prelude::*;

verus! {

/// The widest and the tallest image that is allocated.
pub const MAX_IMAGE_SIDE: usize = 50000;

/// The largest number of samples that is allocated.
pub const MAX_IMAGE_SAMPLES: usize = 500000000;

/// Whether an image of this size is allocated: no sensor is wider or taller
/// than 50000 cells, or has more than 500 million of them.
pub open spec fn image_fits(width: int, height: int) -> bool {
    width <= MAX_IMAGE_SIDE && height <= MAX_IMAGE_SIDE && width * height <= MAX_IMAGE_SAMPLES
}

/// Whether an image of this size is allocated.
pub fn image_size_ok(width: usize, height: usize) -> (ok: bool)
    ensures
        ok == image_fits(width as int, height as int),
{
    if width > MAX_IMAGE_SIDE || height > MAX_IMAGE_SIDE {
        return false;
    }
    assert(width * height <= 50000 * 50000) by (nonlinear_arith)
        requires
            width <= 50000,
            height <= 50000,
    ;
    (width as u64) * (height as u64) <= MAX_IMAGE_SAMPLES as u64
}

/// The little-endian 16-bit integer at `pos`.
#[allow(non_snake_case)]
pub fn LEu16(buf: &[u8], pos: usize) -> (value: u16)
    requires
        pos + 2 <= buf@.len(),
    ensures
        value as int == spec_le_u16(buf@, pos as int),
{
    let len = buf.len();
    le_read_u16(&buf[pos..pos + 2])
}

/// The place in the output of the cell in `row` and `col` of the input: the
/// rows are handed out from the last row of the output to the first.
pub open spec fn flipped_index(width: int, height: int, row: int, col: int) -> int {
    (height - 1 - row) * width + col
}

proof fn lemma_cell_index(width: int, height: int, row: int, col: int)
    requires
        0 <= row < height,
        0 <= col < width,
    ensures
        0 <= row * width + col < width * height,
        0 <= flipped_index(width, height, row, col) < width * height,
        flipped_index(width, height, row, col) == width * height - (row + 1) * width + col,
{
    assert(row * width + col < width * height) by (nonlinear_arith)
        requires
            0 <= row < height,
            0 <= col < width,
    ;
    assert(0 <= row * width) by (nonlinear_arith)
        requires
            0 <= row,
            0 <= width,
    ;
    assert((height - 1 - row) * width == width * height - (row + 1) * width) by (nonlinear_arith);
    assert((row + 1) * width <= width * height) by (nonlinear_arith)
        requires
            0 <= row < height,
            0 <= width,
    ;
    assert(0 <= (height - 1 - row) * width) by (nonlinear_arith)
        requires
            row < height,
            0 <= width,
    ;
    assert((height - 1 - row) * width + width <= width * height) by (nonlinear_arith)
        requires
            0 <= row < height,
            0 <= width,
    ;
}

/// Fills an image cell by cell from `closure`, which is asked for the cell
/// in `row` and `col`. The rows that the closure is asked for are laid out
/// from the end of the image: row 0 becomes the last row. With `dummy` set no
/// image is made, and a single zero is returned.
pub fn decode_threaded<F: Fn(usize, usize) -> u16>(
    width: usize,
    height: usize,
    dummy: bool,
    closure: &F,
) -> (out: Vec<u16>)
    requires
        image_fits(width as int, height as int),
        dummy || width > 0,
        !dummy ==> forall|row: usize, col: usize|
            row < height && col < width ==> #[trigger] closure.requires((row, col)),
    ensures
        dummy ==> out@ == seq![0u16],
        !dummy ==> out@.len() == width * height,
        !dummy ==> forall|row: usize, col: usize|
            row < height && col < width ==> closure.ensures(
                (row, col),
                #[trigger] out@[flipped_index(width as int, height as int, row as int, col as int)],
            ),
{
    if dummy {
        let mut out: Vec<u16> = Vec::new();
        out.push(0);
        assert(out@ =~= seq![0u16]);
        return out;
    }
    let mut out: Vec<u16> = Vec::new();
    let mut done: usize = 0;
    while done < height
        invariant
            done <= height,
            width > 0,
            image_fits(width as int, height as int),
            out@.len() == done * width,
            forall|row: usize, col: usize|
                row < height && col < width ==> #[trigger] closure.requires((row, col)),
            forall|row: usize, col: usize|
                height - done <= row < height && col < width ==> closure.ensures(
                    (row, col),
                    #[trigger] out@[flipped_index(
                        width as int,
                        height as int,
                        row as int,
                        col as int,
                    )],
                ),
        decreases height - done,
    {
        // The rows of the output are made from its first to its last, so the
        // row that the closure is asked for runs from the last to the first.
        let row = height - 1 - done;
        let ghost before = out@;
        let mut col: usize = 0;
        while col < width
            invariant
                col <= width,
                row < height,
                out@.len() == before.len() + col,
                forall|k: int| 0 <= k < before.len() ==> out@[k] == before[k],
                forall|row: usize, col: usize|
                    row < height && col < width ==> #[trigger] closure.requires((row, col)),
                forall|c: usize|
                    c < col ==> closure.ensures((row, c), #[trigger] out@[before.len() + c]),
            decreases width - col,
        {
            let sample = closure(row, col);
            out.push(sample);
            col += 1;
        }
        proof {
            assert((done + 1) * width == done * width + width) by (nonlinear_arith);
            assert forall|r: usize, c: usize|
                height - (done + 1) <= r < height && c < width implies closure.ensures(
                (r, c),
                #[trigger] out@[flipped_index(width as int, height as int, r as int, c as int)],
            ) by {
                let at = flipped_index(width as int, height as int, r as int, c as int);
                if r == row {
                    assert(at == before.len() + c);
                } else {
                    assert((height - 1 - r) * width + width <= done * width) by (nonlinear_arith)
                        requires
                            height - 1 - r < done,
                            width > 0,
                    ;
                    assert(0 <= (height - 1 - r) * width) by (nonlinear_arith)
                        requires
                            r < height,
                            width > 0,
                    ;
                    assert(out@[at] == before[at]);
                }
            }
        }
        done += 1;
    }
    assert(height * width == width * height) by (nonlinear_arith);
    out
}

/// The sample in `row` and `col` of an image of 14-bit samples stored two
/// bytes each, low byte first: the low fourteen bits of the two bytes, or
/// zero where the buffer ends before them.
pub open spec fn unpacked_sample(buf: Seq<u8>, width: int, row: int, col: int) -> int {
    if 2 * (row * width + col) + 2 <= buf.len() {
        spec_le_u16(buf, 2 * (row * width + col)) % 16384
    } else {
        0
    }
}

/// Whether every row of an image starts inside the buffer.
pub open spec fn rows_start_inside(buf: Seq<u8>, width: int, height: int) -> bool {
    height > 0 ==> 2 * ((height - 1) * width) <= buf.len()
}

/// Reads an image of 14-bit samples stored two bytes each. The rows of the
/// buffer are laid out from the end of the image: row 0 of the buffer is the
/// last row of the image. Where the buffer ends inside a row, the rest of the
/// row is zero. With `dummy` set a single zero is returned.
pub fn decode_14le_unpacked(buf: &[u8], width: usize, height: usize, dummy: bool) -> (out: Vec<u16>)
    requires
        image_fits(width as int, height as int),
        dummy || width > 0,
        dummy || rows_start_inside(buf@, width as int, height as int),
    ensures
        dummy ==> out@ == seq![0u16],
        !dummy ==> out@.len() == width * height,
        !dummy ==> forall|row: int, col: int|
            0 <= row < height && 0 <= col < width ==> (#[trigger] out@[flipped_index(
                width as int,
                height as int,
                row,
                col,
            )]) as int == unpacked_sample(buf@, width as int, row, col),
{
    let len = buf.len();
    let closure = |row: usize, col: usize| -> (sample: u16)
        requires
            row < height,
            col < width,
            image_fits(width as int, height as int),
            len == buf@.len(),
        ensures
            sample as int == unpacked_sample(buf@, width as int, row as int, col as int),
        {
            proof {
                lemma_cell_index(width as int, height as int, row as int, col as int);
            }
            let at = 2 * (row * width + col);
            if len >= 2 && at <= len - 2 {
                let value = LEu16(buf, at);
                let low = value & 0x3fff;
                assert(low == value % 16384) by (bit_vector)
                    requires
                        low == value & 0x3fff,
                ;
                low
            } else {
                0
            }
        };
    let out = decode_threaded(width, height, dummy, &closure);
    proof {
        if !dummy {
            assert forall|row: int, col: int| 0 <= row < height && 0 <= col < width implies (
            #[trigger] out@[flipped_index(width as int, height as int, row, col)]) as int
                == unpacked_sample(buf@, width as int, row, col) by {
                assert(closure.ensures(
                    (row as usize, col as usize),
                    out@[flipped_index(
                        width as int,
                        height as int,
                        row as usize as int,
                        col as usize as int,
                    )],
                ));
            }
        }
    }
    out
}

} // verus!
