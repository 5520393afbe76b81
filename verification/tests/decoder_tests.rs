use nef_decoder::curve::LookupTable;
use nef_decoder::decoder::{do_decode, parse_decoder_state, NikonDecoderState};
use nef_decoder::error::Error;

fn identity(len: u16) -> LookupTable {
    let points: Vec<u16> = (0..len).collect();
    LookupTable::new(&points)
}

fn state(bps: u32, vpred: [[u16; 2]; 2], split: usize, selector: usize, curve: LookupTable) -> NikonDecoderState {
    NikonDecoderState { version: (0x46, 0x30), vpred, bps, split, table_selector: selector, curve }
}

#[test]
fn flat_curve_gives_its_point_for_every_sample() {
    // four residuals of zero, each the code 11110 of the 12-bit lossy table
    let src = [247u8, 189, 224];
    let st = state(12, [[0, 0], [0, 0]], 0, 0, LookupTable::new(&[42]));
    assert_eq!(do_decode(&src, 2, 2, &st), Ok(vec![42, 42, 42, 42]));
}

#[test]
fn predictors_run_along_the_row_and_down_the_columns() {
    // residuals 10 20 | 20 20 in each of two rows, 12-bit lossless table
    let src = [84u8, 80, 161, 69, 69, 10, 20];
    let st = state(12, [[0, 0], [0, 0]], 0, 2, identity(4096));
    assert_eq!(do_decode(&src, 4, 2, &st), Ok(vec![9, 19, 29, 40, 10, 19, 29, 39]));
}

#[test]
fn rows_of_one_parity_share_their_predictors() {
    // rows 0 and 2 start from the even predictors, row 1 from the odd ones
    let src = [153u8, 46, 71, 190, 21, 75, 248, 0, 0];
    let st = state(14, [[1000, 1000], [2000, 2000]], 0, 3, identity(16384));
    assert_eq!(do_decode(&src, 2, 3, &st), Ok(vec![1100, 1199, 2001, 1999, 1120, 1159]));
}

#[test]
fn split_row_switches_the_table() {
    let src = [187u8, 167, 231, 224, 0, 0];
    let plain = state(12, [[100, 100], [100, 100]], 0, 0, identity(4096));
    let split = state(12, [[100, 100], [100, 100]], 1, 0, identity(4096));
    let whole = do_decode(&src, 2, 2, &plain).unwrap();
    let switched = do_decode(&src, 2, 2, &split).unwrap();
    assert_eq!(whole, vec![103, 104, 130, 162]);
    assert_eq!(switched, vec![103, 104, 162, 162]);
    // the rows before the split row agree, the split row does not
    assert_eq!(whole[..2], switched[..2]);
    assert_ne!(whole[2..], switched[2..]);
}

#[test]
fn split_row_in_a_taller_image() {
    let src = [153u8, 46, 71, 190, 21, 75, 248, 0, 0];
    let split = state(14, [[1000, 1000], [2000, 2000]], 2, 3, identity(16384));
    assert_eq!(do_decode(&src, 2, 3, &split), Ok(vec![1100, 1199, 2001, 1999, 1269, 1326]));
}

#[test]
fn split_row_must_be_a_row_of_the_image() {
    let src = [187u8, 167, 231, 224, 0, 0];
    for split in [2usize, 3, 1000] {
        let st = state(12, [[100, 100], [100, 100]], split, 0, identity(4096));
        assert_eq!(do_decode(&src, 2, 2, &st), Err(Error::OutOfRange));
    }
    let st = state(12, [[100, 100], [100, 100]], 1, 0, identity(4096));
    assert!(do_decode(&src, 2, 2, &st).is_ok());
    assert_eq!(do_decode(&src, 2, 1, &st), Err(Error::OutOfRange));
    assert_eq!(do_decode(&src, 2, 0, &st), Err(Error::OutOfRange));
}

#[test]
fn split_needs_the_table_behind_the_selected_one() {
    let src = [0u8; 16];
    let st = state(14, [[0, 0], [0, 0]], 1, 5, identity(16384));
    assert_eq!(do_decode(&src, 2, 2, &st), Err(Error::OutOfRange));
    let st = state(14, [[0, 0], [0, 0]], 0, 6, identity(16384));
    assert_eq!(do_decode(&src, 2, 2, &st), Err(Error::OutOfRange));
    let st = state(14, [[0, 0], [0, 0]], 0, 5, identity(16384));
    assert!(do_decode(&src, 2, 2, &st).is_ok());
}

#[test]
fn last_column_of_an_odd_width_is_not_decoded() {
    // four residuals: one pair in each of two rows; the third column holds zero
    let src = [84u8, 82, 124, 0, 0];
    let st = state(12, [[0, 0], [0, 0]], 0, 2, identity(4096));
    assert_eq!(do_decode(&src, 3, 2, &st), Ok(vec![9, 19, 0, 6, 0, 0]));
    let src = [185u8, 55, 35, 158, 30, 76, 208, 0];
    let st = state(12, [[1000, 2000], [0, 0]], 0, 2, identity(4096));
    assert_eq!(do_decode(&src, 5, 1, &st), Ok(vec![1100, 2200, 1100, 2198, 0]));
    // a single column: the two residuals at the head of the row are decoded, nothing is emitted
    assert_eq!(do_decode(&src, 1, 1, &st), Ok(vec![0]));
}

#[test]
fn predictors_are_clamped_to_the_bit_depth() {
    let src = [139u8, 255, 208, 123, 192, 0];
    let st = state(12, [[0, 1000], [0, 5000]], 0, 2, identity(4096));
    assert_eq!(do_decode(&src, 2, 2, &st), Ok(vec![0, 4095, 0, 4095]));
}

#[test]
fn samples_of_fourteen_bits() {
    let src = [254u8, 250, 7, 247, 233, 3, 111, 32, 0];
    let st = state(14, [[0, 0], [0, 0]], 0, 5, identity(16384));
    assert_eq!(do_decode(&src, 4, 1, &st), Ok(vec![7999, 8100, 7900, 8299]));
}

#[test]
fn strip_that_ends_early_is_an_underrun() {
    let st = state(12, [[0, 0], [0, 0]], 0, 2, identity(4096));
    assert_eq!(do_decode(&[84, 80], 4, 2, &st), Err(Error::BitPumpUnderrun));
    assert_eq!(do_decode(&[], 2, 1, &st), Err(Error::BitPumpUnderrun));
    // the strip of 56 bits is consumed to its last bit
    let src = [84u8, 80, 161, 69, 69, 10, 20];
    assert!(do_decode(&src, 4, 2, &st).is_ok());
    assert_eq!(do_decode(&src[..6], 4, 2, &st), Err(Error::BitPumpUnderrun));
}

#[test]
fn predictor_behind_the_curve_is_out_of_range() {
    // residual 5 against a curve of one point
    let src = [119u8, 192, 0];
    let st = state(12, [[0, 0], [0, 0]], 0, 0, LookupTable::new(&[42]));
    assert_eq!(do_decode(&src, 2, 1, &st), Err(Error::OutOfRange));
}

#[test]
fn image_without_samples() {
    let st = state(12, [[0, 0], [0, 0]], 0, 2, identity(4096));
    assert_eq!(do_decode(&[1, 2, 3], 4, 0, &st), Ok(vec![]));
    assert_eq!(do_decode(&[], 0, 0, &st), Ok(vec![]));
    // rows without columns still take their two residuals
    assert_eq!(do_decode(&[0xF7, 0xBD, 0xE0], 0, 2, &st), Ok(vec![]));
    assert_eq!(do_decode(&[], 0, 2, &st), Err(Error::BitPumpUnderrun));
}

#[test]
fn image_larger_than_a_sensor_is_refused() {
    let st = state(12, [[0, 0], [0, 0]], 0, 2, identity(4096));
    assert_eq!(do_decode(&[0; 8], 50001, 1, &st), Err(Error::OutOfRange));
    assert_eq!(do_decode(&[0; 8], 1, 50001, &st), Err(Error::OutOfRange));
    assert_eq!(do_decode(&[0; 8], 25001, 20000, &st), Err(Error::OutOfRange));
    assert_eq!(do_decode(&[0; 8], usize::MAX, usize::MAX, &st), Err(Error::OutOfRange));
    let deep = state(17, [[0, 0], [0, 0]], 0, 2, identity(4096));
    assert_eq!(do_decode(&[0; 8], 2, 2, &deep), Err(Error::OutOfRange));
}

#[test]
fn decoding_twice_gives_the_same_samples() {
    let src = [254u8, 250, 7, 247, 233, 3, 111, 32, 0];
    let st = state(14, [[0, 0], [0, 0]], 0, 5, identity(16384));
    let first = do_decode(&src, 4, 1, &st);
    let second = do_decode(&src, 4, 1, &st);
    assert_eq!(first, second);
}

#[test]
fn samples_stay_within_the_bit_depth() {
    let src = [139u8, 255, 208, 123, 192, 0];
    let st = state(12, [[4000, 4095], [65535, 65535]], 0, 2, identity(4096));
    let samples = do_decode(&src, 2, 2, &st).unwrap();
    assert_eq!(samples.len(), 4);
    for sample in samples {
        assert!(sample <= 4095);
    }
}

#[test]
fn decoder_state_of_a_stored_curve() {
    let blob = [0x49u8, 0x58, 1, 0, 2, 0, 3, 0, 4, 0, 1, 0, 42, 0];
    let st = parse_decoder_state(&blob, 12).unwrap();
    assert_eq!(st.version, (0x49, 0x58));
    assert_eq!(st.vpred, [[1, 2], [3, 4]]);
    assert_eq!(st.bps, 12);
    assert_eq!(st.split, 0);
    assert_eq!(st.table_selector, 0);
    assert_eq!(st.curve.table, vec![(42, 42, 0)]);
    let st = parse_decoder_state(&blob, 14).unwrap();
    assert_eq!(st.table_selector, 3);
    assert_eq!(st.bps, 14);
}

#[test]
fn decoder_state_with_its_own_curve_decodes() {
    let blob = [0x49u8, 0x58, 0, 0, 0, 0, 0, 0, 0, 0, 1, 0, 42, 0];
    let st = parse_decoder_state(&blob, 12).unwrap();
    assert_eq!(do_decode(&[247, 189, 224], 2, 2, &st), Ok(vec![42, 42, 42, 42]));
}

#[test]
fn decoder_state_without_a_stored_curve() {
    let blob = [0x46u8, 0x30, 0, 8, 0, 8, 0, 8, 0, 8, 34, 0];
    let st = parse_decoder_state(&blob, 12).unwrap();
    assert_eq!(st.table_selector, 2);
    assert_eq!(st.vpred, [[0x800, 0x800], [0x800, 0x800]]);
    assert_eq!(st.curve.table.len(), 4096);
    assert_eq!(st.curve.table[0], (0, 0, 1));
    assert_eq!(st.curve.table[1], (1, 0, 2));
    assert_eq!(st.curve.table[100], (100, 99, 2));
    assert_eq!(st.curve.table[4095], (4095, 4095, 1));
    let st = parse_decoder_state(&blob, 14).unwrap();
    assert_eq!(st.table_selector, 5);
    assert_eq!(st.curve.table.len(), 16384);
}

#[test]
fn curve_is_cut_behind_its_last_change() {
    let mut blob = vec![0x49u8, 0x58, 0, 0, 0, 0, 0, 0, 0, 0, 5, 0];
    for point in [0u16, 5, 9, 9, 9] {
        blob.extend_from_slice(&point.to_le_bytes());
    }
    let st = parse_decoder_state(&blob, 12).unwrap();
    assert_eq!(st.curve.table, vec![(0, 0, 5), (5, 3, 9), (9, 8, 4)]);
    // never below two points
    let mut flat = vec![0x49u8, 0x58, 0, 0, 0, 0, 0, 0, 0, 0, 4, 0];
    for _ in 0..4 {
        flat.extend_from_slice(&7u16.to_le_bytes());
    }
    let st = parse_decoder_state(&flat, 12).unwrap();
    assert_eq!(st.curve.table, vec![(7, 7, 0), (7, 7, 0)]);
}

#[test]
fn split_row_is_read_from_the_blob() {
    let mut blob = vec![0u8; 564];
    blob[0] = 0x44;
    blob[1] = 0x40;
    blob[10] = 1;
    blob[12] = 9;
    blob[562] = 0x34;
    blob[563] = 0x12;
    let st = parse_decoder_state(&blob, 14).unwrap();
    assert_eq!(st.split, 0x1234);
    assert_eq!(st.table_selector, 3);
    assert_eq!(st.curve.table, vec![(9, 9, 0)]);
    assert_eq!(parse_decoder_state(&blob[..563], 14).unwrap_err(), Error::OutOfRange);
    // the same bytes under a version without a split row
    blob[0] = 0x49;
    assert_eq!(parse_decoder_state(&blob, 14).unwrap().split, 0);
    // with no points stored, a quarter of the entries that the bit depth asks for
    blob[0] = 0x44;
    blob[10] = 0x02;
    blob[11] = 0x40;
    assert_eq!(parse_decoder_state(&blob, 14).unwrap().curve.table.len(), 4096);
    assert_eq!(parse_decoder_state(&blob, 12).unwrap().curve.table.len(), 1024);
    blob[1] = 0x20;
    blob[10] = 1;
    blob[11] = 0;
    assert_eq!(parse_decoder_state(&blob, 12).unwrap().split, 0x1234);
}

#[test]
fn interpolated_curve_is_unsupported() {
    let mut blob = vec![0u8; 600];
    blob[0] = 0x44;
    blob[1] = 0x20;
    blob[10] = 2;
    assert_eq!(parse_decoder_state(&blob, 12).unwrap_err(), Error::UnsupportedVersion(0x44, 0x20));
    // 4097 samples for 4096 entries: the largest count that is interpolated
    blob[10] = 0x01;
    blob[11] = 0x10;
    assert_eq!(parse_decoder_state(&blob, 12).unwrap_err(), Error::UnsupportedVersion(0x44, 0x20));
    // one more, and the step is zero: the points are read one by one
    blob[10] = 0x02;
    assert_eq!(parse_decoder_state(&blob, 12).unwrap_err(), Error::OutOfRange);
    // the version alone tells it before the length of the blob does
    assert_eq!(
        parse_decoder_state(&[0x44, 0x20, 0, 0, 0, 0, 0, 0, 0, 0, 2, 0], 12).unwrap_err(),
        Error::UnsupportedVersion(0x44, 0x20)
    );
}

#[test]
fn decoder_state_refuses_what_it_cannot_read() {
    let blob = [0x49u8, 0x58, 0, 0, 0, 0, 0, 0, 0, 0, 1, 0, 42, 0];
    assert_eq!(parse_decoder_state(&blob[..11], 12).unwrap_err(), Error::OutOfRange);
    assert_eq!(parse_decoder_state(&blob[..13], 12).unwrap_err(), Error::OutOfRange);
    assert_eq!(parse_decoder_state(&[], 12).unwrap_err(), Error::OutOfRange);
    for bps in [0u16, 8, 10, 13, 15, 16, 32, 0xffff] {
        assert_eq!(parse_decoder_state(&blob, bps).unwrap_err(), Error::OutOfRange);
    }
    // a curve that descends
    let descending = [0x49u8, 0x58, 0, 0, 0, 0, 0, 0, 0, 0, 2, 0, 9, 0, 3, 0];
    assert_eq!(parse_decoder_state(&descending, 12).unwrap_err(), Error::OutOfRange);
}

#[test]
fn odd_width_is_the_narrower_image_with_a_zero_column() {
    let cases: [(&[u8], usize, usize, u32, [[u16; 2]; 2], usize); 4] = [
        (&[84, 82, 124, 0, 0], 3, 2, 12, [[0, 0], [0, 0]], 2),
        (&[185, 55, 35, 158, 30, 76, 208, 0], 5, 1, 12, [[1000, 2000], [0, 0]], 2),
        (&[153, 46, 71, 190, 21, 75, 248, 0, 0], 3, 3, 14, [[1000, 1000], [2000, 2000]], 3),
        (&[84, 80, 161, 69, 69, 10, 20], 5, 2, 12, [[0, 0], [0, 0]], 2),
    ];
    for (src, width, height, bps, vpred, selector) in cases {
        let len = if bps == 12 { 4096 } else { 16384 };
        let wide = do_decode(src, width, height, &state(bps, vpred, 0, selector, identity(len))).unwrap();
        let slim = do_decode(src, width - 1, height, &state(bps, vpred, 0, selector, identity(len))).unwrap();
        assert_eq!(wide.len(), width * height);
        assert_eq!(slim.len(), (width - 1) * height);
        for row in 0..height {
            assert_eq!(wide[row * width..row * width + width - 1], slim[row * (width - 1)..(row + 1) * (width - 1)]);
            assert_eq!(wide[row * width + width - 1], 0);
        }
    }
    // both fail alike where the strip ends early
    let st = state(12, [[0, 0], [0, 0]], 0, 2, identity(4096));
    assert_eq!(do_decode(&[84, 80], 5, 2, &st), Err(Error::BitPumpUnderrun));
    assert_eq!(do_decode(&[84, 80], 4, 2, &st), Err(Error::BitPumpUnderrun));
}
