use nef_decoder::unpacked::{decode_14le_unpacked, decode_threaded, image_size_ok, LEu16};

#[test]
fn le_u16_at_a_position() {
    assert_eq!(LEu16(&[0x34, 0x12, 0xff], 0), 0x1234);
    assert_eq!(LEu16(&[0x34, 0x12, 0xff], 1), 0xff12);
}

#[test]
fn image_sizes_that_are_allocated() {
    assert!(image_size_ok(0, 0));
    assert!(image_size_ok(50000, 10000));
    assert!(image_size_ok(10000, 50000));
    assert!(!image_size_ok(50000, 10001));
    assert!(!image_size_ok(50001, 1));
    assert!(!image_size_ok(1, 50001));
    assert!(!image_size_ok(usize::MAX, usize::MAX));
}

#[test]
fn rows_are_handed_out_from_the_end() {
    let out = decode_threaded(3, 2, false, &|row: usize, col: usize| (10 * row + col) as u16);
    assert_eq!(out, vec![10, 11, 12, 0, 1, 2]);
    let out = decode_threaded(2, 3, false, &|row: usize, col: usize| (10 * row + col) as u16);
    assert_eq!(out, vec![20, 21, 10, 11, 0, 1]);
    let none = decode_threaded(4, 0, false, &|_row: usize, _col: usize| 7u16);
    assert_eq!(none, vec![]);
}

#[test]
fn dummy_image_is_a_single_zero() {
    let out = decode_threaded(3, 2, true, &|_row: usize, _col: usize| 7u16);
    assert_eq!(out, vec![0]);
    assert_eq!(decode_14le_unpacked(&[1, 2, 3, 4], 2, 1, true), vec![0]);
    assert_eq!(decode_14le_unpacked(&[], 0, 0, true), vec![0]);
}

#[test]
fn unpacked_samples_keep_fourteen_bits() {
    let buf = [0x01u8, 0x00, 0x02, 0x40, 0xff, 0xff, 0x34, 0x12];
    assert_eq!(decode_14le_unpacked(&buf, 2, 2, false), vec![0x3fff, 0x1234, 0x0001, 0x0002]);
    assert_eq!(decode_14le_unpacked(&buf, 4, 1, false), vec![0x0001, 0x0002, 0x3fff, 0x1234]);
    assert_eq!(decode_14le_unpacked(&buf, 1, 4, false), vec![0x1234, 0x3fff, 0x0002, 0x0001]);
}

#[test]
fn unpacked_row_that_ends_early_is_filled_with_zero() {
    let buf = [0x01u8, 0x00, 0x02, 0x00, 0x03, 0x00, 0x04];
    // the last sample of the second row has one byte only
    assert_eq!(decode_14le_unpacked(&buf, 2, 2, false), vec![3, 0, 1, 2]);
    assert_eq!(decode_14le_unpacked(&buf[..4], 3, 1, false), vec![1, 2, 0]);
    assert_eq!(decode_14le_unpacked(&buf[..4], 2, 2, false), vec![0, 0, 1, 2]);
}
