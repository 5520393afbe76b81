use nef_decoder::error::Error;
use nef_decoder::utils::{
    bytes_to_num, read_beu16, read_beu32, read_beu8, read_leu16, read_leu32, read_leu8,
};

#[test]
fn bytes_to_num_zero_extends() {
    assert_eq!(bytes_to_num(&[0x34, 0x12]), 0x1234);
    assert_eq!(bytes_to_num(&[]), 0);
    assert_eq!(bytes_to_num(&[7]), 7);
    assert_eq!(bytes_to_num(&[1, 2, 3]), 0x030201);
    assert_eq!(bytes_to_num(&[1, 2, 3, 4]), 0x04030201);
    assert_eq!(bytes_to_num(&[0xff, 0xff, 0xff, 0xff]), 0xffff_ffff);
}

#[test]
fn read_leu8_advances_unless_peeking() {
    let buffer = [10u8, 20, 30];
    let mut pointer = 1;
    assert_eq!(read_leu8(&buffer, &mut pointer, true), Ok(20));
    assert_eq!(pointer, 1);
    assert_eq!(read_leu8(&buffer, &mut pointer, false), Ok(20));
    assert_eq!(pointer, 2);
    assert_eq!(read_leu8(&buffer, &mut pointer, false), Ok(30));
    assert_eq!(pointer, 3);
}

#[test]
fn read_leu8_past_the_end_is_out_of_range() {
    let buffer = [10u8, 20, 30];
    let mut pointer = 3;
    assert_eq!(read_leu8(&buffer, &mut pointer, false), Err(Error::OutOfRange));
    assert_eq!(pointer, 3);
    let mut far = usize::MAX;
    assert_eq!(read_leu8(&buffer, &mut far, false), Err(Error::OutOfRange));
    assert_eq!(far, usize::MAX);
    let mut zero = 0;
    assert_eq!(read_leu8(&[], &mut zero, true), Err(Error::OutOfRange));
}

#[test]
fn read_beu8_is_the_same_byte() {
    let buffer = [0xabu8, 0xcd];
    let mut pointer = 0;
    assert_eq!(read_beu8(&buffer, &mut pointer, false), Ok(0xab));
    assert_eq!(read_beu8(&buffer, &mut pointer, true), Ok(0xcd));
    assert_eq!(pointer, 1);
    pointer = 2;
    assert_eq!(read_beu8(&buffer, &mut pointer, false), Err(Error::OutOfRange));
}

#[test]
fn read_leu16_reads_low_byte_first() {
    let buffer = [0x01u8, 0x02, 0x03, 0x04];
    let mut pointer = 0;
    assert_eq!(read_leu16(&buffer, &mut pointer, false), Ok(0x0201));
    assert_eq!(pointer, 2);
    assert_eq!(read_leu16(&buffer, &mut pointer, true), Ok(0x0403));
    assert_eq!(pointer, 2);
    pointer = 1;
    assert_eq!(read_leu16(&buffer, &mut pointer, false), Ok(0x0302));
    assert_eq!(pointer, 3);
}

#[test]
fn read_beu16_reads_high_byte_first() {
    let buffer = [0x01u8, 0x02, 0x03, 0x04];
    let mut pointer = 0;
    assert_eq!(read_beu16(&buffer, &mut pointer, false), Ok(0x0102));
    assert_eq!(pointer, 2);
    assert_eq!(read_beu16(&buffer, &mut pointer, true), Ok(0x0304));
    assert_eq!(pointer, 2);
}

#[test]
fn read_leu32_reads_low_byte_first() {
    let buffer = [0x78u8, 0x56, 0x34, 0x12, 0xff];
    let mut pointer = 0;
    assert_eq!(read_leu32(&buffer, &mut pointer, true), Ok(0x12345678));
    assert_eq!(pointer, 0);
    assert_eq!(read_leu32(&buffer, &mut pointer, false), Ok(0x12345678));
    assert_eq!(pointer, 4);
    pointer = 1;
    assert_eq!(read_leu32(&buffer, &mut pointer, false), Ok(0xff123456));
    assert_eq!(pointer, 5);
}

#[test]
fn read_beu32_reads_high_byte_first() {
    let buffer = [0x12u8, 0x34, 0x56, 0x78, 0x9a];
    let mut pointer = 0;
    assert_eq!(read_beu32(&buffer, &mut pointer, false), Ok(0x12345678));
    assert_eq!(pointer, 4);
    pointer = 1;
    assert_eq!(read_beu32(&buffer, &mut pointer, true), Ok(0x3456789a));
    assert_eq!(pointer, 1);
}

#[test]
fn wide_reads_at_the_end_are_out_of_range() {
    let buffer = [1u8, 2, 3, 4];
    let mut pointer = 3;
    assert_eq!(read_leu16(&buffer, &mut pointer, false), Err(Error::OutOfRange));
    assert_eq!(read_beu16(&buffer, &mut pointer, false), Err(Error::OutOfRange));
    assert_eq!(pointer, 3);
    pointer = 1;
    assert_eq!(read_leu32(&buffer, &mut pointer, false), Err(Error::OutOfRange));
    assert_eq!(read_beu32(&buffer, &mut pointer, false), Err(Error::OutOfRange));
    assert_eq!(pointer, 1);
    pointer = 2;
    assert_eq!(read_leu16(&buffer, &mut pointer, false), Ok(0x0403));
    let mut far = usize::MAX - 1;
    assert_eq!(read_leu32(&buffer, &mut far, false), Err(Error::OutOfRange));
    let mut zero = 0;
    assert_eq!(read_leu16(&[9], &mut zero, false), Err(Error::OutOfRange));
    assert_eq!(read_leu32(&[9, 9, 9], &mut zero, false), Err(Error::OutOfRange));
}

#[test]
fn error_messages_tell_the_failures_apart() {
    assert_eq!(Error::OutOfRange.message(), "value out of range");
    assert_eq!(Error::BadMagic.message(), "unsupported header or malformed directory graph");
    assert_eq!(Error::MissingTag(0x96).message(), "required tag is missing");
    assert_eq!(Error::UnsupportedVersion(0x44, 0x20).message(), "unsupported decoder version");
    assert_eq!(Error::HuffmanIncomplete.message(), "incomplete Huffman table");
    assert_eq!(Error::BitPumpUnderrun.message(), "compressed data ended early");
    assert_eq!(Error::Io.message(), "input could not be read");
}
