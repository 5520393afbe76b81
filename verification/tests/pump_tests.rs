use nef_decoder::pump::BitPumpMSB;

#[test]
fn pump_reads_the_highest_bit_first() {
    let src = [0b1010_0000u8, 0xFF, 0x00, 0x12, 0x34];
    let mut pump = BitPumpMSB::new(&src);
    assert_eq!(pump.peek_bits(1), 1);
    assert_eq!(pump.peek_bits(3), 0b101);
    assert_eq!(pump.peek_bits(8), 0xA0);
    assert_eq!(pump.peek_bits(16), 0xA0FF);
    assert_eq!(pump.peek_bits(24), 0xA0FF00);
    assert_eq!(pump.peek_bits(32), 0xA0FF0012);
    pump.consume_bits(4);
    assert_eq!(pump.peek_bits(8), 0x0F);
    assert_eq!(pump.peek_bits(32), 0x0FF00123);
    pump.consume_bits(8);
    assert_eq!(pump.get_bits(4), 0xF);
    assert_eq!(pump.get_bits(16), 0x0012);
    assert_eq!(pump.get_bits(8), 0x34);
    assert!(!pump.underrun());
}

#[test]
fn peek_does_not_consume() {
    let src = [0x12u8, 0x34, 0x56, 0x78, 0x9A, 0xBC, 0xDE, 0xF0];
    let mut pump = BitPumpMSB::new(&src);
    assert_eq!(pump.peek_bits(24), 0x123456);
    assert_eq!(pump.peek_bits(24), 0x123456);
    assert_eq!(pump.peek_bits(0), 0);
    assert_eq!(pump.get_bits(12), 0x123);
    assert_eq!(pump.peek_bits(25), 0x456789A >> 3);
    assert_eq!(pump.get_bits(32), 0x456789AB);
    assert_eq!(pump.get_bits(20), 0xCDEF0);
    assert!(!pump.underrun());
}

#[test]
fn bits_behind_the_end_are_zero() {
    let src = [0xFFu8, 0x80];
    let mut pump = BitPumpMSB::new(&src);
    assert_eq!(pump.peek_bits(24), 0xFF8000);
    assert_eq!(pump.get_bits(9), 0x1FF);
    assert!(!pump.underrun());
    assert_eq!(pump.peek_bits(15), 0);
    assert_eq!(pump.get_bits(7), 0);
    assert!(!pump.underrun());
    // one bit more than the buffer holds
    assert_eq!(pump.get_bits(1), 0);
    assert!(pump.underrun());
    assert_eq!(pump.get_bits(32), 0);
    assert_eq!(pump.peek_bits(32), 0);
    assert!(pump.underrun());
}

#[test]
fn underrun_is_told_exactly() {
    for len in 0usize..10 {
        let src = vec![0xA5u8; len];
        let mut pump = BitPumpMSB::new(&src);
        for _ in 0..len {
            assert_eq!(pump.get_bits(8), 0xA5);
            assert!(!pump.underrun());
        }
        assert_eq!(pump.peek_bits(32), 0);
        assert!(!pump.underrun());
        pump.consume_bits(0);
        assert!(!pump.underrun());
        assert_eq!(pump.get_bits(1), 0);
        assert!(pump.underrun());
    }
}

#[test]
fn pump_over_an_empty_buffer() {
    let mut pump = BitPumpMSB::new(&[]);
    assert_eq!(pump.peek_bits(24), 0);
    assert!(!pump.underrun());
    assert_eq!(pump.get_bits(3), 0);
    assert!(pump.underrun());
}

#[test]
fn long_stream_is_read_in_order() {
    let src: Vec<u8> = (0..=255u8).collect();
    let mut pump = BitPumpMSB::new(&src);
    for chunk in 0..256u32 {
        // three, then five bits of each byte
        let high = pump.get_bits(3);
        let low = pump.get_bits(5);
        assert_eq!(high << 5 | low, chunk);
    }
    assert!(!pump.underrun());
}
