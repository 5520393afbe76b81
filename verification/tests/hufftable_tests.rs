use nef_decoder::decoder::create_hufftable;
use nef_decoder::error::Error;
use nef_decoder::hufftable::HuffTable;
use nef_decoder::pump::BitPumpMSB;

fn counts(list: &[(usize, u8)]) -> [u8; 17] {
    let mut bits = [0u8; 17];
    for &(length, count) in list {
        bits[length] = count;
    }
    bits
}

#[test]
fn every_nikon_table_is_complete() {
    for selector in 0..6 {
        let table = create_hufftable(selector).unwrap();
        let mut leaves: u32 = 0;
        let mut index = 0usize;
        while index < 32768 {
            let (length, _, _) = table.entry(index);
            assert!(1 <= length && length <= 15);
            // one leaf per code: skip the entries that the code fills
            leaves += 1 << (16 - length as u32);
            index += 1 << (15 - length as u32);
        }
        assert_eq!(index, 32768);
        assert_eq!(leaves, 1 << 16);
    }
}

#[test]
fn no_table_behind_the_sixth() {
    assert_eq!(create_hufftable(6).unwrap_err(), Error::OutOfRange);
    assert_eq!(create_hufftable(usize::MAX).unwrap_err(), Error::OutOfRange);
}

#[test]
fn lookup_entries_of_the_nikon_tables() {
    let lossy = create_hufftable(0).unwrap();
    assert_eq!(lossy.entry(0), (2, 5, 0));
    assert_eq!(lossy.entry(8191), (2, 5, 0));
    assert_eq!(lossy.entry(8192), (3, 4, 0));
    assert_eq!(lossy.entry(0b111100000000000), (5, 0, 0));
    assert_eq!(lossy.entry(0b111110000000000), (6, 8, 0));
    assert_eq!(lossy.entry(32767), (10, 0, 0));
    let after_split = create_hufftable(1).unwrap();
    assert_eq!(after_split.entry(0), (2, 6, 3));
    assert_eq!(after_split.entry(8192), (3, 5, 5));
    assert_eq!(after_split.entry(12288), (3, 5, 3));
    assert_eq!(after_split.entry(32767), (10, 12, 0));
    let wide = create_hufftable(4).unwrap();
    assert_eq!(wide.entry(0), (2, 8, 0));
    assert_eq!(wide.entry(8192), (3, 7, 5));
    assert_eq!(wide.entry(32760), (11, 14, 0));
    assert_eq!(wide.entry(32767), (11, 14, 0));
}

#[test]
fn table_with_too_few_codes_is_incomplete() {
    // one code of one bit leaves half of the code space empty
    let bits = counts(&[(1, 1)]);
    assert_eq!(HuffTable::new(&bits, &[0; 16], &[0; 16]).unwrap_err(), Error::HuffmanIncomplete);
    let bits = counts(&[(1, 1), (2, 1)]);
    assert_eq!(HuffTable::new(&bits, &[0; 16], &[0; 16]).unwrap_err(), Error::HuffmanIncomplete);
    assert_eq!(HuffTable::new(&[0; 17], &[0; 16], &[0; 16]).unwrap_err(), Error::HuffmanIncomplete);
}

#[test]
fn table_with_too_many_codes_is_incomplete() {
    let bits = counts(&[(1, 3)]);
    assert_eq!(HuffTable::new(&bits, &[0; 16], &[0; 16]).unwrap_err(), Error::HuffmanIncomplete);
    let bits = counts(&[(1, 1), (2, 2), (15, 1)]);
    assert_eq!(HuffTable::new(&bits, &[0; 16], &[0; 16]).unwrap_err(), Error::HuffmanIncomplete);
}

#[test]
fn table_that_the_lookup_cannot_hold_is_incomplete() {
    // complete as a code, but two of its codes have sixteen bits
    let mut list: Vec<(usize, u8)> = (1..=14).map(|l| (l, 1u8)).collect();
    list.push((15, 1));
    list.push((16, 2));
    let bits = counts(&list);
    assert_eq!(HuffTable::new(&bits, &[0; 32], &[0; 32]).unwrap_err(), Error::HuffmanIncomplete);
    // the same with the last code split into two of fifteen bits
    let mut list: Vec<(usize, u8)> = (1..=14).map(|l| (l, 1u8)).collect();
    list.push((15, 2));
    let bits = counts(&list);
    let table = HuffTable::new(&bits, &[7; 16], &[0; 16]).unwrap();
    assert_eq!(table.entry(0), (1, 7, 0));
    assert_eq!(table.entry(32767), (15, 7, 0));
    assert_eq!(table.entry(32766), (15, 7, 0));
    assert_eq!(table.entry(32764), (14, 7, 0));
}

#[test]
fn table_needs_a_symbol_for_each_code() {
    let bits = counts(&[(1, 2)]);
    assert_eq!(HuffTable::new(&bits, &[1], &[0, 0]).unwrap_err(), Error::HuffmanIncomplete);
    assert_eq!(HuffTable::new(&bits, &[1, 2], &[0]).unwrap_err(), Error::HuffmanIncomplete);
    let table = HuffTable::new(&bits, &[1, 2], &[3, 4]).unwrap();
    assert_eq!(table.entry(0), (1, 1, 3));
    assert_eq!(table.entry(16383), (1, 1, 3));
    assert_eq!(table.entry(16384), (1, 2, 4));
    assert_eq!(table.entry(32767), (1, 2, 4));
}

#[test]
fn residuals_are_decoded_from_code_and_bits() {
    // two codes of one bit: symbol 5 behind 0, symbol 0 behind 1
    let bits = counts(&[(1, 2)]);
    let table = HuffTable::new(&bits, &[5, 0], &[0, 0]).unwrap();
    // 0 11111 | 0 10000 | 0 01111 | 0 00000 | 1 | 1
    let src = [0b0111_1101, 0b0000_0011, 0b1100_0000, 0b1100_0000];
    let mut pump = BitPumpMSB::new(&src);
    assert_eq!(table.huff_decode(&mut pump), 31);
    assert_eq!(table.huff_decode(&mut pump), 16);
    assert_eq!(table.huff_decode(&mut pump), -16);
    assert_eq!(table.huff_decode(&mut pump), -31);
    assert_eq!(table.huff_decode(&mut pump), 0);
    assert_eq!(table.huff_decode(&mut pump), 0);
    assert!(!pump.underrun());
}

#[test]
fn shift_in_the_high_half_of_a_symbol() {
    let bits = counts(&[(2, 4)]);
    let table = HuffTable::new(&bits, &[0x35, 0x14, 0x31, 0x0C], &[0; 4]).unwrap();
    // 00 11 | 00 00 | 01 111 | 01 000 | 10 | 11 111111111111 | 11 000000000000
    let src = [
        0b0011_0000,
        0b0111_1010,
        0b0010_1111,
        0b1111_1111,
        0b1111_0000,
        0b0000_0000,
    ];
    let mut pump = BitPumpMSB::new(&src);
    assert_eq!(table.huff_decode(&mut pump), 28);
    assert_eq!(table.huff_decode(&mut pump), -28);
    assert_eq!(table.huff_decode(&mut pump), 15);
    assert_eq!(table.huff_decode(&mut pump), -15);
    // the shift is larger than the length: no bits follow the code
    assert_eq!(table.huff_decode(&mut pump), 2);
    assert_eq!(table.huff_decode(&mut pump), 4095);
    assert_eq!(table.huff_decode(&mut pump), -4095);
    assert!(!pump.underrun());
}

#[test]
fn decoding_behind_the_end_is_an_underrun() {
    let table = create_hufftable(2).unwrap();
    let src = [0b0000_0000u8];
    let mut pump = BitPumpMSB::new(&src);
    // code 00 is symbol 5: two and five bits
    assert_eq!(table.huff_decode(&mut pump), -31);
    assert!(!pump.underrun());
    assert_eq!(table.huff_decode(&mut pump), -31);
    assert!(pump.underrun());
}
