use nef_decoder::curve::{clampbits, curve_is_valid, LookupTable};
use nef_decoder::error::Error;

#[test]
fn clampbits_keeps_values_in_range() {
    assert_eq!(clampbits(0, 12), 0);
    assert_eq!(clampbits(-1, 12), 0);
    assert_eq!(clampbits(i32::MIN, 12), 0);
    assert_eq!(clampbits(4095, 12), 4095);
    assert_eq!(clampbits(4096, 12), 4095);
    assert_eq!(clampbits(i32::MAX, 12), 4095);
    assert_eq!(clampbits(16383, 14), 16383);
    assert_eq!(clampbits(16384, 14), 16383);
    assert_eq!(clampbits(70000, 16), 65535);
    assert_eq!(clampbits(65535, 16), 65535);
    assert_eq!(clampbits(5, 0), 0);
    assert_eq!(clampbits(5, 1), 1);
    assert_eq!(clampbits(1234, 12), 1234);
}

#[test]
fn curve_table_holds_center_base_and_delta() {
    let curve = LookupTable::new(&[0, 10, 30, 100, 300, 1000]);
    assert_eq!(
        curve.table,
        vec![(0, 0, 10), (10, 2, 30), (30, 7, 90), (100, 32, 270), (300, 75, 900), (1000, 825, 700)]
    );
    assert_eq!(LookupTable::new(&[42]).table, vec![(42, 42, 0)]);
    assert_eq!(LookupTable::new(&[]).table, vec![]);
    assert_eq!(LookupTable::new(&[0, 0]).table, vec![(0, 0, 0), (0, 0, 0)]);
    assert_eq!(LookupTable::new(&[0, 1, 2, 3]).table, vec![(0, 0, 1), (1, 0, 2), (2, 1, 2), (3, 3, 1)]);
    assert_eq!(LookupTable::new(&[65535, 65535]).table, vec![(65535, 65535, 0), (65535, 65535, 0)]);
}

#[test]
fn curve_whose_neighbours_descend_is_refused() {
    assert!(curve_is_valid(&[0, 10, 30, 100]));
    assert!(curve_is_valid(&[]));
    assert!(curve_is_valid(&[7]));
    assert!(!curve_is_valid(&[5, 4]));
    assert!(!curve_is_valid(&[0, 10, 5]));
    // what counts is the two neighbours of a point, not the point between them
    assert!(curve_is_valid(&[0, 10, 5, 20]));
    // the base of the second point would be below zero
    assert!(!curve_is_valid(&[0, 10, 100]));
    assert!(curve_is_valid(&[0, 10, 41]));
    assert!(!curve_is_valid(&[0, 10, 42]));
    assert_eq!(LookupTable::checked(&[5, 4]).unwrap_err(), Error::OutOfRange);
    assert_eq!(LookupTable::checked(&[0, 10, 100]).unwrap_err(), Error::OutOfRange);
    assert_eq!(LookupTable::checked(&[0, 10, 30]).unwrap().table, vec![(0, 0, 10), (10, 2, 30), (30, 25, 20)]);
}

#[test]
fn dither_follows_the_random_state() {
    let curve = LookupTable::new(&[0, 10, 30, 100, 300, 1000]);
    let mut rand: u32 = 0x123456;
    let steps: [(u16, u16, u32); 8] = [
        (0, 2, 210348618),
        (1, 6, 684429009),
        (2, 45, 574018143),
        (3, 72, 845532258),
        (4, 321, 821468301),
        (5, 1024, 629221434),
        (3, 36, 161688201),
        (3, 75, 170959767),
    ];
    for (value, sample, next) in steps {
        assert_eq!(curve.dither(value, &mut rand), sample);
        assert_eq!(rand, next);
    }
}

#[test]
fn dither_is_a_function_of_value_and_state() {
    let curve = LookupTable::new(&[0, 10, 30, 100, 300, 1000]);
    let other = LookupTable::new(&[0, 1, 2, 3, 4, 5]);
    for seed in [0u32, 1, 2047, 2048, 0xffff, 0x10000, 0x123456, 0xffffffff] {
        let mut a = seed;
        let mut b = seed;
        let mut c = seed;
        assert_eq!(curve.dither(3, &mut a), curve.dither(3, &mut b));
        other.dither(5, &mut c);
        assert_eq!(a, b);
        assert_eq!(a, c);
        assert_eq!(a as u64, 15700 * (seed as u64 & 0xffff) + (seed as u64 >> 16));
    }
}

#[test]
fn dither_cuts_the_sample_to_sixteen_bits() {
    let wide = LookupTable { table: vec![(65535, 65535, 65535), (65535, 49151, 65535)] };
    let mut rand: u32 = 2047;
    assert_eq!(wide.dither(0, &mut rand), 32750);
    assert_eq!(rand, 32137900);
    let mut rand: u32 = 0xffffffff;
    assert_eq!(wide.dither(1, &mut rand), 16366);
    assert_eq!(rand, 1028965035);
}

#[test]
fn dither_of_a_flat_entry_is_its_base() {
    let curve = LookupTable::new(&[42]);
    let mut rand: u32 = 0xF7BDE0;
    for _ in 0..10 {
        assert_eq!(curve.dither(0, &mut rand), 42);
    }
}
