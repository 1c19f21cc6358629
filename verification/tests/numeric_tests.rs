use fundamentals::numeric::FixedInt;
use fundamentals::numeric::Width;

fn u8v(value: i128) -> FixedInt {
    FixedInt { width: Width::W8, signed: false, value }
}

fn i16v(value: i128) -> FixedInt {
    FixedInt { width: Width::W16, signed: true, value }
}

fn u16v(value: i128) -> FixedInt {
    FixedInt { width: Width::W16, signed: false, value }
}

#[test]
fn checked_add_in_range_returns_exact_sum() {
    let r = u8v(10).checked_add(&u8v(20));
    assert_eq!(r, Some(u8v(30)));
}

#[test]
fn checked_add_overflow_returns_none() {
    let r = u8v(100).checked_add(&u8v(200));
    assert_eq!(r, None);
}

#[test]
fn wrapping_mul_unsigned_wraps_modulo_two_to_the_sixteen() {
    assert_eq!(u16v(100).wrapping_mul(&u16v(200)).value, 20000);
    // 500 * 500 = 250000, and 250000 mod 65536 = 53392.
    assert_eq!(u16v(500).wrapping_mul(&u16v(500)).value, 53392);
}

#[test]
fn wrapping_mul_signed_reinterprets_bit_pattern() {
    // The unsigned wrap 53392 reinterpreted as two's complement 16-bit.
    assert_eq!(i16v(500).wrapping_mul(&i16v(500)).value, -12144);
}

#[test]
fn saturating_add_clamps_to_max() {
    assert_eq!(i16v(32760).saturating_add(&i16v(10)).value, 32767);
}

#[test]
fn saturating_add_clamps_to_min() {
    assert_eq!(i16v(-32760).saturating_add(&i16v(-10)).value, -32768);
}

#[test]
fn saturating_add_in_range_is_exact() {
    assert_eq!(i16v(100).saturating_add(&i16v(23)).value, 123);
}

#[test]
fn overflowing_sub_without_overflow() {
    let (v, flag) = u8v(255).overflowing_sub(&u8v(2));
    assert_eq!(v.value, 253);
    assert!(!flag);
}

#[test]
fn overflowing_add_with_overflow() {
    let (v, flag) = u8v(255).overflowing_add(&u8v(2));
    assert_eq!(v.value, 1);
    assert!(flag);
}

#[test]
fn overflowing_sub_with_underflow() {
    let (v, flag) = u8v(1).overflowing_sub(&u8v(2));
    assert_eq!(v.value, 255);
    assert!(flag);
}

#[test]
fn overflowing_mul_reports_flag() {
    let (v, flag) = u8v(16).overflowing_mul(&u8v(16));
    assert_eq!(v.value, 0);
    assert!(flag);
    let (v2, flag2) = u8v(15).overflowing_mul(&u8v(15));
    assert_eq!(v2.value, 225);
    assert!(!flag2);
}

#[test]
fn widening_in_range_values_is_identity() {
    // 10_i8 as u16 stays 10; 2525_u16 as i16 stays 2525.
    assert_eq!(
        FixedInt { width: Width::W8, signed: true, value: 10 }
            .convert_wrapping(Width::W16, false)
            .value,
        10
    );
    assert_eq!(u16v(2525).convert_wrapping(Width::W16, true).value, 2525);
}

#[test]
fn widening_signed_values_sign_extends() {
    // -1_i16 as i32 stays -1; 65535_u16 as i32 stays 65535.
    assert_eq!(i16v(-1).convert_wrapping(Width::W32, true).value, -1);
    assert_eq!(u16v(65535).convert_wrapping(Width::W32, true).value, 65535);
}

#[test]
fn narrowing_keeps_low_bits() {
    // 1000 as 8-bit keeps the low byte: 232.
    assert_eq!(i16v(1000).convert_wrapping(Width::W8, false).value, 232);
    // 65535 (32-bit) as 16-bit signed is -1.
    assert_eq!(
        FixedInt { width: Width::W32, signed: false, value: 65535 }
            .convert_wrapping(Width::W16, true)
            .value,
        -1
    );
}

#[test]
fn same_width_reinterpretation_round_trips() {
    // -1_i8 as u8 is 255, and back again.
    let neg = FixedInt { width: Width::W8, signed: true, value: -1 };
    let wrapped = neg.convert_wrapping(Width::W8, false);
    assert_eq!(wrapped.value, 255);
    assert_eq!(wrapped.convert_wrapping(Width::W8, true).value, -1);
    // 255_u8 as i8 is -1, and back again.
    let big = u8v(255);
    let reinterpreted = big.convert_wrapping(Width::W8, true);
    assert_eq!(reinterpreted.value, -1);
    assert_eq!(reinterpreted.convert_wrapping(Width::W8, false).value, 255);
}

#[test]
fn convert_checked_is_exact_or_nothing() {
    assert_eq!(
        i16v(1000).convert_checked(Width::W8, false),
        None
    );
    assert_eq!(
        i16v(100).convert_checked(Width::W8, false),
        Some(FixedInt { width: Width::W8, signed: false, value: 100 })
    );
    assert_eq!(i16v(-1).convert_checked(Width::W64, false), None);
}

#[test]
fn convert_saturating_clamps_out_of_range() {
    assert_eq!(i16v(1000).convert_saturating(Width::W8, false).value, 255);
    assert_eq!(i16v(-1000).convert_saturating(Width::W8, true).value, -128);
    assert_eq!(i16v(77).convert_saturating(Width::W8, true).value, 77);
}

#[test]
fn new_rejects_out_of_range_values() {
    assert_eq!(FixedInt::new(Width::W8, false, 256), None);
    assert_eq!(FixedInt::new(Width::W8, true, -129), None);
    assert_eq!(
        FixedInt::new(Width::W8, true, -128),
        Some(FixedInt { width: Width::W8, signed: true, value: -128 })
    );
}

#[test]
fn count_ones_counts_set_bits() {
    assert_eq!(u8v(0b101101).count_ones(), 4);
    assert_eq!(u8v(0).count_ones(), 0);
    // -1 in 8 bits is 0xFF: eight set bits, independent of signedness.
    assert_eq!(
        FixedInt { width: Width::W8, signed: true, value: -1 }.count_ones(),
        8
    );
    assert_eq!(
        FixedInt { width: Width::W64, signed: false, value: 0xFFFF_FFFF_FFFF_FFFF }.count_ones(),
        64
    );
}

#[test]
fn sixty_four_bit_boundaries() {
    let max = FixedInt { width: Width::W64, signed: false, value: 0xFFFF_FFFF_FFFF_FFFF };
    let one = FixedInt { width: Width::W64, signed: false, value: 1 };
    let (wrapped, flag) = max.overflowing_add(&one);
    assert_eq!(wrapped.value, 0);
    assert!(flag);
    assert_eq!(max.saturating_add(&one).value, 0xFFFF_FFFF_FFFF_FFFF);

    let min = FixedInt { width: Width::W64, signed: true, value: -0x8000_0000_0000_0000 };
    let neg = FixedInt { width: Width::W64, signed: true, value: -1 };
    let (w2, f2) = min.overflowing_add(&neg);
    assert_eq!(w2.value, 0x7FFF_FFFF_FFFF_FFFF);
    assert!(f2);

    // Narrowing from the very top of the unsigned range keeps the low bits.
    assert_eq!(max.convert_wrapping(Width::W8, true).value, -1);

    // (2^32 + 1)^2 = 2^64 + 2^33 + 1, which wraps to 2^33 + 1 at 64 bits.
    let big = FixedInt { width: Width::W64, signed: false, value: 0x1_0000_0001 };
    assert_eq!(big.wrapping_mul(&big).value, 0x2_0000_0001);
}

#[test]
fn checked_add_exhaustive_for_eight_bits() {
    for a in 0..=255i128 {
        for b in 0..=255i128 {
            let r = u8v(a).checked_add(&u8v(b));
            if a + b <= 255 {
                assert_eq!(r, Some(u8v(a + b)));
            } else {
                assert_eq!(r, None);
            }
        }
    }
}

#[test]
fn wrapping_mul_matches_modulus_for_sixteen_bits() {
    for a in [0i128, 1, 2, 255, 256, 500, 1000, 32767, 32768, 65535] {
        for b in [0i128, 1, 2, 255, 256, 500, 1000, 32767, 32768, 65535] {
            let r = u16v(a).wrapping_mul(&u16v(b));
            assert_eq!(r.value, (a * b) % 65536);
        }
    }
}
