use evm::decimal::Decimal;
use evm::fixed_point::{
    checked_pow10, conversion_defined, decimal_to_q_64_96, fee_amount_from_int, fee_multiplier_from_int,
    q_64_96_to_decimal, try_into_decimal, DecimalConversionError, QConversionError,
};
use evm::json_values::{tick_from_str, u32_from_str, NumberParseError};
use evm::uint::{U160, U256};

fn to_rust_decimal(d: &Decimal) -> rust_decimal::Decimal {
    rust_decimal::Decimal::from_i128_with_scale(d.mantissa(), d.scale())
}

#[test]
fn test_deserialize_tick() {
    let json = r#""123456""#;
    let value: Option<String> = serde_json::from_str(json).unwrap();

    let tick = tick_from_str(value.as_deref());

    assert_eq!(tick.unwrap(), 123456);
}

#[test]
fn test_deserialize_tick_null() {
    let json_null = r"null";
    let value: Option<String> = serde_json::from_str(json_null).unwrap();

    let tick = tick_from_str(value.as_deref());

    assert_eq!(tick.unwrap(), 0);
}

#[test]
fn test_deserialize_tick_invalid() {
    let json_invalid = r#""invalid""#;
    let value: Option<String> = serde_json::from_str(json_invalid).unwrap();

    let result = tick_from_str(value.as_deref());
    assert!(result.is_err());
}

#[test]
fn tick_from_str_reads_negative_ticks() {
    assert_eq!(tick_from_str(Some("-887272")), Ok(-887272));
    assert_eq!(tick_from_str(Some("99999999999")), Err(NumberParseError::InvalidNumber));
}

#[test]
fn u32_from_str_reads_numbers() {
    assert_eq!(u32_from_str("3000"), Ok(3000));
    assert_eq!(u32_from_str("-1"), Err(NumberParseError::InvalidNumber));
}

#[test]
fn test_q64_96_decimal_roundtrip() {
    let initial_decimal = Decimal::from_i128_with_scale(123456789987654321, 9);

    let q_64_96 = decimal_to_q_64_96(initial_decimal).unwrap();

    let converted_decimal = q_64_96_to_decimal(q_64_96);

    assert_eq!(initial_decimal, converted_decimal);
}

#[test]
fn test_q64_96_decimal_roundtrip_1() {
    let initial_decimal = Decimal::from_i128_with_scale(1, 1);

    let q_64_96 = decimal_to_q_64_96(initial_decimal).unwrap();

    let converted_decimal = q_64_96_to_decimal(q_64_96);

    assert_eq!(initial_decimal, converted_decimal);
}

#[test]
fn test_q64_96_decimal_roundtrip_2() {
    let initial_decimal = Decimal::from_i128_with_scale(22443076029480861, 21);
    let q_64_96 = decimal_to_q_64_96(initial_decimal).unwrap();

    let converted_decimal = q_64_96_to_decimal(q_64_96);

    assert_eq!(initial_decimal, converted_decimal);
}

#[test]
fn u256_byte_layout_example() {
    let b: [u8; 16] = [
        0xff, 0xf9, 0x72, 0x72, 0x37, 0x3d, 0x41, 0x32, 0x59, 0xa4, 0x69, 0x90, 0x58, 0x0e, 0x21,
        0x3a,
    ];
    let mut bs: [u8; 32] = [0; 32];

    bs[16..32].copy_from_slice(&b);

    let u256_expected = U256::from_be_bytes(bs);

    let u256_value = U256::from_limbs([
        0x59a46990580e213a,
        0xfff97272373d4132,
        0x0000000000000000,
        0x0000000000000000,
    ]);

    let u256_value_2 = U256::from_u128(u128::from_be_bytes(b));

    println!("u256_value: {:?}", u256_value.as_limbs());
    println!("u256_expected: {:?}", u256_expected.as_limbs());
    println!("u256_value_2: {:?}", u256_value_2.as_limbs());
    assert_eq!(u256_value, u256_expected);
    assert_eq!(u256_value, u256_value_2);
}

#[test]
fn q_64_96_one_is_decimal_one() {
    let one = U160::from_limbs([0, 1 << 32, 0]);
    let d = q_64_96_to_decimal(one);
    assert_eq!(to_rust_decimal(&d), rust_decimal::Decimal::ONE);
}

#[test]
fn q_64_96_half_is_close_to_a_half() {
    let half = U160::from_limbs([0, 1 << 31, 0]);
    let d = to_rust_decimal(&q_64_96_to_decimal(half));
    let diff = (d - rust_decimal::Decimal::new(5, 1)).abs();
    assert!(diff < rust_decimal::Decimal::new(1, 9));
}

#[test]
fn decimal_to_q_64_96_rejects_large_integer_parts() {
    let big = Decimal::from_i128_with_scale(18446744073709551616, 0);
    assert_eq!(
        decimal_to_q_64_96(big),
        Err(QConversionError::IntegerPartTooLarge(18446744073709551616))
    );
    let ok = Decimal::from_i128_with_scale(18446744073709551615, 0);
    let q = decimal_to_q_64_96(ok).unwrap();
    assert_eq!(q.as_limbs(), [0, 0xffff_ffff_0000_0000, 0xffff_ffff]);
}

#[test]
fn decimal_equality_is_numeric() {
    assert_eq!(Decimal::from_i128_with_scale(1230, 3), Decimal::from_i128_with_scale(123, 2));
    assert_ne!(Decimal::from_i128_with_scale(1230, 3), Decimal::from_i128_with_scale(123, 3));
}

#[test]
fn try_into_decimal_splits_integer_and_fraction() {
    let d = try_into_decimal(U256::from_u128(1_234_567_890_000_000_000_001), 18).unwrap();
    assert_eq!(d, Decimal::from_i128_with_scale(1_234_567_890_000_000_000_001, 18));
    assert_eq!(to_rust_decimal(&d).to_string(), "1234.567890000000000001");
}

#[test]
fn try_into_decimal_with_no_decimals() {
    let d = try_into_decimal(U256::from_u128(42), 0).unwrap();
    assert_eq!(d, Decimal::from_i128_with_scale(42, 0));
}

#[test]
fn try_into_decimal_errors() {
    let v = U256::from_u128(5);
    assert_eq!(
        try_into_decimal(v, 39),
        Err(DecimalConversionError::ExponentiationOverflow(v, 39))
    );
    let big = U256::from_u128(1u128 << 96);
    assert_eq!(
        try_into_decimal(big, 0),
        Err(DecimalConversionError::IntegerPartOverflow(big))
    );
}

#[test]
fn try_into_decimal_rounds_when_the_digits_need_more_than_96_bits() {
    let v = U256::from_u128(12_345_678_901_234_567_890_123_456_789_012);
    assert!(conversion_defined(&v, 4));
    let d = try_into_decimal(v, 4).unwrap();
    assert_eq!(d.mantissa(), 12_345_678_901_234_567_890_123_456_789);
    assert_eq!(d.scale(), 1);
}

#[test]
fn try_into_decimal_at_the_largest_integer_part() {
    let max = (1u128 << 96) - 1;
    let below_half = U256::from_u128(max * 100 + 49);
    assert!(conversion_defined(&below_half, 2));
    let d = try_into_decimal(below_half, 2).unwrap();
    assert_eq!(d.mantissa(), max as i128);
    assert_eq!(d.scale(), 0);
    let half = U256::from_u128(max * 100 + 50);
    assert!(!conversion_defined(&half, 2));
    let exact = U256::from_u128(max * 100);
    assert!(conversion_defined(&exact, 2));
}

#[test]
fn try_into_decimal_is_exact_when_the_amount_fits() {
    let whole = try_into_decimal(U256::from_u128(5_000_000_000_000_000_000), 18).unwrap();
    assert_eq!(to_rust_decimal(&whole), rust_decimal::Decimal::from(5));
    let max = U256::from_u128((1u128 << 96) - 1);
    let d = try_into_decimal(max, 28).unwrap();
    assert_eq!(d, Decimal::from_i128_with_scale((1i128 << 96) - 1, 28));
}

#[test]
fn checked_pow10_limits() {
    assert_eq!(checked_pow10(0), Some(1));
    assert_eq!(checked_pow10(38), Some(10u128.pow(38)));
    assert_eq!(checked_pow10(39), None);
}

#[test]
fn fee_amounts_are_millionths() {
    let fee = fee_amount_from_int(3000);
    assert_eq!(to_rust_decimal(&fee).to_string(), "0.003000");
    let multiplier = fee_multiplier_from_int(3000);
    assert_eq!(to_rust_decimal(&multiplier), rust_decimal::Decimal::new(997, 3));
}

#[test]
fn q64_96_roundtrip_over_scales_and_mantissas() {
    let mantissas: [u64; 8] = [0, 1, 7, 999, 123456789, 10_000_000_000_000_000_000, 18_446_744_073_709_551_615, 4_294_967_297];
    for exponent in 0..28u32 {
        for mantissa in mantissas {
            let initial = Decimal::from_i128_with_scale(mantissa as i128, exponent);
            let q = decimal_to_q_64_96(initial).unwrap();
            assert_eq!(q_64_96_to_decimal(q), initial, "mantissa {} scale {}", mantissa, exponent);
        }
    }
}

#[test]
fn q64_96_roundtrip_of_a_full_96_bit_fraction() {
    let frac: u128 = (1u128 << 96) - 1;
    for exponent in 10..28u32 {
        let initial = Decimal::from_i128_with_scale(frac as i128, exponent);
        let q = decimal_to_q_64_96(initial).unwrap();
        assert_eq!(q_64_96_to_decimal(q), initial, "scale {}", exponent);
    }
}
