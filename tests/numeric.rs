use bigdecimal::num_bigint::BigInt;
use bigdecimal::BigDecimal;
use spice_core::numeric::{NumericError, PgNumeric};
use std::str::FromStr;

fn words_to_bytes(words: &[u16]) -> Vec<u8> {
    words.iter().flat_map(|&x| vec![(x >> 8) as u8, x as u8]).collect()
}

fn to_big_decimal(v: &PgNumeric) -> BigDecimal {
    let unscaled = v.to_decimal_128().expect("fits i128");
    BigDecimal::new(BigInt::from(unscaled), i64::from(v.scale()))
}

#[test]
fn test_big_decimal_from_sql() {
    let positive_raw = words_to_bytes(&[5, 3, 0, 5, 9345, 1293, 2903, 1293, 932]);
    let positive = BigDecimal::from_str("9345129329031293.0932").expect("Failed to parse big decimal");
    let positive_result = PgNumeric::from_sql(&positive_raw).expect("Failed to run FromSql");
    assert_eq!(to_big_decimal(&positive_result), positive);

    let negative_raw = words_to_bytes(&[5, 3, 0x4000, 5, 9345, 1293, 2903, 1293, 932]);
    let negative = BigDecimal::from_str("-9345129329031293.0932").expect("Failed to parse big decimal");
    let negative_result = PgNumeric::from_sql(&negative_raw).expect("Failed to run FromSql");
    assert_eq!(to_big_decimal(&negative_result), negative);
}

#[test]
fn numeric_unscaled_value_and_scale() {
    let raw = words_to_bytes(&[5, 3, 0, 5, 9345, 1293, 2903, 1293, 932]);
    let v = PgNumeric::from_sql(&raw).unwrap();
    assert_eq!(v.scale(), 5);
    assert_eq!(v.to_decimal_128(), Some(934_512_932_903_129_309_320));
    assert!(!v.negative);
}

#[test]
fn numeric_sign_word_rejected() {
    for sign in [0x2000u16, 0xC000, 0x0001, 0xD000] {
        let raw = words_to_bytes(&[1, 0, sign, 0, 12]);
        match PgNumeric::from_sql(&raw) {
            Err(NumericError::FailedToParseBigDecimalFromPostgres { bytes }) => assert_eq!(bytes, raw),
            Ok(_) => panic!("sign word {sign:#x} must be rejected"),
        }
    }
}

#[test]
fn numeric_malformed_inputs_rejected() {
    assert!(PgNumeric::from_sql(&vec![0, 1, 0]).is_err());
    // Three digits announced, one present.
    assert!(PgNumeric::from_sql(&words_to_bytes(&[3, 0, 0, 0, 1])).is_err());
    // A base-10000 digit above 9999.
    assert!(PgNumeric::from_sql(&words_to_bytes(&[1, 0, 0, 0, 10000])).is_err());
}

#[test]
fn numeric_small_fractions_and_zero() {
    // 1.5 with scale 1: digits [1, 5000], weight 0.
    let v = PgNumeric::from_sql(&words_to_bytes(&[2, 0, 0, 1, 1, 5000])).unwrap();
    assert_eq!((v.to_decimal_128(), v.scale()), (Some(15), 1));
    // 0.00001 with scale 5: digit 1000 at weight -2.
    let v = PgNumeric::from_sql(&words_to_bytes(&[1, 0xFFFE, 0, 5, 1000])).unwrap();
    assert_eq!((v.to_decimal_128(), v.scale()), (Some(1), 5));
    // Zero with scale 2.
    let v = PgNumeric::from_sql(&words_to_bytes(&[0, 0, 0, 2])).unwrap();
    assert_eq!((v.to_decimal_128(), v.scale()), (Some(0), 2));
}

#[test]
fn numeric_round_trip_of_encoded_decimal() {
    // -12345.678 (unscaled -12345678, scale 3) as PostgreSQL sends it:
    // digits [1, 2345, 6780], weight 1.
    let v = PgNumeric::from_sql(&words_to_bytes(&[3, 1, 0x4000, 3, 1, 2345, 6780])).unwrap();
    assert_eq!((v.to_decimal_128(), v.scale()), (Some(-12_345_678), 3));
}

#[test]
fn numeric_too_large_for_i128() {
    // 10^40 has 41 digits.
    let v = PgNumeric::from_sql(&words_to_bytes(&[1, 10, 0, 0, 1])).unwrap();
    assert_eq!(v.to_decimal_128(), None);
}

#[test]
fn numeric_as_postgres_strips_trailing_zero_digits() {
    // 10000 is sent as the one digit 1 with weight 1.
    let v = PgNumeric::from_sql(&words_to_bytes(&[1, 1, 0, 0, 1])).unwrap();
    assert_eq!((v.to_decimal_128(), v.scale()), (Some(10_000), 0));
    // 1.5 at scale 3: digits [1, 5000], weight 0.
    let v = PgNumeric::from_sql(&words_to_bytes(&[2, 0, 0, 3, 1, 5000])).unwrap();
    assert_eq!((v.to_decimal_128(), v.scale()), (Some(1_500), 3));
}

#[test]
fn numeric_odd_length_rejected() {
    // One digit word announced, four whole words and a stray byte.
    let raw = vec![0, 1, 0, 0, 0, 0, 0, 0, 5];
    assert!(matches!(
        PgNumeric::from_sql(&raw),
        Err(NumericError::FailedToParseBigDecimalFromPostgres { .. })
    ));
}
