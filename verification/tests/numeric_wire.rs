use orm::numeric::{NumericError, NumericText};

fn payload(count: u16, weight: i16, sign: u16, scale: u16, digits: &[u16]) -> Vec<u8> {
    let mut raw = Vec::new();
    raw.extend_from_slice(&count.to_be_bytes());
    raw.extend_from_slice(&weight.to_be_bytes());
    raw.extend_from_slice(&sign.to_be_bytes());
    raw.extend_from_slice(&scale.to_be_bytes());
    for digit in digits {
        raw.extend_from_slice(&digit.to_be_bytes());
    }
    raw
}

fn decode(raw: &[u8]) -> String {
    let text = NumericText::from_sql_bytes(raw).expect("a finite numeric").as_str().to_string();
    assert!(NumericText::new(&text).is_ok(), "{text} is not a plain decimal");
    text
}

#[test]
fn binary_numerics_decode_to_their_decimal_text() {
    assert_eq!(decode(&payload(2, 0, 0, 2, &[1, 2500])), "1.25");
    assert_eq!(decode(&payload(2, 0, 0x4000, 2, &[9, 7500])), "-9.75");
    assert_eq!(decode(&payload(1, 1, 0, 4, &[1])), "10000.0000");
    assert_eq!(decode(&payload(1, -1, 0, 4, &[1])), "0.0001");
    assert_eq!(decode(&payload(3, 2, 0, 0, &[12, 3456, 7890])), "1234567890");
    assert_eq!(decode(&payload(0, 0, 0, 3, &[])), "0.000");
}

#[test]
fn negative_zero_decodes_without_a_sign() {
    assert_eq!(decode(&payload(0, 0, 0x4000, 0, &[])), "0");
}

#[test]
fn special_values_are_not_decimal_text() {
    for sign in [0xC000_u16, 0xD000, 0xF000] {
        assert!(matches!(NumericText::from_sql_bytes(&payload(0, 0, sign, 0, &[])), Err(NumericError::NotFinite)));
    }
    assert_eq!(NumericError::NotFinite.message(), "PostgreSQL numeric is not a finite decimal");
}

#[test]
fn malformed_payloads_are_refused() {
    let invalid = |raw: Vec<u8>| matches!(NumericText::from_sql_bytes(&raw), Err(NumericError::InvalidPayload));
    assert!(invalid(vec![0, 0, 0, 0]));
    assert!(invalid(payload(2, 0, 0, 0, &[1])));
    assert!(invalid(payload(1, 0, 0x1234, 0, &[1])));
    assert!(invalid(payload(1, 0, 0, 0, &[10000])));
    assert!(invalid(payload(0xFFFF, 0, 0, 0, &[])));
    assert_eq!(NumericError::InvalidPayload.message(), "invalid PostgreSQL numeric payload");
}
