use orm::numeric::NumericText;

#[test]
fn numeric_text_accepts_plain_decimals_only() {
    for value in ["0", "0.0000000000000000001", "123456789012345678901234567890", "-10.25"] {
        assert_eq!(NumericText::new(value).expect("valid decimal").as_str(), value);
    }
    assert_eq!(NumericText::new("-0.000").expect("negative zero").as_str(), "0.000");

    for value in ["", "-", ".1", "1.", "1e5", "1.2.3", "NaN", "Infinity"] {
        assert!(NumericText::new(value).is_err(), "accepted {value}");
    }

    let text: String = serde_json::from_str("\"1.250\"").expect("deserialize decimal string");
    let from_json = NumericText::new(&text).expect("deserialize decimal string");
    assert_eq!(from_json.as_str(), "1.250");
    let rejected: String = serde_json::from_str("\"1e5\"").expect("a json string");
    assert!(NumericText::new(&rejected).is_err());
    assert_eq!(serde_json::to_string(from_json.as_str()).expect("serialize decimal string"), "\"1.250\"");
}
