use libonm::sm::{PartitionKey, UFMError};

fn parse(s: &str) -> i32 {
    PartitionKey::parse(s).ok().expect("valid key").value()
}

#[test]
fn render_is_minimal_lowercase_hex() {
    assert_eq!(PartitionKey::new(0).ok().unwrap().to_string(), "0x0");
    assert_eq!(PartitionKey::new(10).ok().unwrap().to_string(), "0xa");
    assert_eq!(PartitionKey::new(0x7fff).ok().unwrap().to_string(), "0x7fff");
    assert_eq!(PartitionKey::new(0x100).ok().unwrap().to_string(), "0x100");
}

#[test]
fn round_trip_over_the_whole_range() {
    for k in 0..=0x7fff {
        let key = PartitionKey::new(k).ok().unwrap();
        assert_eq!(parse(&key.to_string()), k);
    }
}

#[test]
fn out_of_range_values_are_rejected() {
    for k in [-1, 0x8000, 0x10000, i32::MAX, i32::MIN] {
        assert!(matches!(PartitionKey::new(k), Err(UFMError::InvalidPKey(m)) if m == k.to_string()));
    }
}

#[test]
fn hex_and_decimal_agree() {
    assert_eq!(parse("0x10"), 16);
    assert_eq!(parse("16"), 16);
    assert_eq!(parse("0X1F"), 31);
    assert_eq!(parse("0x7FFF"), 0x7fff);
    assert_eq!(parse("32767"), 0x7fff);
}

#[test]
fn malformed_texts_are_rejected() {
    for s in ["", "0x", "0x8000", "32768", "abc", "-1", "1 2", "0xg", "99999999999999999999", "-", "+", "0x+", "0x-1", "-5", "--0", "+-1", "1+"] {
        assert!(matches!(PartitionKey::parse(s), Err(UFMError::InvalidPKey(_))), "{}", s);
    }
}

#[test]
fn only_the_top_key_is_default() {
    assert!(PartitionKey::new(0x7fff).ok().unwrap().is_default());
    assert!(!PartitionKey::new(0x7ffe).ok().unwrap().is_default());
    assert!(!PartitionKey::new(0).ok().unwrap().is_default());
    assert!(PartitionKey::parse("0x7fff").ok().unwrap().is_default());
}

#[test]
fn signed_texts_follow_the_sign() {
    assert_eq!(parse("+16"), 16);
    assert_eq!(parse("0x+10"), 16);
    assert_eq!(parse("-0"), 0);
    assert_eq!(parse("0x-0"), 0);
    assert_eq!(parse("-000"), 0);
}

#[test]
fn parse_errors_carry_the_lowercase_text() {
    assert!(matches!(PartitionKey::parse("0X8000"), Err(UFMError::InvalidPKey(m)) if m == "0x8000"));
    assert!(matches!(PartitionKey::parse("ABC"), Err(UFMError::InvalidPKey(m)) if m == "abc"));
}
