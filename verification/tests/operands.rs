use mmmasm::operand::{BitWidth, GPR};

#[test]
fn register_all_valid() {
    for n in 0..64u32 {
        let text = format!("r{}", n);
        let parsed = GPR::from_str(&text);
        assert!(matches!(parsed, Ok(GPR(v)) if v == n), "r{} should parse", n);
    }
}

#[test]
fn register_out_of_range_fails() {
    assert_eq!(GPR::from_str("r64"), Err("r64".to_string()));
    assert_eq!(GPR::from_str("r100"), Err("r100".to_string()));
    assert_eq!(GPR::from_str("r4294967296"), Err("r4294967296".to_string()));
}

#[test]
fn register_malformed_fails() {
    assert_eq!(GPR::from_str("r-1"), Err("r-1".to_string()));
    assert_eq!(GPR::from_str("rX"), Err("rX".to_string()));
    assert_eq!(GPR::from_str("x5"), Err("x5".to_string()));
    assert_eq!(GPR::from_str("r"), Err("r".to_string()));
    assert_eq!(GPR::from_str(""), Err("".to_string()));
    assert_eq!(GPR::from_str("r+5"), Err("r+5".to_string()));
}

#[test]
fn register_leading_zeros() {
    assert_eq!(GPR::from_str("r007"), Ok(GPR(7)));
}

#[test]
fn width_codes_exact() {
    assert_eq!(BitWidth::from_str("8").map(BitWidth::code), Ok(0b00));
    assert_eq!(BitWidth::from_str("16").map(BitWidth::code), Ok(0b01));
    assert_eq!(BitWidth::from_str("32").map(BitWidth::code), Ok(0b10));
    assert_eq!(BitWidth::from_str("64").map(BitWidth::code), Ok(0b11));
}

#[test]
fn width_other_literals_fail() {
    for bad in ["7", "128", "08", " 8", "8 ", "", "eight"] {
        assert_eq!(BitWidth::from_str(bad), Err(bad.to_string()));
    }
}
