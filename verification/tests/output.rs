use mmmasm::driver::assemble;
use mmmasm::serialize::{dec_of, hex8_of, render_table};

#[test]
fn hex_digits_lowercase_and_padded() {
    assert_eq!(hex8_of(0x02000000), "02000000");
    assert_eq!(hex8_of(0), "00000000");
    assert_eq!(hex8_of(0xffffffff), "ffffffff");
    assert_eq!(hex8_of(0xdeadbeef), "deadbeef");
    assert_eq!(hex8_of(0x1), "00000001");
}

#[test]
fn decimal_rendering() {
    assert_eq!(dec_of(0), "0");
    assert_eq!(dec_of(7), "7");
    assert_eq!(dec_of(10), "10");
    assert_eq!(dec_of(12345), "12345");
}

#[test]
fn two_instruction_table_has_two_entries() {
    let lines: Vec<String> = ["nop", "@nop"].iter().map(|s| s.to_string()).collect();
    let words = assemble(&lines).unwrap();
    assert_eq!(words.len(), 2);
    let body = render_table(&words);
    let expected = "        0 => x\"02000000\",\n        1 => x\"82000000\",";
    assert_eq!(body, expected);
    assert_eq!(body.lines().count(), 2);
}

#[test]
fn empty_program_renders_empty_table() {
    let words = assemble(&Vec::new()).unwrap();
    assert_eq!(words.len(), 0);
    assert_eq!(render_table(&words), "");
}
