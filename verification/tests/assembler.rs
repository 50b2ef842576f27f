use mmmasm::driver::assemble;
use mmmasm::encode::encode_instruction;
use mmmasm::error::AsmError;

fn lines(v: &[&str]) -> Vec<String> {
    v.iter().map(|s| s.to_string()).collect()
}

fn ops(v: &[&str]) -> Vec<String> {
    v.iter().map(|s| s.to_string()).collect()
}

#[test]
fn nop_word() {
    let words = assemble(&lines(&["nop"])).unwrap();
    assert_eq!(words, vec![0b000001u32 << 25]);
    assert_eq!(words, vec![0x02000000]);
}

#[test]
fn add_field_placement() {
    let words = assemble(&lines(&["add 32,r1,r2,r3"])).unwrap();
    let expected = (0b000011u32 << 25) | (1 << 19) | (2 << 13) | (3 << 7) | (0b10 << 4);
    assert_eq!(words, vec![expected]);
}

#[test]
fn alu_signed_flag() {
    let unsigned = assemble(&lines(&["shr_u 8,r0,r1,r2"])).unwrap();
    let signed = assemble(&lines(&["shr_s 8,r0,r1,r2"])).unwrap();
    assert_eq!(unsigned[0] | (1 << 6), signed[0]);
    assert_eq!(unsigned[0] & (1 << 6), 0);
    let cu = assemble(&lines(&["cmp_u 64,r5,r6,r7"])).unwrap();
    let cs = assemble(&lines(&["cmp_s 64,r5,r6,r7"])).unwrap();
    assert_eq!(cu[0] >> 25, 0b010000);
    assert_eq!(cs[0], cu[0] | (1 << 6));
}

#[test]
fn alu_opcodes() {
    let cases = [
        ("add", 0b000011u32),
        ("sub", 0b000100),
        ("xor", 0b000101),
        ("and", 0b000110),
        ("or", 0b000111),
        ("shl", 0b001000),
        ("shr_u", 0b001001),
        ("cmp_u", 0b010000),
    ];
    for (mn, op) in cases {
        let text = format!("{} 16,r1,r2,r3", mn);
        let words = assemble(&lines(&[&text])).unwrap();
        assert_eq!(words[0] >> 25, op, "{}", mn);
        assert_eq!((words[0] >> 4) & 0x3, 0b01, "{}", mn);
    }
}

#[test]
fn forward_reference_resolves_to_binding_index() {
    let words = assemble(&lines(&["br loop", "nop", "loop:"])).unwrap();
    assert_eq!(words.len(), 2);
    assert_eq!(words[0] >> 25, 0b010100);
    assert_eq!((words[0] >> 6) & 0x7fff, 2);
}

#[test]
fn backward_reference_same_binding() {
    let words = assemble(&lines(&["nop", "nop", "loop:", "br loop"])).unwrap();
    assert_eq!(words.len(), 3);
    assert_eq!((words[2] >> 6) & 0x7fff, 2);
}

#[test]
fn label_line_consumes_no_slot() {
    let with_label = assemble(&lines(&["start:", "nop", "mid:", "nop"])).unwrap();
    let without = assemble(&lines(&["nop", "nop"])).unwrap();
    assert_eq!(with_label, without);
}

#[test]
fn unresolved_label_is_fatal() {
    let r = assemble(&lines(&["br nowhere"]));
    match r {
        Err(AsmError::UnknownLabel(l)) => assert_eq!(l, "nowhere"),
        other => panic!("expected unknown label, got {:?}", other),
    }
}

#[test]
fn ldconst16_sub_index_range() {
    let r = assemble(&lines(&["ldconst16 4,r0,0"]));
    assert!(matches!(r, Err(AsmError::SubIndexRange(4))));
    let ok = assemble(&lines(&["ldconst16 3,r2,65535"])).unwrap();
    let expected = (0b111000u32 << 25) | (3 << 23) | (2 << 17) | 65535;
    assert_eq!(ok, vec![expected]);
}

#[test]
fn movd_cond_forces_flag_register() {
    let words = assemble(&lines(&["movd r1,r2,3,r4"])).unwrap();
    let w = words[0];
    assert_eq!(w >> 25, 0b000010);
    assert_eq!((w >> 19) & 0x3, 0b10);
    assert_eq!((w >> 13) & 0x3f, 1);
    assert_eq!((w >> 7) & 0x3f, 2);
    assert_eq!((w >> 21) & 0xf, 3);
    assert_eq!(w & 0x3f, 4);
    let missing = assemble(&lines(&["movd r1,r2,3"]));
    match missing {
        Err(AsmError::MissingOperand(name)) => assert_eq!(name, "flag register"),
        other => panic!("expected missing flag register, got {:?}", other),
    }
}

#[test]
fn movq_width_code() {
    let words = assemble(&lines(&["movq r9,r10"])).unwrap();
    let expected = (0b000010u32 << 25) | (0b11 << 19) | (9 << 13) | (10 << 7);
    assert_eq!(words, vec![expected]);
}

#[test]
fn parallel_prefix_sets_bit_31() {
    let plain = assemble(&lines(&["nop"])).unwrap();
    let parallel = assemble(&lines(&["@nop"])).unwrap();
    assert_eq!(parallel[0], plain[0] | 0x8000_0000);
}

#[test]
fn adr_relocates_at_offset_zero() {
    let words = assemble(&lines(&["adr r3,tail", "nop", "tail:"])).unwrap();
    let expected = (0b111000u32 << 25) | (3 << 17) | 2;
    assert_eq!(words[0], expected);
}

#[test]
fn debug_fields() {
    let words = assemble(&lines(&["debug 200,r8"])).unwrap();
    let expected = (0b111111u32 << 25) | (200 << 17) | (8 << 11);
    assert_eq!(words, vec![expected]);
}

#[test]
fn br_indirect_fields() {
    let words = assemble(&lines(&["br_indirect r7,5,r1"])).unwrap();
    let expected = (0b010101u32 << 25) | (7 << 15) | (5 << 21) | 1;
    assert_eq!(words, vec![expected]);
}

#[test]
fn comments_and_blanks_ignored() {
    let words = assemble(&lines(&["", "   ", "# a comment", "  # indented", "nop"])).unwrap();
    assert_eq!(words.len(), 1);
}

#[test]
fn whitespace_around_operands_insignificant() {
    let tight = assemble(&lines(&["add 32,r1,r2,r3"])).unwrap();
    let loose = assemble(&lines(&["  add   32 , r1 ,  r2 ,r3  "])).unwrap();
    assert_eq!(tight, loose);
}

#[test]
fn encoding_is_idempotent() {
    let toks = ops(&["32", "r1", "r2", "r3"]);
    let first = encode_instruction("add", &toks, 0).unwrap();
    let second = encode_instruction("add", &toks, 0).unwrap();
    assert_eq!(first.0, second.0);
}

#[test]
fn unknown_mnemonic_fails() {
    let r = assemble(&lines(&["frobnicate r1"]));
    match r {
        Err(AsmError::UnknownMnemonic(m)) => assert_eq!(m, "frobnicate"),
        other => panic!("expected unknown mnemonic, got {:?}", other),
    }
}

#[test]
fn bad_register_fails() {
    let r = assemble(&lines(&["add 32,r64,r2,r3"]));
    match r {
        Err(AsmError::BadRegister(t)) => assert_eq!(t, "r64"),
        other => panic!("expected bad register, got {:?}", other),
    }
}

#[test]
fn bad_width_fails() {
    let r = assemble(&lines(&["add 33,r1,r2,r3"]));
    match r {
        Err(AsmError::BadWidth(t)) => assert_eq!(t, "33"),
        other => panic!("expected bad width, got {:?}", other),
    }
}

#[test]
fn bad_number_fails() {
    let r = assemble(&lines(&["ldconst16 x,r0,0"]));
    match r {
        Err(AsmError::BadNumber(t)) => assert_eq!(t, "x"),
        other => panic!("expected bad number, got {:?}", other),
    }
    let r = assemble(&lines(&["ldconst16 0,r0,65536"]));
    assert!(matches!(r, Err(AsmError::BadNumber(_))));
}

#[test]
fn missing_operand_fails() {
    let r = assemble(&lines(&["add 32"]));
    match r {
        Err(AsmError::MissingOperand(name)) => assert_eq!(name, "dst"),
        other => panic!("expected missing dst, got {:?}", other),
    }
}

#[test]
fn br_with_cond_and_flag_register() {
    let words = assemble(&lines(&["br t,15,r9", "t:"])).unwrap();
    let expected = (0b010100u32 << 25) | (15 << 21) | 9 | (1 << 6);
    assert_eq!(words, vec![expected]);
    let missing = assemble(&lines(&["br t,15", "t:"]));
    match missing {
        Err(AsmError::MissingOperand(name)) => assert_eq!(name, "flag register"),
        other => panic!("expected missing flag register, got {:?}", other),
    }
}

#[test]
fn condition_masked_to_four_bits() {
    let words = assemble(&lines(&["movd r1,r2,255,r4"])).unwrap();
    assert_eq!((words[0] >> 21) & 0xf, 15);
    let too_big = assemble(&lines(&["movd r1,r2,256,r4"]));
    assert!(matches!(too_big, Err(AsmError::BadNumber(_))));
}

#[test]
fn adr_missing_label_fails() {
    let r = assemble(&lines(&["adr r1"]));
    match r {
        Err(AsmError::MissingOperand(name)) => assert_eq!(name, "label"),
        other => panic!("expected missing label, got {:?}", other),
    }
}

#[test]
fn label_redefinition_last_binding_wins() {
    let words = assemble(&lines(&["br l", "l:", "nop", "l:"])).unwrap();
    assert_eq!((words[0] >> 6) & 0x7fff, 2);
}

#[test]
fn failure_yields_no_words() {
    let r = assemble(&lines(&["nop", "nop", "bogus_instruction"]));
    assert!(r.is_err());
}
