//! The instruction encoder: one mnemonic token plus its operand tokens
//! become one 32-bit instruction word, and label-referencing instructions
//! also yield relocation records for the resolver.

use vstd::prelude::*;
use vstd::string::*;
use crate::error::{AsmError, AsmErrV};
use crate::operand::{reg_of, width_of, GPR, BitWidth};
use crate::text::{dec_val, is_dec_string, parse_dec_upto, str_eq};

verus! {

/// Opcode of `nop`, occupying bits 30..25.
pub const OP_NOP: u32 = 0b000001;

/// Opcode of `movd`/`movq`.
pub const OP_MOV: u32 = 0b000010;

/// Opcode of `add`.
pub const OP_ADD: u32 = 0b000011;

/// Opcode of `sub`.
pub const OP_SUB: u32 = 0b000100;

/// Opcode of `xor`.
pub const OP_XOR: u32 = 0b000101;

/// Opcode of `and`.
pub const OP_AND: u32 = 0b000110;

/// Opcode of `or`.
pub const OP_OR: u32 = 0b000111;

/// Opcode of `shl`.
pub const OP_SHL: u32 = 0b001000;

/// Opcode of `shr_u`/`shr_s`.
pub const OP_SHR: u32 = 0b001001;

/// Opcode of `cmp_u`/`cmp_s`.
pub const OP_CMP: u32 = 0b010000;

/// Opcode of `ldconst16`, reused by `adr`.
pub const OP_LDCONST16: u32 = 0b111000;

/// Opcode of `br`.
pub const OP_BR: u32 = 0b010100;

/// Opcode of `br_indirect`.
pub const OP_BR_INDIRECT: u32 = 0b010101;

/// Opcode of `debug`.
pub const OP_DEBUG: u32 = 0b111111;

/// Bit 31, set by the `@` mnemonic prefix.
pub const PARALLEL_BIT: u32 = 0x8000_0000;

/// A deferred patch: once labels are known, the target label's instruction
/// index is OR'd into the word at `inst_index`, shifted by `bit_offset`.
pub struct Reloc {
    pub inst_index: usize,
    pub bit_offset: u32,
    pub target: String,
}

/// The mathematical shape of a [`Reloc`].
pub struct RelocV {
    pub inst_index: int,
    pub bit_offset: u32,
    pub target: Seq<char>,
}

impl View for Reloc {
    type V = RelocV;

    open spec fn view(&self) -> RelocV {
        RelocV { inst_index: self.inst_index as int, bit_offset: self.bit_offset, target: self.target@ }
    }
}

impl DeepView for Reloc {
    type V = RelocV;

    open spec fn deep_view(&self) -> RelocV {
        self.view()
    }
}

/// A numeric token whose value fits the field bound.
pub open spec fn num_ok(s: Seq<char>, max: u32) -> bool {
    is_dec_string(s) && dec_val(s) <= max
}

/// The word of a `movd`/`movq` instruction: `code2` is the fixed width code
/// (0b10 for `movd`, 0b11 for `movq`), operands are `dst, src` and an
/// optional `cond, flag-register` pair, `cond` masked to its 4-bit field.
pub open spec fn encode_mov_spec(code2: u32, ops: Seq<Seq<char>>) -> Result<u32, AsmErrV> {
    if ops.len() < 1 {
        Err(AsmErrV::MissingOperand("dst"@))
    } else {
        match reg_of(ops[0]) {
            None => Err(AsmErrV::BadRegister(ops[0])),
            Some(dst) => if ops.len() < 2 {
                Err(AsmErrV::MissingOperand("src"@))
            } else {
                match reg_of(ops[1]) {
                    None => Err(AsmErrV::BadRegister(ops[1])),
                    Some(src) => {
                        let w = (OP_MOV << 25) | (code2 << 19) | (dst << 13) | (src << 7);
                        if ops.len() < 3 {
                            Ok(w)
                        } else if !num_ok(ops[2], 255) {
                            Err(AsmErrV::BadNumber(ops[2]))
                        } else {
                            let cond = dec_val(ops[2]) as u32;
                            if ops.len() < 4 {
                                Err(AsmErrV::MissingOperand("flag register"@))
                            } else {
                                match reg_of(ops[3]) {
                                    None => Err(AsmErrV::BadRegister(ops[3])),
                                    Some(flag) => Ok(w | ((cond & 0xf) << 21) | flag),
                                }
                            }
                        }
                    },
                }
            },
        }
    }
}

/// The word of a three-register ALU instruction: operands are
/// `width, dst, src1, src2`; bit 6 is the signed flag.
pub open spec fn encode_alu_spec(op: u32, signed: bool, ops: Seq<Seq<char>>) -> Result<
    u32,
    AsmErrV,
> {
    if ops.len() < 1 {
        Err(AsmErrV::MissingOperand("bitwidth"@))
    } else {
        match width_of(ops[0]) {
            None => Err(AsmErrV::BadWidth(ops[0])),
            Some(bw) => if ops.len() < 2 {
                Err(AsmErrV::MissingOperand("dst"@))
            } else {
                match reg_of(ops[1]) {
                    None => Err(AsmErrV::BadRegister(ops[1])),
                    Some(dst) => if ops.len() < 3 {
                        Err(AsmErrV::MissingOperand("src1"@))
                    } else {
                        match reg_of(ops[2]) {
                            None => Err(AsmErrV::BadRegister(ops[2])),
                            Some(src1) => if ops.len() < 4 {
                                Err(AsmErrV::MissingOperand("src2"@))
                            } else {
                                match reg_of(ops[3]) {
                                    None => Err(AsmErrV::BadRegister(ops[3])),
                                    Some(src2) => Ok(
                                        (op << 25) | (dst << 19) | (src1 << 13) | (src2 << 7) | (
                                        bw.code_spec() << 4) | (if signed {
                                            1u32 << 6
                                        } else {
                                            0u32
                                        }),
                                    ),
                                }
                            },
                        }
                    },
                }
            },
        }
    }
}

/// The word of `ldconst16`: operands are `nth, dst, value`; `nth` must lie
/// below 4 and `value` fits 16 bits.
pub open spec fn encode_ldconst16_spec(ops: Seq<Seq<char>>) -> Result<u32, AsmErrV> {
    if ops.len() < 1 {
        Err(AsmErrV::MissingOperand("sub-index"@))
    } else if !num_ok(ops[0], 255) {
        Err(AsmErrV::BadNumber(ops[0]))
    } else {
        let nth = dec_val(ops[0]) as u32;
        if nth >= 4 {
            Err(AsmErrV::SubIndexRange(nth))
        } else if ops.len() < 2 {
            Err(AsmErrV::MissingOperand("dst"@))
        } else {
            match reg_of(ops[1]) {
                None => Err(AsmErrV::BadRegister(ops[1])),
                Some(dst) => if ops.len() < 3 {
                    Err(AsmErrV::MissingOperand("value"@))
                } else if !num_ok(ops[2], 0xffff) {
                    Err(AsmErrV::BadNumber(ops[2]))
                } else {
                    let value = dec_val(ops[2]) as u32;
                    Ok((OP_LDCONST16 << 25) | (nth << 23) | (dst << 17) | value)
                },
            }
        }
    }
}

/// The word of `br`: operands are `label` and an optional
/// `cond, flag-register` pair; the target index is patched in later at bit
/// offset 6.
pub open spec fn encode_br_spec(ops: Seq<Seq<char>>) -> Result<u32, AsmErrV> {
    if ops.len() < 1 {
        Err(AsmErrV::MissingOperand("label"@))
    } else {
        let w = OP_BR << 25;
        if ops.len() < 2 {
            Ok(w)
        } else if !num_ok(ops[1], 255) {
            Err(AsmErrV::BadNumber(ops[1]))
        } else {
            let cond = dec_val(ops[1]) as u32;
            if ops.len() < 3 {
                Err(AsmErrV::MissingOperand("flag register"@))
            } else {
                match reg_of(ops[2]) {
                    None => Err(AsmErrV::BadRegister(ops[2])),
                    Some(flag) => Ok(w | ((cond & 0xf) << 21) | flag),
                }
            }
        }
    }
}

/// The word of `br_indirect`: operands are `predicate-register` and an
/// optional `cond, flag-register` pair.
pub open spec fn encode_br_indirect_spec(ops: Seq<Seq<char>>) -> Result<u32, AsmErrV> {
    if ops.len() < 1 {
        Err(AsmErrV::MissingOperand("predicate"@))
    } else {
        match reg_of(ops[0]) {
            None => Err(AsmErrV::BadRegister(ops[0])),
            Some(pred) => {
                let w = (OP_BR_INDIRECT << 25) | (pred << 15);
                if ops.len() < 2 {
                    Ok(w)
                } else if !num_ok(ops[1], 255) {
                    Err(AsmErrV::BadNumber(ops[1]))
                } else {
                    let cond = dec_val(ops[1]) as u32;
                    if ops.len() < 3 {
                        Err(AsmErrV::MissingOperand("flag register"@))
                    } else {
                        match reg_of(ops[2]) {
                            None => Err(AsmErrV::BadRegister(ops[2])),
                            Some(flag) => Ok(w | ((cond & 0xf) << 21) | flag),
                        }
                    }
                }
            },
        }
    }
}

/// The word of `adr`: operands are `dst, label`; it reuses the `ldconst16`
/// shape with sub-index 0, and the target index is patched in at bit
/// offset 0, overlapping the value field.
pub open spec fn encode_adr_spec(ops: Seq<Seq<char>>) -> Result<u32, AsmErrV> {
    if ops.len() < 1 {
        Err(AsmErrV::MissingOperand("dst"@))
    } else {
        match reg_of(ops[0]) {
            None => Err(AsmErrV::BadRegister(ops[0])),
            Some(dst) => if ops.len() < 2 {
                Err(AsmErrV::MissingOperand("label"@))
            } else {
                Ok((OP_LDCONST16 << 25) | (dst << 17))
            },
        }
    }
}

/// The word of `debug`: operands are `hint, src`.
pub open spec fn encode_debug_spec(ops: Seq<Seq<char>>) -> Result<u32, AsmErrV> {
    if ops.len() < 1 {
        Err(AsmErrV::MissingOperand("hint"@))
    } else if !num_ok(ops[0], 255) {
        Err(AsmErrV::BadNumber(ops[0]))
    } else {
        let hint = dec_val(ops[0]) as u32;
        if ops.len() < 2 {
            Err(AsmErrV::MissingOperand("src"@))
        } else {
            match reg_of(ops[1]) {
                None => Err(AsmErrV::BadRegister(ops[1])),
                Some(src) => Ok((OP_DEBUG << 25) | (hint << 17) | (src << 11)),
            }
        }
    }
}

/// Pairs a reloc-free word with the empty relocation list.
pub open spec fn plain(w: Result<u32, AsmErrV>) -> Result<(u32, Seq<RelocV>), AsmErrV> {
    match w {
        Ok(word) => Ok((word, Seq::<RelocV>::empty())),
        Err(e) => Err(e),
    }
}

/// What encoding a mnemonic token with its operand tokens yields for the
/// instruction at `idx`: the 32-bit word and the relocation records, or the
/// fatal error. A leading `@` sets the parallel-issue bit and is stripped
/// before dispatch.
pub open spec fn encode_spec(m: Seq<char>, ops: Seq<Seq<char>>, idx: int) -> Result<
    (u32, Seq<RelocV>),
    AsmErrV,
> {
    let par: u32 = if m.len() > 0 && m[0] == '@' {
        PARALLEL_BIT
    } else {
        0
    };
    let mn = if m.len() > 0 && m[0] == '@' {
        m.skip(1)
    } else {
        m
    };
    let base: Result<(u32, Seq<RelocV>), AsmErrV> = if mn == "nop"@ {
        Ok((OP_NOP << 25, Seq::<RelocV>::empty()))
    } else if mn == "movd"@ {
        plain(encode_mov_spec(0b10, ops))
    } else if mn == "movq"@ {
        plain(encode_mov_spec(0b11, ops))
    } else if mn == "add"@ {
        plain(encode_alu_spec(OP_ADD, false, ops))
    } else if mn == "sub"@ {
        plain(encode_alu_spec(OP_SUB, false, ops))
    } else if mn == "and"@ {
        plain(encode_alu_spec(OP_AND, false, ops))
    } else if mn == "or"@ {
        plain(encode_alu_spec(OP_OR, false, ops))
    } else if mn == "xor"@ {
        plain(encode_alu_spec(OP_XOR, false, ops))
    } else if mn == "shl"@ {
        plain(encode_alu_spec(OP_SHL, false, ops))
    } else if mn == "shr_u"@ {
        plain(encode_alu_spec(OP_SHR, false, ops))
    } else if mn == "shr_s"@ {
        plain(encode_alu_spec(OP_SHR, true, ops))
    } else if mn == "cmp_u"@ {
        plain(encode_alu_spec(OP_CMP, false, ops))
    } else if mn == "cmp_s"@ {
        plain(encode_alu_spec(OP_CMP, true, ops))
    } else if mn == "ldconst16"@ {
        plain(encode_ldconst16_spec(ops))
    } else if mn == "br"@ {
        match encode_br_spec(ops) {
            Ok(w) => Ok(
                (w, seq![RelocV { inst_index: idx, bit_offset: 6, target: ops[0] }]),
            ),
            Err(e) => Err(e),
        }
    } else if mn == "br_indirect"@ {
        plain(encode_br_indirect_spec(ops))
    } else if mn == "adr"@ {
        match encode_adr_spec(ops) {
            Ok(w) => Ok(
                (w, seq![RelocV { inst_index: idx, bit_offset: 0, target: ops[1] }]),
            ),
            Err(e) => Err(e),
        }
    } else if mn == "debug"@ {
        plain(encode_debug_spec(ops))
    } else {
        Err(AsmErrV::UnknownMnemonic(mn))
    };
    match base {
        Ok(p) => Ok((p.0 | par, p.1)),
        Err(e) => Err(e),
    }
}

fn encode_mov(code2: u32, ops: &Vec<String>) -> (r: Result<u32, AsmError>)
    ensures
        ({
            let s = encode_mov_spec(code2, ops.deep_view());
            match r {
                Ok(w) => s == Ok::<u32, AsmErrV>(w),
                Err(e) => s == Err::<u32, AsmErrV>(e@),
            }
        }),
{
    if ops.len() < 1 {
        return Err(AsmError::MissingOperand(String::from_str("dst")));
    }
    let dst = match GPR::from_str(ops[0].as_str()) {
        Ok(g) => g,
        Err(e) => return Err(AsmError::BadRegister(e)),
    };
    if ops.len() < 2 {
        return Err(AsmError::MissingOperand(String::from_str("src")));
    }
    let src = match GPR::from_str(ops[1].as_str()) {
        Ok(g) => g,
        Err(e) => return Err(AsmError::BadRegister(e)),
    };
    let w = (OP_MOV << 25) | (code2 << 19) | (dst.0 << 13) | (src.0 << 7);
    if ops.len() < 3 {
        return Ok(w);
    }
    let cond = match parse_dec_upto(ops[2].as_str(), 255) {
        Some(v) => v,
        None => return Err(AsmError::BadNumber(ops[2].clone())),
    };
    if ops.len() < 4 {
        return Err(AsmError::MissingOperand(String::from_str("flag register")));
    }
    let flag = match GPR::from_str(ops[3].as_str()) {
        Ok(g) => g,
        Err(e) => return Err(AsmError::BadRegister(e)),
    };
    Ok(w | ((cond & 0xf) << 21) | flag.0)
}

fn encode_alu(op: u32, signed: bool, ops: &Vec<String>) -> (r: Result<u32, AsmError>)
    ensures
        ({
            let s = encode_alu_spec(op, signed, ops.deep_view());
            match r {
                Ok(w) => s == Ok::<u32, AsmErrV>(w),
                Err(e) => s == Err::<u32, AsmErrV>(e@),
            }
        }),
{
    if ops.len() < 1 {
        return Err(AsmError::MissingOperand(String::from_str("bitwidth")));
    }
    let bw = match BitWidth::from_str(ops[0].as_str()) {
        Ok(b) => b,
        Err(e) => return Err(AsmError::BadWidth(e)),
    };
    if ops.len() < 2 {
        return Err(AsmError::MissingOperand(String::from_str("dst")));
    }
    let dst = match GPR::from_str(ops[1].as_str()) {
        Ok(g) => g,
        Err(e) => return Err(AsmError::BadRegister(e)),
    };
    if ops.len() < 3 {
        return Err(AsmError::MissingOperand(String::from_str("src1")));
    }
    let src1 = match GPR::from_str(ops[2].as_str()) {
        Ok(g) => g,
        Err(e) => return Err(AsmError::BadRegister(e)),
    };
    if ops.len() < 4 {
        return Err(AsmError::MissingOperand(String::from_str("src2")));
    }
    let src2 = match GPR::from_str(ops[3].as_str()) {
        Ok(g) => g,
        Err(e) => return Err(AsmError::BadRegister(e)),
    };
    let sbit: u32 = if signed {
        1u32 << 6
    } else {
        0u32
    };
    Ok((op << 25) | (dst.0 << 19) | (src1.0 << 13) | (src2.0 << 7) | (bw.code() << 4) | sbit)
}

fn encode_ldconst16(ops: &Vec<String>) -> (r: Result<u32, AsmError>)
    ensures
        ({
            let s = encode_ldconst16_spec(ops.deep_view());
            match r {
                Ok(w) => s == Ok::<u32, AsmErrV>(w),
                Err(e) => s == Err::<u32, AsmErrV>(e@),
            }
        }),
{
    if ops.len() < 1 {
        return Err(AsmError::MissingOperand(String::from_str("sub-index")));
    }
    let nth = match parse_dec_upto(ops[0].as_str(), 255) {
        Some(v) => v,
        None => return Err(AsmError::BadNumber(ops[0].clone())),
    };
    if nth >= 4 {
        return Err(AsmError::SubIndexRange(nth));
    }
    if ops.len() < 2 {
        return Err(AsmError::MissingOperand(String::from_str("dst")));
    }
    let dst = match GPR::from_str(ops[1].as_str()) {
        Ok(g) => g,
        Err(e) => return Err(AsmError::BadRegister(e)),
    };
    if ops.len() < 3 {
        return Err(AsmError::MissingOperand(String::from_str("value")));
    }
    let value = match parse_dec_upto(ops[2].as_str(), 0xffff) {
        Some(v) => v,
        None => return Err(AsmError::BadNumber(ops[2].clone())),
    };
    Ok((OP_LDCONST16 << 25) | (nth << 23) | (dst.0 << 17) | value)
}

fn encode_br(ops: &Vec<String>) -> (r: Result<u32, AsmError>)
    ensures
        ({
            let s = encode_br_spec(ops.deep_view());
            match r {
                Ok(w) => s == Ok::<u32, AsmErrV>(w),
                Err(e) => s == Err::<u32, AsmErrV>(e@),
            }
        }),
{
    if ops.len() < 1 {
        return Err(AsmError::MissingOperand(String::from_str("label")));
    }
    let w = OP_BR << 25;
    if ops.len() < 2 {
        return Ok(w);
    }
    let cond = match parse_dec_upto(ops[1].as_str(), 255) {
        Some(v) => v,
        None => return Err(AsmError::BadNumber(ops[1].clone())),
    };
    if ops.len() < 3 {
        return Err(AsmError::MissingOperand(String::from_str("flag register")));
    }
    let flag = match GPR::from_str(ops[2].as_str()) {
        Ok(g) => g,
        Err(e) => return Err(AsmError::BadRegister(e)),
    };
    Ok(w | ((cond & 0xf) << 21) | flag.0)
}

fn encode_br_indirect(ops: &Vec<String>) -> (r: Result<u32, AsmError>)
    ensures
        ({
            let s = encode_br_indirect_spec(ops.deep_view());
            match r {
                Ok(w) => s == Ok::<u32, AsmErrV>(w),
                Err(e) => s == Err::<u32, AsmErrV>(e@),
            }
        }),
{
    if ops.len() < 1 {
        return Err(AsmError::MissingOperand(String::from_str("predicate")));
    }
    let pred = match GPR::from_str(ops[0].as_str()) {
        Ok(g) => g,
        Err(e) => return Err(AsmError::BadRegister(e)),
    };
    let w = (OP_BR_INDIRECT << 25) | (pred.0 << 15);
    if ops.len() < 2 {
        return Ok(w);
    }
    let cond = match parse_dec_upto(ops[1].as_str(), 255) {
        Some(v) => v,
        None => return Err(AsmError::BadNumber(ops[1].clone())),
    };
    if ops.len() < 3 {
        return Err(AsmError::MissingOperand(String::from_str("flag register")));
    }
    let flag = match GPR::from_str(ops[2].as_str()) {
        Ok(g) => g,
        Err(e) => return Err(AsmError::BadRegister(e)),
    };
    Ok(w | ((cond & 0xf) << 21) | flag.0)
}

fn encode_adr(ops: &Vec<String>) -> (r: Result<u32, AsmError>)
    ensures
        ({
            let s = encode_adr_spec(ops.deep_view());
            match r {
                Ok(w) => s == Ok::<u32, AsmErrV>(w),
                Err(e) => s == Err::<u32, AsmErrV>(e@),
            }
        }),
{
    if ops.len() < 1 {
        return Err(AsmError::MissingOperand(String::from_str("dst")));
    }
    let dst = match GPR::from_str(ops[0].as_str()) {
        Ok(g) => g,
        Err(e) => return Err(AsmError::BadRegister(e)),
    };
    if ops.len() < 2 {
        return Err(AsmError::MissingOperand(String::from_str("label")));
    }
    Ok((OP_LDCONST16 << 25) | (dst.0 << 17))
}

fn encode_debug(ops: &Vec<String>) -> (r: Result<u32, AsmError>)
    ensures
        ({
            let s = encode_debug_spec(ops.deep_view());
            match r {
                Ok(w) => s == Ok::<u32, AsmErrV>(w),
                Err(e) => s == Err::<u32, AsmErrV>(e@),
            }
        }),
{
    if ops.len() < 1 {
        return Err(AsmError::MissingOperand(String::from_str("hint")));
    }
    let hint = match parse_dec_upto(ops[0].as_str(), 255) {
        Some(v) => v,
        None => return Err(AsmError::BadNumber(ops[0].clone())),
    };
    if ops.len() < 2 {
        return Err(AsmError::MissingOperand(String::from_str("src")));
    }
    let src = match GPR::from_str(ops[1].as_str()) {
        Ok(g) => g,
        Err(e) => return Err(AsmError::BadRegister(e)),
    };
    Ok((OP_DEBUG << 25) | (hint << 17) | (src.0 << 11))
}

fn with_no_relocs(r: Result<u32, AsmError>) -> (p: Result<(u32, Vec<Reloc>), AsmError>)
    ensures
        match p {
            Ok(q) => r == Ok::<u32, AsmError>(q.0) && q.1.deep_view() == Seq::<RelocV>::empty(),
            Err(e) => r == Err::<u32, AsmError>(e),
        },
{
    match r {
        Ok(w) => {
            let rs: Vec<Reloc> = Vec::new();
            proof {
                assert(rs.deep_view() =~= Seq::<RelocV>::empty());
            }
            Ok((w, rs))
        },
        Err(e) => Err(e),
    }
}

/// Encodes one instruction: the mnemonic token (with an optional `@`
/// prefix) and the trimmed operand tokens become the 32-bit word of the
/// instruction at `inst_index`, plus its relocation records.
pub fn encode_instruction(mnemonic: &str, ops: &Vec<String>, inst_index: usize) -> (r: Result<
    (u32, Vec<Reloc>),
    AsmError,
>)
    ensures
        ({
            let s = encode_spec(mnemonic@, ops.deep_view(), inst_index as int);
            match r {
                Ok(p) => s matches Ok(q) && q.0 == p.0 && p.1.deep_view() == q.1,
                Err(e) => s matches Err(f) && f == e@,
            }
        }),
{
    let mlen = mnemonic.unicode_len();
    let par: u32 = if mlen > 0 && mnemonic.get_char(0) == '@' {
        PARALLEL_BIT
    } else {
        0
    };
    let mn: &str = if mlen > 0 && mnemonic.get_char(0) == '@' {
        let t = mnemonic.substring_char(1, mlen);
        proof {
            assert(t@ =~= mnemonic@.skip(1));
        }
        t
    } else {
        mnemonic
    };
    let base: Result<(u32, Vec<Reloc>), AsmError> = if str_eq(mn, "nop") {
        Ok((OP_NOP << 25, Vec::new()))
    } else if str_eq(mn, "movd") {
        with_no_relocs(encode_mov(0b10, ops))
    } else if str_eq(mn, "movq") {
        with_no_relocs(encode_mov(0b11, ops))
    } else if str_eq(mn, "add") {
        with_no_relocs(encode_alu(OP_ADD, false, ops))
    } else if str_eq(mn, "sub") {
        with_no_relocs(encode_alu(OP_SUB, false, ops))
    } else if str_eq(mn, "and") {
        with_no_relocs(encode_alu(OP_AND, false, ops))
    } else if str_eq(mn, "or") {
        with_no_relocs(encode_alu(OP_OR, false, ops))
    } else if str_eq(mn, "xor") {
        with_no_relocs(encode_alu(OP_XOR, false, ops))
    } else if str_eq(mn, "shl") {
        with_no_relocs(encode_alu(OP_SHL, false, ops))
    } else if str_eq(mn, "shr_u") {
        with_no_relocs(encode_alu(OP_SHR, false, ops))
    } else if str_eq(mn, "shr_s") {
        with_no_relocs(encode_alu(OP_SHR, true, ops))
    } else if str_eq(mn, "cmp_u") {
        with_no_relocs(encode_alu(OP_CMP, false, ops))
    } else if str_eq(mn, "cmp_s") {
        with_no_relocs(encode_alu(OP_CMP, true, ops))
    } else if str_eq(mn, "ldconst16") {
        with_no_relocs(encode_ldconst16(ops))
    } else if str_eq(mn, "br") {
        match encode_br(ops) {
            Ok(w) => {
                let mut rs: Vec<Reloc> = Vec::new();
                rs.push(Reloc { inst_index, bit_offset: 6, target: ops[0].clone() });
                proof {
                    assert(rs.deep_view() =~= seq![
                        RelocV {
                            inst_index: inst_index as int,
                            bit_offset: 6,
                            target: ops.deep_view()[0],
                        },
                    ]);
                }
                Ok((w, rs))
            },
            Err(e) => Err(e),
        }
    } else if str_eq(mn, "br_indirect") {
        with_no_relocs(encode_br_indirect(ops))
    } else if str_eq(mn, "adr") {
        match encode_adr(ops) {
            Ok(w) => {
                let mut rs: Vec<Reloc> = Vec::new();
                rs.push(Reloc { inst_index, bit_offset: 0, target: ops[1].clone() });
                proof {
                    assert(rs.deep_view() =~= seq![
                        RelocV {
                            inst_index: inst_index as int,
                            bit_offset: 0,
                            target: ops.deep_view()[1],
                        },
                    ]);
                }
                Ok((w, rs))
            },
            Err(e) => Err(e),
        }
    } else if str_eq(mn, "debug") {
        with_no_relocs(encode_debug(ops))
    } else {
        Err(AsmError::UnknownMnemonic(String::from_str(mn)))
    };
    match base {
        Ok(p) => Ok((p.0 | par, p.1)),
        Err(e) => Err(e),
    }
}

/// Every relocation record the encoder yields carries the instruction's own
/// index and one of the two fixed bit offsets, and one instruction yields at
/// most one record.
pub proof fn lemma_encode_spec_relocs(m: Seq<char>, ops: Seq<Seq<char>>, idx: int)
    ensures
        encode_spec(m, ops, idx) matches Ok(p) ==> forall|i: int|
            0 <= i < p.1.len() ==> (#[trigger] p.1[i]).inst_index == idx && (p.1[i].bit_offset == 0
                || p.1[i].bit_offset == 6),
        encode_spec(m, ops, idx) matches Ok(p) ==> p.1.len() <= 1,
{
}

} // verus!
