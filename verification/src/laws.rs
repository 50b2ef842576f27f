//! Laws of the assembler, proved once and for all: the encoder is a
//! function of its tokens, every instruction layout keeps its fields in
//! disjoint bit ranges, a label binds the instruction index of the next
//! emitted word wherever its references stand, and an undefined label is
//! always fatal.

use vstd::prelude::*;
use crate::driver::{assemble_spec, lemma_scan_wf, scan_spec};
use crate::encode::{encode_alu_spec, encode_mov_spec, encode_spec, lemma_encode_spec_relocs, RelocV, OP_MOV};
use crate::error::AsmErrV;
use crate::resolve::{lookup_label, patch_word, relocs_wf, resolve_spec};
use crate::operand::{reg_of, width_of};
use crate::text::{dec_val, find_char, ops_of, trim_spec};

verus! {

/// Re-encoding the same line twice yields the identical word and the
/// identical relocation records: the encoder's result is a function of the
/// mnemonic token, the operand tokens and the instruction index alone.
pub proof fn lemma_encode_idempotent(
    m: Seq<char>,
    ops: Seq<Seq<char>>,
    idx: int,
    w1: u32,
    rs1: Seq<RelocV>,
    w2: u32,
    rs2: Seq<RelocV>,
)
    requires
        encode_spec(m, ops, idx) == Ok::<(u32, Seq<RelocV>), AsmErrV>((w1, rs1)),
        encode_spec(m, ops, idx) == Ok::<(u32, Seq<RelocV>), AsmErrV>((w2, rs2)),
    ensures
        w1 == w2,
        rs1 == rs2,
{
}

/// The parallel-issue bit is disjoint from all other fields: setting bit 31
/// leaves bits 30..0 unchanged.
pub proof fn lemma_parallel_bit_disjoint(w: u32)
    by (bit_vector)
    ensures
        (w | 0x8000_0000) & 0x7fff_ffff == w & 0x7fff_ffff,
        (w | 0x8000_0000) >> 31 == 1,
{
}

/// The three-register ALU layout (`add`, `sub`, `and`, `or`, `xor`, `shl`,
/// `shr_*`, `cmp_*`) keeps opcode, registers, width and signed flag in
/// disjoint bit ranges: every field reads back unharmed.
pub proof fn lemma_alu_fields_disjoint(op: u32, dst: u32, src1: u32, src2: u32, wcode: u32, sbit: u32)
    by (bit_vector)
    requires
        op < 64,
        dst < 64,
        src1 < 64,
        src2 < 64,
        wcode < 4,
        sbit < 2,
    ensures
        ({
            let w = (op << 25) | (dst << 19) | (src1 << 13) | (src2 << 7) | (wcode << 4) | (sbit
                << 6);
            (w >> 25) & 0x3f == op && (w >> 19) & 0x3f == dst && (w >> 13) & 0x3f == src1 && (w
                >> 7) & 0x3f == src2 && (w >> 4) & 0x3 == wcode && (w >> 6) & 0x1 == sbit
        }),
{
}

/// The `movd`/`movq` layout keeps opcode, width code, condition, registers
/// and flag register in disjoint bit ranges.
pub proof fn lemma_mov_fields_disjoint(op: u32, code2: u32, cond4: u32, dst: u32, src: u32, flag: u32)
    by (bit_vector)
    requires
        op < 64,
        code2 < 4,
        cond4 < 16,
        dst < 64,
        src < 64,
        flag < 64,
    ensures
        ({
            let w = (op << 25) | (code2 << 19) | (dst << 13) | (src << 7) | (cond4 << 21) | flag;
            (w >> 25) & 0x3f == op && (w >> 19) & 0x3 == code2 && (w >> 21) & 0xf == cond4 && (w
                >> 13) & 0x3f == dst && (w >> 7) & 0x3f == src && w & 0x3f == flag
        }),
{
}

/// The `ldconst16` layout keeps opcode, sub-index, destination and value in
/// disjoint bit ranges.
pub proof fn lemma_ldconst16_fields_disjoint(op: u32, nth: u32, dst: u32, value: u32)
    by (bit_vector)
    requires
        op < 64,
        nth < 4,
        dst < 64,
        value < 0x10000,
    ensures
        ({
            let w = (op << 25) | (nth << 23) | (dst << 17) | value;
            (w >> 25) & 0x3f == op && (w >> 23) & 0x3 == nth && (w >> 17) & 0x3f == dst && w
                & 0xffff == value
        }),
{
}

/// The `br` layout keeps opcode, condition, flag register and the patched
/// target index (15 bits above offset 6) in disjoint bit ranges.
pub proof fn lemma_br_fields_disjoint(op: u32, cond4: u32, flag: u32, target: u32)
    by (bit_vector)
    requires
        op < 64,
        cond4 < 16,
        flag < 64,
        target < 0x8000,
    ensures
        ({
            let w = (op << 25) | (cond4 << 21) | flag | (target << 6);
            (w >> 25) & 0x3f == op && (w >> 21) & 0xf == cond4 && w & 0x3f == flag && (w >> 6)
                & 0x7fff == target
        }),
{
}

/// The `br_indirect` layout keeps opcode, predicate register, condition and
/// flag register in disjoint bit ranges.
pub proof fn lemma_br_indirect_fields_disjoint(op: u32, pred: u32, cond4: u32, flag: u32)
    by (bit_vector)
    requires
        op < 64,
        pred < 64,
        cond4 < 16,
        flag < 64,
    ensures
        ({
            let w = (op << 25) | (pred << 15) | (cond4 << 21) | flag;
            (w >> 25) & 0x3f == op && (w >> 15) & 0x3f == pred && (w >> 21) & 0xf == cond4 && w
                & 0x3f == flag
        }),
{
}

/// The `debug` layout keeps opcode, hint and source register in disjoint
/// bit ranges.
pub proof fn lemma_debug_fields_disjoint(op: u32, hint: u32, src: u32)
    by (bit_vector)
    requires
        op < 64,
        hint < 256,
        src < 64,
    ensures
        ({
            let w = (op << 25) | (hint << 17) | (src << 11);
            (w >> 25) & 0x3f == op && (w >> 17) & 0xff == hint && (w >> 11) & 0x3f == src
        }),
{
}

/// A successful three-register encoding never overwrites a field: every
/// operand the encoder wrote reads back unharmed from the word.
pub proof fn lemma_alu_encode_reads_back(op: u32, signed: bool, ops: Seq<Seq<char>>)
    requires
        op < 64,
        encode_alu_spec(op, signed, ops) is Ok,
    ensures
        ({
            let w = encode_alu_spec(op, signed, ops)->Ok_0;
            &&& (w >> 25) & 0x3f == op
            &&& (w >> 19) & 0x3f == reg_of(ops[1])->Some_0
            &&& (w >> 13) & 0x3f == reg_of(ops[2])->Some_0
            &&& (w >> 7) & 0x3f == reg_of(ops[3])->Some_0
            &&& (w >> 4) & 0x3 == width_of(ops[0])->Some_0.code_spec()
            &&& (w >> 6) & 0x1 == (if signed {
                1u32
            } else {
                0u32
            })
        }),
{
    let w = encode_alu_spec(op, signed, ops)->Ok_0;
    let dst = reg_of(ops[1])->Some_0;
    let src1 = reg_of(ops[2])->Some_0;
    let src2 = reg_of(ops[3])->Some_0;
    let wcode = width_of(ops[0])->Some_0.code_spec();
    if signed {
        assert((w >> 25) & 0x3f == op && (w >> 19) & 0x3f == dst && (w >> 13) & 0x3f == src1 && (w
            >> 7) & 0x3f == src2 && (w >> 4) & 0x3 == wcode && (w >> 6) & 0x1 == 1u32)
            by (bit_vector)
            requires
                w == (op << 25) | (dst << 19) | (src1 << 13) | (src2 << 7) | (wcode << 4) | (1u32
                    << 6),
                op < 64,
                dst < 64,
                src1 < 64,
                src2 < 64,
                wcode < 4,
        ;
    } else {
        assert((w >> 25) & 0x3f == op && (w >> 19) & 0x3f == dst && (w >> 13) & 0x3f == src1 && (w
            >> 7) & 0x3f == src2 && (w >> 4) & 0x3 == wcode && (w >> 6) & 0x1 == 0u32)
            by (bit_vector)
            requires
                w == (op << 25) | (dst << 19) | (src1 << 13) | (src2 << 7) | (wcode << 4) | 0u32,
                op < 64,
                dst < 64,
                src1 < 64,
                src2 < 64,
                wcode < 4,
        ;
    }
}

/// A successful `movd`/`movq` encoding never overwrites a field: with the
/// optional condition present, condition and flag register land in their own
/// bit ranges and the earlier fields still read back unharmed.
pub proof fn lemma_mov_encode_reads_back(code2: u32, ops: Seq<Seq<char>>)
    requires
        code2 < 4,
        encode_mov_spec(code2, ops) is Ok,
    ensures
        ({
            let w = encode_mov_spec(code2, ops)->Ok_0;
            &&& (w >> 25) & 0x3f == OP_MOV
            &&& (w >> 19) & 0x3 == code2
            &&& (w >> 13) & 0x3f == reg_of(ops[0])->Some_0
            &&& (w >> 7) & 0x3f == reg_of(ops[1])->Some_0
            &&& ops.len() >= 3 ==> {
                &&& (w >> 21) & 0xf == (dec_val(ops[2]) as u32) & 0xf
                &&& w & 0x3f == reg_of(ops[3])->Some_0
            }
        }),
{
    let w = encode_mov_spec(code2, ops)->Ok_0;
    let dst = reg_of(ops[0])->Some_0;
    let src = reg_of(ops[1])->Some_0;
    if ops.len() < 3 {
        assert((w >> 25) & 0x3f == 0b000010u32 && (w >> 19) & 0x3 == code2 && (w >> 13) & 0x3f
            == dst && (w >> 7) & 0x3f == src)
            by (bit_vector)
            requires
                w == (0b000010u32 << 25) | (code2 << 19) | (dst << 13) | (src << 7),
                code2 < 4,
                dst < 64,
                src < 64,
        ;
    } else {
        let cond = dec_val(ops[2]) as u32;
        let flag = reg_of(ops[3])->Some_0;
        assert((w >> 25) & 0x3f == 0b000010u32 && (w >> 19) & 0x3 == code2 && (w >> 13) & 0x3f
            == dst && (w >> 7) & 0x3f == src && (w >> 21) & 0xf == cond & 0xf && w & 0x3f == flag)
            by (bit_vector)
            requires
                w == ((0b000010u32 << 25) | (code2 << 19) | (dst << 13) | (src << 7)) | ((cond
                    & 0xf) << 21) | flag,
                code2 < 4,
                dst < 64,
                src < 64,
                flag < 64,
        ;
    }
}

/// A blank or comment line, ignored by the scan.
pub open spec fn is_skip_line(line: Seq<char>) -> bool {
    let t = trim_spec(line);
    t.len() == 0 || t[0] == '#'
}

/// The first space-delimited token of a trimmed line.
pub open spec fn line_inst_token(line: Seq<char>) -> Seq<char> {
    let t = trim_spec(line);
    t.take(find_char(t, ' '))
}

/// A label-definition line: not skipped, and its first token ends in `:`.
pub open spec fn is_label_line(line: Seq<char>) -> bool {
    &&& !is_skip_line(line)
    &&& line_inst_token(line).len() > 0
    &&& line_inst_token(line).last() == ':'
}

/// The name a label-definition line binds: its first token less the colon.
pub open spec fn label_name(line: Seq<char>) -> Seq<char> {
    line_inst_token(line).drop_last()
}

/// An instruction line: neither skipped nor a label definition.
pub open spec fn is_inst_line(line: Seq<char>) -> bool {
    !is_skip_line(line) && !is_label_line(line)
}

/// The number of instruction lines in the input: the instruction index the
/// next emitted word would get.
pub open spec fn inst_count(lines: Seq<Seq<char>>) -> int
    decreases lines.len(),
{
    if lines.len() == 0 {
        0
    } else {
        inst_count(lines.drop_last()) + if is_inst_line(lines.last()) {
            1int
        } else {
            0int
        }
    }
}

/// A successful scan emits exactly one word per instruction line.
pub proof fn lemma_scan_words_count(lines: Seq<Seq<char>>)
    ensures
        scan_spec(lines) matches Ok(st) ==> st.words.len() == inst_count(lines),
    decreases lines.len(),
{
    if lines.len() > 0 {
        lemma_scan_words_count(lines.drop_last());
    }
}

/// Where a label's references stand is irrelevant: after a successful scan,
/// a label defined at line `p` (and nowhere later) is bound to the number
/// of instruction lines before `p` — the index of the next emitted word at
/// that point, whether the references come before or after the definition.
pub proof fn lemma_label_binds_inst_count(lines: Seq<Seq<char>>, p: int)
    requires
        0 <= p < lines.len(),
        is_label_line(lines[p]),
        forall|q: int|
            p < q < lines.len() && is_label_line(lines[q]) ==> label_name(lines[q]) != label_name(
                lines[p],
            ),
        scan_spec(lines) is Ok,
    ensures
        scan_spec(lines) matches Ok(st) && lookup_label(st.labels, label_name(lines[p])) == Some(
            inst_count(lines.take(p)),
        ),
    decreases lines.len(),
{
    let prev = lines.drop_last();
    let st0 = scan_spec(prev)->Ok_0;
    let last = lines.last();
    let t = trim_spec(last);
    let sp = find_char(t, ' ');
    let inst = t.take(sp);
    if p == lines.len() - 1 {
        lemma_scan_words_count(prev);
        assert(lines.take(p) =~= prev);
        assert(is_label_line(last));
        assert(inst == line_inst_token(last));
        let pushed = st0.labels.push((inst.drop_last(), st0.words.len() as int));
        assert(pushed.last() == (label_name(last), st0.words.len() as int));
        assert(lookup_label(pushed, label_name(last)) == Some(st0.words.len() as int));
    } else {
        assert(prev[p] == lines[p]);
        assert(forall|q: int|
            p < q < prev.len() && is_label_line(prev[q]) ==> label_name(prev[q]) != label_name(
                prev[p],
            ));
        lemma_label_binds_inst_count(prev, p);
        assert(lines.take(p) =~= prev.take(p));
        let name = label_name(lines[p]);
        if !(t.len() == 0 || t[0] == '#') {
            if inst.len() > 0 && inst.last() == ':' {
                assert(is_label_line(last));
                assert(label_name(last) != name);
                let pushed = st0.labels.push((inst.drop_last(), st0.words.len() as int));
                assert(inst.drop_last() == label_name(last));
                assert(pushed.drop_last() =~= st0.labels);
                assert(lookup_label(pushed, name) == lookup_label(st0.labels, name));
            }
        }
    }
}

/// Resolution fails exactly when some relocation record's target label is
/// absent from the label table; any such record is fatal.
pub proof fn lemma_unresolved_label_fatal(
    words: Seq<u32>,
    labels: Seq<(Seq<char>, int)>,
    relocs: Seq<RelocV>,
)
    ensures
        resolve_spec(words, labels, relocs) is Err <==> exists|i: int|
            0 <= i < relocs.len() && lookup_label(labels, (#[trigger] relocs[i]).target) is None,
    decreases relocs.len(),
{
    if relocs.len() > 0 {
        match lookup_label(labels, relocs[0].target) {
            None => {
                assert(lookup_label(labels, relocs[0].target) is None);
            },
            Some(t) => {
                let words2 = words.update(
                    relocs[0].inst_index,
                    crate::resolve::patch_word(words[relocs[0].inst_index], t, relocs[0].bit_offset),
                );
                lemma_unresolved_label_fatal(words2, labels, relocs.drop_first());
                if exists|i: int|
                    0 <= i < relocs.len() && lookup_label(
                        labels,
                        (#[trigger] relocs[i]).target,
                    ) is None {
                    let i = choose|i: int|
                        0 <= i < relocs.len() && lookup_label(
                            labels,
                            (#[trigger] relocs[i]).target,
                        ) is None;
                    assert(i >= 1);
                    assert(relocs.drop_first()[i - 1] == relocs[i]);
                }
                if exists|i: int|
                    0 <= i < relocs.drop_first().len() && lookup_label(
                        labels,
                        (#[trigger] relocs.drop_first()[i]).target,
                    ) is None {
                    let i = choose|i: int|
                        0 <= i < relocs.drop_first().len() && lookup_label(
                            labels,
                            (#[trigger] relocs.drop_first()[i]).target,
                        ) is None;
                    assert(relocs[i + 1] == relocs.drop_first()[i]);
                }
            },
        }
    }
}

/// Resolution keeps the word count.
pub proof fn lemma_resolve_len(words: Seq<u32>, labels: Seq<(Seq<char>, int)>, relocs: Seq<RelocV>)
    requires
        relocs_wf(words, relocs),
        resolve_spec(words, labels, relocs) is Ok,
    ensures
        resolve_spec(words, labels, relocs)->Ok_0.len() == words.len(),
    decreases relocs.len(),
{
    if relocs.len() > 0 {
        let r0 = relocs[0];
        let t = lookup_label(labels, r0.target)->Some_0;
        let words2 = words.update(r0.inst_index, patch_word(words[r0.inst_index], t, r0.bit_offset));
        assert(forall|i: int|
            0 <= i < relocs.drop_first().len() ==> relocs.drop_first()[i] == relocs[i + 1]);
        lemma_resolve_len(words2, labels, relocs.drop_first());
    }
}

/// A word no relocation record tags comes out of resolution unchanged.
pub proof fn lemma_resolve_preserves_untouched(
    words: Seq<u32>,
    labels: Seq<(Seq<char>, int)>,
    relocs: Seq<RelocV>,
    idx: int,
)
    requires
        relocs_wf(words, relocs),
        resolve_spec(words, labels, relocs) is Ok,
        0 <= idx < words.len(),
        forall|i: int| 0 <= i < relocs.len() ==> (#[trigger] relocs[i]).inst_index != idx,
    ensures
        resolve_spec(words, labels, relocs)->Ok_0[idx] == words[idx],
    decreases relocs.len(),
{
    if relocs.len() > 0 {
        let r0 = relocs[0];
        let t = lookup_label(labels, r0.target)->Some_0;
        let words2 = words.update(r0.inst_index, patch_word(words[r0.inst_index], t, r0.bit_offset));
        assert(forall|i: int|
            0 <= i < relocs.drop_first().len() ==> relocs.drop_first()[i] == relocs[i + 1]);
        lemma_resolve_preserves_untouched(words2, labels, relocs.drop_first(), idx);
    }
}

/// A relocation record that shares its word with no other record resolves
/// to exactly one patch: the tagged word comes out with the target label's
/// bound index OR'd in at the record's bit offset, and nothing else changed
/// in it.
pub proof fn lemma_resolve_patches_word(
    words: Seq<u32>,
    labels: Seq<(Seq<char>, int)>,
    relocs: Seq<RelocV>,
    j: int,
)
    requires
        relocs_wf(words, relocs),
        resolve_spec(words, labels, relocs) is Ok,
        0 <= j < relocs.len(),
        forall|i: int|
            0 <= i < relocs.len() && i != j ==> (#[trigger] relocs[i]).inst_index
                != relocs[j].inst_index,
    ensures
        lookup_label(labels, relocs[j].target) is Some,
        resolve_spec(words, labels, relocs)->Ok_0[relocs[j].inst_index] == patch_word(
            words[relocs[j].inst_index],
            lookup_label(labels, relocs[j].target)->Some_0,
            relocs[j].bit_offset,
        ),
    decreases relocs.len(),
{
    let r0 = relocs[0];
    let t = lookup_label(labels, r0.target)->Some_0;
    let words2 = words.update(r0.inst_index, patch_word(words[r0.inst_index], t, r0.bit_offset));
    assert(forall|i: int|
        0 <= i < relocs.drop_first().len() ==> relocs.drop_first()[i] == relocs[i + 1]);
    if j == 0 {
        lemma_resolve_preserves_untouched(words2, labels, relocs.drop_first(), r0.inst_index);
    } else {
        lemma_resolve_patches_word(words2, labels, relocs.drop_first(), j - 1);
    }
}

/// Different relocation records of one scan tag different words: each
/// instruction yields at most one record, tagged with its own index.
pub proof fn lemma_scan_reloc_indices_distinct(lines: Seq<Seq<char>>)
    ensures
        scan_spec(lines) matches Ok(st) ==> forall|i: int, j: int|
            0 <= i < j < st.relocs.len() ==> (#[trigger] st.relocs[i]).inst_index != (
            #[trigger] st.relocs[j]).inst_index,
    decreases lines.len(),
{
    if lines.len() > 0 {
        lemma_scan_reloc_indices_distinct(lines.drop_last());
        lemma_scan_wf(lines.drop_last());
        match scan_spec(lines.drop_last()) {
            Ok(st0) => {
                let line = lines.last();
                let t = trim_spec(line);
                if !(t.len() == 0 || t[0] == '#') {
                    let sp = find_char(t, ' ');
                    let inst = t.take(sp);
                    let payload = if sp < t.len() {
                        t.skip(sp + 1)
                    } else {
                        Seq::<char>::empty()
                    };
                    if !(inst.len() > 0 && inst.last() == ':') {
                        lemma_encode_spec_relocs(inst, ops_of(payload), st0.words.len() as int);
                    }
                }
            },
            Err(_) => {},
        }
    }
}

/// In a successful run every relocated word is patched exactly once: the
/// word a record tags comes out of the run with the target label's bound
/// index OR'd in at the record's bit offset, and nothing else changed in it.
pub proof fn lemma_run_patches_each_reloc_once(lines: Seq<Seq<char>>, j: int)
    requires
        scan_spec(lines) is Ok,
        0 <= j < scan_spec(lines)->Ok_0.relocs.len(),
        assemble_spec(lines) is Ok,
    ensures
        ({
            let st = scan_spec(lines)->Ok_0;
            let r = st.relocs[j];
            &&& lookup_label(st.labels, r.target) is Some
            &&& assemble_spec(lines)->Ok_0[r.inst_index] == patch_word(
                st.words[r.inst_index],
                lookup_label(st.labels, r.target)->Some_0,
                r.bit_offset,
            )
        }),
{
    lemma_scan_wf(lines);
    lemma_scan_reloc_indices_distinct(lines);
    let st = scan_spec(lines)->Ok_0;
    lemma_resolve_patches_word(st.words, st.labels, st.relocs, j);
}

} // verus!
