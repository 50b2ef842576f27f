//! The assembly driver: one forward scan over the input lines builds the
//! word sequence, the label table and the relocation list; a second pass
//! resolves the relocations.

use vstd::prelude::*;
use vstd::string::*;
use crate::encode::{encode_instruction, encode_spec, Reloc, RelocV, lemma_encode_spec_relocs};
use crate::error::{AsmError, AsmErrV};
use crate::resolve::{labels_view, relocs_wf, resolve, resolve_spec};
use crate::text::{find_char, find_first, ops_of, split_ops, trim, trim_spec};

verus! {

/// The state of the forward scan, as mathematical sequences.
pub struct ScanV {
    pub words: Seq<u32>,
    pub labels: Seq<(Seq<char>, int)>,
    pub relocs: Seq<RelocV>,
}

/// What one input line does to the scan state: blank and comment lines are
/// ignored; a line whose first space-delimited token ends in `:` binds that
/// token (less the colon) to the next instruction index; any other line is
/// an instruction, encoded at the current index.
pub open spec fn scan_step(st: ScanV, line: Seq<char>) -> Result<ScanV, AsmErrV> {
    let t = trim_spec(line);
    if t.len() == 0 || t[0] == '#' {
        Ok(st)
    } else {
        let sp = find_char(t, ' ');
        let inst = t.take(sp);
        let payload = if sp < t.len() {
            t.skip(sp + 1)
        } else {
            Seq::<char>::empty()
        };
        if inst.len() > 0 && inst.last() == ':' {
            Ok(
                ScanV {
                    words: st.words,
                    labels: st.labels.push((inst.drop_last(), st.words.len() as int)),
                    relocs: st.relocs,
                },
            )
        } else {
            match encode_spec(inst, ops_of(payload), st.words.len() as int) {
                Ok(p) => Ok(
                    ScanV {
                        words: st.words.push(p.0),
                        labels: st.labels,
                        relocs: st.relocs + p.1,
                    },
                ),
                Err(e) => Err(e),
            }
        }
    }
}

/// The scan state after the whole input, line by line from the first, or
/// the first fatal error.
pub open spec fn scan_spec(lines: Seq<Seq<char>>) -> Result<ScanV, AsmErrV>
    decreases lines.len(),
{
    if lines.len() == 0 {
        Ok(ScanV { words: Seq::empty(), labels: Seq::empty(), relocs: Seq::empty() })
    } else {
        match scan_spec(lines.drop_last()) {
            Ok(st) => scan_step(st, lines.last()),
            Err(e) => Err(e),
        }
    }
}

/// A fatal error in a prefix of the input decides the whole scan.
pub proof fn lemma_scan_err_persists(lines: Seq<Seq<char>>, k: int, m: int)
    requires
        0 <= k <= m <= lines.len(),
        scan_spec(lines.take(k)) is Err,
    ensures
        scan_spec(lines.take(m)) == scan_spec(lines.take(k)),
    decreases m - k,
{
    if m > k {
        lemma_scan_err_persists(lines, k, m - 1);
        assert(lines.take(m).drop_last() =~= lines.take(m - 1));
    }
}

/// A successful scan leaves only well-formed relocation records: each
/// tags an existing word and shifts by 0 or 6.
pub proof fn lemma_scan_wf(lines: Seq<Seq<char>>)
    ensures
        scan_spec(lines) matches Ok(st) ==> relocs_wf(st.words, st.relocs),
    decreases lines.len(),
{
    if lines.len() > 0 {
        lemma_scan_wf(lines.drop_last());
        match scan_spec(lines.drop_last()) {
            Ok(st0) => {
                let line = lines.last();
                let t = trim_spec(line);
                if !(t.len() == 0 || t[0] == '#') {
                    let sp = find_char(t, ' ');
                    let inst = t.take(sp);
                    let payload = if sp < t.len() {
                        t.skip(sp + 1)
                    } else {
                        Seq::<char>::empty()
                    };
                    if !(inst.len() > 0 && inst.last() == ':') {
                        lemma_encode_spec_relocs(inst, ops_of(payload), st0.words.len() as int);
                    }
                }
            },
            Err(_) => {},
        }
    }
}

/// The owned, run-scoped state of one assembly run.
pub struct ScanState {
    pub words: Vec<u32>,
    pub labels: Vec<(String, usize)>,
    pub relocs: Vec<Reloc>,
}

impl View for ScanState {
    type V = ScanV;

    open spec fn view(&self) -> ScanV {
        ScanV {
            words: self.words@,
            labels: labels_view(self.labels@),
            relocs: self.relocs.deep_view(),
        }
    }
}

impl ScanState {
    /// The empty state a run starts from.
    pub fn new() -> (r: ScanState)
        ensures
            r@ == (ScanV { words: Seq::<u32>::empty(), labels: Seq::<(Seq<char>, int)>::empty(), relocs: Seq::<RelocV>::empty() }),
    {
        let r = ScanState { words: Vec::new(), labels: Vec::new(), relocs: Vec::new() };
        proof {
            assert(labels_view(r.labels@) =~= Seq::<(Seq<char>, int)>::empty());
            assert(r.relocs.deep_view() =~= Seq::<RelocV>::empty());
        }
        r
    }

    /// Processes one input line, advancing the scan state as
    /// [`scan_step`] says.
    pub fn scan_line(&mut self, line: &str) -> (r: Result<(), AsmError>)
        ensures
            match r {
                Ok(()) => scan_step(old(self)@, line@) == Ok::<ScanV, AsmErrV>(final(self)@),
                Err(e) => scan_step(old(self)@, line@) matches Err(f) && f == e@,
            },
    {
        let t = trim(line);
        let n = t.unicode_len();
        if n == 0 {
            return Ok(());
        }
        if t.get_char(0) == '#' {
            return Ok(());
        }
        let sp = find_first(t, ' ');
        let inst = t.substring_char(0, sp);
        proof {
            assert(inst@ =~= t@.take(sp as int));
        }
        let payload: &str = if sp < n {
            let p = t.substring_char(sp + 1, n);
            proof {
                assert(p@ =~= t@.skip(sp as int + 1));
            }
            p
        } else {
            let p = "";
            proof {
                reveal_strlit("");
                assert(p@ =~= Seq::<char>::empty());
            }
            p
        };
        let ilen = inst.unicode_len();
        let is_label = ilen > 0 && inst.get_char(ilen - 1) == ':';
        if is_label {
            let name = inst.substring_char(0, ilen - 1);
            proof {
                assert(name@ =~= inst@.drop_last());
            }
            let idx = self.words.len();
            self.labels.push((String::from_str(name), idx));
            proof {
                assert(labels_view(self.labels@) =~= labels_view(old(self).labels@).push(
                    (name@, idx as int),
                ));
            }
            return Ok(());
        }
        let ops = split_ops(payload);
        let idx = self.words.len();
        match encode_instruction(inst, &ops, idx) {
            Ok((w, mut rs)) => {
                let ghost rsv = rs.deep_view();
                self.words.push(w);
                self.relocs.append(&mut rs);
                proof {
                    assert(self.relocs.deep_view() =~= old(self).relocs.deep_view() + rsv);
                }
                Ok(())
            },
            Err(e) => Err(e),
        }
    }
}

/// The whole input assembled: the scan's word sequence with every
/// relocation resolved, or the first fatal error of the run.
pub open spec fn assemble_spec(lines: Seq<Seq<char>>) -> Result<Seq<u32>, AsmErrV> {
    match scan_spec(lines) {
        Ok(st) => resolve_spec(st.words, st.labels, st.relocs),
        Err(e) => Err(e),
    }
}

/// Assembles the input lines into the 32-bit instruction words, or reports
/// the first fatal error; no partial output survives a failure.
pub fn assemble(lines: &Vec<String>) -> (r: Result<Vec<u32>, AsmError>)
    ensures
        match r {
            Ok(ws) => assemble_spec(lines.deep_view()) == Ok::<Seq<u32>, AsmErrV>(ws@),
            Err(e) => assemble_spec(lines.deep_view()) matches Err(f) && f == e@,
        },
{
    let ghost all = lines.deep_view();
    let mut st = ScanState::new();
    let mut i: usize = 0;
    proof {
        assert(all.take(0) =~= Seq::<Seq<char>>::empty());
    }
    while i < lines.len()
        invariant
            0 <= i <= all.len(),
            all == lines.deep_view(),
            scan_spec(all.take(i as int)) == Ok::<ScanV, AsmErrV>(st@),
        decreases all.len() - i,
    {
        proof {
            assert(all.take(i as int + 1).drop_last() =~= all.take(i as int));
            assert(all.take(i as int + 1).last() == all[i as int]);
        }
        match st.scan_line(lines[i].as_str()) {
            Ok(()) => {},
            Err(e) => {
                proof {
                    lemma_scan_err_persists(all, i as int + 1, all.len() as int);
                    assert(all.take(all.len() as int) =~= all);
                }
                return Err(e);
            },
        }
        i += 1;
    }
    proof {
        assert(all.take(all.len() as int) =~= all);
        lemma_scan_wf(all);
    }
    match resolve(&mut st.words, &st.labels, &st.relocs) {
        Ok(()) => Ok(st.words),
        Err(e) => Err(e),
    }
}

} // verus!
