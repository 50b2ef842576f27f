//! The label table and relocation resolver: after the full word sequence
//! exists, every relocation record ORs its resolved label index into the
//! word it tagged.

use vstd::prelude::*;
use vstd::pervasive::VecAdditionalExecFns;
use vstd::string::*;
use crate::encode::{Reloc, RelocV};
use crate::error::{AsmError, AsmErrV};
use crate::text::str_eq;

verus! {

/// The label table as a mathematical sequence of bindings.
pub open spec fn labels_view(ls: Seq<(String, usize)>) -> Seq<(Seq<char>, int)> {
    ls.map(|i: int, p: (String, usize)| (p.0@, p.1 as int))
}

/// The index a label name is bound to; with several bindings of one name,
/// the latest wins, matching silent overwrite on redefinition.
pub open spec fn lookup_label(labels: Seq<(Seq<char>, int)>, name: Seq<char>) -> Option<int>
    decreases labels.len(),
{
    if labels.len() == 0 {
        None
    } else if labels.last().0 == name {
        Some(labels.last().1)
    } else {
        lookup_label(labels.drop_last(), name)
    }
}

/// A word with a resolved target index OR'd in at the given bit offset; the
/// index is truncated to 32 bits first.
pub open spec fn patch_word(w: u32, target: int, off: u32) -> u32 {
    w | (((target % 0x1_0000_0000) as u32) << off)
}

/// The word sequence after all relocations are applied, in record order, or
/// the first undefined label in record order.
pub open spec fn resolve_spec(
    words: Seq<u32>,
    labels: Seq<(Seq<char>, int)>,
    relocs: Seq<RelocV>,
) -> Result<Seq<u32>, AsmErrV>
    decreases relocs.len(),
{
    if relocs.len() == 0 {
        Ok(words)
    } else {
        let r0 = relocs[0];
        match lookup_label(labels, r0.target) {
            None => Err(AsmErrV::UnknownLabel(r0.target)),
            Some(t) => resolve_spec(
                words.update(r0.inst_index, patch_word(words[r0.inst_index], t, r0.bit_offset)),
                labels,
                relocs.drop_first(),
            ),
        }
    }
}

/// Relocation records that only touch existing words with a shift that
/// stays inside the 32-bit word.
pub open spec fn relocs_wf(words: Seq<u32>, relocs: Seq<RelocV>) -> bool {
    forall|i: int|
        0 <= i < relocs.len() ==> 0 <= (#[trigger] relocs[i]).inst_index < words.len()
            && relocs[i].bit_offset < 32
}

/// Looks a label up in the table, the latest binding first.
pub fn lookup(labels: &Vec<(String, usize)>, name: &str) -> (r: Option<usize>)
    ensures
        match r {
            Some(v) => lookup_label(labels_view(labels@), name@) == Some(v as int),
            None => lookup_label(labels_view(labels@), name@) is None,
        },
{
    let mut i: usize = labels.len();
    proof {
        assert(labels_view(labels@).take(i as int) =~= labels_view(labels@));
    }
    while i > 0
        invariant
            0 <= i <= labels@.len(),
            lookup_label(labels_view(labels@), name@) == lookup_label(
                labels_view(labels@).take(i as int),
                name@,
            ),
        decreases i,
    {
        let entry = &labels[i - 1];
        if str_eq(entry.0.as_str(), name) {
            proof {
                assert(labels_view(labels@).take(i as int).last() == (
                    labels@[i as int - 1].0@,
                    labels@[i as int - 1].1 as int,
                ));
            }
            return Some(entry.1);
        }
        proof {
            assert(labels_view(labels@).take(i as int).drop_last() =~= labels_view(
                labels@,
            ).take(i as int - 1));
        }
        i -= 1;
    }
    proof {
        assert(labels_view(labels@).take(0) =~= Seq::<(Seq<char>, int)>::empty());
    }
    None
}

/// Applies every relocation record to the word sequence in place; an
/// undefined label is fatal and reported by name.
pub fn resolve(
    words: &mut Vec<u32>,
    labels: &Vec<(String, usize)>,
    relocs: &Vec<Reloc>,
) -> (r: Result<(), AsmError>)
    requires
        relocs_wf(old(words)@, relocs.deep_view()),
    ensures
        match r {
            Ok(()) => resolve_spec(old(words)@, labels_view(labels@), relocs.deep_view()) == Ok::<
                Seq<u32>,
                AsmErrV,
            >(final(words)@),
            Err(e) => resolve_spec(old(words)@, labels_view(labels@), relocs.deep_view())
                matches Err(f) && f == e@,
        },
{
    let ghost all = relocs.deep_view();
    let mut k: usize = 0;
    proof {
        assert(all.skip(0) =~= all);
    }
    while k < relocs.len()
        invariant
            0 <= k <= all.len(),
            all == relocs.deep_view(),
            words@.len() == old(words)@.len(),
            relocs_wf(old(words)@, all),
            resolve_spec(old(words)@, labels_view(labels@), all) == resolve_spec(
                words@,
                labels_view(labels@),
                all.skip(k as int),
            ),
        decreases all.len() - k,
    {
        let rl = &relocs[k];
        proof {
            assert(all.skip(k as int)[0] == all[k as int]);
        }
        match lookup(labels, rl.target.as_str()) {
            None => {
                return Err(AsmError::UnknownLabel(rl.target.clone()));
            },
            Some(t) => {
                let w = words[rl.inst_index];
                let tr: u32 = #[verifier::truncate] (t as u32);
                proof {
                    assert(tr == (t as int) % 0x1_0000_0000) by (bit_vector)
                        requires
                            tr == t as u32,
                            t >= 0,
                    ;
                }
                let patched = w | (tr << rl.bit_offset);
                words.set(rl.inst_index, patched);
                proof {
                    assert(all.skip(k as int).drop_first() =~= all.skip(k as int + 1));
                }
            },
        }
        k += 1;
    }
    proof {
        assert(all.skip(all.len() as int) =~= Seq::<RelocV>::empty());
    }
    Ok(())
}

} // verus!
