//! What the analysis of a part of the code base has found.
use crate::issue::Issue;
use crate::str_map::{
    has_key, lemma_del, lemma_put, lemma_put_after_del, put, put_all, value_of, NameSet, StrMap,
};
use crate::symbol_references::{merged_refs, ReferencesView, SymbolReferences};
use crate::text::Text;
use vstd::prelude::*;

verus! {

/// What the analysis of a part of the code base has found.
#[derive(Debug)]
pub struct AnalysisResult {
    /// The issues, by the file in which they were found.
    pub emitted_issues: StrMap<Vec<Issue>>,
    /// The replacements to make, by file, each for a range of offsets.
    pub replacements: StrMap<Vec<((usize, usize), String)>>,
    /// Where values of unknown type come from, by what produces them.
    pub mixed_source_counts: StrMap<NameSet>,
    pub symbol_references: SymbolReferences,
}

/// The names that stand under the first `n` keys of `other`, added to
/// those that stand under the same key in `counts`.
pub open spec fn merged_counts(
    counts: Seq<(Text, Set<Text>)>,
    other: Seq<(Text, Set<Text>)>,
    n: nat,
) -> Seq<(Text, Set<Text>)>
    decreases n,
{
    if n == 0 || n > other.len() {
        counts
    } else {
        let before = merged_counts(counts, other, (n - 1) as nat);
        let known = if has_key(before, other[n - 1].0) {
            value_of(before, other[n - 1].0)
        } else {
            Set::empty()
        };
        put(before, other[n - 1].0, known.union(other[n - 1].1))
    }
}

/// The value of a map of sets of names.
pub open spec fn counts_view(e: Seq<(Text, NameSet)>) -> Seq<(Text, Set<Text>)> {
    crate::str_map::map_vals(e, |s: NameSet| s@)
}

/// Every set of the map is valid.
pub open spec fn counts_wf(m: StrMap<NameSet>) -> bool {
    m.wf() && forall|i: int| 0 <= i < m.entries().len() ==> (#[trigger] m.entries()[i]).1.wf()
}

impl AnalysisResult {
    /// The representation invariant of the maps of the result.
    pub open spec fn wf(&self) -> bool {
        &&& self.emitted_issues.wf()
        &&& self.replacements.wf()
        &&& counts_wf(self.mixed_source_counts)
    }

    /// A result without findings.
    pub fn new() -> (r: Self)
        ensures
            r.wf(),
            r.emitted_issues.entries().len() == 0,
            r.replacements.entries().len() == 0,
            r.mixed_source_counts.entries().len() == 0,
            r.symbol_references@.symbols.len() == 0,
            r.symbol_references@.signatures.len() == 0,
            r.symbol_references@.overridden.len() == 0,
            r.symbol_references@.returns.len() == 0,
    {
        Self {
            emitted_issues: StrMap::new(),
            replacements: StrMap::new(),
            mixed_source_counts: StrMap::new(),
            symbol_references: SymbolReferences::new(),
        }
    }

    /// Takes over the findings of `other`. Of a file that both have
    /// findings for, those of `other` stand; what produces values of
    /// unknown type in either does so in the result.
    pub fn extend(&mut self, other: Self)
        requires
            old(self).wf(),
            other.wf(),
        ensures
            final(self).wf(),
            final(self).emitted_issues.entries() == put_all(
                old(self).emitted_issues.entries(),
                other.emitted_issues.entries(),
            ),
            final(self).replacements.entries() == put_all(
                old(self).replacements.entries(),
                other.replacements.entries(),
            ),
            counts_view(final(self).mixed_source_counts.entries()) == merged_counts(
                counts_view(old(self).mixed_source_counts.entries()),
                counts_view(other.mixed_source_counts.entries()),
                other.mixed_source_counts.entries().len(),
            ),
            final(self).symbol_references@ == (ReferencesView {
                symbols: merged_refs(
                    old(self).symbol_references@.symbols,
                    other.symbol_references@.symbols,
                    other.symbol_references@.symbols.len(),
                ),
                signatures: merged_refs(
                    old(self).symbol_references@.signatures,
                    other.symbol_references@.signatures,
                    other.symbol_references@.signatures.len(),
                ),
                overridden: merged_refs(
                    old(self).symbol_references@.overridden,
                    other.symbol_references@.overridden,
                    other.symbol_references@.overridden.len(),
                ),
                returns: old(self).symbol_references@.returns,
            }),
    {
        self.emitted_issues.extend(other.emitted_issues);
        self.replacements.extend(other.replacements);
        let ghost theirs = counts_view(other.mixed_source_counts.entries());
        let ghost mine = counts_view(self.mixed_source_counts.entries());
        let mut rest = other.mixed_source_counts;
        let mut taken: usize = 0;
        let ghost total = theirs.len();
        let ghost issues = self.emitted_issues.entries();
        let ghost replacements = self.replacements.entries();
        let count = rest.len();
        assert(total == count);
        // the sets are moved out one by one, first key first
        while rest.len() > 0
            invariant
                counts_wf(self.mixed_source_counts),
                counts_wf(rest),
                self.emitted_issues.wf(),
                self.replacements.wf(),
                taken + rest.entries().len() == total,
                total == theirs.len(),
                total <= usize::MAX,
                self.emitted_issues.entries() == issues,
                self.replacements.entries() == replacements,
                self.symbol_references == old(self).symbol_references,
                counts_view(rest.entries()) == theirs.skip(taken as int),
                counts_view(self.mixed_source_counts.entries()) == merged_counts(
                    mine,
                    theirs,
                    taken as nat,
                ),
            decreases rest.entries().len(),
        {
            let id = rest.key_at(0).clone();
            let ghost rest_before = rest.entries();
            proof {
                lemma_del(rest_before, id@);
                crate::str_map::lemma_index_unique(rest_before, 0);
                crate::str_map::lemma_map_vals_del(rest_before, |s: NameSet| s@, id@);
                crate::str_map::lemma_map_vals(rest_before, |s: NameSet| s@);
            }
            let c = rest.remove(id.as_str()).unwrap();
            assert(c == rest_before[0].1);
            assert(c.wf());
            assert(theirs[taken as int] == (id@, c@));
            proof {
                assert(rest.entries() =~= rest_before.remove(0));
                assert(counts_view(rest.entries()) =~= theirs.skip(taken as int + 1));
                assert forall|i: int| 0 <= i < rest.entries().len() implies (
                #[trigger] rest.entries()[i]).1.wf() by {
                    assert(rest.entries()[i] == rest_before[i + 1]);
                }
            }
            let ghost own_before = self.mixed_source_counts.entries();
            proof {
                lemma_del(own_before, id@);
                crate::str_map::lemma_map_vals(own_before, |s: NameSet| s@);
                crate::str_map::lemma_map_vals_del(own_before, |s: NameSet| s@, id@);
                if has_key(own_before, id@) {
                    let x = crate::str_map::index_of_key(own_before, id@);
                    crate::str_map::lemma_index_unique(own_before, x);
                    assert(own_before[x].1.wf());
                }
            }
            let mut known = match self.mixed_source_counts.remove(id.as_str()) {
                Some(s) => s,
                None => NameSet::new(),
            };
            let ghost known_before = known@;
            known.extend(c);
            let ghost removed = self.mixed_source_counts.entries();
            proof {
                crate::str_map::lemma_map_vals_put(removed, |s: NameSet| s@, id@, known);
                lemma_put_after_del(counts_view(own_before), id@, known@);
                lemma_put(removed, id@, known);
                assert forall|i: int| 0 <= i < removed.len() implies (#[trigger] removed[i]).1.wf() by {
                    if has_key(own_before, id@) {
                        let x = crate::str_map::index_of_key(own_before, id@);
                        let i2 = if i < x {
                            i
                        } else {
                            i + 1
                        };
                        assert(removed[i] == own_before[i2]);
                    }
                }
            }
            self.mixed_source_counts.insert(id, known);
            proof {
                let after = self.mixed_source_counts.entries();
                assert forall|i: int| 0 <= i < after.len() implies (#[trigger] after[i]).1.wf() by {
                    let k = after[i].0;
                    crate::str_map::lemma_index_unique(after, i);
                    if k != id@ {
                        assert(has_key(removed, k));
                        let j = crate::str_map::index_of_key(removed, k);
                        crate::str_map::lemma_index_unique(removed, j);
                        assert(removed[j].1.wf());
                    }
                }
            }
            taken += 1;
        }
        self.symbol_references.extend(other.symbol_references);
    }
}

} // verus!
