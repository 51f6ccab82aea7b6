//! Which definitions of a symbol graph are reported as unused, and why the others are not.

use crate::db::def_views;
use crate::db::AnalysisDb;
use crate::defs::AbsDef;
use crate::defs::AbsItemId;
use crate::defs::CrateDisambiguator;
use crate::defs::DefView;
use crate::graph::SymbolGraph;
use crate::mute::in_macro;
use crate::mute::MacroSpanIndex;
use crate::mute::MuteSpansCache;
use crate::order::lemma_sorted_is_unique;
use crate::order::sort;
use crate::order::sorted;
use crate::order::values_of;
use crate::text::has_prefix;
use crate::text::same_text;
use crate::text::starts_with;
use vstd::prelude::*;

verus! {

/// What the detector finds of a definition: the first rule of its chain that holds.
#[derive(Debug, Clone, Copy, PartialEq, Eq, Structural)]
pub enum Verdict {
    /// Some reference of the graph has the definition as its target.
    Used,
    /// The name starts with an underscore, which marks what is unused on purpose.
    Underscore,
    /// The receiver of a method.
    SelfReceiver,
    /// A local variable; the compiler's own lints report these.
    Local,
    /// A tuple variant of an enum, whose number the compiler's table gets wrong.
    TupleVariant,
    /// An implementation of a trait's item that is used, or whose trait belongs to a unit
    /// that the graph does not cover.
    TraitImplementation,
    /// A type that a trait declares; the compiler's table holds no references to these.
    AssociatedType,
    /// The span lies inside a macro invocation or an attribute.
    Macro,
    /// No rule holds: the definition is reported.
    Unused,
}

impl SymbolGraph {
    /// Some reference of the graph has `id` as its target.
    pub open spec fn used(self, id: AbsItemId) -> bool {
        self.refs.contains_key(id)
    }

    /// The rule that settles the definition `d` before its place in the source is looked
    /// at, if there is one: the rules are tried in the order in which they stand here.
    pub open spec fn early_verdict(self, d: DefView<AbsItemId>) -> Option<Verdict> {
        if self.used(d.id) {
            Some(Verdict::Used)
        } else if has_prefix(d.name, "_"@) {
            Some(Verdict::Underscore)
        } else if d.kind == "Local"@ && d.name == "self"@ {
            Some(Verdict::SelfReceiver)
        } else if d.kind == "Local"@ {
            Some(Verdict::Local)
        } else if d.kind == "TupleVariant"@ {
            Some(Verdict::TupleVariant)
        } else if d.decl_id is Some && (self.used(d.decl_id->Some_0) || !self.covered.contains(
            d.decl_id->Some_0.krate,
        )) {
            Some(Verdict::TraitImplementation)
        } else if d.parent is Some && self.defs.contains_key(d.parent->Some_0)
            && self.defs[d.parent->Some_0].kind == "Trait"@ && d.kind == "Type"@ {
            Some(Verdict::AssociatedType)
        } else {
            None
        }
    }

    /// What the detector finds of the definition `d`, given the macro ranges of `index`.
    pub open spec fn verdict(self, index: MacroSpanIndex, d: DefView<AbsItemId>) -> Verdict {
        match self.early_verdict(d) {
            Some(v) => v,
            None => if in_macro(index, d.id.krate, d.span) {
                Verdict::Macro
            } else {
                Verdict::Unused
            },
        }
    }

    /// `d` is a definition of the graph that the detector reports.
    pub open spec fn is_finding(self, index: MacroSpanIndex, d: DefView<AbsItemId>) -> bool {
        self.defs.contains_key(d.id) && self.defs[d.id] == d && self.verdict(index, d)
            == Verdict::Unused
    }

    /// `report` is the report of the graph: its findings, each once, in the order of
    /// reports.
    pub open spec fn is_report(self, index: MacroSpanIndex, report: Seq<DefView<AbsItemId>>) -> bool {
        &&& sorted::<AbsDef>(report)
        &&& report.no_duplicates()
        &&& forall|d: DefView<AbsItemId>| report.contains(d) <==> self.is_finding(index, d)
    }

    /// The macro ranges of this source file of this unit are needed to settle some
    /// definition of the graph.
    pub open spec fn needs_source(self, unit: CrateDisambiguator, file_name: Seq<char>) -> bool {
        exists|id: AbsItemId|
            self.defs.contains_key(id) && self.early_verdict(#[trigger] self.defs[id]) is None
                && self.defs[id].id.krate == unit && self.defs[id].span.file_name == file_name
    }
}

/// A graph has one report only: in whatever order the findings were made, and by however
/// many workers, the sorted report is the same.
pub proof fn lemma_report_is_unique(
    graph: SymbolGraph,
    index: MacroSpanIndex,
    first: Seq<DefView<AbsItemId>>,
    second: Seq<DefView<AbsItemId>>,
)
    requires
        graph.is_report(index, first),
        graph.is_report(index, second),
    ensures
        first == second,
{
    broadcast use vstd::seq_lib::to_multiset_contains;
    broadcast use vstd::multiset::group_multiset_axioms;

    first.lemma_multiset_has_no_duplicates();
    second.lemma_multiset_has_no_duplicates();
    assert forall|d: DefView<AbsItemId>| first.to_multiset().count(d) == second.to_multiset().count(
        d,
    ) by {
        assert(first.contains(d) <==> second.contains(d));
        assert(first.contains(d) <==> first.to_multiset().count(d) > 0);
        assert(second.contains(d) <==> second.to_multiset().count(d) > 0);
    }
    assert(first.to_multiset() =~= second.to_multiset());
    lemma_sorted_is_unique::<AbsDef>(first, second);
}

/// Sorting findings gives the report of the graph, in whatever order they come.
pub proof fn lemma_sorted_findings_are_the_report(
    graph: SymbolGraph,
    index: MacroSpanIndex,
    findings: Seq<DefView<AbsItemId>>,
    report: Seq<DefView<AbsItemId>>,
)
    requires
        findings.no_duplicates(),
        forall|d: DefView<AbsItemId>| findings.contains(d) <==> graph.is_finding(index, d),
        sorted::<AbsDef>(report),
        report.to_multiset() == findings.to_multiset(),
    ensures
        graph.is_report(index, report),
{
    broadcast use vstd::seq_lib::to_multiset_contains;
    broadcast use vstd::multiset::group_multiset_axioms;

    findings.lemma_multiset_has_no_duplicates();
    report.lemma_multiset_has_no_duplicates_conv();
    assert forall|d: DefView<AbsItemId>| report.contains(d) <==> graph.is_finding(index, d) by {
        assert(report.contains(d) <==> report.to_multiset().count(d) > 0);
        assert(findings.contains(d) <==> findings.to_multiset().count(d) > 0);
    }
}

impl AnalysisDb {
    /// The rule that settles the definition before its place in the source is looked at,
    /// if there is one.
    pub fn early_verdict(&self, d: &AbsDef) -> (v: Option<Verdict>)
        requires
            self.wf(),
        ensures
            v == self@.early_verdict(d@),
    {
        if self.is_used(&d.id) {
            return Some(Verdict::Used);
        }
        // Anything that starts with an underscore may be unused.
        if starts_with(d.name.as_str(), "_") {
            return Some(Verdict::Underscore);
        }
        let local = same_text(d.kind.as_str(), "Local");
        if local && same_text(d.name.as_str(), "self") {
            return Some(Verdict::SelfReceiver);
        }
        if local {
            return Some(Verdict::Local);
        }
        if same_text(d.kind.as_str(), "TupleVariant") {
            return Some(Verdict::TupleVariant);
        }
        // An implementation counts as used where the item of the trait is used, and is
        // left alone where the trait comes from a unit that is not covered.
        match d.decl_id {
            Some(decl_id) => {
                if self.is_used(&decl_id) || !self.covers(decl_id.krate) {
                    return Some(Verdict::TraitImplementation);
                }
            },
            None => {},
        }
        match d.parent {
            Some(parent) => match self.def(&parent) {
                Some(p) => {
                    if same_text(p.kind.as_str(), "Trait") && same_text(d.kind.as_str(), "Type") {
                        return Some(Verdict::AssociatedType);
                    }
                },
                None => {},
            },
            None => {},
        }
        None
    }

    /// What the detector finds of the definition. A source file whose macro ranges are
    /// not indexed counts as a file without macros, as the index itself answers.
    pub fn verdict(&self, d: &AbsDef, cache: &MuteSpansCache) -> (v: Verdict)
        requires
            self.wf(),
        ensures
            v == self@.verdict(cache@, d@),
    {
        match self.early_verdict(d) {
            Some(v) => v,
            None => {
                let inside = match cache.is_in_macro(d.id.krate, &d.span) {
                    Ok(inside) => inside,
                    Err(_) => false,
                };
                if inside {
                    Verdict::Macro
                } else {
                    Verdict::Unused
                }
            },
        }
    }

    /// The definitions that nothing refers to and that no rule excuses, sorted by kind,
    /// then by name, then by place.
    pub fn get_unused_defs(&self, cache: &MuteSpansCache) -> (report: Vec<AbsDef>)
        requires
            self.wf(),
        ensures
            self@.is_report(cache@, def_views(report@)),
    {
        let n = self.len();
        let ghost listed = self.listed();
        let mut found: Vec<AbsDef> = Vec::new();
        let mut i: usize = 0;
        while i < n
            invariant
                i <= n,
                n == listed.len(),
                listed == self.listed(),
                self.wf(),
                self.listing_is_complete(),
                forall|a: int|
                    0 <= a < found@.len() ==> exists|k: int|
                        0 <= k < i && listed[k] == #[trigger] found@[a],
                forall|k: int|
                    0 <= k < i && self@.verdict(cache@, (#[trigger] listed[k])@) == Verdict::Unused
                        ==> found@.contains(listed[k]),
                forall|a: int|
                    0 <= a < found@.len() ==> self@.verdict(cache@, (#[trigger] found@[a])@)
                        == Verdict::Unused,
                forall|a: int, b: int|
                    0 <= a < b < found@.len() ==> (#[trigger] found@[a]).id
                        != (#[trigger] found@[b]).id,
            decreases n - i,
        {
            let d = self.def_at(i);
            let ghost before = found@;
            if self.verdict(d, cache) == Verdict::Unused {
                found.push(d.clone());
                proof {
                    assert(found@[found@.len() - 1] == listed[i as int]);
                    assert forall|k: int|
                        0 <= k < i + 1 && self@.verdict(cache@, (#[trigger] listed[k])@)
                            == Verdict::Unused implies found@.contains(listed[k]) by {
                        if k < i {
                            assert(before.contains(listed[k]));
                            let a = choose|a: int| 0 <= a < before.len() && before[a] == listed[k];
                            assert(found@[a] == listed[k]);
                        }
                    }
                    assert forall|a: int| 0 <= a < found@.len() implies exists|k: int|
                        0 <= k < i + 1 && listed[k] == #[trigger] found@[a] by {
                        if a < before.len() {
                            assert(found@[a] == before[a]);
                            let k = choose|k: int| 0 <= k < i && listed[k] == before[a];
                            assert(listed[k] == found@[a]);
                        }
                    }
                    assert forall|a: int, b: int| 0 <= a < b < found@.len() implies (
                    #[trigger] found@[a]).id != (#[trigger] found@[b]).id by {
                        assert(found@[a] == before[a]);
                        if b < before.len() {
                            assert(found@[b] == before[b]);
                        } else {
                            let k = choose|k: int| 0 <= k < i && listed[k] == before[a];
                            assert(listed[k].id != listed[i as int].id);
                        }
                    }
                }
            }
            i += 1;
        }
        let ghost findings = def_views(found@);
        proof {
            assert forall|a: int, b: int| 0 <= a < findings.len() && 0 <= b < findings.len() && a
                != b implies findings[a] != findings[b] by {
                if a < b {
                    assert(found@[a].id != found@[b].id);
                } else {
                    assert(found@[b].id != found@[a].id);
                }
            }
            assert forall|d: DefView<AbsItemId>| findings.contains(d) <==> self@.is_finding(
                cache@,
                d,
            ) by {
                if findings.contains(d) {
                    let a = choose|a: int| 0 <= a < findings.len() && findings[a] == d;
                    let k = choose|k: int| 0 <= k < n && listed[k] == found@[a];
                    assert(self@.defs[listed[k].id] == listed[k]@);
                }
                if self@.is_finding(cache@, d) {
                    let k = choose|k: int| 0 <= k < n && (#[trigger] listed[k]).id == d.id;
                    assert(listed[k]@ == d);
                    assert(found@.contains(listed[k]));
                    let a = choose|a: int| 0 <= a < found@.len() && found@[a] == listed[k];
                    assert(findings[a] == d);
                }
            }
        }
        let report = sort(found);
        proof {
            assert(values_of(found@) =~= findings);
            assert(values_of(report@) =~= def_views(report@));
            lemma_sorted_findings_are_the_report(self@, cache@, findings, def_views(report@));
        }
        report
    }
}

/// The units and file names that the entries of a vector name.
pub open spec fn source_keys(sources: Seq<(CrateDisambiguator, String)>) -> Seq<
    (CrateDisambiguator, Seq<char>),
> {
    Seq::new(sources.len(), |i: int| (sources[i].0, sources[i].1@))
}

/// Tells whether `sources` names this file of this unit.
fn names_source(sources: &Vec<(CrateDisambiguator, String)>, unit: CrateDisambiguator, file_name: &str) -> (found: bool)
    ensures
        found == source_keys(sources@).contains((unit, file_name@)),
{
    let mut i: usize = 0;
    while i < sources.len()
        invariant
            i <= sources@.len(),
            forall|j: int| 0 <= j < i ==> source_keys(sources@)[j] != (unit, file_name@),
        decreases sources.len() - i,
    {
        if sources[i].0 == unit && same_text(sources[i].1.as_str(), file_name) {
            assert(source_keys(sources@)[i as int] == (unit, file_name@));
            return true;
        }
        i += 1;
    }
    false
}

impl AnalysisDb {
    /// The source files whose macro ranges the detector will ask for and `cache` does not
    /// hold: those of the definitions that no earlier rule settles. Each is named once.
    pub fn macro_sources(&self, cache: &MuteSpansCache) -> (sources: Vec<
        (CrateDisambiguator, String),
    >)
        requires
            self.wf(),
        ensures
            source_keys(sources@).no_duplicates(),
            forall|key: (CrateDisambiguator, Seq<char>)|
                source_keys(sources@).contains(key) <==> self@.needs_source(key.0, key.1)
                    && !cache@.contains_key(key),
    {
        let n = self.len();
        let ghost listed = self.listed();
        let mut sources: Vec<(CrateDisambiguator, String)> = Vec::new();
        let mut i: usize = 0;
        while i < n
            invariant
                i <= n,
                n == listed.len(),
                listed == self.listed(),
                self.wf(),
                self.listing_is_complete(),
                source_keys(sources@).no_duplicates(),
                forall|key: (CrateDisambiguator, Seq<char>)|
                    source_keys(sources@).contains(key) <==> !cache@.contains_key(key)
                        && exists|k: int|
                        0 <= k < i && self@.early_verdict((#[trigger] listed[k])@) is None
                            && listed[k].id.krate == key.0 && listed[k].span.file_name@ == key.1,
            decreases n - i,
        {
            let d = self.def_at(i);
            let ghost before = source_keys(sources@);
            let ghost this_key = (d.id.krate, d.span.file_name@);
            let mut added = false;
            if self.early_verdict(d).is_none() {
                let file_name = d.span.file_name.as_str();
                if !cache.is_indexed(d.id.krate, file_name) && !names_source(
                    &sources,
                    d.id.krate,
                    file_name,
                ) {
                    sources.push((d.id.krate, d.span.file_name.clone()));
                    added = true;
                }
            }
            proof {
                let now = source_keys(sources@);
                if added {
                    assert(now =~= before.push(this_key));
                } else {
                    assert(now =~= before);
                }
                assert forall|key: (CrateDisambiguator, Seq<char>)|
                    now.contains(key) <==> !cache@.contains_key(key) && exists|k: int|
                        0 <= k < i + 1 && self@.early_verdict((#[trigger] listed[k])@) is None
                            && listed[k].id.krate == key.0 && listed[k].span.file_name@
                            == key.1 by {
                    if now.contains(key) {
                        let a = choose|a: int| 0 <= a < now.len() && now[a] == key;
                        if a < before.len() {
                            assert(before[a] == key);
                            assert(before.contains(key));
                            let k = choose|k: int|
                                0 <= k < i && self@.early_verdict((#[trigger] listed[k])@) is None
                                    && listed[k].id.krate == key.0 && listed[k].span.file_name@
                                    == key.1;
                            assert(0 <= k < i + 1);
                        } else {
                            assert(key == this_key);
                            assert(listed[i as int] == *d);
                        }
                    }
                    if !cache@.contains_key(key) && exists|k: int|
                        0 <= k < i + 1 && self@.early_verdict((#[trigger] listed[k])@) is None
                            && listed[k].id.krate == key.0 && listed[k].span.file_name@ == key.1 {
                        let k = choose|k: int|
                            0 <= k < i + 1 && self@.early_verdict((#[trigger] listed[k])@) is None
                                && listed[k].id.krate == key.0 && listed[k].span.file_name@
                                == key.1;
                        if k < i {
                            assert(before.contains(key));
                            let a = choose|a: int| 0 <= a < before.len() && before[a] == key;
                            assert(now[a] == key);
                        } else {
                            assert(key == this_key);
                            if added {
                                assert(now[now.len() - 1] == key);
                            } else {
                                assert(before.contains(key));
                            }
                        }
                    }
                }
            }
            i += 1;
        }
        proof {
            assert forall|key: (CrateDisambiguator, Seq<char>)|
                source_keys(sources@).contains(key) <==> self@.needs_source(key.0, key.1)
                    && !cache@.contains_key(key) by {
                if source_keys(sources@).contains(key) {
                    let k = choose|k: int|
                        0 <= k < n && self@.early_verdict((#[trigger] listed[k])@) is None
                            && listed[k].id.krate == key.0 && listed[k].span.file_name@ == key.1;
                    assert(self@.defs[listed[k].id] == listed[k]@);
                }
                if self@.needs_source(key.0, key.1) && !cache@.contains_key(key) {
                    let id = choose|id: AbsItemId|
                        self@.defs.contains_key(id) && self@.early_verdict(
                            #[trigger] self@.defs[id],
                        ) is None && self@.defs[id].id.krate == key.0
                            && self@.defs[id].span.file_name == key.1;
                    let k = choose|k: int| 0 <= k < n && (#[trigger] listed[k]).id == id;
                    assert(listed[k]@ == self@.defs[id]);
                }
            }
        }
        sources
    }
}

} // verus!
