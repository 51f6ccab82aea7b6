//! The symbol graph of a build: which units are let in, how their tables are merged, and
//! which definitions nothing refers to.

use crate::defs::AbsDef;
use crate::defs::AbsItemId;
use crate::defs::AbsRef;
use crate::defs::CrateDisambiguator;
use crate::defs::CrateSaveAnalysis;
use crate::defs::CrateSaveAnalysisMetadata;
use crate::defs::DefView;
use crate::defs::Prelude;
use crate::defs::RefView;
use crate::graph::admissible;
use crate::graph::resolve_defs;
use crate::graph::resolve_refs;
use crate::graph::vendored;
use crate::graph::SiblingView;
use crate::graph::SymbolGraph;
use crate::resolve::SchemaError;
use crate::sorted_map::SortedMap;
use crate::text::contains;
use vstd::prelude::*;

verus! {

/// The table of one unit as the loader finds it beside the leaf.
#[derive(Debug, Clone, PartialEq, Eq)]
pub struct SiblingUnit {
    pub metadata: CrateSaveAnalysisMetadata,
    pub analysis: CrateSaveAnalysis,
}

impl View for SiblingUnit {
    type V = SiblingView;

    open spec fn view(&self) -> SiblingView {
        SiblingView { metadata: self.metadata@, analysis: self.analysis@ }
    }
}

/// The values of the units of a vector.
pub open spec fn sibling_views(units: Seq<SiblingUnit>) -> Seq<SiblingView> {
    Seq::new(units.len(), |i: int| units[i]@)
}

/// The values of the definitions of a vector.
pub open spec fn def_views(defs: Seq<AbsDef>) -> Seq<DefView<AbsItemId>> {
    Seq::new(defs.len(), |i: int| defs[i]@)
}

/// The values of the references of a vector.
pub open spec fn ref_views(refs: Seq<AbsRef>) -> Seq<RefView<AbsItemId>> {
    Seq::new(refs.len(), |i: int| refs[i]@)
}

/// Tells whether `unit` is one of `units`.
pub fn contains_unit(units: &Vec<CrateDisambiguator>, unit: CrateDisambiguator) -> (found: bool)
    ensures
        found == units@.contains(unit),
{
    let mut i: usize = 0;
    while i < units.len()
        invariant
            i <= units@.len(),
            forall|j: int| 0 <= j < i ==> units@[j] != unit,
        decreases units.len() - i,
    {
        if units[i] == unit {
            return true;
        }
        i += 1;
    }
    false
}

/// The units that belong to the build of `leaf`: the leaf itself and its dependencies.
pub fn admissible_units(leaf: &Prelude) -> (units: Vec<CrateDisambiguator>)
    ensures
        forall|unit: CrateDisambiguator|
            units@.contains(unit) <==> admissible(leaf@).contains(unit),
{
    let mut units: Vec<CrateDisambiguator> = Vec::new();
    units.push(leaf.crate_id.disambiguator);
    let mut i: usize = 0;
    assert(units@[0] == leaf@.this_unit);
    while i < leaf.external_crates.len()
        invariant
            i <= leaf.external_crates@.len(),
            forall|unit: CrateDisambiguator|
                units@.contains(unit) <==> unit == leaf@.this_unit || exists|j: int|
                    0 <= j < i && (#[trigger] leaf@.dependencies[j]).unit == unit,
        decreases leaf.external_crates.len() - i,
    {
        let ghost before = units@;
        let added = leaf.external_crates[i].id.disambiguator;
        units.push(added);
        proof {
            assert(leaf@.dependencies[i as int].unit == added);
            assert forall|unit: CrateDisambiguator|
                units@.contains(unit) <==> unit == leaf@.this_unit || exists|j: int|
                    0 <= j < i + 1 && (#[trigger] leaf@.dependencies[j]).unit == unit by {
                if units@.contains(unit) {
                    let k = choose|k: int| 0 <= k < units@.len() && units@[k] == unit;
                    if k < before.len() {
                        assert(before[k] == unit);
                        assert(before.contains(unit));
                    }
                }
                if before.contains(unit) {
                    let k = choose|k: int| 0 <= k < before.len() && before[k] == unit;
                    assert(units@[k] == unit);
                }
                if unit == added {
                    assert(units@[units@.len() - 1] == unit);
                }
            }
        }
        i += 1;
    }
    units
}

/// Tells whether a unit that was compiled in this directory is vendored.
pub fn is_vendored(directory: &str) -> (found: bool)
    ensures
        found == vendored(directory@),
{
    contains(directory, ".cargo/registry/src/github.com") || contains(directory, ".cargo/git/")
}

/// Tells whether the loader hands a unit on: whether it belongs to the build and is not
/// vendored.
pub fn admits(units: &Vec<CrateDisambiguator>, unit: &CrateSaveAnalysisMetadata) -> (let_in: bool)
    ensures
        let_in == (units@.contains(unit@.table.this_unit) && !vendored(unit@.directory)),
{
    contains_unit(units, unit.prelude.crate_id.disambiguator) && !is_vendored(
        unit.compilation.directory.as_str(),
    )
}

/// The symbol graph of a build.
pub struct AnalysisDb {
    root: Option<String>,
    covered_crates: Vec<CrateDisambiguator>,
    defs: SortedMap<AbsItemId, AbsDef>,
    refs: SortedMap<AbsItemId, AbsRef>,
}

impl View for AnalysisDb {
    type V = SymbolGraph;

    closed spec fn view(&self) -> SymbolGraph {
        SymbolGraph {
            defs: Map::new(|id: AbsItemId| self.defs@.contains_key(id), |id: AbsItemId| self.defs@[id]@),
            refs: Map::new(|id: AbsItemId| self.refs@.contains_key(id), |id: AbsItemId| self.refs@[id]@),
            covered: self.covered_crates@.to_set(),
        }
    }
}

impl AnalysisDb {
    /// The invariant of the graph: `new` and `from_path` give graphs that meet it, and
    /// `ingest` keeps it.
    pub closed spec fn wf(&self) -> bool {
        &&& self.defs.wf()
        &&& self.refs.wf()
        &&& self@.well_keyed()
    }

    /// The directory of the sources of the build, where it is known.
    pub closed spec fn root_dir(&self) -> Option<Seq<char>> {
        match self.root {
            Some(root) => Some(root@),
            None => None,
        }
    }

    /// The graph of no unit, for a build whose sources lie under `root`.
    pub fn new(root: Option<String>) -> (db: AnalysisDb)
        ensures
            db.wf(),
            db@ == SymbolGraph::empty(),
            db.root_dir() == match root {
                Some(root) => Some(root@),
                None => None,
            },
    {
        let db = AnalysisDb {
            root,
            covered_crates: Vec::new(),
            defs: SortedMap::new(),
            refs: SortedMap::new(),
        };
        proof {
            assert(db@.defs =~= Map::empty());
            assert(db@.refs =~= Map::empty());
            assert(db@.covered =~= Set::empty());
        }
        db
    }

    /// The directory of the sources of the build, where it is known.
    pub fn root(&self) -> (root: Option<&str>)
        ensures
            match root {
                Some(root) => self.root_dir() == Some(root@),
                None => self.root_dir() is None,
            },
    {
        match &self.root {
            Some(root) => Some(root.as_str()),
            None => None,
        }
    }

    /// The definitions of the graph in the order of their numbers.
    pub closed spec fn listed(&self) -> Seq<AbsDef> {
        Seq::new(self.defs.slots().len(), |i: int| self.defs.slots()[i].1)
    }

    /// The list holds the definitions of the graph, each once.
    pub open spec fn listing_is_complete(&self) -> bool {
        &&& forall|i: int|
            0 <= i < self.listed().len() ==> self@.defs.contains_key(
                (#[trigger] self.listed()[i]).id,
            ) && self@.defs[self.listed()[i].id] == self.listed()[i]@
        &&& forall|id: AbsItemId|
            self@.defs.contains_key(id) ==> exists|i: int|
                0 <= i < self.listed().len() && (#[trigger] self.listed()[i]).id == id
        &&& forall|i: int, j: int|
            0 <= i < j < self.listed().len() ==> (#[trigger] self.listed()[i]).id
                != (#[trigger] self.listed()[j]).id
    }

    /// The number of definitions.
    pub fn len(&self) -> (n: usize)
        requires
            self.wf(),
        ensures
            n == self@.size(),
            n == self.listed().len(),
            self.listing_is_complete(),
    {
        let n = self.defs.len();
        proof {
            let slots = self.defs.slots();
            assert(self@.defs.dom() =~= self.defs@.dom());
            assert forall|i: int| 0 <= i < slots.len() implies self@.defs.contains_key(slots[i].0)
                && self.defs@[slots[i].0] == slots[i].1 && slots[i].1.id == slots[i].0 by {
                crate::sorted_map::lemma_map_of_entry(slots, i);
                assert(self@.defs[slots[i].0].id == slots[i].0);
            }
            assert forall|i: int| 0 <= i < self.listed().len() implies self@.defs.contains_key(
                (#[trigger] self.listed()[i]).id,
            ) && self@.defs[self.listed()[i].id] == self.listed()[i]@ by {
                assert(self.listed()[i] == slots[i].1);
            }
            assert forall|id: AbsItemId| self@.defs.contains_key(id) implies exists|i: int|
                0 <= i < self.listed().len() && (#[trigger] self.listed()[i]).id == id by {
                assert(crate::sorted_map::has_key(slots, id));
                let i = choose|i: int| crate::sorted_map::holds_at(slots, id, i);
                assert(self.listed()[i].id == id);
            }
            assert forall|i: int, j: int| 0 <= i < j < self.listed().len() implies (
            #[trigger] self.listed()[i]).id != (#[trigger] self.listed()[j]).id by {
                assert(self.listed()[i] == slots[i].1);
                assert(self.listed()[j] == slots[j].1);
                if slots[i].0 == slots[j].0 {
                    crate::sorted_map::lemma_keys_differ(slots, i, j);
                }
            }
        }
        n
    }

    /// The definition at position `i` of the list.
    pub fn def_at(&self, i: usize) -> (d: &AbsDef)
        requires
            self.wf(),
            i < self.listed().len(),
        ensures
            *d == self.listed()[i as int],
    {
        &self.defs.slot(i).1
    }

    /// Tells whether the table of `unit` was merged into the graph.
    pub fn covers(&self, unit: CrateDisambiguator) -> (covered: bool)
        ensures
            covered == self@.covered.contains(unit),
    {
        contains_unit(&self.covered_crates, unit)
    }

    /// The definition that the graph holds under `id`.
    pub fn def(&self, id: &AbsItemId) -> (found: Option<&AbsDef>)
        requires
            self.wf(),
        ensures
            match found {
                Some(d) => self@.defs.contains_key(*id) && self@.defs[*id] == d@,
                None => !self@.defs.contains_key(*id),
            },
    {
        self.defs.get(id)
    }

    /// Tells whether some reference of the graph has the target `id`.
    pub fn is_used(&self, id: &AbsItemId) -> (used: bool)
        requires
            self.wf(),
        ensures
            used == self@.refs.contains_key(*id),
    {
        self.refs.contains_key(id)
    }

    /// Puts a definition into the graph.
    fn insert_def(&mut self, d: AbsDef)
        requires
            old(self).wf(),
        ensures
            final(self).wf(),
            final(self)@ == old(self)@.with_def(d@),
            final(self).root_dir() == old(self).root_dir(),
    {
        let ghost before = self@;
        self.defs.insert(d.id, d);
        proof {
            assert(self@.defs =~= before.defs.insert(d.id, d@));
            assert(self@.refs =~= before.refs);
        }
    }

    /// Puts a reference into the graph.
    fn insert_ref(&mut self, r: AbsRef)
        requires
            old(self).wf(),
        ensures
            final(self).wf(),
            final(self)@ == old(self)@.with_ref(r@),
            final(self).root_dir() == old(self).root_dir(),
    {
        let ghost before = self@;
        self.refs.insert(r.ref_id, r);
        proof {
            assert(self@.refs =~= before.refs.insert(r.ref_id, r@));
            assert(self@.defs =~= before.defs);
        }
    }

    /// Marks a unit as merged.
    fn cover(&mut self, unit: CrateDisambiguator)
        requires
            old(self).wf(),
        ensures
            final(self).wf(),
            final(self)@ == (SymbolGraph { covered: old(self)@.covered.insert(unit), ..old(self)@ }),
            final(self).root_dir() == old(self).root_dir(),
    {
        let ghost before = self@;
        let ghost units = self.covered_crates@;
        if !contains_unit(&self.covered_crates, unit) {
            self.covered_crates.push(unit);
            proof {
                units.lemma_push_to_set_commute(unit);
            }
        } else {
            proof {
                assert(units.to_set().insert(unit) =~= units.to_set());
            }
        }
        proof {
            assert(self@.covered =~= before.covered.insert(unit));
            assert(self@.defs =~= before.defs);
            assert(self@.refs =~= before.refs);
        }
    }

    /// Merges the table of a unit into the graph: each definition and reference of the
    /// unit, numbered by the build, takes the place of what the graph held under its
    /// number. Where a number of the table cannot be resolved, nothing is merged.
    pub fn ingest(&mut self, unit: &CrateSaveAnalysis) -> (done: Result<(), SchemaError>)
        requires
            old(self).wf(),
        ensures
            final(self).wf(),
            final(self).root_dir() == old(self).root_dir(),
            match done {
                Ok(_) => old(self)@.ingest(unit@) == Ok::<SymbolGraph, SchemaError>(final(self)@),
                Err(e) => old(self)@.ingest(unit@) == Err::<SymbolGraph, SchemaError>(e)
                    && *final(self) == *old(self),
            },
    {
        self.ingest_as(unit.prelude.crate_id.disambiguator, unit)
    }

    /// Merges the table of a unit into the graph and marks the unit as covered under
    /// `identity`, the identity by which the unit was let in.
    pub fn ingest_as(&mut self, identity: CrateDisambiguator, unit: &CrateSaveAnalysis) -> (done:
        Result<(), SchemaError>)
        requires
            old(self).wf(),
        ensures
            final(self).wf(),
            final(self).root_dir() == old(self).root_dir(),
            match done {
                Ok(_) => old(self)@.ingest_as(identity, unit@) == Ok::<SymbolGraph, SchemaError>(
                    final(self)@,
                ),
                Err(e) => old(self)@.ingest_as(identity, unit@) == Err::<SymbolGraph, SchemaError>(
                    e,
                ) && *final(self) == *old(self),
            },
    {
        let defs = match resolve_all_defs(unit) {
            Ok(defs) => defs,
            Err(e) => {
                return Err(e);
            },
        };
        let refs = match resolve_all_refs(unit) {
            Ok(refs) => refs,
            Err(e) => {
                return Err(e);
            },
        };
        let ghost start = self@;
        let mut i: usize = 0;
        while i < defs.len()
            invariant
                i <= defs@.len(),
                self.wf(),
                self.root_dir() == old(self).root_dir(),
                self@ == start.with_defs(def_views(defs@).take(i as int)),
            decreases defs.len() - i,
        {
            let d = defs[i].clone();
            self.insert_def(d);
            proof {
                let grown = def_views(defs@).take(i + 1);
                assert(grown.drop_last() =~= def_views(defs@).take(i as int));
                assert(grown.last() == defs@[i as int]@);
            }
            i += 1;
        }
        proof {
            assert(def_views(defs@).take(i as int) =~= def_views(defs@));
        }
        let ghost middle = self@;
        let mut j: usize = 0;
        while j < refs.len()
            invariant
                j <= refs@.len(),
                self.wf(),
                self.root_dir() == old(self).root_dir(),
                self@ == middle.with_refs(ref_views(refs@).take(j as int)),
            decreases refs.len() - j,
        {
            let r = refs[j].clone();
            self.insert_ref(r);
            proof {
                let grown = ref_views(refs@).take(j + 1);
                assert(grown.drop_last() =~= ref_views(refs@).take(j as int));
                assert(grown.last() == refs@[j as int]@);
            }
            j += 1;
        }
        proof {
            assert(ref_views(refs@).take(j as int) =~= ref_views(refs@));
        }
        proof {
            crate::graph::lemma_with_defs(start, def_views(defs@));
            crate::graph::lemma_with_refs(middle, ref_views(refs@));
        }
        self.cover(identity);
        Ok(())
    }

    /// The graph of the admitted units of `units`, merged in order, for the build of `leaf`
    /// whose sources lie under `root`. A unit is admitted where the identity of its
    /// metadata is that of the leaf or of one of the leaf's dependencies, and it was not
    /// compiled in a vendor directory; it is covered under that identity. Where two
    /// admitted units hold a record for one number, that of the later unit stays.
    pub fn from_path(
        root: Option<String>,
        leaf: &CrateSaveAnalysisMetadata,
        units: &Vec<SiblingUnit>,
    ) -> (db: Result<AnalysisDb, SchemaError>)
        ensures
            match db {
                Ok(db) => db.wf() && SymbolGraph::empty().load(leaf@.table, sibling_views(units@))
                    == Ok::<SymbolGraph, SchemaError>(db@) && db.root_dir() == match root {
                    Some(root) => Some(root@),
                    None => None,
                },
                Err(e) => SymbolGraph::empty().load(leaf@.table, sibling_views(units@))
                    == Err::<SymbolGraph, SchemaError>(e),
            },
    {
        let let_in = admissible_units(&leaf.prelude);
        let mut db = AnalysisDb::new(root);
        let ghost all = sibling_views(units@);
        let mut i: usize = 0;
        while i < units.len()
            invariant
                i <= units@.len(),
                db.wf(),
                all == sibling_views(units@),
                db.root_dir() == match root {
                    Some(root) => Some(root@),
                    None => None,
                },
                forall|unit: CrateDisambiguator|
                    let_in@.contains(unit) <==> admissible(leaf@.table).contains(unit),
                SymbolGraph::empty().load(leaf@.table, all.take(i as int)) == Ok::<
                    SymbolGraph,
                    SchemaError,
                >(db@),
            decreases units.len() - i,
        {
            let unit = &units[i];
            let ghost grown = all.take(i + 1);
            proof {
                assert(grown.drop_last() =~= all.take(i as int));
                assert(grown.last() == unit@);
            }
            if admits(&let_in, &unit.metadata) {
                match db.ingest_as(unit.metadata.prelude.crate_id.disambiguator, &unit.analysis) {
                    Ok(_) => {},
                    Err(e) => {
                        proof {
                            lemma_load_fails_on(SymbolGraph::empty(), leaf@.table, all, i + 1);
                        }
                        return Err(e);
                    },
                }
            }
            i += 1;
        }
        proof {
            assert(all.take(i as int) =~= all);
        }
        Ok(db)
    }
}

/// An error in the first units of a sequence is the error of loading the whole sequence.
pub proof fn lemma_load_fails_on(
    graph: SymbolGraph,
    leaf: crate::defs::DependencyTable,
    units: Seq<SiblingView>,
    k: int,
)
    requires
        0 <= k <= units.len(),
        graph.load(leaf, units.take(k)) is Err,
    ensures
        graph.load(leaf, units) == graph.load(leaf, units.take(k)),
    decreases units.len(),
{
    if k < units.len() {
        assert(units.drop_last().take(k) =~= units.take(k));
        lemma_load_fails_on(graph, leaf, units.drop_last(), k);
    } else {
        assert(units.take(k) =~= units);
    }
}

/// An error in the first definitions of a sequence is the error of the whole sequence.
pub proof fn lemma_resolve_defs_fails_on(
    table: crate::defs::DependencyTable,
    defs: Seq<DefView<crate::defs::ItemId>>,
    k: int,
)
    requires
        0 <= k <= defs.len(),
        resolve_defs(table, defs.take(k)) is Err,
    ensures
        resolve_defs(table, defs) == resolve_defs(table, defs.take(k)),
    decreases defs.len(),
{
    if k < defs.len() {
        assert(defs.drop_last().take(k) =~= defs.take(k));
        lemma_resolve_defs_fails_on(table, defs.drop_last(), k);
    } else {
        assert(defs.take(k) =~= defs);
    }
}

/// An error in the first references of a sequence is the error of the whole sequence.
pub proof fn lemma_resolve_refs_fails_on(
    table: crate::defs::DependencyTable,
    refs: Seq<RefView<crate::defs::ItemId>>,
    k: int,
)
    requires
        0 <= k <= refs.len(),
        resolve_refs(table, refs.take(k)) is Err,
    ensures
        resolve_refs(table, refs) == resolve_refs(table, refs.take(k)),
    decreases refs.len(),
{
    if k < refs.len() {
        assert(refs.drop_last().take(k) =~= refs.take(k));
        lemma_resolve_refs_fails_on(table, refs.drop_last(), k);
    } else {
        assert(refs.take(k) =~= refs);
    }
}

/// The definitions of a unit, numbered by the build.
fn resolve_all_defs(unit: &CrateSaveAnalysis) -> (all: Result<Vec<AbsDef>, SchemaError>)
    ensures
        match all {
            Ok(defs) => resolve_defs(unit@.table, unit@.defs) == Ok::<
                Seq<DefView<AbsItemId>>,
                SchemaError,
            >(def_views(defs@)),
            Err(e) => resolve_defs(unit@.table, unit@.defs) == Err::<
                Seq<DefView<AbsItemId>>,
                SchemaError,
            >(e),
        },
{
    let mut defs: Vec<AbsDef> = Vec::new();
    let mut i: usize = 0;
    proof {
        assert(unit@.defs.take(0) =~= Seq::empty());
        assert(def_views(defs@) =~= Seq::empty());
    }
    while i < unit.defs.len()
        invariant
            i <= unit.defs@.len(),
            unit@.defs.len() == unit.defs@.len(),
            resolve_defs(unit@.table, unit@.defs.take(i as int)) == Ok::<
                Seq<DefView<AbsItemId>>,
                SchemaError,
            >(def_views(defs@)),
        decreases unit.defs.len() - i,
    {
        let ghost grown = unit@.defs.take(i + 1);
        let ghost before = def_views(defs@);
        proof {
            assert(grown.drop_last() =~= unit@.defs.take(i as int));
            assert(grown.last() == unit.defs@[i as int]@);
        }
        match unit.defs[i].resolve(&unit.prelude) {
            Ok(d) => {
                defs.push(d);
                proof {
                    assert(def_views(defs@) =~= before.push(d@));
                }
            },
            Err(e) => {
                proof {
                    lemma_resolve_defs_fails_on(unit@.table, unit@.defs, i + 1);
                }
                return Err(e);
            },
        }
        i += 1;
    }
    proof {
        assert(unit@.defs.take(i as int) =~= unit@.defs);
    }
    Ok(defs)
}

/// The references of a unit, numbered by the build.
fn resolve_all_refs(unit: &CrateSaveAnalysis) -> (all: Result<Vec<AbsRef>, SchemaError>)
    ensures
        match all {
            Ok(refs) => resolve_refs(unit@.table, unit@.refs) == Ok::<
                Seq<RefView<AbsItemId>>,
                SchemaError,
            >(ref_views(refs@)),
            Err(e) => resolve_refs(unit@.table, unit@.refs) == Err::<
                Seq<RefView<AbsItemId>>,
                SchemaError,
            >(e),
        },
{
    let mut refs: Vec<AbsRef> = Vec::new();
    let mut i: usize = 0;
    proof {
        assert(unit@.refs.take(0) =~= Seq::empty());
        assert(ref_views(refs@) =~= Seq::empty());
    }
    while i < unit.refs.len()
        invariant
            i <= unit.refs@.len(),
            unit@.refs.len() == unit.refs@.len(),
            resolve_refs(unit@.table, unit@.refs.take(i as int)) == Ok::<
                Seq<RefView<AbsItemId>>,
                SchemaError,
            >(ref_views(refs@)),
        decreases unit.refs.len() - i,
    {
        let ghost grown = unit@.refs.take(i + 1);
        let ghost before = ref_views(refs@);
        proof {
            assert(grown.drop_last() =~= unit@.refs.take(i as int));
            assert(grown.last() == unit.refs@[i as int]@);
        }
        match unit.refs[i].resolve(&unit.prelude) {
            Ok(r) => {
                refs.push(r);
                proof {
                    assert(ref_views(refs@) =~= before.push(r@));
                }
            },
            Err(e) => {
                proof {
                    lemma_resolve_refs_fails_on(unit@.table, unit@.refs, i + 1);
                }
                return Err(e);
            },
        }
        i += 1;
    }
    proof {
        assert(unit@.refs.take(i as int) =~= unit@.refs);
    }
    Ok(refs)
}

} // verus!
