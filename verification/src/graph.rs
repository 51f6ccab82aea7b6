//! The symbol graph of a build as a mathematical value: which definitions and references it
//! holds, how the table of a unit is merged into it, and what the merge guarantees.

use crate::defs::AbsItemId;
use crate::defs::CrateDisambiguator;
use crate::defs::DefView;
use crate::defs::DependencyTable;
use crate::defs::ItemId;
use crate::defs::MetadataView;
use crate::defs::RefView;
use crate::defs::UnitView;
use crate::resolve::SchemaError;
use crate::text::has_substring;
use vstd::prelude::*;

verus! {

/// The definitions and references of the units of a build, each under the number that the
/// build gives it (a reference under the number of its target), and the units whose tables
/// were merged.
pub struct SymbolGraph {
    pub defs: Map<AbsItemId, DefView<AbsItemId>>,
    pub refs: Map<AbsItemId, RefView<AbsItemId>>,
    pub covered: Set<CrateDisambiguator>,
}

/// The table of one unit as the loader finds it: the part that tells whether the unit
/// belongs to the build, and its definitions and references.
pub struct SiblingView {
    pub metadata: MetadataView,
    pub analysis: UnitView,
}

/// The definitions of `defs` numbered by the build, in order, or the error of the first
/// that cannot be resolved.
pub open spec fn resolve_defs(table: DependencyTable, defs: Seq<DefView<ItemId>>) -> Result<
    Seq<DefView<AbsItemId>>,
    SchemaError,
>
    decreases defs.len(),
{
    if defs.len() == 0 {
        Ok(Seq::empty())
    } else {
        match resolve_defs(table, defs.drop_last()) {
            Err(e) => Err(e),
            Ok(before) => match table.resolve_def(defs.last()) {
                Err(e) => Err(e),
                Ok(d) => Ok(before.push(d)),
            },
        }
    }
}

/// The references of `refs` numbered by the build, in order, or the error of the first
/// that cannot be resolved.
pub open spec fn resolve_refs(table: DependencyTable, refs: Seq<RefView<ItemId>>) -> Result<
    Seq<RefView<AbsItemId>>,
    SchemaError,
>
    decreases refs.len(),
{
    if refs.len() == 0 {
        Ok(Seq::empty())
    } else {
        match resolve_refs(table, refs.drop_last()) {
            Err(e) => Err(e),
            Ok(before) => match table.resolve_ref(refs.last()) {
                Err(e) => Err(e),
                Ok(r) => Ok(before.push(r)),
            },
        }
    }
}

/// The units that belong to the build of `leaf`: the leaf itself and its dependencies.
pub open spec fn admissible(leaf: DependencyTable) -> Set<CrateDisambiguator> {
    Set::new(
        |unit: CrateDisambiguator|
            unit == leaf.this_unit || exists|i: int|
                0 <= i < leaf.dependencies.len() && (#[trigger] leaf.dependencies[i]).unit == unit,
    )
}

/// The directory lies in a cache of packages that were fetched from a registry or from a
/// remote repository.
pub open spec fn vendored(directory: Seq<char>) -> bool {
    has_substring(directory, ".cargo/registry/src/github.com"@) || has_substring(
        directory,
        ".cargo/git/"@,
    )
}

/// The unit belongs to the build of `leaf` and is not vendored: the loader hands it on.
pub open spec fn admitted(leaf: DependencyTable, unit: MetadataView) -> bool {
    admissible(leaf).contains(unit.table.this_unit) && !vendored(unit.directory)
}

impl SymbolGraph {
    /// The graph of no unit.
    pub open spec fn empty() -> SymbolGraph {
        SymbolGraph { defs: Map::empty(), refs: Map::empty(), covered: Set::empty() }
    }

    /// Every definition and reference is kept under its own number.
    pub open spec fn well_keyed(self) -> bool {
        &&& forall|id: AbsItemId| self.defs.contains_key(id) ==> (#[trigger] self.defs[id]).id == id
        &&& forall|id: AbsItemId|
            self.refs.contains_key(id) ==> (#[trigger] self.refs[id]).ref_id == id
    }

    /// The number of definitions.
    pub open spec fn size(self) -> nat {
        self.defs.dom().len()
    }

    /// The graph with the definition `d` in place of what it held under that number.
    pub open spec fn with_def(self, d: DefView<AbsItemId>) -> SymbolGraph {
        SymbolGraph { defs: self.defs.insert(d.id, d), ..self }
    }

    /// The graph with the reference `r` in place of what it held for that target.
    pub open spec fn with_ref(self, r: RefView<AbsItemId>) -> SymbolGraph {
        SymbolGraph { refs: self.refs.insert(r.ref_id, r), ..self }
    }

    /// The graph after the definitions of `defs` were put into it one after the other.
    pub open spec fn with_defs(self, defs: Seq<DefView<AbsItemId>>) -> SymbolGraph
        decreases defs.len(),
    {
        if defs.len() == 0 {
            self
        } else {
            self.with_defs(defs.drop_last()).with_def(defs.last())
        }
    }

    /// The graph after the references of `refs` were put into it one after the other.
    pub open spec fn with_refs(self, refs: Seq<RefView<AbsItemId>>) -> SymbolGraph
        decreases refs.len(),
    {
        if refs.len() == 0 {
            self
        } else {
            self.with_refs(refs.drop_last()).with_ref(refs.last())
        }
    }

    /// The graph after the table of a unit was merged into it and the unit was marked as
    /// covered under `identity`, or the error of the first number of the table that
    /// cannot be resolved.
    pub open spec fn ingest_as(self, identity: CrateDisambiguator, unit: UnitView) -> Result<
        SymbolGraph,
        SchemaError,
    > {
        match resolve_defs(unit.table, unit.defs) {
            Err(e) => Err(e),
            Ok(defs) => match resolve_refs(unit.table, unit.refs) {
                Err(e) => Err(e),
                Ok(refs) => Ok(
                    SymbolGraph {
                        covered: self.covered.insert(identity),
                        ..self.with_defs(defs).with_refs(refs)
                    },
                ),
            },
        }
    }

    /// The graph after the table of a unit was merged into it under the identity that
    /// the table itself declares.
    pub open spec fn ingest(self, unit: UnitView) -> Result<SymbolGraph, SchemaError> {
        self.ingest_as(unit.table.this_unit, unit)
    }

    /// The graph after the admitted units of `units` were merged into it in order, or the
    /// first error of an admitted unit. A unit is admitted, and covered, by the identity
    /// of its metadata; the numbers of its records are resolved through the table that
    /// stands with the records.
    pub open spec fn load(self, leaf: DependencyTable, units: Seq<SiblingView>) -> Result<
        SymbolGraph,
        SchemaError,
    >
        decreases units.len(),
    {
        if units.len() == 0 {
            Ok(self)
        } else {
            match self.load(leaf, units.drop_last()) {
                Err(e) => Err(e),
                Ok(graph) => if admitted(leaf, units.last().metadata) {
                    graph.ingest_as(units.last().metadata.table.this_unit, units.last().analysis)
                } else {
                    Ok(graph)
                },
            }
        }
    }
}

/// Some definition of `defs` has the number `id`.
pub open spec fn defines(defs: Seq<DefView<AbsItemId>>, id: AbsItemId) -> bool {
    exists|i: int| 0 <= i < defs.len() && (#[trigger] defs[i]).id == id
}

/// Some reference of `refs` has the target `id`.
pub open spec fn refers_to(refs: Seq<RefView<AbsItemId>>, id: AbsItemId) -> bool {
    exists|i: int| 0 <= i < refs.len() && (#[trigger] refs[i]).ref_id == id
}

/// Putting definitions into a graph changes nothing but the definitions, keeps what the
/// graph held under the numbers that none of them has, and leaves under each of their
/// numbers one of them.
pub proof fn lemma_with_defs(graph: SymbolGraph, defs: Seq<DefView<AbsItemId>>)
    ensures
        graph.with_defs(defs).refs == graph.refs,
        graph.with_defs(defs).covered == graph.covered,
        forall|id: AbsItemId|
            #![trigger graph.with_defs(defs).defs.contains_key(id)]
            graph.with_defs(defs).defs.contains_key(id) <==> graph.defs.contains_key(id)
                || defines(defs, id),
        forall|id: AbsItemId|
            !defines(defs, id) ==> #[trigger] graph.with_defs(defs).defs[id] == graph.defs[id],
        forall|id: AbsItemId|
            defines(defs, id) ==> (#[trigger] graph.with_defs(defs).defs[id]).id == id
                && defs.contains(graph.with_defs(defs).defs[id]),
    decreases defs.len(),
{
    if defs.len() > 0 {
        let before = defs.drop_last();
        let last = defs.last();
        lemma_with_defs(graph, before);
        let after = graph.with_defs(defs);
        assert forall|id: AbsItemId| defines(defs, id) <==> (id == last.id || defines(before, id)) by {
            if defines(defs, id) && id != last.id {
                let i = choose|i: int| 0 <= i < defs.len() && (#[trigger] defs[i]).id == id;
                assert(before[i].id == id);
            }
            if defines(before, id) {
                let i = choose|i: int| 0 <= i < before.len() && (#[trigger] before[i]).id == id;
                assert(defs[i].id == id);
            }
            if id == last.id {
                assert(defs[defs.len() - 1].id == id);
            }
        }
        assert forall|id: AbsItemId| defines(defs, id) implies defs.contains(
            #[trigger] after.defs[id],
        ) by {
            if id == last.id {
                assert(defs[defs.len() - 1] == last);
            } else {
                let d = graph.with_defs(before).defs[id];
                assert(before.contains(d));
                let i = choose|i: int| 0 <= i < before.len() && before[i] == d;
                assert(defs[i] == d);
            }
        }
    }
}

/// Putting references into a graph changes nothing but the references, keeps what the
/// graph held for the targets that none of them has, and leaves for each of their targets
/// one of them.
pub proof fn lemma_with_refs(graph: SymbolGraph, refs: Seq<RefView<AbsItemId>>)
    ensures
        graph.with_refs(refs).defs == graph.defs,
        graph.with_refs(refs).covered == graph.covered,
        forall|id: AbsItemId|
            #![trigger graph.with_refs(refs).refs.contains_key(id)]
            graph.with_refs(refs).refs.contains_key(id) <==> graph.refs.contains_key(id)
                || refers_to(refs, id),
        forall|id: AbsItemId|
            !refers_to(refs, id) ==> #[trigger] graph.with_refs(refs).refs[id] == graph.refs[id],
        forall|id: AbsItemId|
            refers_to(refs, id) ==> (#[trigger] graph.with_refs(refs).refs[id]).ref_id == id
                && refs.contains(graph.with_refs(refs).refs[id]),
    decreases refs.len(),
{
    if refs.len() > 0 {
        let before = refs.drop_last();
        let last = refs.last();
        lemma_with_refs(graph, before);
        let after = graph.with_refs(refs);
        assert forall|id: AbsItemId| refers_to(refs, id) <==> (id == last.ref_id || refers_to(
            before,
            id,
        )) by {
            if refers_to(refs, id) && id != last.ref_id {
                let i = choose|i: int| 0 <= i < refs.len() && (#[trigger] refs[i]).ref_id == id;
                assert(before[i].ref_id == id);
            }
            if refers_to(before, id) {
                let i = choose|i: int| 0 <= i < before.len() && (#[trigger] before[i]).ref_id == id;
                assert(refs[i].ref_id == id);
            }
            if id == last.ref_id {
                assert(refs[refs.len() - 1].ref_id == id);
            }
        }
        assert forall|id: AbsItemId| refers_to(refs, id) implies refs.contains(
            #[trigger] after.refs[id],
        ) by {
            if id == last.ref_id {
                assert(refs[refs.len() - 1] == last);
            } else {
                let r = graph.with_refs(before).refs[id];
                assert(before.contains(r));
                let i = choose|i: int| 0 <= i < before.len() && before[i] == r;
                assert(refs[i] == r);
            }
        }
    }
}

/// What a graph holds under the numbers of `defs` after they were put into it does not
/// depend on what it held there before.
pub proof fn lemma_with_defs_overwrites(
    first: SymbolGraph,
    second: SymbolGraph,
    defs: Seq<DefView<AbsItemId>>,
)
    ensures
        forall|id: AbsItemId|
            defines(defs, id) ==> #[trigger] first.with_defs(defs).defs[id] == second.with_defs(
                defs,
            ).defs[id],
    decreases defs.len(),
{
    if defs.len() > 0 {
        let before = defs.drop_last();
        let last = defs.last();
        lemma_with_defs_overwrites(first, second, before);
        assert forall|id: AbsItemId| defines(defs, id) implies #[trigger] first.with_defs(
            defs,
        ).defs[id] == second.with_defs(defs).defs[id] by {
            assert(first.with_defs(defs) == first.with_defs(before).with_def(last));
            assert(second.with_defs(defs) == second.with_defs(before).with_def(last));
            if id != last.id {
                let i = choose|i: int| 0 <= i < defs.len() && (#[trigger] defs[i]).id == id;
                assert(before[i].id == id);
                assert(defines(before, id));
                assert(first.with_defs(before).defs[id] == second.with_defs(before).defs[id]);
            }
        }
    }
}

/// What a graph holds for the targets of `refs` after they were put into it does not
/// depend on what it held there before.
pub proof fn lemma_with_refs_overwrites(
    first: SymbolGraph,
    second: SymbolGraph,
    refs: Seq<RefView<AbsItemId>>,
)
    ensures
        forall|id: AbsItemId|
            refers_to(refs, id) ==> #[trigger] first.with_refs(refs).refs[id] == second.with_refs(
                refs,
            ).refs[id],
    decreases refs.len(),
{
    if refs.len() > 0 {
        let before = refs.drop_last();
        let last = refs.last();
        lemma_with_refs_overwrites(first, second, before);
        assert forall|id: AbsItemId| refers_to(refs, id) implies #[trigger] first.with_refs(
            refs,
        ).refs[id] == second.with_refs(refs).refs[id] by {
            assert(first.with_refs(refs) == first.with_refs(before).with_ref(last));
            assert(second.with_refs(refs) == second.with_refs(before).with_ref(last));
            if id != last.ref_id {
                let i = choose|i: int| 0 <= i < refs.len() && (#[trigger] refs[i]).ref_id == id;
                assert(before[i].ref_id == id);
                assert(refers_to(before, id));
                assert(first.with_refs(before).refs[id] == second.with_refs(before).refs[id]);
            }
        }
    }
}

/// Merging the table of a unit a second time changes nothing: the graph that holds the
/// unit already is the graph after the second merge, and so has the same size.
pub proof fn lemma_ingest_is_idempotent(graph: SymbolGraph, unit: UnitView)
    requires
        graph.ingest(unit) is Ok,
    ensures
        graph.ingest(unit)->Ok_0.ingest(unit) == graph.ingest(unit),
        graph.ingest(unit)->Ok_0.ingest(unit)->Ok_0.size() == graph.ingest(unit)->Ok_0.size(),
{
    lemma_ingest_as_is_idempotent(graph, unit.table.this_unit, unit);
}

/// Merging the table of a unit a second time under the same identity changes nothing.
pub proof fn lemma_ingest_as_is_idempotent(
    graph: SymbolGraph,
    identity: CrateDisambiguator,
    unit: UnitView,
)
    requires
        graph.ingest_as(identity, unit) is Ok,
    ensures
        graph.ingest_as(identity, unit)->Ok_0.ingest_as(identity, unit) == graph.ingest_as(
            identity,
            unit,
        ),
{
    let defs = resolve_defs(unit.table, unit.defs)->Ok_0;
    let refs = resolve_refs(unit.table, unit.refs)->Ok_0;
    let once = graph.ingest_as(identity, unit)->Ok_0;
    let twice = once.ingest_as(identity, unit)->Ok_0;
    let with_defs = graph.with_defs(defs);
    lemma_with_defs(graph, defs);
    lemma_with_refs(with_defs, refs);
    lemma_with_defs(once, defs);
    lemma_with_refs(once.with_defs(defs), refs);
    lemma_with_defs_overwrites(graph, once, defs);
    lemma_with_refs_overwrites(with_defs, once.with_defs(defs), refs);
    assert(twice.defs =~= once.defs);
    assert(twice.refs =~= once.refs);
    assert(twice.covered =~= once.covered);
}

/// A unit that is not admitted leaves no trace: loading with it gives what loading
/// without it gives.
pub proof fn lemma_load_skips(
    graph: SymbolGraph,
    leaf: DependencyTable,
    units: Seq<SiblingView>,
    i: int,
)
    requires
        0 <= i < units.len(),
        !admitted(leaf, units[i].metadata),
    ensures
        graph.load(leaf, units) == graph.load(leaf, units.remove(i)),
    decreases units.len(),
{
    let without = units.remove(i);
    if i == units.len() - 1 {
        assert(without =~= units.drop_last());
    } else {
        lemma_load_skips(graph, leaf, units.drop_last(), i);
        assert(without.drop_last() =~= units.drop_last().remove(i));
        assert(without.last() == units.last());
    }
}

/// A sibling unit whose own identity is not among the leaf and its dependencies is left
/// out wholly, however well-formed its table is.
pub proof fn lemma_foreign_unit_is_excluded(
    graph: SymbolGraph,
    leaf: DependencyTable,
    units: Seq<SiblingView>,
    i: int,
)
    requires
        0 <= i < units.len(),
        !admissible(leaf).contains(units[i].metadata.table.this_unit),
    ensures
        graph.load(leaf, units) == graph.load(leaf, units.remove(i)),
{
    lemma_load_skips(graph, leaf, units, i);
}

/// A sibling unit that was compiled in a vendor directory is left out wholly, whether or
/// not it belongs to the build.
pub proof fn lemma_vendored_unit_is_excluded(
    graph: SymbolGraph,
    leaf: DependencyTable,
    units: Seq<SiblingView>,
    i: int,
)
    requires
        0 <= i < units.len(),
        vendored(units[i].metadata.directory),
    ensures
        graph.load(leaf, units) == graph.load(leaf, units.remove(i)),
{
    lemma_load_skips(graph, leaf, units, i);
}

/// The units that a loaded graph covers are the admitted ones: an identity is covered
/// only if the graph covered it before or an admitted unit has it.
pub proof fn lemma_load_covers_admitted(
    graph: SymbolGraph,
    leaf: DependencyTable,
    units: Seq<SiblingView>,
    unit: CrateDisambiguator,
)
    requires
        graph.load(leaf, units) is Ok,
        graph.load(leaf, units)->Ok_0.covered.contains(unit),
    ensures
        graph.covered.contains(unit) || exists|i: int|
            0 <= i < units.len() && admitted(leaf, (#[trigger] units[i]).metadata)
                && units[i].metadata.table.this_unit == unit,
    decreases units.len(),
{
    if units.len() > 0 {
        let before = graph.load(leaf, units.drop_last())->Ok_0;
        let last = units.last();
        if before.covered.contains(unit) {
            lemma_load_covers_admitted(graph, leaf, units.drop_last(), unit);
            if !graph.covered.contains(unit) {
                let i = choose|i: int|
                    0 <= i < units.drop_last().len() && admitted(
                        leaf,
                        (#[trigger] units.drop_last()[i]).metadata,
                    ) && units.drop_last()[i].metadata.table.this_unit == unit;
                assert(units[i] == units.drop_last()[i]);
            }
        } else {
            let defs = resolve_defs(last.analysis.table, last.analysis.defs)->Ok_0;
            let refs = resolve_refs(last.analysis.table, last.analysis.refs)->Ok_0;
            lemma_with_defs(before, defs);
            lemma_with_refs(before.with_defs(defs), refs);
            assert(units[units.len() - 1] == last);
        }
    }
}

} // verus!
