//! The records of a unit's symbol table, as the compiler numbers them and as the build
//! numbers them, with the mathematical value that each stands for.

use vstd::prelude::*;

verus! {

/// The identity of one compilation of one unit: two compilations of a unit of the same name
/// under different configurations have different identities.
#[derive(Debug, Hash, PartialEq, Eq, Copy, Clone, Structural)]
pub struct CrateDisambiguator(pub u64, pub u64);

/// A unit's name and identity.
#[derive(Debug, Clone, PartialEq, Eq)]
pub struct CrateId {
    pub name: String,
    pub disambiguator: CrateDisambiguator,
}

/// An item as one unit numbers it: `krate` is 0 for the unit itself and else the ordinal of
/// one of its dependencies, `index` the item's slot in that unit.
#[derive(Debug, Hash, PartialEq, Eq, Copy, Clone, Structural)]
pub struct ItemId {
    pub krate: u32,
    pub index: u32,
}

/// An item as the whole build numbers it: the identity of its unit and its slot there.
#[derive(Debug, Hash, PartialEq, Eq, Copy, Clone, Structural)]
pub struct AbsItemId {
    pub krate: CrateDisambiguator,
    pub index: u32,
}

/// A range of source text: a file, and lines and columns that start at one.
#[derive(Debug, PartialEq, Eq)]
pub struct Span {
    pub file_name: String,
    pub line_start: u32,
    pub line_end: u32,
    pub column_start: u32,
    pub column_end: u32,
}

/// One entry of a unit's table of dependencies.
#[derive(Debug, Clone, PartialEq, Eq)]
pub struct ExternalCrate {
    pub num: u32,
    pub id: CrateId,
}

/// What a unit's table says of the unit itself and of its dependencies.
#[derive(Debug, Clone, PartialEq, Eq)]
pub struct Prelude {
    pub crate_id: CrateId,
    pub external_crates: Vec<ExternalCrate>,
}

/// A definition, numbered by its unit.
#[derive(Debug, Clone, PartialEq, Eq)]
pub struct Def {
    pub kind: String,
    pub name: String,
    pub id: ItemId,
    pub span: Span,
    pub parent: Option<ItemId>,
    pub decl_id: Option<ItemId>,
}

/// A reference, numbered by its unit.
#[derive(Debug, Clone, PartialEq, Eq)]
pub struct Ref {
    pub kind: String,
    pub ref_id: ItemId,
    pub span: Span,
}

/// A definition, numbered by the build.
#[derive(Debug, PartialEq, Eq)]
pub struct AbsDef {
    pub kind: String,
    pub name: String,
    pub id: AbsItemId,
    pub span: Span,
    pub parent: Option<AbsItemId>,
    pub decl_id: Option<AbsItemId>,
}

/// A reference, numbered by the build.
#[derive(Debug, PartialEq, Eq)]
pub struct AbsRef {
    pub kind: String,
    pub ref_id: AbsItemId,
    pub span: Span,
}

/// The symbol table of one unit.
#[derive(Debug, Clone, PartialEq, Eq)]
pub struct CrateSaveAnalysis {
    pub prelude: Prelude,
    pub defs: Vec<Def>,
    pub refs: Vec<Ref>,
}

/// Where a unit was compiled.
#[derive(Debug, Clone, PartialEq, Eq)]
pub struct Compilation {
    pub directory: String,
}

/// The part of a unit's table that tells whether the unit belongs to a build.
#[derive(Debug, Clone, PartialEq, Eq)]
pub struct CrateSaveAnalysisMetadata {
    pub prelude: Prelude,
    pub compilation: Compilation,
}

/// The value of a `Span`.
pub struct SpanView {
    pub file_name: Seq<char>,
    pub line_start: u32,
    pub line_end: u32,
    pub column_start: u32,
    pub column_end: u32,
}

/// The value of a definition whose items are numbered by `I`.
pub struct DefView<I> {
    pub kind: Seq<char>,
    pub name: Seq<char>,
    pub id: I,
    pub span: SpanView,
    pub parent: Option<I>,
    pub decl_id: Option<I>,
}

/// The value of a reference whose items are numbered by `I`.
pub struct RefView<I> {
    pub kind: Seq<char>,
    pub ref_id: I,
    pub span: SpanView,
}

/// One dependency of a unit: the ordinal that the table declares for it, and its identity.
pub struct Dependency {
    pub num: u32,
    pub unit: CrateDisambiguator,
}

/// The value of a `Prelude`: the unit's own identity and, in order, its dependencies. A
/// table is consistent where each dependency declares the ordinal of its position.
pub struct DependencyTable {
    pub this_unit: CrateDisambiguator,
    pub dependencies: Seq<Dependency>,
}

/// The value of a `CrateSaveAnalysis`.
pub struct UnitView {
    pub table: DependencyTable,
    pub defs: Seq<DefView<ItemId>>,
    pub refs: Seq<RefView<ItemId>>,
}

/// The value of a `CrateSaveAnalysisMetadata`.
pub struct MetadataView {
    pub table: DependencyTable,
    pub directory: Seq<char>,
}

impl View for Span {
    type V = SpanView;

    open spec fn view(&self) -> SpanView {
        SpanView {
            file_name: self.file_name@,
            line_start: self.line_start,
            line_end: self.line_end,
            column_start: self.column_start,
            column_end: self.column_end,
        }
    }
}

impl View for Def {
    type V = DefView<ItemId>;

    open spec fn view(&self) -> DefView<ItemId> {
        DefView {
            kind: self.kind@,
            name: self.name@,
            id: self.id,
            span: self.span@,
            parent: self.parent,
            decl_id: self.decl_id,
        }
    }
}

impl View for Ref {
    type V = RefView<ItemId>;

    open spec fn view(&self) -> RefView<ItemId> {
        RefView { kind: self.kind@, ref_id: self.ref_id, span: self.span@ }
    }
}

impl View for AbsDef {
    type V = DefView<AbsItemId>;

    open spec fn view(&self) -> DefView<AbsItemId> {
        DefView {
            kind: self.kind@,
            name: self.name@,
            id: self.id,
            span: self.span@,
            parent: self.parent,
            decl_id: self.decl_id,
        }
    }
}

impl View for AbsRef {
    type V = RefView<AbsItemId>;

    open spec fn view(&self) -> RefView<AbsItemId> {
        RefView { kind: self.kind@, ref_id: self.ref_id, span: self.span@ }
    }
}

impl View for Prelude {
    type V = DependencyTable;

    open spec fn view(&self) -> DependencyTable {
        DependencyTable {
            this_unit: self.crate_id.disambiguator,
            dependencies: Seq::new(
                self.external_crates@.len(),
                |i: int|
                    Dependency {
                        num: self.external_crates@[i].num,
                        unit: self.external_crates@[i].id.disambiguator,
                    },
            ),
        }
    }
}

impl View for CrateSaveAnalysis {
    type V = UnitView;

    open spec fn view(&self) -> UnitView {
        UnitView {
            table: self.prelude@,
            defs: Seq::new(self.defs@.len(), |i: int| self.defs@[i]@),
            refs: Seq::new(self.refs@.len(), |i: int| self.refs@[i]@),
        }
    }
}

impl View for CrateSaveAnalysisMetadata {
    type V = MetadataView;

    open spec fn view(&self) -> MetadataView {
        MetadataView { table: self.prelude@, directory: self.compilation.directory@ }
    }
}

impl Clone for Span {
    fn clone(&self) -> (copy: Span)
        ensures
            copy == *self,
    {
        Span {
            file_name: self.file_name.clone(),
            line_start: self.line_start,
            line_end: self.line_end,
            column_start: self.column_start,
            column_end: self.column_end,
        }
    }
}

impl Clone for AbsDef {
    fn clone(&self) -> (copy: AbsDef)
        ensures
            copy == *self,
    {
        AbsDef {
            kind: self.kind.clone(),
            name: self.name.clone(),
            id: self.id,
            span: self.span.clone(),
            parent: self.parent,
            decl_id: self.decl_id,
        }
    }
}

impl Clone for AbsRef {
    fn clone(&self) -> (copy: AbsRef)
        ensures
            copy == *self,
    {
        AbsRef { kind: self.kind.clone(), ref_id: self.ref_id, span: self.span.clone() }
    }
}

} // verus!
