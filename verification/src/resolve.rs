//! Turns the numbers that a unit gives to items into the numbers of the whole build.

use crate::defs::{
    AbsDef, AbsItemId, AbsRef, CrateDisambiguator, Def, DefView, DependencyTable, ItemId,
    Prelude, Ref, RefView,
};
use crate::text::decimal;
use crate::text::decimal_string;
use crate::StrErr;
use vstd::prelude::*;
use vstd::string::StringExecFns;

verus! {

/// A table of dependencies that does not agree with itself, or with a number that refers
/// to it.
#[derive(Debug, PartialEq, Eq, Copy, Clone, Structural)]
pub enum SchemaError {
    /// A unit number beyond the end of the table.
    IndexOutOfRange { index: u32 },
    /// The dependency at position `index` declares the ordinal `found`.
    OrdinalMismatch { index: u32, found: u32 },
}

impl SchemaError {
    /// The text of the error.
    pub open spec fn message(self) -> Seq<char> {
        match self {
            SchemaError::IndexOutOfRange { index } => "no dependency has the number "@ + decimal(
                index as nat,
            ),
            SchemaError::OrdinalMismatch { index, found } => "dependency "@ + decimal(index as nat)
                + " declares the number "@ + decimal(found as nat),
        }
    }

    /// The error as a message.
    pub fn to_str_err(&self) -> (e: StrErr)
        ensures
            e@ == self.message(),
    {
        match self {
            SchemaError::IndexOutOfRange { index } => {
                let mut text = String::from_str("no dependency has the number ");
                text.append(decimal_string(*index as u64).as_str());
                StrErr(text)
            },
            SchemaError::OrdinalMismatch { index, found } => {
                let mut text = String::from_str("dependency ");
                text.append(decimal_string(*index as u64).as_str());
                text.append(" declares the number ");
                text.append(decimal_string(*found as u64).as_str());
                StrErr(text)
            },
        }
    }
}

impl DependencyTable {
    /// Each dependency declares the ordinal of its position, counted from one.
    pub open spec fn consistent(self) -> bool {
        forall|i: int| 0 <= i < self.dependencies.len() ==> self.dependencies[i].num == i + 1
    }

    /// The identity of the unit that this table's unit calls `local_index`: the unit itself
    /// for 0, else the dependency at that position, which has to declare that ordinal.
    pub open spec fn unit_of(self, local_index: u32) -> Result<CrateDisambiguator, SchemaError> {
        if local_index == 0 {
            Ok(self.this_unit)
        } else if local_index > self.dependencies.len() {
            Err(SchemaError::IndexOutOfRange { index: local_index })
        } else if self.dependencies[local_index - 1].num != local_index {
            Err(
                SchemaError::OrdinalMismatch {
                    index: local_index,
                    found: self.dependencies[local_index - 1].num,
                },
            )
        } else {
            Ok(self.dependencies[local_index - 1].unit)
        }
    }

    /// The build's number for the item that this table's unit calls `id`.
    pub open spec fn resolve(self, id: ItemId) -> Result<AbsItemId, SchemaError> {
        match self.unit_of(id.krate) {
            Ok(unit) => Ok(AbsItemId { krate: unit, index: id.index }),
            Err(e) => Err(e),
        }
    }

    /// The build's number for an item that may be absent.
    pub open spec fn resolve_optional(self, id: Option<ItemId>) -> Result<
        Option<AbsItemId>,
        SchemaError,
    > {
        match id {
            None => Ok(None),
            Some(id) => match self.resolve(id) {
                Ok(global) => Ok(Some(global)),
                Err(e) => Err(e),
            },
        }
    }

    /// The definition `d` of this table's unit with each of its items numbered by the build;
    /// the first of `id`, `parent` and `decl_id` that cannot be resolved gives the error.
    pub open spec fn resolve_def(self, d: DefView<ItemId>) -> Result<
        DefView<AbsItemId>,
        SchemaError,
    > {
        match self.resolve(d.id) {
            Err(e) => Err(e),
            Ok(id) => match self.resolve_optional(d.parent) {
                Err(e) => Err(e),
                Ok(parent) => match self.resolve_optional(d.decl_id) {
                    Err(e) => Err(e),
                    Ok(decl_id) => Ok(
                        DefView { kind: d.kind, name: d.name, id, span: d.span, parent, decl_id },
                    ),
                },
            },
        }
    }

    /// The reference `r` of this table's unit with its target numbered by the build.
    pub open spec fn resolve_ref(self, r: RefView<ItemId>) -> Result<
        RefView<AbsItemId>,
        SchemaError,
    > {
        match self.resolve(r.ref_id) {
            Err(e) => Err(e),
            Ok(ref_id) => Ok(RefView { kind: r.kind, ref_id, span: r.span }),
        }
    }
}

/// The value of the outcome of resolving a definition.
pub open spec fn def_outcome(r: Result<AbsDef, SchemaError>) -> Result<
    DefView<AbsItemId>,
    SchemaError,
> {
    match r {
        Ok(d) => Ok(d@),
        Err(e) => Err(e),
    }
}

/// The value of the outcome of resolving a reference.
pub open spec fn ref_outcome(r: Result<AbsRef, SchemaError>) -> Result<
    RefView<AbsItemId>,
    SchemaError,
> {
    match r {
        Ok(r) => Ok(r@),
        Err(e) => Err(e),
    }
}

impl Prelude {
    /// The identity of the unit that this unit calls `id`.
    pub fn disambiguator_for_id(&self, id: u32) -> (unit: Result<CrateDisambiguator, SchemaError>)
        ensures
            unit == self@.unit_of(id),
    {
        if id == 0 {
            return Ok(self.crate_id.disambiguator);
        }
        let position: usize = (id - 1) as usize;
        if position >= self.external_crates.len() {
            return Err(SchemaError::IndexOutOfRange { index: id });
        }
        let krate = &self.external_crates[position];
        if krate.num != id {
            return Err(SchemaError::OrdinalMismatch { index: id, found: krate.num });
        }
        Ok(krate.id.disambiguator)
    }
}

impl ItemId {
    /// The build's number for this item of the unit whose table is `prelude`.
    pub fn resolve(&self, prelude: &Prelude) -> (global: Result<AbsItemId, SchemaError>)
        ensures
            global == prelude@.resolve(*self),
    {
        match prelude.disambiguator_for_id(self.krate) {
            Ok(unit) => Ok(AbsItemId { krate: unit, index: self.index }),
            Err(e) => Err(e),
        }
    }
}

/// The build's number for an item that may be absent.
pub fn resolve_optional(id: &Option<ItemId>, prelude: &Prelude) -> (global: Result<
    Option<AbsItemId>,
    SchemaError,
>)
    ensures
        global == prelude@.resolve_optional(*id),
{
    match id {
        None => Ok(None),
        Some(id) => match id.resolve(prelude) {
            Ok(global) => Ok(Some(global)),
            Err(e) => Err(e),
        },
    }
}

impl Def {
    /// This definition of the unit whose table is `prelude`, numbered by the build.
    pub fn resolve(&self, prelude: &Prelude) -> (global: Result<AbsDef, SchemaError>)
        ensures
            def_outcome(global) == prelude@.resolve_def(self@),
    {
        let id = match self.id.resolve(prelude) {
            Ok(id) => id,
            Err(e) => {
                return Err(e);
            },
        };
        let parent = match resolve_optional(&self.parent, prelude) {
            Ok(parent) => parent,
            Err(e) => {
                return Err(e);
            },
        };
        let decl_id = match resolve_optional(&self.decl_id, prelude) {
            Ok(decl_id) => decl_id,
            Err(e) => {
                return Err(e);
            },
        };
        Ok(
            AbsDef {
                kind: self.kind.clone(),
                name: self.name.clone(),
                id,
                span: self.span.clone(),
                parent,
                decl_id,
            },
        )
    }
}

impl Ref {
    /// This reference of the unit whose table is `prelude`, numbered by the build.
    pub fn resolve(&self, prelude: &Prelude) -> (global: Result<AbsRef, SchemaError>)
        ensures
            ref_outcome(global) == prelude@.resolve_ref(self@),
    {
        match self.ref_id.resolve(prelude) {
            Ok(ref_id) => Ok(AbsRef { kind: self.kind.clone(), ref_id, span: self.span.clone() }),
            Err(e) => Err(e),
        }
    }
}

/// Resolving depends on nothing but the table's value and the item's number: the same
/// number resolved through tables of the same value gives the same outcome, however often
/// it is asked.
pub proof fn lemma_resolve_is_a_function(first: Prelude, second: Prelude, a: ItemId, b: ItemId)
    requires
        first@ == second@,
        a == b,
    ensures
        first@.resolve(a) == second@.resolve(b),
{
}

/// In a consistent table, every number up to the count of the dependencies resolves.
pub proof fn lemma_consistent_table_resolves(table: DependencyTable, id: ItemId)
    requires
        table.consistent(),
        id.krate <= table.dependencies.len(),
    ensures
        table.resolve(id) is Ok,
{
}

} // verus!
