//! Finds unreferenced definitions in the symbol tables that a compiler emits for a build.
//!
//! The tables of the units of a build are merged into one graph (`db`, `graph`), after the
//! numbers that each unit gives to items were turned into numbers of the whole build
//! (`resolve`). The detector (`detect`) reports the definitions that no reference has as
//! its target and that no rule excuses; one rule asks whether a definition lies inside a
//! macro invocation or an attribute (`mute`). A second format, whose symbols carry names
//! of the whole build already, has a detector of its own (`scip`).

use vstd::prelude::*;

pub mod db;
pub mod defs;
pub mod detect;
pub mod graph;
pub mod mute;
pub mod order;
pub mod report;
pub mod resolve;
pub mod scip;
pub mod sorted_map;
pub mod text;

verus! {

/// An error, as the message that reports it.
#[derive(Debug, Clone, PartialEq, Eq)]
pub struct StrErr(pub String);

impl View for StrErr {
    type V = Seq<char>;

    open spec fn view(&self) -> Seq<char> {
        self.0@
    }
}

/// What the caller asks of an analysis.
#[derive(Debug, Clone, Copy, PartialEq, Eq, Structural)]
pub struct Options {
    pub recurse: bool,
}

} // verus!
