//! The order in which findings are reported: by kind, then by name, then by place.

use crate::defs::AbsDef;
use crate::defs::AbsItemId;
use crate::defs::DefView;
use crate::defs::Span;
use crate::defs::SpanView;
use crate::order::id_order;
use crate::order::int_order;
use crate::order::order_ids;
use crate::order::order_u64;
use crate::order::Ordered;
use crate::order::Precedence;
use crate::text::decimal;
use crate::text::decimal_string;
use crate::text::lemma_text_order_flip;
use crate::text::lemma_text_order_transitive;
use crate::text::order_text;
use crate::text::text_order;
use vstd::prelude::*;
use vstd::string::StringExecFns;

verus! {

/// How two spans stand: by file, then by where they start, then by where they end.
pub open spec fn span_order(a: SpanView, b: SpanView) -> Precedence {
    text_order(a.file_name, b.file_name).followed_by(
        int_order(a.line_start as int, b.line_start as int),
    ).followed_by(int_order(a.column_start as int, b.column_start as int)).followed_by(
        int_order(a.line_end as int, b.line_end as int),
    ).followed_by(int_order(a.column_end as int, b.column_end as int))
}

/// How two items that may be absent stand: an absent one comes first.
pub open spec fn optional_id_order(a: Option<AbsItemId>, b: Option<AbsItemId>) -> Precedence {
    match (a, b) {
        (None, None) => Precedence::Same,
        (None, Some(_)) => Precedence::Before,
        (Some(_), None) => Precedence::After,
        (Some(x), Some(y)) => id_order(x, y),
    }
}

/// How two definitions stand in a report: by kind, then by name, then by span; definitions
/// that agree in these stand as their numbers, their parents and their declarations do.
pub open spec fn def_order(a: DefView<AbsItemId>, b: DefView<AbsItemId>) -> Precedence {
    text_order(a.kind, b.kind).followed_by(text_order(a.name, b.name)).followed_by(
        span_order(a.span, b.span),
    ).followed_by(id_order(a.id, b.id)).followed_by(
        optional_id_order(a.parent, b.parent),
    ).followed_by(optional_id_order(a.decl_id, b.decl_id))
}

/// Taking two spans the other way round flips their order, and only a span and itself
/// stand as `Same`.
pub proof fn lemma_span_order_flip(a: SpanView, b: SpanView)
    ensures
        span_order(b, a) == span_order(a, b).flip(),
        span_order(a, b) == Precedence::Same <==> a == b,
{
    lemma_text_order_flip(a.file_name, b.file_name);
}

/// The order of spans is transitive.
pub proof fn lemma_span_order_transitive(a: SpanView, b: SpanView, c: SpanView)
    requires
        span_order(a, b) != Precedence::After,
        span_order(b, c) != Precedence::After,
    ensures
        span_order(a, c) != Precedence::After,
        span_order(a, c) == Precedence::Same ==> span_order(a, b) == Precedence::Same
            && span_order(b, c) == Precedence::Same,
{
    lemma_text_order_flip(a.file_name, b.file_name);
    lemma_text_order_flip(b.file_name, c.file_name);
    lemma_text_order_flip(a.file_name, c.file_name);
    lemma_text_order_transitive(a.file_name, b.file_name, c.file_name);
}

/// Taking two definitions the other way round flips their order, and only a definition
/// and itself stand as `Same`.
pub proof fn lemma_def_order_flip(a: DefView<AbsItemId>, b: DefView<AbsItemId>)
    ensures
        def_order(b, a) == def_order(a, b).flip(),
        def_order(a, b) == Precedence::Same <==> a == b,
{
    lemma_text_order_flip(a.kind, b.kind);
    lemma_text_order_flip(a.name, b.name);
    lemma_span_order_flip(a.span, b.span);
}

/// The order of definitions is transitive.
pub proof fn lemma_def_order_transitive(
    a: DefView<AbsItemId>,
    b: DefView<AbsItemId>,
    c: DefView<AbsItemId>,
)
    requires
        def_order(a, b) != Precedence::After,
        def_order(b, c) != Precedence::After,
    ensures
        def_order(a, c) != Precedence::After,
        def_order(a, c) == Precedence::Same ==> def_order(a, b) == Precedence::Same && def_order(
            b,
            c,
        ) == Precedence::Same,
{
    lemma_text_order_flip(a.kind, b.kind);
    lemma_text_order_flip(b.kind, c.kind);
    lemma_text_order_flip(a.kind, c.kind);
    lemma_text_order_transitive(a.kind, b.kind, c.kind);
    if text_order(a.kind, b.kind) == Precedence::Same && text_order(b.kind, c.kind)
        == Precedence::Same {
        lemma_text_order_flip(a.name, b.name);
        lemma_text_order_flip(b.name, c.name);
        lemma_text_order_flip(a.name, c.name);
        lemma_text_order_transitive(a.name, b.name, c.name);
        if text_order(a.name, b.name) == Precedence::Same && text_order(b.name, c.name)
            == Precedence::Same {
            lemma_span_order_flip(a.span, b.span);
            lemma_span_order_flip(b.span, c.span);
            lemma_span_order_flip(a.span, c.span);
            lemma_span_order_transitive(a.span, b.span, c.span);
        }
    }
}

/// Compares two spans.
pub fn order_spans(a: &Span, b: &Span) -> (r: Precedence)
    ensures
        r == span_order(a@, b@),
{
    match order_text(a.file_name.as_str(), b.file_name.as_str()) {
        Precedence::Same => {},
        other => {
            return other;
        },
    }
    match order_u64(a.line_start as u64, b.line_start as u64) {
        Precedence::Same => {},
        other => {
            return other;
        },
    }
    match order_u64(a.column_start as u64, b.column_start as u64) {
        Precedence::Same => {},
        other => {
            return other;
        },
    }
    match order_u64(a.line_end as u64, b.line_end as u64) {
        Precedence::Same => {},
        other => {
            return other;
        },
    }
    order_u64(a.column_end as u64, b.column_end as u64)
}

/// Compares two items that may be absent.
pub fn order_optional_ids(a: &Option<AbsItemId>, b: &Option<AbsItemId>) -> (r: Precedence)
    ensures
        r == optional_id_order(*a, *b),
{
    match (a, b) {
        (None, None) => Precedence::Same,
        (None, Some(_)) => Precedence::Before,
        (Some(_), None) => Precedence::After,
        (Some(x), Some(y)) => order_ids(x, y),
    }
}

/// Compares two definitions.
pub fn order_defs(a: &AbsDef, b: &AbsDef) -> (r: Precedence)
    ensures
        r == def_order(a@, b@),
{
    match order_text(a.kind.as_str(), b.kind.as_str()) {
        Precedence::Same => {},
        other => {
            return other;
        },
    }
    match order_text(a.name.as_str(), b.name.as_str()) {
        Precedence::Same => {},
        other => {
            return other;
        },
    }
    match order_spans(&a.span, &b.span) {
        Precedence::Same => {},
        other => {
            return other;
        },
    }
    match order_ids(&a.id, &b.id) {
        Precedence::Same => {},
        other => {
            return other;
        },
    }
    match order_optional_ids(&a.parent, &b.parent) {
        Precedence::Same => {},
        other => {
            return other;
        },
    }
    order_optional_ids(&a.decl_id, &b.decl_id)
}

impl Ordered for AbsDef {
    type Value = DefView<AbsItemId>;

    open spec fn value(&self) -> DefView<AbsItemId> {
        self@
    }

    open spec fn order(a: DefView<AbsItemId>, b: DefView<AbsItemId>) -> Precedence {
        def_order(a, b)
    }

    proof fn lemma_order_flip(a: DefView<AbsItemId>, b: DefView<AbsItemId>) {
        lemma_def_order_flip(a, b);
    }

    proof fn lemma_order_transitive(
        a: DefView<AbsItemId>,
        b: DefView<AbsItemId>,
        c: DefView<AbsItemId>,
    ) {
        lemma_def_order_transitive(a, b, c);
    }

    fn compare(&self, other: &AbsDef) -> (r: Precedence) {
        order_defs(self, other)
    }
}

/// The place of a span as a report names it: file, line and column of its start.
pub open spec fn place(span: SpanView) -> Seq<char> {
    span.file_name + ":"@ + decimal(span.line_start as nat) + ":"@ + decimal(
        span.column_start as nat,
    )
}

/// The line that reports a definition as unused.
pub open spec fn report_line(d: DefView<AbsItemId>) -> Seq<char> {
    place(d.span) + ": unused "@ + d.kind + " '"@ + d.name + "'"@
}

impl Span {
    /// The place of the span as a report names it.
    pub fn display_str(&self) -> (text: String)
        ensures
            text@ == place(self@),
    {
        let mut text = self.file_name.clone();
        text.append(":");
        text.append(decimal_string(self.line_start as u64).as_str());
        text.append(":");
        text.append(decimal_string(self.column_start as u64).as_str());
        text
    }
}

impl AbsDef {
    /// The line that reports this definition as unused.
    pub fn report_line(&self) -> (text: String)
        ensures
            text@ == report_line(self@),
    {
        let mut text = self.span.display_str();
        text.append(": unused ");
        text.append(self.kind.as_str());
        text.append(" '");
        text.append(self.name.as_str());
        text.append("'");
        text
    }
}

} // verus!
