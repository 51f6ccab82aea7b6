//! The index format in which every occurrence of a symbol carries the symbol's name for the
//! whole build and the roles in which it occurs.

use crate::order::int_order;
use crate::order::order_u64;
use crate::order::Ordered;
use crate::order::sort;
use crate::order::sorted;
use crate::order::values_of;
use crate::order::Precedence;
use crate::sorted_map::SortedMap;
use crate::text::has_prefix;
use crate::text::starts_with;
use crate::Options;
use crate::text::decimal;
use crate::text::decimal_string;
use crate::text::lemma_text_order_flip;
use crate::text::lemma_text_order_transitive;
use crate::text::order_text;
use crate::text::text_order;
use crate::StrErr;
use vstd::prelude::*;
use vstd::string::StringExecFns;

verus! {

/// The bit of the role of a definition.
pub const DEFINITION: i32 = 0x1;

/// The bit of the role of an import.
pub const IMPORT: i32 = 0x2;

/// The bit of the role of a write access.
pub const WRITE_ACCESS: i32 = 0x4;

/// The bit of the role of a read access.
pub const READ_ACCESS: i32 = 0x8;

/// The bit of the role of generated code.
pub const GENERATED: i32 = 0x10;

/// The bit of the role of test code.
pub const TEST: i32 = 0x20;

/// The bit of the role of a forward definition.
pub const FORWARD_DEFINITION: i32 = 0x40;

/// A range of source text: a file, and lines and columns that start at one.
#[derive(Debug, PartialEq, Eq, PartialOrd, Ord)]
pub struct Span {
    pub file: String,
    pub start_line: u32,
    pub start_col: u32,
    pub end_line: u32,
    pub end_col: u32,
}

/// The value of a `Span`.
pub struct SpanView {
    pub file: Seq<char>,
    pub start_line: u32,
    pub start_col: u32,
    pub end_line: u32,
    pub end_col: u32,
}

impl View for Span {
    type V = SpanView;

    open spec fn view(&self) -> SpanView {
        SpanView {
            file: self.file@,
            start_line: self.start_line,
            start_col: self.start_col,
            end_line: self.end_line,
            end_col: self.end_col,
        }
    }
}

impl Clone for Span {
    fn clone(&self) -> (copy: Span)
        ensures
            copy == *self,
    {
        Span {
            file: self.file.clone(),
            start_line: self.start_line,
            start_col: self.start_col,
            end_line: self.end_line,
            end_col: self.end_col,
        }
    }
}

/// The number that counts from one what `v` counts from zero; it wraps where `v` is
/// negative, as the unsigned reading of `v` does.
pub open spec fn one_based(v: i32) -> u32 {
    ((v + 1) % 0x1_0000_0000) as u32
}

/// The message that tells that a range has neither three numbers nor four.
pub open spec fn wrong_range_message(len: nat) -> Seq<char> {
    "range has wrong number of arguments: "@ + decimal(len)
}

/// The span in `file` that a range of an index stands for: four numbers are start line,
/// start column, end line and end column, three are line, start column and end column,
/// each counted from zero.
pub open spec fn span_of_range(file: Seq<char>, range: Seq<i32>) -> Result<SpanView, Seq<char>> {
    if range.len() == 4 {
        Ok(
            SpanView {
                file,
                start_line: one_based(range[0]),
                start_col: one_based(range[1]),
                end_line: one_based(range[2]),
                end_col: one_based(range[3]),
            },
        )
    } else if range.len() == 3 {
        Ok(
            SpanView {
                file,
                start_line: one_based(range[0]),
                start_col: one_based(range[1]),
                end_line: one_based(range[0]),
                end_col: one_based(range[2]),
            },
        )
    } else {
        Err(wrong_range_message(range.len()))
    }
}

/// The value of the outcome of reading a range.
pub open spec fn span_outcome(r: Result<Span, StrErr>) -> Result<SpanView, Seq<char>> {
    match r {
        Ok(span) => Ok(span@),
        Err(e) => Err(e@),
    }
}

/// The place of a span as a report names it: file, line and column of its start.
pub open spec fn place(span: SpanView) -> Seq<char> {
    span.file + ":"@ + decimal(span.start_line as nat) + ":"@ + decimal(span.start_col as nat)
}

/// Counts from one what `v` counts from zero.
fn to_one_based(v: i32) -> (n: u32)
    ensures
        n == one_based(v),
{
    if v >= 0 {
        (v as u32) + 1
    } else if v == -1 {
        0
    } else {
        let wide: i64 = v as i64 + 0x1_0000_0001;
        wide as u32
    }
}

impl Span {
    /// The span in `file` that a range of an index stands for.
    pub fn from_scip_range(file: &str, range: &[i32]) -> (span: Result<Span, StrErr>)
        ensures
            span_outcome(span) == span_of_range(file@, range@),
    {
        if range.len() == 4 {
            Ok(
                Span {
                    file: String::from_str(file),
                    start_line: to_one_based(range[0]),
                    start_col: to_one_based(range[1]),
                    end_line: to_one_based(range[2]),
                    end_col: to_one_based(range[3]),
                },
            )
        } else if range.len() == 3 {
            let line = to_one_based(range[0]);
            Ok(
                Span {
                    file: String::from_str(file),
                    start_line: line,
                    start_col: to_one_based(range[1]),
                    end_line: line,
                    end_col: to_one_based(range[2]),
                },
            )
        } else {
            let mut text = String::from_str("range has wrong number of arguments: ");
            text.append(decimal_string(range.len() as u64).as_str());
            Err(StrErr(text))
        }
    }

    /// The place of the span as a report names it.
    pub fn display_str(&self) -> (text: String)
        ensures
            text@ == place(self@),
    {
        let mut text = self.file.clone();
        text.append(":");
        text.append(decimal_string(self.start_line as u64).as_str());
        text.append(":");
        text.append(decimal_string(self.start_col as u64).as_str());
        text
    }
}

/// The mask holds the bit of the role.
pub open spec fn has_role(mask: i32, role: i32) -> bool {
    mask & role > 0
}

/// The roles in which a symbol occurs at one place, as a mask of bits.
#[derive(Debug, Clone, Copy, PartialEq, Eq, Structural)]
pub struct Roles(pub i32);

impl Roles {
    /// The occurrence defines the symbol.
    pub fn is_definition(&self) -> (r: bool)
        ensures
            r == has_role(self.0, DEFINITION),
    {
        self.0 & DEFINITION > 0
    }

    /// The occurrence imports the symbol.
    pub fn is_import(&self) -> (r: bool)
        ensures
            r == has_role(self.0, IMPORT),
    {
        self.0 & IMPORT > 0
    }

    /// The occurrence writes to the symbol.
    pub fn is_write_access(&self) -> (r: bool)
        ensures
            r == has_role(self.0, WRITE_ACCESS),
    {
        self.0 & WRITE_ACCESS > 0
    }

    /// The occurrence reads the symbol.
    pub fn is_read_access(&self) -> (r: bool)
        ensures
            r == has_role(self.0, READ_ACCESS),
    {
        self.0 & READ_ACCESS > 0
    }

    /// The occurrence stands in generated code.
    pub fn is_generated(&self) -> (r: bool)
        ensures
            r == has_role(self.0, GENERATED),
    {
        self.0 & GENERATED > 0
    }

    /// The occurrence stands in test code.
    pub fn is_test(&self) -> (r: bool)
        ensures
            r == has_role(self.0, TEST),
    {
        self.0 & TEST > 0
    }

    /// The occurrence is a forward definition of the symbol.
    pub fn is_forward_definition(&self) -> (r: bool)
        ensures
            r == has_role(self.0, FORWARD_DEFINITION),
    {
        self.0 & FORWARD_DEFINITION > 0
    }
}

/// A mask holds a role exactly when the role's bit is set in it.
pub proof fn lemma_roles_are_bits(mask: i32)
    ensures
        has_role(mask, DEFINITION) <==> mask & 0x1 == 0x1,
        has_role(mask, IMPORT) <==> mask & 0x2 == 0x2,
        has_role(mask, WRITE_ACCESS) <==> mask & 0x4 == 0x4,
        has_role(mask, READ_ACCESS) <==> mask & 0x8 == 0x8,
        has_role(mask, GENERATED) <==> mask & 0x10 == 0x10,
        has_role(mask, TEST) <==> mask & 0x20 == 0x20,
        has_role(mask, FORWARD_DEFINITION) <==> mask & 0x40 == 0x40,
{
    assert(mask & 0x1 > 0 <==> mask & 0x1 == 0x1) by (bit_vector);
    assert(mask & 0x2 > 0 <==> mask & 0x2 == 0x2) by (bit_vector);
    assert(mask & 0x4 > 0 <==> mask & 0x4 == 0x4) by (bit_vector);
    assert(mask & 0x8 > 0 <==> mask & 0x8 == 0x8) by (bit_vector);
    assert(mask & 0x10 > 0 <==> mask & 0x10 == 0x10) by (bit_vector);
    assert(mask & 0x20 > 0 <==> mask & 0x20 == 0x20) by (bit_vector);
    assert(mask & 0x40 > 0 <==> mask & 0x40 == 0x40) by (bit_vector);
}

/// The kind of a symbol, as the number that the index format gives it.
#[derive(Debug, Clone, Copy, PartialEq, Eq, PartialOrd, Ord, Structural)]
pub struct Kind(pub i32);

impl Kind {
    /// The number of the kind.
    pub fn kind_enum(&self) -> (number: i32)
        ensures
            number == self.0,
    {
        self.0
    }
}

/// One part of the name of a symbol: its text and the sort of thing that it names.
#[derive(Debug, Clone, PartialEq, Eq)]
pub struct Descriptor {
    pub name: String,
    pub suffix: String,
}

/// A descriptor in short: its name and its suffix.
pub open spec fn descriptor_text(name: Seq<char>, suffix: Seq<char>) -> Seq<char> {
    name + "_"@ + suffix
}

/// The descriptors in short, with a colon between each two.
pub open spec fn joined_descriptors(descriptors: Seq<Descriptor>) -> Seq<char>
    decreases descriptors.len(),
{
    if descriptors.len() == 0 {
        Seq::empty()
    } else if descriptors.len() == 1 {
        descriptor_text(descriptors[0].name@, descriptors[0].suffix@)
    } else {
        joined_descriptors(descriptors.drop_last()) + ":"@ + descriptor_text(
            descriptors.last().name@,
            descriptors.last().suffix@,
        )
    }
}

/// A symbol in short: the name of its package and its descriptors.
pub open spec fn short_symbol(package_name: Seq<char>, descriptors: Seq<Descriptor>) -> Seq<char> {
    package_name + "::"@ + joined_descriptors(descriptors)
}

/// Writes a symbol in short.
pub fn shorten_symbol(package_name: &str, descriptors: &Vec<Descriptor>) -> (text: String)
    ensures
        text@ == short_symbol(package_name@, descriptors@),
{
    let mut joined = String::new();
    let mut i: usize = 0;
    assert(descriptors@.take(0) =~= Seq::empty());
    while i < descriptors.len()
        invariant
            i <= descriptors@.len(),
            joined@ == joined_descriptors(descriptors@.take(i as int)),
        decreases descriptors.len() - i,
    {
        let ghost grown = descriptors@.take(i + 1);
        proof {
            assert(grown.drop_last() =~= descriptors@.take(i as int));
            assert(grown.last() == descriptors@[i as int]);
            if i == 1 {
                assert(grown.drop_last()[0] == descriptors@[0]);
            }
        }
        if i > 0 {
            joined.append(":");
        }
        joined.append(descriptors[i].name.as_str());
        joined.append("_");
        joined.append(descriptors[i].suffix.as_str());
        proof {
            assert(joined@ =~= joined_descriptors(grown));
        }
        i += 1;
    }
    proof {
        assert(descriptors@.take(i as int) =~= descriptors@);
    }
    let mut text = String::from_str(package_name);
    text.append("::");
    text.append(joined.as_str());
    text
}

/// A definition of a symbol: where it stands, and the name and the kind that the index
/// gives the symbol, if it gives them.
#[derive(Debug, PartialEq, Eq, PartialOrd, Ord)]
pub struct AbsDef {
    pub span: Span,
    pub name: Option<String>,
    pub kind: Option<Kind>,
}

/// The value of an `AbsDef`.
pub struct AbsDefView {
    pub span: SpanView,
    pub name: Option<Seq<char>>,
    pub kind: Option<Kind>,
}

impl View for AbsDef {
    type V = AbsDefView;

    open spec fn view(&self) -> AbsDefView {
        AbsDefView {
            span: self.span@,
            name: match self.name {
                Some(name) => Some(name@),
                None => None,
            },
            kind: self.kind,
        }
    }
}

impl Clone for AbsDef {
    fn clone(&self) -> (copy: AbsDef)
        ensures
            copy == *self,
    {
        AbsDef {
            span: self.span.clone(),
            name: match &self.name {
                Some(name) => Some(name.clone()),
                None => None,
            },
            kind: self.kind,
        }
    }
}

/// How two spans stand: by file, then by where they start, then by where they end.
pub open spec fn span_order(a: SpanView, b: SpanView) -> Precedence {
    text_order(a.file, b.file).followed_by(
        int_order(a.start_line as int, b.start_line as int),
    ).followed_by(int_order(a.start_col as int, b.start_col as int)).followed_by(
        int_order(a.end_line as int, b.end_line as int),
    ).followed_by(int_order(a.end_col as int, b.end_col as int))
}

/// How two names that may be absent stand: an absent one comes first.
pub open spec fn optional_text_order(a: Option<Seq<char>>, b: Option<Seq<char>>) -> Precedence {
    match (a, b) {
        (None, None) => Precedence::Same,
        (None, Some(_)) => Precedence::Before,
        (Some(_), None) => Precedence::After,
        (Some(x), Some(y)) => text_order(x, y),
    }
}

/// How two kinds that may be absent stand: an absent one comes first, and kinds stand as
/// their numbers do.
pub open spec fn optional_kind_order(a: Option<Kind>, b: Option<Kind>) -> Precedence {
    match (a, b) {
        (None, None) => Precedence::Same,
        (None, Some(_)) => Precedence::Before,
        (Some(_), None) => Precedence::After,
        (Some(x), Some(y)) => int_order(x.0 as int, y.0 as int),
    }
}

/// How two definitions stand in a report: by span, then by name, then by kind.
pub open spec fn def_order(a: AbsDefView, b: AbsDefView) -> Precedence {
    span_order(a.span, b.span).followed_by(optional_text_order(a.name, b.name)).followed_by(
        optional_kind_order(a.kind, b.kind),
    )
}

/// Taking two definitions the other way round flips their order, and only a definition
/// and itself stand as `Same`.
pub proof fn lemma_def_order_flip(a: AbsDefView, b: AbsDefView)
    ensures
        def_order(b, a) == def_order(a, b).flip(),
        def_order(a, b) == Precedence::Same <==> a == b,
{
    lemma_text_order_flip(a.span.file, b.span.file);
    if a.name is Some && b.name is Some {
        lemma_text_order_flip(a.name->Some_0, b.name->Some_0);
    }
}

/// The order of definitions is transitive.
pub proof fn lemma_def_order_transitive(a: AbsDefView, b: AbsDefView, c: AbsDefView)
    requires
        def_order(a, b) != Precedence::After,
        def_order(b, c) != Precedence::After,
    ensures
        def_order(a, c) != Precedence::After,
        def_order(a, c) == Precedence::Same ==> def_order(a, b) == Precedence::Same && def_order(
            b,
            c,
        ) == Precedence::Same,
{
    lemma_text_order_flip(a.span.file, b.span.file);
    lemma_text_order_flip(b.span.file, c.span.file);
    lemma_text_order_flip(a.span.file, c.span.file);
    lemma_text_order_transitive(a.span.file, b.span.file, c.span.file);
    if a.name is Some && b.name is Some && c.name is Some {
        let x = a.name->Some_0;
        let y = b.name->Some_0;
        let z = c.name->Some_0;
        lemma_text_order_flip(x, y);
        lemma_text_order_flip(y, z);
        lemma_text_order_flip(x, z);
        if text_order(x, y) != Precedence::After && text_order(y, z) != Precedence::After {
            lemma_text_order_transitive(x, y, z);
        }
    }
}

/// Compares two spans.
pub fn order_spans(a: &Span, b: &Span) -> (r: Precedence)
    ensures
        r == span_order(a@, b@),
{
    match order_text(a.file.as_str(), b.file.as_str()) {
        Precedence::Same => {},
        other => {
            return other;
        },
    }
    match order_u64(a.start_line as u64, b.start_line as u64) {
        Precedence::Same => {},
        other => {
            return other;
        },
    }
    match order_u64(a.start_col as u64, b.start_col as u64) {
        Precedence::Same => {},
        other => {
            return other;
        },
    }
    match order_u64(a.end_line as u64, b.end_line as u64) {
        Precedence::Same => {},
        other => {
            return other;
        },
    }
    order_u64(a.end_col as u64, b.end_col as u64)
}

/// Compares two definitions.
pub fn order_defs(a: &AbsDef, b: &AbsDef) -> (r: Precedence)
    ensures
        r == def_order(a@, b@),
{
    match order_spans(&a.span, &b.span) {
        Precedence::Same => {},
        other => {
            return other;
        },
    }
    let by_name = match (&a.name, &b.name) {
        (None, None) => Precedence::Same,
        (None, Some(_)) => Precedence::Before,
        (Some(_), None) => Precedence::After,
        (Some(x), Some(y)) => order_text(x.as_str(), y.as_str()),
    };
    match by_name {
        Precedence::Same => {},
        other => {
            return other;
        },
    }
    match (&a.kind, &b.kind) {
        (None, None) => Precedence::Same,
        (None, Some(_)) => Precedence::Before,
        (Some(_), None) => Precedence::After,
        (Some(x), Some(y)) => if x.0 < y.0 {
            Precedence::Before
        } else if x.0 == y.0 {
            Precedence::Same
        } else {
            Precedence::After
        },
    }
}

impl Ordered for AbsDef {
    type Value = AbsDefView;

    open spec fn value(&self) -> AbsDefView {
        self@
    }

    open spec fn order(a: AbsDefView, b: AbsDefView) -> Precedence {
        def_order(a, b)
    }

    proof fn lemma_order_flip(a: AbsDefView, b: AbsDefView) {
        lemma_def_order_flip(a, b);
    }

    proof fn lemma_order_transitive(a: AbsDefView, b: AbsDefView, c: AbsDefView) {
        lemma_def_order_transitive(a, b, c);
    }

    fn compare(&self, other: &AbsDef) -> (r: Precedence) {
        order_defs(self, other)
    }
}

/// What an index says of a symbol.
#[derive(Debug, Clone, PartialEq, Eq)]
pub struct SymbolInformation {
    pub symbol: String,
    pub display_name: String,
    pub kind: Option<Kind>,
}

/// One place at which a symbol occurs: the symbol, the range of the place, and the roles
/// in which the symbol occurs there.
#[derive(Debug, Clone, PartialEq, Eq)]
pub struct Occurrence {
    pub symbol: String,
    pub range: Vec<i32>,
    pub symbol_roles: i32,
}

/// What an index holds of one source file.
#[derive(Debug, Clone, PartialEq, Eq)]
pub struct Document {
    pub relative_path: String,
    pub symbols: Vec<SymbolInformation>,
    pub occurrences: Vec<Occurrence>,
}

/// An index of a build.
#[derive(Debug, Clone, PartialEq, Eq)]
pub struct Index {
    pub documents: Vec<Document>,
}

/// The value of a `SymbolInformation`.
pub struct SymbolInformationView {
    pub symbol: Seq<char>,
    pub display_name: Seq<char>,
    pub kind: Option<Kind>,
}

/// The value of an `Occurrence`.
pub struct OccurrenceView {
    pub symbol: Seq<char>,
    pub range: Seq<i32>,
    pub symbol_roles: i32,
}

/// The value of a `Document`.
pub struct DocumentView {
    pub relative_path: Seq<char>,
    pub symbols: Seq<SymbolInformationView>,
    pub occurrences: Seq<OccurrenceView>,
}

impl View for SymbolInformation {
    type V = SymbolInformationView;

    open spec fn view(&self) -> SymbolInformationView {
        SymbolInformationView {
            symbol: self.symbol@,
            display_name: self.display_name@,
            kind: self.kind,
        }
    }
}

impl View for Occurrence {
    type V = OccurrenceView;

    open spec fn view(&self) -> OccurrenceView {
        OccurrenceView {
            symbol: self.symbol@,
            range: self.range@,
            symbol_roles: self.symbol_roles,
        }
    }
}

impl View for Document {
    type V = DocumentView;

    open spec fn view(&self) -> DocumentView {
        DocumentView {
            relative_path: self.relative_path@,
            symbols: Seq::new(self.symbols@.len(), |i: int| self.symbols@[i]@),
            occurrences: Seq::new(self.occurrences@.len(), |i: int| self.occurrences@[i]@),
        }
    }
}

impl View for Index {
    type V = Seq<DocumentView>;

    open spec fn view(&self) -> Seq<DocumentView> {
        Seq::new(self.documents@.len(), |i: int| self.documents@[i]@)
    }
}

/// The definitions of an index, each under its symbol.
pub type Definitions = Map<Seq<char>, AbsDefView>;

/// What the entries of `symbols` say of each symbol; of two entries for one symbol the
/// later counts.
pub open spec fn symbol_table(symbols: Seq<SymbolInformationView>) -> Map<
    Seq<char>,
    SymbolInformationView,
>
    decreases symbols.len(),
{
    if symbols.len() == 0 {
        Map::empty()
    } else {
        symbol_table(symbols.drop_last()).insert(symbols.last().symbol, symbols.last())
    }
}

/// The definition that an occurrence in a document gives: its span, and the name and
/// kind that the document has for the symbol.
pub open spec fn definition_at(doc: DocumentView, occurrence: OccurrenceView) -> Result<
    AbsDefView,
    Seq<char>,
> {
    match span_of_range(doc.relative_path, occurrence.range) {
        Err(e) => Err(e),
        Ok(span) => {
            let table = symbol_table(doc.symbols);
            if table.contains_key(occurrence.symbol) {
                Ok(
                    AbsDefView {
                        span,
                        name: Some(table[occurrence.symbol].display_name),
                        kind: table[occurrence.symbol].kind,
                    },
                )
            } else {
                Ok(AbsDefView { span, name: None, kind: None })
            }
        },
    }
}

/// The definitions after those of `occurrences`, which are occurrences of `doc`, were
/// added in order: each occurrence with the role of a definition puts its definition in
/// place of what was held for the symbol. The first range that cannot be read gives the
/// error.
pub open spec fn with_occurrences(
    defs: Definitions,
    doc: DocumentView,
    occurrences: Seq<OccurrenceView>,
) -> Result<Definitions, Seq<char>>
    decreases occurrences.len(),
{
    if occurrences.len() == 0 {
        Ok(defs)
    } else {
        match with_occurrences(defs, doc, occurrences.drop_last()) {
            Err(e) => Err(e),
            Ok(before) => if has_role(occurrences.last().symbol_roles, DEFINITION) {
                match definition_at(doc, occurrences.last()) {
                    Err(e) => Err(e),
                    Ok(d) => Ok(before.insert(occurrences.last().symbol, d)),
                }
            } else {
                Ok(before)
            },
        }
    }
}

/// The definitions after those of the documents `docs` were added in order.
pub open spec fn with_documents(defs: Definitions, docs: Seq<DocumentView>) -> Result<
    Definitions,
    Seq<char>,
>
    decreases docs.len(),
{
    if docs.len() == 0 {
        Ok(defs)
    } else {
        match with_documents(defs, docs.drop_last()) {
            Err(e) => Err(e),
            Ok(before) => with_occurrences(before, docs.last(), docs.last().occurrences),
        }
    }
}

/// Some occurrence of `occurrences` without the role of a definition is one of `symbol`.
pub open spec fn used_among(occurrences: Seq<OccurrenceView>, symbol: Seq<char>) -> bool {
    exists|j: int|
        0 <= j < occurrences.len() && !has_role(
            (#[trigger] occurrences[j]).symbol_roles,
            DEFINITION,
        ) && occurrences[j].symbol == symbol
}

/// Some occurrence of the documents that is no definition is one of `symbol`: an import
/// counts as a use as a read or a write does.
pub open spec fn used_in(docs: Seq<DocumentView>, symbol: Seq<char>) -> bool {
    exists|i: int| 0 <= i < docs.len() && used_among((#[trigger] docs[i]).occurrences, symbol)
}

/// The name starts with an underscore.
pub open spec fn excused(d: AbsDefView) -> bool {
    d.name is Some && has_prefix(d.name->Some_0, "_"@)
}

/// The value of an index with its definitions.
pub struct IndexView {
    pub documents: Seq<DocumentView>,
    pub definitions: Definitions,
}

impl IndexView {
    /// The symbol has a definition that is reported: nothing uses the symbol, and its
    /// name does not start with an underscore.
    pub open spec fn reports(self, symbol: Seq<char>) -> bool {
        self.definitions.contains_key(symbol) && !used_in(self.documents, symbol) && !excused(
            self.definitions[symbol],
        )
    }
}

/// The definitions of `entries` that `index` reports, in the order of the entries.
pub open spec fn finding_values(index: IndexView, entries: Seq<(String, AbsDef)>) -> Seq<
    AbsDefView,
>
    decreases entries.len(),
{
    if entries.len() == 0 {
        Seq::empty()
    } else if index.reports(entries.last().0@) {
        finding_values(index, entries.drop_last()).push(entries.last().1@)
    } else {
        finding_values(index, entries.drop_last())
    }
}

/// The values of the definitions of a vector.
pub open spec fn def_views(defs: Seq<AbsDef>) -> Seq<AbsDefView> {
    Seq::new(defs.len(), |i: int| defs[i]@)
}

/// The value of the outcome of building the definitions of an index.
pub open spec fn built(db: Result<AnalysisDb, StrErr>) -> Result<Definitions, Seq<char>> {
    match db {
        Ok(db) => Ok(db@.definitions),
        Err(e) => Err(e@),
    }
}

/// An index with its definitions.
pub struct AnalysisDb {
    options: Options,
    root: Option<String>,
    index: Index,
    definitions: SortedMap<String, AbsDef>,
}

impl View for AnalysisDb {
    type V = IndexView;

    closed spec fn view(&self) -> IndexView {
        IndexView {
            documents: self.index@,
            definitions: Map::new(
                |symbol: Seq<char>| self.definitions@.contains_key(symbol),
                |symbol: Seq<char>| self.definitions@[symbol]@,
            ),
        }
    }
}

/// The values of the definitions of a map.
spec fn definition_views(definitions: SortedMap<String, AbsDef>) -> Definitions {
    Map::new(
        |symbol: Seq<char>| definitions@.contains_key(symbol),
        |symbol: Seq<char>| definitions@[symbol]@,
    )
}

/// Adds the definitions of one document.
fn add_document(definitions: &mut SortedMap<String, AbsDef>, doc: &Document) -> (done: Result<
    (),
    StrErr,
>)
    requires
        old(definitions).wf(),
    ensures
        final(definitions).wf(),
        match done {
            Ok(_) => with_occurrences(definition_views(*old(definitions)), doc@, doc@.occurrences)
                == Ok::<Definitions, Seq<char>>(definition_views(*final(definitions))),
            Err(e) => with_occurrences(definition_views(*old(definitions)), doc@, doc@.occurrences)
                == Err::<Definitions, Seq<char>>(e@),
        },
{
    let ghost start = definition_views(*definitions);
    let mut sym_name_kinds: SortedMap<String, SymbolInformation> = SortedMap::new();
    let mut k: usize = 0;
    proof {
        assert(doc@.symbols.take(0) =~= Seq::empty());
        assert(symbol_views(sym_name_kinds) =~= symbol_table(doc@.symbols.take(0)));
    }
    while k < doc.symbols.len()
        invariant
            k <= doc.symbols@.len(),
            sym_name_kinds.wf(),
            symbol_views(sym_name_kinds) == symbol_table(doc@.symbols.take(k as int)),
        decreases doc.symbols.len() - k,
    {
        let ghost grown = doc@.symbols.take(k + 1);
        let ghost before = symbol_views(sym_name_kinds);
        let entry = &doc.symbols[k];
        let copy = SymbolInformation {
            symbol: entry.symbol.clone(),
            display_name: entry.display_name.clone(),
            kind: entry.kind,
        };
        sym_name_kinds.insert(entry.symbol.clone(), copy);
        proof {
            assert(grown.drop_last() =~= doc@.symbols.take(k as int));
            assert(grown.last() == entry@);
            assert(symbol_views(sym_name_kinds) =~= before.insert(entry@.symbol, entry@));
        }
        k += 1;
    }
    proof {
        assert(doc@.symbols.take(k as int) =~= doc@.symbols);
    }
    let mut i: usize = 0;
    proof {
        assert(doc@.occurrences.take(0) =~= Seq::empty());
    }
    while i < doc.occurrences.len()
        invariant
            i <= doc.occurrences@.len(),
            definitions.wf(),
            sym_name_kinds.wf(),
            start == definition_views(*old(definitions)),
            symbol_views(sym_name_kinds) == symbol_table(doc@.symbols),
            with_occurrences(start, doc@, doc@.occurrences.take(i as int)) == Ok::<
                Definitions,
                Seq<char>,
            >(definition_views(*definitions)),
        decreases doc.occurrences.len() - i,
    {
        let occ = &doc.occurrences[i];
        let ghost grown = doc@.occurrences.take(i + 1);
        let ghost before = definition_views(*definitions);
        proof {
            assert(grown.drop_last() =~= doc@.occurrences.take(i as int));
            assert(grown.last() == occ@);
        }
        if occ.symbol_roles & DEFINITION > 0 {
            let span = match Span::from_scip_range(doc.relative_path.as_str(), occ.range.as_slice()) {
                Ok(span) => span,
                Err(e) => {
                    proof {
                        assert(definition_at(doc@, occ@) == Err::<AbsDefView, Seq<char>>(e@));
                        assert(with_occurrences(start, doc@, grown) == Err::<
                            Definitions,
                            Seq<char>,
                        >(e@));
                        lemma_occurrences_fail_on(start, doc@, doc@.occurrences, i + 1);
                    }
                    return Err(e);
                },
            };
            let name_kind = sym_name_kinds.get(&occ.symbol);
            let abs_def = match name_kind {
                Some(info) => AbsDef {
                    span,
                    name: Some(info.display_name.clone()),
                    kind: info.kind,
                },
                None => AbsDef { span, name: None, kind: None },
            };
            proof {
                assert(symbol_views(sym_name_kinds).contains_key(occ@.symbol)
                    == sym_name_kinds@.contains_key(occ@.symbol));
                assert(definition_at(doc@, occ@) == Ok::<AbsDefView, Seq<char>>(abs_def@));
            }
            definitions.insert(occ.symbol.clone(), abs_def);
            proof {
                assert(definition_views(*definitions) =~= before.insert(occ@.symbol, abs_def@));
            }
        }
        i += 1;
    }
    proof {
        assert(doc@.occurrences.take(i as int) =~= doc@.occurrences);
    }
    Ok(())
}

/// The values of the entries of a table of symbols.
spec fn symbol_views(table: SortedMap<String, SymbolInformation>) -> Map<
    Seq<char>,
    SymbolInformationView,
> {
    Map::new(
        |symbol: Seq<char>| table@.contains_key(symbol),
        |symbol: Seq<char>| table@[symbol]@,
    )
}

/// An error in the first occurrences of a document is the error of the whole document.
pub proof fn lemma_occurrences_fail_on(
    defs: Definitions,
    doc: DocumentView,
    occurrences: Seq<OccurrenceView>,
    k: int,
)
    requires
        0 <= k <= occurrences.len(),
        with_occurrences(defs, doc, occurrences.take(k)) is Err,
    ensures
        with_occurrences(defs, doc, occurrences) == with_occurrences(defs, doc, occurrences.take(k)),
    decreases occurrences.len(),
{
    if k < occurrences.len() {
        assert(occurrences.drop_last().take(k) =~= occurrences.take(k));
        lemma_occurrences_fail_on(defs, doc, occurrences.drop_last(), k);
    } else {
        assert(occurrences.take(k) =~= occurrences);
    }
}

/// An error in the first documents of an index is the error of the whole index.
pub proof fn lemma_documents_fail_on(defs: Definitions, docs: Seq<DocumentView>, k: int)
    requires
        0 <= k <= docs.len(),
        with_documents(defs, docs.take(k)) is Err,
    ensures
        with_documents(defs, docs) == with_documents(defs, docs.take(k)),
    decreases docs.len(),
{
    if k < docs.len() {
        assert(docs.drop_last().take(k) =~= docs.take(k));
        lemma_documents_fail_on(defs, docs.drop_last(), k);
    } else {
        assert(docs.take(k) =~= docs);
    }
}

/// Marks the symbols that the occurrences of one document use.
fn mark_uses(used: &mut SortedMap<String, ()>, doc: &Document)
    requires
        old(used).wf(),
    ensures
        final(used).wf(),
        forall|symbol: Seq<char>|
            final(used)@.contains_key(symbol) <==> old(used)@.contains_key(symbol) || used_among(
                doc@.occurrences,
                symbol,
            ),
{
    let mut i: usize = 0;
    while i < doc.occurrences.len()
        invariant
            i <= doc.occurrences@.len(),
            used.wf(),
            forall|symbol: Seq<char>|
                used@.contains_key(symbol) <==> old(used)@.contains_key(symbol) || used_among(
                    doc@.occurrences.take(i as int),
                    symbol,
                ),
        decreases doc.occurrences.len() - i,
    {
        let occ = &doc.occurrences[i];
        let ghost seen = doc@.occurrences.take(i as int);
        let ghost grown = doc@.occurrences.take(i + 1);
        let ghost before = used@;
        let is_use = !(occ.symbol_roles & DEFINITION > 0);
        if is_use {
            // What is no definition counts as a use.
            used.insert(occ.symbol.clone(), ());
        }
        proof {
            assert(grown[i as int] == occ@);
            assert forall|symbol: Seq<char>|
                used_among(grown, symbol) <==> used_among(seen, symbol) || (is_use && occ@.symbol
                    == symbol) by {
                if used_among(grown, symbol) {
                    let j = choose|j: int|
                        0 <= j < grown.len() && !has_role(
                            (#[trigger] grown[j]).symbol_roles,
                            DEFINITION,
                        ) && grown[j].symbol == symbol;
                    if j < i {
                        assert(seen[j] == grown[j]);
                    }
                }
                if used_among(seen, symbol) {
                    let j = choose|j: int|
                        0 <= j < seen.len() && !has_role(
                            (#[trigger] seen[j]).symbol_roles,
                            DEFINITION,
                        ) && seen[j].symbol == symbol;
                    assert(grown[j] == seen[j]);
                }
            }
        }
        i += 1;
    }
    proof {
        assert(doc@.occurrences.take(i as int) =~= doc@.occurrences);
    }
}

impl AnalysisDb {
    /// The invariant of the index: `from_path` gives an index that meets it.
    pub closed spec fn wf(&self) -> bool {
        &&& self.definitions.wf()
        &&& with_documents(Map::empty(), self.index@) == Ok::<Definitions, Seq<char>>(
            self@.definitions,
        )
    }

    /// The definitions in the order of their symbols.
    pub closed spec fn listed(&self) -> Seq<(String, AbsDef)> {
        self.definitions.slots()
    }

    /// The list holds the definitions of the index, each symbol once.
    pub open spec fn listing_is_complete(&self) -> bool {
        &&& forall|i: int|
            0 <= i < self.listed().len() ==> self@.definitions.contains_key(
                (#[trigger] self.listed()[i]).0@,
            ) && self@.definitions[self.listed()[i].0@] == self.listed()[i].1@
        &&& forall|symbol: Seq<char>|
            self@.definitions.contains_key(symbol) ==> exists|i: int|
                0 <= i < self.listed().len() && (#[trigger] self.listed()[i]).0@ == symbol
        &&& forall|i: int, j: int|
            0 <= i < j < self.listed().len() ==> text_order(
                (#[trigger] self.listed()[i]).0@,
                (#[trigger] self.listed()[j]).0@,
            ) == Precedence::Before
    }

    /// The reported definitions in the order of their symbols.
    pub open spec fn findings(&self) -> Seq<AbsDefView> {
        finding_values(self@, self.listed())
    }

    /// The directory of the sources of the build, where it is known.
    pub closed spec fn root_dir(&self) -> Option<Seq<char>> {
        match self.root {
            Some(root) => Some(root@),
            None => None,
        }
    }

    /// What the caller asked of the analysis.
    pub closed spec fn asked(&self) -> Options {
        self.options
    }

    /// What the caller asked of the analysis.
    pub fn options(&self) -> (options: Options)
        ensures
            options == self.asked(),
    {
        self.options
    }

    /// The directory of the sources of the build, where it is known.
    pub fn root(&self) -> (root: Option<&str>)
        ensures
            match root {
                Some(root) => self.root_dir() == Some(root@),
                None => self.root_dir() is None,
            },
    {
        match &self.root {
            Some(root) => Some(root.as_str()),
            None => None,
        }
    }

    /// The index with its definitions: for each symbol, the last occurrence with the role
    /// of a definition, with the name and the kind that its document has for the symbol.
    pub fn from_path(root: Option<String>, options: Options, index: Index) -> (db: Result<
        AnalysisDb,
        StrErr,
    >)
        ensures
            built(db) == with_documents(Map::empty(), index@),
            match db {
                Ok(db) => db.wf() && db@.documents == index@ && db.asked() == options
                    && db.root_dir() == match root {
                    Some(root) => Some(root@),
                    None => None,
                },
                Err(_) => true,
            },
    {
        let mut definitions: SortedMap<String, AbsDef> = SortedMap::new();
        let mut i: usize = 0;
        proof {
            assert(index@.take(0) =~= Seq::empty());
            assert(definition_views(definitions) =~= Map::empty());
        }
        while i < index.documents.len()
            invariant
                i <= index.documents@.len(),
                definitions.wf(),
                with_documents(Map::empty(), index@.take(i as int)) == Ok::<Definitions, Seq<char>>(
                    definition_views(definitions),
                ),
            decreases index.documents.len() - i,
        {
            let ghost grown = index@.take(i + 1);
            proof {
                assert(grown.drop_last() =~= index@.take(i as int));
                assert(grown.last() == index.documents@[i as int]@);
            }
            match add_document(&mut definitions, &index.documents[i]) {
                Ok(_) => {},
                Err(e) => {
                    proof {
                        lemma_documents_fail_on(Map::empty(), index@, i + 1);
                    }
                    return Err(e);
                },
            }
            i += 1;
        }
        proof {
            assert(index@.take(i as int) =~= index@);
        }
        Ok(AnalysisDb { options, root, index, definitions })
    }

    /// The number of definitions.
    pub fn len(&self) -> (n: usize)
        requires
            self.wf(),
        ensures
            n == self@.definitions.dom().len(),
            n == self.listed().len(),
            self.listing_is_complete(),
    {
        let n = self.definitions.len();
        proof {
            let slots = self.definitions.slots();
            assert(self@.definitions.dom() =~= self.definitions@.dom());
            assert forall|i: int| 0 <= i < slots.len() implies self@.definitions.contains_key(
                (#[trigger] slots[i]).0@,
            ) && self@.definitions[slots[i].0@] == slots[i].1@ by {
                crate::sorted_map::lemma_map_of_entry(slots, i);
            }
            assert forall|symbol: Seq<char>|
                self@.definitions.contains_key(symbol) implies exists|i: int|
                0 <= i < slots.len() && (#[trigger] slots[i]).0@ == symbol by {
                assert(crate::sorted_map::has_key(slots, symbol));
                let i = choose|i: int| crate::sorted_map::holds_at(slots, symbol, i);
                assert(slots[i].0@ == symbol);
            }
        }
        n
    }

    /// The definitions that no occurrence uses and whose names do not start with an
    /// underscore, sorted by place, then by name, then by kind.
    pub fn get_unused_defs(&self) -> (report: Vec<AbsDef>)
        requires
            self.wf(),
        ensures
            sorted::<AbsDef>(def_views(report@)),
            def_views(report@).to_multiset() == self.findings().to_multiset(),
            forall|d: AbsDefView|
                def_views(report@).contains(d) <==> exists|symbol: Seq<char>|
                    self@.reports(symbol) && #[trigger] self@.definitions[symbol] == d,
    {
        let mut used_defs: SortedMap<String, ()> = SortedMap::new();
        let mut k: usize = 0;
        while k < self.index.documents.len()
            invariant
                k <= self.index.documents@.len(),
                used_defs.wf(),
                forall|symbol: Seq<char>|
                    used_defs@.contains_key(symbol) <==> used_in(self.index@.take(k as int), symbol),
            decreases self.index.documents.len() - k,
        {
            let ghost seen = self.index@.take(k as int);
            let ghost grown = self.index@.take(k + 1);
            let ghost before = used_defs@;
            let doc = &self.index.documents[k];
            mark_uses(&mut used_defs, doc);
            proof {
                assert(grown[k as int] == doc@);
                assert forall|symbol: Seq<char>|
                    used_defs@.contains_key(symbol) <==> used_in(grown, symbol) by {
                    if used_in(grown, symbol) {
                        let i = choose|i: int|
                            0 <= i < grown.len() && used_among(
                                (#[trigger] grown[i]).occurrences,
                                symbol,
                            );
                        if i < k {
                            assert(seen[i] == grown[i]);
                            assert(used_in(seen, symbol));
                        }
                    }
                    if used_in(seen, symbol) {
                        let i = choose|i: int|
                            0 <= i < seen.len() && used_among(
                                (#[trigger] seen[i]).occurrences,
                                symbol,
                            );
                        assert(grown[i] == seen[i]);
                    }
                    if used_among(doc@.occurrences, symbol) {
                        assert(used_among(grown[k as int].occurrences, symbol));
                    }
                }
            }
            k += 1;
        }
        proof {
            assert(self.index@.take(k as int) =~= self.index@);
        }
        let n = self.len();
        let ghost listed = self.listed();
        let mut found: Vec<AbsDef> = Vec::new();
        let mut i: usize = 0;
        proof {
            assert(listed.take(0) =~= Seq::empty());
            assert(def_views(found@) =~= Seq::empty());
        }
        while i < n
            invariant
                i <= n,
                n == listed.len(),
                listed == self.listed(),
                self.wf(),
                used_defs.wf(),
                self.listing_is_complete(),
                forall|symbol: Seq<char>|
                    used_defs@.contains_key(symbol) <==> used_in(self@.documents, symbol),
                def_views(found@) == finding_values(self@, listed.take(i as int)),
            decreases n - i,
        {
            let entry = self.definitions.slot(i);
            let ghost grown = listed.take(i + 1);
            let ghost before = def_views(found@);
            proof {
                assert(grown.drop_last() =~= listed.take(i as int));
                assert(grown.last() == *entry);
                assert(self@.definitions[entry.0@] == entry.1@);
            }
            let underscore = match &entry.1.name {
                // Anything that starts with an underscore may be unused.
                Some(name) => starts_with(name.as_str(), "_"),
                None => false,
            };
            if !used_defs.contains_key(&entry.0) && !underscore {
                found.push(entry.1.clone());
                proof {
                    assert(def_views(found@) =~= before.push(entry.1@));
                }
            }
            i += 1;
        }
        proof {
            assert(listed.take(i as int) =~= listed);
            lemma_findings_are_reported(self@, listed);
        }
        let ghost findings = def_views(found@);
        let report = sort(found);
        proof {
            broadcast use vstd::seq_lib::to_multiset_contains;

            assert(values_of(found@) =~= findings);
            assert(values_of(report@) =~= def_views(report@));
            assert forall|d: AbsDefView|
                def_views(report@).contains(d) <==> exists|symbol: Seq<char>|
                    self@.reports(symbol) && #[trigger] self@.definitions[symbol] == d by {
                assert(def_views(report@).contains(d) <==> def_views(report@).to_multiset().count(d)
                    > 0);
                assert(findings.contains(d) <==> findings.to_multiset().count(d) > 0);
                if findings.contains(d) {
                    let k = choose|k: int|
                        0 <= k < listed.len() && self@.reports((#[trigger] listed[k]).0@)
                            && listed[k].1@ == d;
                    assert(self@.definitions[listed[k].0@] == d);
                }
                if exists|symbol: Seq<char>|
                    self@.reports(symbol) && #[trigger] self@.definitions[symbol] == d {
                    let symbol = choose|symbol: Seq<char>|
                        self@.reports(symbol) && #[trigger] self@.definitions[symbol] == d;
                    let k = choose|k: int|
                        0 <= k < listed.len() && (#[trigger] listed[k]).0@ == symbol;
                    assert(self@.reports(listed[k].0@) && listed[k].1@ == d);
                }
            }
        }
        report
    }
}

/// The reported values of a list are the values of its entries whose symbols are
/// reported.
pub proof fn lemma_findings_are_reported(index: IndexView, entries: Seq<(String, AbsDef)>)
    ensures
        forall|d: AbsDefView|
            finding_values(index, entries).contains(d) <==> exists|k: int|
                0 <= k < entries.len() && index.reports((#[trigger] entries[k]).0@) && entries[k].1@
                    == d,
    decreases entries.len(),
{
    if entries.len() > 0 {
        let before = entries.drop_last();
        let last = entries.last();
        lemma_findings_are_reported(index, before);
        let values = finding_values(index, entries);
        let earlier = finding_values(index, before);
        assert forall|d: AbsDefView|
            values.contains(d) <==> exists|k: int|
                0 <= k < entries.len() && index.reports((#[trigger] entries[k]).0@) && entries[k].1@
                    == d by {
            if values.contains(d) {
                let a = choose|a: int| 0 <= a < values.len() && values[a] == d;
                if a < earlier.len() {
                    assert(earlier[a] == d);
                    assert(earlier.contains(d));
                    let k = choose|k: int|
                        0 <= k < before.len() && index.reports((#[trigger] before[k]).0@)
                            && before[k].1@ == d;
                    assert(entries[k] == before[k]);
                } else {
                    assert(entries[entries.len() - 1] == last);
                }
            }
            if exists|k: int|
                0 <= k < entries.len() && index.reports((#[trigger] entries[k]).0@) && entries[k].1@
                    == d {
                let k = choose|k: int|
                    0 <= k < entries.len() && index.reports((#[trigger] entries[k]).0@)
                        && entries[k].1@ == d;
                if k < before.len() {
                    assert(before[k] == entries[k]);
                    assert(earlier.contains(d));
                    let a = choose|a: int| 0 <= a < earlier.len() && earlier[a] == d;
                    assert(values[a] == d);
                } else {
                    assert(values[values.len() - 1] == d);
                }
            }
        }
    }
}

} // verus!
