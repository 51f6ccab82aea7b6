//! Index of the source ranges that belong to macro invocations and attributes. A finding
//! whose span lies inside such a range is not reported: the positions that the compiler
//! gives to expanded code cannot be relied on.

use crate::defs::CrateDisambiguator;
use crate::defs::Span;
use crate::defs::SpanView;
use crate::text::same_text;
use crate::StrErr;
use chashmap::CHashMap;
use intervaltree::IntervalTree;
use std::sync::Arc;
use vstd::multiset::Multiset;
use vstd::prelude::*;
use vstd::string::StringExecFns;

verus! {

/// A line and a column in a source file, both counted from one.
pub type Position = (usize, usize);

/// A range of source text: its first position and its last.
pub type MuteSpan = (Position, Position);

/// The ranges that are indexed for each unit and source file.
pub type MacroSpanIndex = Map<(CrateDisambiguator, Seq<char>), Set<MuteSpan>>;

/// A position as a tokenizer reports it: lines counted from one, columns from zero.
#[derive(Debug, Clone, Copy, PartialEq, Eq, Structural)]
pub struct LineColumn {
    pub line: usize,
    pub column: usize,
}

/// The range of one token, as a tokenizer reports it.
#[derive(Debug, Clone, Copy, PartialEq, Eq, Structural)]
pub struct TokenSpan {
    pub start: LineColumn,
    pub end: LineColumn,
}

/// A macro invocation or an attribute in a source file: the range of its name or path, and
/// the ranges of the tokens of its arguments or body.
#[derive(Debug, Clone, PartialEq, Eq)]
pub struct MacroSite {
    pub head: TokenSpan,
    pub tokens: Vec<TokenSpan>,
}

/// `a` comes before `b` in the file.
pub open spec fn pos_lt(a: Position, b: Position) -> bool {
    a.0 < b.0 || (a.0 == b.0 && a.1 < b.1)
}

/// `a` does not come after `b` in the file.
pub open spec fn pos_le(a: Position, b: Position) -> bool {
    a.0 < b.0 || (a.0 == b.0 && a.1 <= b.1)
}

/// The range `outer` encloses the range `inner` wholly: it starts no later and ends no
/// earlier. Ranges that only overlap do not enclose each other.
pub open spec fn covers(outer: MuteSpan, inner: MuteSpan) -> bool {
    pos_le(outer.0, inner.0) && pos_le(inner.1, outer.1)
}

/// The two ranges overlap, each taken without its last position.
pub open spec fn overlaps(a: MuteSpan, b: MuteSpan) -> bool {
    pos_lt(a.0, b.1) && pos_lt(b.0, a.1)
}

/// Some range of `spans` encloses `needle`.
pub open spec fn muted(spans: Set<MuteSpan>, needle: MuteSpan) -> bool {
    exists|r: MuteSpan| spans.contains(r) && covers(r, needle)
}

/// The range of a span as positions.
pub open spec fn needle_of(span: SpanView) -> MuteSpan {
    (
        (span.line_start as usize, span.column_start as usize),
        (span.line_end as usize, span.column_end as usize),
    )
}

/// The span lies inside a range that `index` holds for the unit and the span's file.
pub open spec fn in_macro(index: MacroSpanIndex, unit: CrateDisambiguator, span: SpanView) -> bool {
    index.contains_key((unit, span.file_name)) && muted(
        index[(unit, span.file_name)],
        needle_of(span),
    )
}

/// The position that a tokenizer's position stands for.
pub open spec fn position_of(v: LineColumn) -> Position {
    (v.line, (v.column + 1) as usize)
}

/// The range that a token's range stands for.
pub open spec fn range_of(t: TokenSpan) -> MuteSpan {
    (position_of(t.start), position_of(t.end))
}

/// The columns of the token's range can be counted from one.
pub open spec fn countable(t: TokenSpan) -> bool {
    t.start.column < usize::MAX && t.end.column < usize::MAX
}

/// `cover` is the smallest range that encloses `first` and the range of each token: it
/// starts where the earliest of them starts, and ends where the latest of them ends.
pub open spec fn is_cover(cover: MuteSpan, first: MuteSpan, tokens: Seq<TokenSpan>) -> bool {
    &&& pos_le(cover.0, first.0)
    &&& pos_le(first.1, cover.1)
    &&& forall|i: int| 0 <= i < tokens.len() ==> covers(cover, range_of(#[trigger] tokens[i]))
    &&& cover.0 == first.0 || exists|i: int|
        0 <= i < tokens.len() && cover.0 == range_of(#[trigger] tokens[i]).0
    &&& cover.1 == first.1 || exists|i: int|
        0 <= i < tokens.len() && cover.1 == range_of(#[trigger] tokens[i]).1
}

/// The range that a macro site covers: from its name or path to its last token.
pub open spec fn site_range(site: MacroSite) -> MuteSpan {
    choose|cover: MuteSpan| is_cover(cover, range_of(site.head), site.tokens@)
}

/// The range from the earliest start to the latest end among `first` and the tokens.
pub open spec fn widest(first: MuteSpan, tokens: Seq<TokenSpan>) -> MuteSpan
    decreases tokens.len(),
{
    if tokens.len() == 0 {
        first
    } else {
        let before = widest(first, tokens.drop_last());
        let last = range_of(tokens.last());
        (
            if pos_lt(last.0, before.0) {
                last.0
            } else {
                before.0
            },
            if pos_lt(before.1, last.1) {
                last.1
            } else {
                before.1
            },
        )
    }
}

/// The widest range is a cover.
pub proof fn lemma_widest_is_a_cover(first: MuteSpan, tokens: Seq<TokenSpan>)
    ensures
        is_cover(widest(first, tokens), first, tokens),
    decreases tokens.len(),
{
    if tokens.len() > 0 {
        let seen = tokens.drop_last();
        let before = widest(first, seen);
        let cover = widest(first, tokens);
        let end = tokens.len() - 1;
        lemma_widest_is_a_cover(first, seen);
        assert forall|i: int| 0 <= i < tokens.len() implies covers(
            cover,
            range_of(#[trigger] tokens[i]),
        ) by {
            if i < end {
                assert(tokens[i] == seen[i]);
                assert(covers(before, range_of(seen[i])));
            }
        }
        if cover.0 != first.0 && cover.0 != range_of(tokens[end]).0 {
            let j = choose|j: int| 0 <= j < seen.len() && before.0 == range_of(#[trigger] seen[j]).0;
            assert(tokens[j] == seen[j]);
        }
        if cover.1 != first.1 && cover.1 != range_of(tokens[end]).1 {
            let j = choose|j: int| 0 <= j < seen.len() && before.1 == range_of(#[trigger] seen[j]).1;
            assert(tokens[j] == seen[j]);
        }
    }
}

/// The range of a macro site is a cover of the site: it encloses the site's name or path
/// and every one of its tokens, and starts and ends with one of them.
pub proof fn lemma_site_range_is_a_cover(site: MacroSite)
    ensures
        is_cover(site_range(site), range_of(site.head), site.tokens@),
        site_range(site) == widest(range_of(site.head), site.tokens@),
{
    lemma_widest_is_a_cover(range_of(site.head), site.tokens@);
    lemma_cover_is_unique(
        site_range(site),
        widest(range_of(site.head), site.tokens@),
        range_of(site.head),
        site.tokens@,
    );
}

/// The range of a macro site whose name or path ends no earlier than it starts ends no
/// earlier than it starts, and encloses the name or path.
pub proof fn lemma_site_range_is_ordered(site: MacroSite)
    requires
        pos_le(range_of(site.head).0, range_of(site.head).1),
    ensures
        pos_le(site_range(site).0, site_range(site).1),
        covers(site_range(site), range_of(site.head)),
{
    lemma_site_range_is_a_cover(site);
}

/// A range has only one cover.
pub proof fn lemma_cover_is_unique(a: MuteSpan, b: MuteSpan, first: MuteSpan, tokens: Seq<TokenSpan>)
    requires
        is_cover(a, first, tokens),
        is_cover(b, first, tokens),
    ensures
        a == b,
{
}

/// A span that lies wholly inside an indexed range is muted.
pub proof fn lemma_nested_span_is_muted(spans: Set<MuteSpan>, range: MuteSpan, needle: MuteSpan)
    requires
        spans.contains(range),
        pos_le(range.0, needle.0),
        pos_le(needle.1, range.1),
    ensures
        muted(spans, needle),
{
    assert(covers(range, needle));
}

/// A span that reaches out of every indexed range is not muted, whether or not it
/// overlaps some of them.
pub proof fn lemma_overlap_does_not_mute(spans: Set<MuteSpan>, needle: MuteSpan)
    requires
        forall|range: MuteSpan|
            spans.contains(range) ==> pos_lt(needle.0, range.0) || pos_lt(range.1, needle.1),
    ensures
        !muted(spans, needle),
{
    assert forall|range: MuteSpan| spans.contains(range) implies !covers(range, needle) by {}
}

/// A range that encloses a span of one position or more overlaps it.
pub proof fn lemma_cover_overlaps(range: MuteSpan, needle: MuteSpan)
    requires
        covers(range, needle),
        pos_lt(needle.0, needle.1),
    ensures
        overlaps(range, needle),
{
}

/// Tells whether `a` does not come after `b`.
pub fn position_le(a: Position, b: Position) -> (r: bool)
    ensures
        r == pos_le(a, b),
{
    a.0 < b.0 || (a.0 == b.0 && a.1 <= b.1)
}

/// Tells whether `a` comes before `b`.
pub fn position_lt(a: Position, b: Position) -> (r: bool)
    ensures
        r == pos_lt(a, b),
{
    a.0 < b.0 || (a.0 == b.0 && a.1 < b.1)
}

/// The position of a tokenizer's position, with the column counted from one.
pub fn lc(v: LineColumn) -> (p: Position)
    requires
        v.column < usize::MAX,
    ensures
        p == position_of(v),
{
    (v.line, v.column + 1)
}

/// The smallest range that encloses `first` and every token of `it`.
pub fn span_min_max(first: MuteSpan, it: &Vec<TokenSpan>) -> (cover: MuteSpan)
    requires
        forall|i: int| 0 <= i < it@.len() ==> countable(#[trigger] it@[i]),
    ensures
        is_cover(cover, first, it@),
{
    let mut start: Position = first.0;
    let mut end: Position = first.1;
    let mut i: usize = 0;
    while i < it.len()
        invariant
            i <= it@.len(),
            forall|j: int| 0 <= j < it@.len() ==> countable(#[trigger] it@[j]),
            is_cover((start, end), first, it@.take(i as int)),
        decreases it.len() - i,
    {
        let ghost seen = it@.take(i as int);
        let ghost grown = it@.take(i + 1);
        let token = it[i];
        assert(countable(it@[i as int]));
        let token_start = lc(token.start);
        let token_end = lc(token.end);
        let ghost old_cover = (start, end);
        if position_lt(token_start, start) {
            start = token_start;
        }
        if position_lt(end, token_end) {
            end = token_end;
        }
        proof {
            let cover = (start, end);
            assert(grown[i as int] == token);
            assert forall|j: int| 0 <= j < grown.len() implies covers(
                cover,
                range_of(#[trigger] grown[j]),
            ) by {
                if j < i {
                    assert(grown[j] == seen[j]);
                    assert(covers(old_cover, range_of(seen[j])));
                }
            }
            if cover.0 != first.0 && cover.0 != token_start {
                let j = choose|j: int|
                    0 <= j < seen.len() && old_cover.0 == range_of(#[trigger] seen[j]).0;
                assert(grown[j] == seen[j]);
            }
            if cover.1 != first.1 && cover.1 != token_end {
                let j = choose|j: int|
                    0 <= j < seen.len() && old_cover.1 == range_of(#[trigger] seen[j]).1;
                assert(grown[j] == seen[j]);
            }
        }
        i += 1;
    }
    assert(it@.take(i as int) =~= it@);
    (start, end)
}

/// Tells whether an attribute of this name marks a function as a procedural macro.
pub fn is_proc_macro_attribute(name: &str) -> (r: bool)
    ensures
        r == (name@ == "proc_macro"@ || name@ == "proc_macro_derive"@ || name@
            == "proc_macro_attribute"@),
{
    same_text(name, "proc_macro") || same_text(name, "proc_macro_derive") || same_text(
        name,
        "proc_macro_attribute",
    )
}

/// The interval tree of `intervaltree`; what a tree holds is known through `tree_ranges`
/// only.
#[verifier::external_type_specification]
#[verifier::external_body]
#[verifier::reject_recursive_types(K)]
#[verifier::reject_recursive_types(V)]
pub struct ExIntervalTree<K, V>(IntervalTree<K, V>);

/// The hash map of `chashmap`; what a map holds is known through `cache_entries` only.
#[verifier::external_type_specification]
#[verifier::external_body]
#[verifier::reject_recursive_types(K)]
#[verifier::reject_recursive_types(V)]
pub struct ExCHashMap<K, V>(CHashMap<K, V>);

/// The ranges of the elements that an interval tree holds, each as often as the tree
/// holds it.
pub uninterp spec fn tree_ranges(tree: IntervalTree<Position, ()>) -> Multiset<MuteSpan>;

/// Builds an interval tree with `FromIterator::from_iter` of `intervaltree`: the tree
/// holds one element for each range of `ranges`, and nothing else.
#[verifier::external_body]
fn tree_from_ranges(ranges: Vec<MuteSpan>) -> (tree: IntervalTree<Position, ()>)
    ensures
        tree_ranges(tree) == ranges@.to_multiset(),
{
    ranges.into_iter().map(|r| (r.0..r.1, ())).collect()
}

/// Asks `IntervalTree::query` for the elements that overlap the range from `start` to
/// `end`: it gives each element of the tree whose range starts before `end` and ends
/// after `start`, and no other.
#[verifier::external_body]
fn tree_query(tree: &IntervalTree<Position, ()>, start: Position, end: Position) -> (found: Vec<
    MuteSpan,
>)
    ensures
        found@.to_multiset() == tree_ranges(*tree).filter(
            |r: MuteSpan| overlaps(r, (start, end)),
        ),
{
    tree.query(start..end).map(|el| (el.range.start, el.range.end)).collect()
}

/// Walks the tree with `IntervalTree::iter`, which gives every element of the tree once.
#[verifier::external_body]
fn tree_elements(tree: &IntervalTree<Position, ()>) -> (found: Vec<MuteSpan>)
    ensures
        found@.to_multiset() == tree_ranges(*tree),
{
    tree.iter().map(|el| (el.range.start, el.range.end)).collect()
}

/// The macro ranges of one source file.
pub struct MuteSpans {
    inner: IntervalTree<Position, ()>,
}

impl View for MuteSpans {
    type V = Set<MuteSpan>;

    closed spec fn view(&self) -> Set<MuteSpan> {
        tree_ranges(self.inner).dom()
    }
}

/// Tells whether some range of `found` encloses `needle`.
fn any_covers(found: &Vec<MuteSpan>, needle: MuteSpan) -> (r: bool)
    ensures
        r == exists|i: int| 0 <= i < found@.len() && covers(#[trigger] found@[i], needle),
{
    let mut i: usize = 0;
    while i < found.len()
        invariant
            i <= found@.len(),
            forall|j: int| 0 <= j < i ==> !covers(#[trigger] found@[j], needle),
        decreases found.len() - i,
    {
        let range = found[i];
        if position_le(range.0, needle.0) && position_le(needle.1, range.1) {
            return true;
        }
        i += 1;
    }
    false
}

/// The positions of a span.
fn needle(span: &Span) -> (n: MuteSpan)
    ensures
        n == needle_of(span@),
{
    (
        (span.line_start as usize, span.column_start as usize),
        (span.line_end as usize, span.column_end as usize),
    )
}

impl MuteSpans {
    /// Indexes the ranges of `iter`.
    pub fn from_iter(iter: Vec<MuteSpan>) -> (spans: MuteSpans)
        ensures
            spans@ == iter@.to_set(),
    {
        let ghost ranges = iter@;
        let spans = MuteSpans { inner: tree_from_ranges(iter) };
        proof {
            broadcast use vstd::seq_lib::to_multiset_contains;

            assert forall|r: MuteSpan| spans@.contains(r) <==> ranges.to_set().contains(r) by {
                assert(ranges.to_multiset().count(r) > 0 <==> ranges.contains(r));
            }
            assert(spans@ =~= ranges.to_set());
        }
        spans
    }

    /// The indexed ranges that overlap the span `needle`, each taken without its last
    /// position.
    pub fn search(&self, needle: &Span) -> (found: Vec<MuteSpan>)
        ensures
            forall|r: MuteSpan|
                #![trigger found@.contains(r)]
                #![trigger self@.contains(r)]
                found@.contains(r) <==> self@.contains(r) && overlaps(r, needle_of(needle@)),
    {
        let range = self::needle(needle);
        let found = tree_query(&self.inner, range.0, range.1);
        proof {
            broadcast use vstd::seq_lib::to_multiset_contains;
            broadcast use vstd::multiset::group_multiset_axioms;

            assert forall|r: MuteSpan|
                #![trigger found@.contains(r)]
                #![trigger self@.contains(r)]
                found@.contains(r) <==> self@.contains(r) && overlaps(r, range) by {
                assert(found@.to_multiset().count(r) > 0 <==> found@.contains(r));
            }
        }
        found
    }

    /// Every indexed range.
    pub fn all(&self) -> (found: Vec<MuteSpan>)
        ensures
            found@.to_set() == self@,
    {
        let found = tree_elements(&self.inner);
        proof {
            broadcast use vstd::seq_lib::to_multiset_contains;

            assert forall|r: MuteSpan| found@.to_set().contains(r) <==> self@.contains(r) by {
                assert(found@.to_multiset().count(r) > 0 <==> found@.contains(r));
            }
            assert(found@.to_set() =~= self@);
        }
        found
    }
}

/// Tells whether the span lies inside one of the ranges: whether a range starts no later
/// and ends no earlier than the span does.
pub fn in_mute_spans(mute_spans: &MuteSpans, needle_span: &Span) -> (inside: bool)
    ensures
        inside == muted(mute_spans@, needle_of(needle_span@)),
{
    let range = needle(needle_span);
    // A range that encloses a span of one position or more overlaps it; a span that ends
    // where it starts, or before, may lie in a range that no query for it finds.
    let found = if position_lt(range.0, range.1) {
        mute_spans.search(needle_span)
    } else {
        mute_spans.all()
    };
    let inside = any_covers(&found, range);
    proof {
        if inside {
            let i = choose|i: int| 0 <= i < found@.len() && covers(#[trigger] found@[i], range);
            assert(found@.contains(found@[i]));
            assert(mute_spans@.contains(found@[i]));
        }
        if muted(mute_spans@, range) {
            let r = choose|r: MuteSpan| mute_spans@.contains(r) && covers(r, range);
            if pos_lt(range.0, range.1) {
                lemma_cover_overlaps(r, range);
            }
            assert(found@.contains(r));
            let i = choose|i: int| 0 <= i < found@.len() && found@[i] == r;
            assert(covers(found@[i], range));
        }
    }
    inside
}

/// The ranges of the macro sites of one source file, indexed.
pub fn mute_spans_for_file(sites: &Vec<MacroSite>) -> (spans: MuteSpans)
    requires
        forall|i: int|
            0 <= i < sites@.len() ==> countable((#[trigger] sites@[i]).head) && forall|j: int|
                0 <= j < sites@[i].tokens@.len() ==> countable(#[trigger] sites@[i].tokens@[j]),
    ensures
        forall|r: MuteSpan|
            spans@.contains(r) <==> exists|i: int|
                0 <= i < sites@.len() && r == site_range(#[trigger] sites@[i]),
{
    let mut mute_spans_vec: Vec<MuteSpan> = Vec::new();
    let mut i: usize = 0;
    while i < sites.len()
        invariant
            i <= sites@.len(),
            mute_spans_vec@.len() == i,
            forall|k: int|
                0 <= k < sites@.len() ==> countable((#[trigger] sites@[k]).head) && forall|j: int|
                    0 <= j < sites@[k].tokens@.len() ==> countable(
                        #[trigger] sites@[k].tokens@[j],
                    ),
            forall|k: int| 0 <= k < i ==> #[trigger] mute_spans_vec@[k] == site_range(sites@[k]),
        decreases sites.len() - i,
    {
        let site = &sites[i];
        assert(countable(sites@[i as int].head));
        let start = lc(site.head.start);
        let end = lc(site.head.end);
        let cover = span_min_max((start, end), &site.tokens);
        proof {
            lemma_cover_is_unique(cover, site_range(*site), range_of(site.head), site.tokens@);
        }
        mute_spans_vec.push(cover);
        i += 1;
    }
    let ghost ranges = mute_spans_vec@;
    let spans = MuteSpans::from_iter(mute_spans_vec);
    proof {
        assert forall|r: MuteSpan| spans@.contains(r) <==> exists|i: int|
            0 <= i < sites@.len() && r == site_range(#[trigger] sites@[i]) by {
            if spans@.contains(r) {
                let k = choose|k: int| 0 <= k < ranges.len() && ranges[k] == r;
                assert(r == site_range(sites@[k]));
            }
            if exists|i: int| 0 <= i < sites@.len() && r == site_range(#[trigger] sites@[i]) {
                let k = choose|k: int| 0 <= k < sites@.len() && r == site_range(#[trigger] sites@[k]);
                assert(ranges[k] == r);
            }
        }
    }
    spans
}

/// What a cache holds: ranges, by the numbers of a unit and a file name.
pub type CacheEntries = Map<((u64, u64), Seq<char>), Set<MuteSpan>>;

/// The entries of a cache: for each unit and file name that it has a value for, the
/// ranges of that value.
pub uninterp spec fn cache_entries(
    cache: CHashMap<((u64, u64), String), Arc<MuteSpans>>,
) -> CacheEntries;

/// Makes a cache with `CHashMap::new`, which has no entries.
#[verifier::external_body]
fn cache_new() -> (cache: CHashMap<((u64, u64), String), Arc<MuteSpans>>)
    ensures
        cache_entries(cache) == CacheEntries::empty(),
{
    CHashMap::new()
}

/// Looks a key up with `CHashMap::get`: it gives the value that the cache holds for the
/// key, if it holds one.
#[verifier::external_body]
fn cache_get(
    cache: &CHashMap<((u64, u64), String), Arc<MuteSpans>>,
    unit: (u64, u64),
    file_name: &str,
) -> (found: Option<Arc<MuteSpans>>)
    ensures
        match found {
            Some(spans) => cache_entries(*cache).contains_key((unit, file_name@)) && spans@
                == cache_entries(*cache)[(unit, file_name@)],
            None => !cache_entries(*cache).contains_key((unit, file_name@)),
        },
{
    cache.get(&(unit, file_name.to_owned())).map(|guard| Arc::clone(&guard))
}

/// Stores a value with `CHashMap::insert`, in place of what the cache held for the key.
#[verifier::external_body]
fn cache_insert(cache: &mut CHashMap<((u64, u64), String), Arc<MuteSpans>>, unit: (u64, u64), file_name: &str, spans: Arc<MuteSpans>)
    ensures
        cache_entries(*final(cache)) == cache_entries(*old(cache)).insert(
            (unit, file_name@),
            spans@,
        ),
{
    cache.insert((unit, file_name.to_owned()), spans);
}

/// The macro ranges of the source files of a build, by unit and file name.
pub struct MuteSpansCache {
    prefix: String,
    cache: CHashMap<((u64, u64), String), Arc<MuteSpans>>,
}

impl View for MuteSpansCache {
    type V = MacroSpanIndex;

    closed spec fn view(&self) -> MacroSpanIndex {
        Map::new(
            |key: (CrateDisambiguator, Seq<char>)|
                cache_entries(self.cache).contains_key(((key.0.0, key.0.1), key.1)),
            |key: (CrateDisambiguator, Seq<char>)|
                cache_entries(self.cache)[((key.0.0, key.0.1), key.1)],
        )
    }
}

impl MuteSpansCache {
    /// The directory under which the source files lie.
    pub closed spec fn root(&self) -> Seq<char> {
        self.prefix@
    }

    /// An index without entries, for source files under `prefix`.
    pub fn new(prefix: &str) -> (cache: MuteSpansCache)
        ensures
            cache@ == MacroSpanIndex::empty(),
            cache.root() == prefix@,
    {
        let cache = MuteSpansCache { prefix: String::from_str(prefix), cache: cache_new() };
        assert(cache@ =~= MacroSpanIndex::empty());
        cache
    }

    /// The directory under which the source files lie.
    pub fn prefix(&self) -> (prefix: &str)
        ensures
            prefix@ == self.root(),
    {
        self.prefix.as_str()
    }

    /// Tells whether the ranges of this file of this unit are indexed.
    pub fn is_indexed(&self, crate_id: CrateDisambiguator, file_name: &str) -> (indexed: bool)
        ensures
            indexed == self@.contains_key((crate_id, file_name@)),
    {
        cache_get(&self.cache, (crate_id.0, crate_id.1), file_name).is_some()
    }

    /// Stores the ranges of this file of this unit, in place of what was stored for it.
    pub fn insert(&mut self, crate_id: CrateDisambiguator, file_name: &str, mute_spans: MuteSpans)
        ensures
            final(self)@ == old(self)@.insert((crate_id, file_name@), mute_spans@),
            final(self).root() == old(self).root(),
    {
        cache_insert(&mut self.cache, (crate_id.0, crate_id.1), file_name, Arc::new(mute_spans));
        proof {
            let key = (crate_id, file_name@);
            assert forall|k: (CrateDisambiguator, Seq<char>)|
                final(self)@.contains_key(k) <==> old(self)@.insert(
                    key,
                    mute_spans@,
                ).contains_key(k) by {
                if k != key {
                    assert(((k.0.0, k.0.1), k.1) != ((crate_id.0, crate_id.1), file_name@));
                }
            }
            assert(final(self)@ =~= old(self)@.insert(key, mute_spans@));
        }
    }

    /// Tells whether the span lies inside a macro range of its file. A file whose ranges
    /// are not indexed, because it could not be read or was never asked for, counts as a
    /// file without macros: the answer is `false`, and never an error. `is_indexed` tells
    /// the two cases apart.
    pub fn is_in_macro(&self, crate_id: CrateDisambiguator, needle_span: &Span) -> (inside: Result<
        bool,
        StrErr,
    >)
        ensures
            inside == Ok::<bool, StrErr>(in_macro(self@, crate_id, needle_span@)),
    {
        match cache_get(&self.cache, (crate_id.0, crate_id.1), needle_span.file_name.as_str()) {
            Some(mute_spans) => Ok(in_mute_spans(&mute_spans, needle_span)),
            None => Ok(false),
        }
    }
}

} // verus!
