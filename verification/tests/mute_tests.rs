use warnalyzer::defs::CrateDisambiguator;
use warnalyzer::defs::Span;
use warnalyzer::mute::in_mute_spans;
use warnalyzer::mute::is_proc_macro_attribute;
use warnalyzer::mute::lc;
use warnalyzer::mute::mute_spans_for_file;
use warnalyzer::mute::position_le;
use warnalyzer::mute::position_lt;
use warnalyzer::mute::span_min_max;
use warnalyzer::mute::LineColumn;
use warnalyzer::mute::MacroSite;
use warnalyzer::mute::MuteSpan;
use warnalyzer::mute::MuteSpans;
use warnalyzer::mute::MuteSpansCache;
use warnalyzer::mute::TokenSpan;

fn span(file: &str, l1: u32, c1: u32, l2: u32, c2: u32) -> Span {
    Span { file_name: file.to_string(), line_start: l1, line_end: l2, column_start: c1, column_end: c2 }
}

fn token(l1: usize, c1: usize, l2: usize, c2: usize) -> TokenSpan {
    TokenSpan {
        start: LineColumn { line: l1, column: c1 },
        end: LineColumn { line: l2, column: c2 },
    }
}

fn sorted(mut v: Vec<MuteSpan>) -> Vec<MuteSpan> {
    v.sort();
    v
}

#[test]
fn positions_are_ordered_by_line_then_column() {
    assert!(position_lt((1, 9), (2, 1)));
    assert!(position_lt((2, 1), (2, 2)));
    assert!(!position_lt((2, 2), (2, 2)));
    assert!(!position_lt((3, 1), (2, 2)));
    assert!(position_le((2, 2), (2, 2)));
    assert!(position_le((1, 9), (2, 1)));
    assert!(!position_le((2, 3), (2, 2)));
}

#[test]
fn lc_counts_columns_from_one() {
    assert_eq!(lc(LineColumn { line: 20, column: 0 }), (20, 1));
    assert_eq!(lc(LineColumn { line: 1, column: 29 }), (1, 30));
}

#[test]
fn span_min_max_covers_every_token() {
    let first = ((20, 5), (20, 9));
    assert_eq!(span_min_max(first, &vec![]), first);
    let tokens = vec![token(20, 10, 20, 12), token(21, 0, 22, 3), token(20, 13, 20, 20)];
    assert_eq!(span_min_max(first, &tokens), ((20, 5), (22, 4)));
    let earlier = vec![token(19, 7, 19, 9)];
    assert_eq!(span_min_max(first, &earlier), ((19, 8), (20, 9)));
}

#[test]
fn proc_macro_attributes_are_recognised() {
    assert!(is_proc_macro_attribute("proc_macro"));
    assert!(is_proc_macro_attribute("proc_macro_derive"));
    assert!(is_proc_macro_attribute("proc_macro_attribute"));
    assert!(!is_proc_macro_attribute("proc_macros"));
    assert!(!is_proc_macro_attribute("derive"));
    assert!(!is_proc_macro_attribute(""));
}

#[test]
fn an_index_holds_the_ranges_it_was_built_from() {
    let ranges = vec![((20, 1), (20, 30)), ((3, 1), (5, 2)), ((40, 4), (40, 9))];
    let spans = MuteSpans::from_iter(ranges.clone());
    assert_eq!(sorted(spans.all()), sorted(ranges));
    assert!(MuteSpans::from_iter(vec![]).all().is_empty());
}

#[test]
fn search_gives_the_ranges_that_overlap() {
    let spans = MuteSpans::from_iter(vec![((20, 1), (20, 30)), ((3, 1), (5, 2)), ((40, 4), (40, 9))]);
    assert_eq!(spans.search(&span("b.rs", 20, 5, 20, 12)), vec![((20, 1), (20, 30))]);
    assert_eq!(spans.search(&span("b.rs", 4, 1, 4, 3)), vec![((3, 1), (5, 2))]);
    assert_eq!(
        sorted(spans.search(&span("b.rs", 5, 1, 20, 2))),
        vec![((3, 1), (5, 2)), ((20, 1), (20, 30))]
    );
    assert!(spans.search(&span("b.rs", 6, 1, 7, 1)).is_empty());
    assert!(spans.search(&span("b.rs", 20, 30, 21, 1)).is_empty());
}

#[test]
fn a_nested_span_is_in_a_macro() {
    let spans = MuteSpans::from_iter(vec![((20, 1), (20, 30))]);
    assert!(in_mute_spans(&spans, &span("b.rs", 20, 1, 20, 12)));
    assert!(in_mute_spans(&spans, &span("b.rs", 20, 5, 20, 30)));
    assert!(in_mute_spans(&spans, &span("b.rs", 20, 1, 20, 30)));
}

#[test]
fn an_overlapping_span_is_not_in_a_macro() {
    let spans = MuteSpans::from_iter(vec![((20, 1), (20, 30))]);
    assert!(!in_mute_spans(&spans, &span("b.rs", 20, 20, 20, 40)));
    assert!(!in_mute_spans(&spans, &span("b.rs", 19, 1, 20, 12)));
    assert!(!in_mute_spans(&spans, &span("b.rs", 19, 1, 21, 1)));
    assert!(!in_mute_spans(&spans, &span("b.rs", 30, 1, 30, 5)));
    assert!(!in_mute_spans(&MuteSpans::from_iter(vec![]), &span("b.rs", 20, 1, 20, 12)));
}

#[test]
fn a_span_of_no_length_is_in_the_range_that_holds_it() {
    let spans = MuteSpans::from_iter(vec![((20, 1), (20, 30))]);
    assert!(in_mute_spans(&spans, &span("b.rs", 20, 1, 20, 1)));
    assert!(in_mute_spans(&spans, &span("b.rs", 20, 30, 20, 30)));
    assert!(in_mute_spans(&spans, &span("b.rs", 20, 7, 20, 7)));
    assert!(!in_mute_spans(&spans, &span("b.rs", 20, 31, 20, 31)));
    assert!(!in_mute_spans(&spans, &span("b.rs", 19, 9, 19, 9)));
}

#[test]
fn the_ranges_of_a_file_cover_each_macro_site() {
    let sites = vec![
        MacroSite { head: token(20, 0, 20, 7), tokens: vec![token(20, 9, 20, 12), token(20, 14, 20, 29)] },
        MacroSite { head: token(3, 4, 3, 10), tokens: vec![] },
    ];
    let spans = mute_spans_for_file(&sites);
    assert_eq!(sorted(spans.all()), vec![((3, 5), (3, 11)), ((20, 1), (20, 30))]);
    assert!(in_mute_spans(&spans, &span("b.rs", 20, 1, 20, 12)));
    assert!(!in_mute_spans(&spans, &span("b.rs", 20, 1, 20, 31)));
}

#[test]
fn a_new_cache_holds_nothing() {
    let cache = MuteSpansCache::new("/home/u/project");
    assert_eq!(cache.prefix(), "/home/u/project");
    assert!(!cache.is_indexed(CrateDisambiguator(1, 1), "b.rs"));
}

#[test]
fn a_file_that_is_not_indexed_counts_as_a_file_without_macros() {
    let mut cache = MuteSpansCache::new("/home/u/project");
    let asked = cache.is_in_macro(CrateDisambiguator(1, 1), &span("b.rs", 20, 1, 20, 12));
    assert_eq!(asked, Ok(false));
    assert!(!cache.is_indexed(CrateDisambiguator(1, 1), "b.rs"));
    cache.insert(CrateDisambiguator(1, 1), "c.rs", MuteSpans::from_iter(vec![((20, 1), (20, 30))]));
    assert_eq!(cache.is_in_macro(CrateDisambiguator(1, 1), &span("b.rs", 20, 1, 20, 12)), Ok(false));
    assert_eq!(cache.is_in_macro(CrateDisambiguator(2, 1), &span("c.rs", 20, 1, 20, 12)), Ok(false));
    assert_eq!(cache.is_in_macro(CrateDisambiguator(1, 1), &span("c.rs", 20, 1, 20, 12)), Ok(true));
    assert!(!cache.is_indexed(CrateDisambiguator(1, 1), "b.rs"));
}

#[test]
fn a_cache_answers_for_the_files_it_holds() {
    let mut cache = MuteSpansCache::new("");
    let unit = CrateDisambiguator(1, 1);
    cache.insert(unit, "b.rs", MuteSpans::from_iter(vec![((20, 1), (20, 30))]));
    assert!(cache.is_indexed(unit, "b.rs"));
    assert!(!cache.is_indexed(unit, "c.rs"));
    assert!(!cache.is_indexed(CrateDisambiguator(1, 2), "b.rs"));
    assert_eq!(cache.is_in_macro(unit, &span("b.rs", 20, 1, 20, 12)).unwrap(), true);
    assert_eq!(cache.is_in_macro(unit, &span("b.rs", 20, 20, 20, 40)).unwrap(), false);
    assert_eq!(cache.is_in_macro(unit, &span("c.rs", 20, 1, 20, 12)), Ok(false));
    assert_eq!(cache.is_in_macro(CrateDisambiguator(2, 2), &span("b.rs", 20, 1, 20, 12)), Ok(false));
}

#[test]
fn the_last_ranges_of_a_file_win() {
    let mut cache = MuteSpansCache::new("");
    let unit = CrateDisambiguator(1, 1);
    cache.insert(unit, "b.rs", MuteSpans::from_iter(vec![((20, 1), (20, 30))]));
    cache.insert(unit, "c.rs", MuteSpans::from_iter(vec![((1, 1), (9, 9))]));
    cache.insert(unit, "b.rs", MuteSpans::from_iter(vec![((50, 1), (50, 30))]));
    assert_eq!(cache.is_in_macro(unit, &span("b.rs", 20, 1, 20, 12)).unwrap(), false);
    assert_eq!(cache.is_in_macro(unit, &span("b.rs", 50, 2, 50, 12)).unwrap(), true);
    assert_eq!(cache.is_in_macro(unit, &span("c.rs", 2, 2, 3, 3)).unwrap(), true);
}
