use warnalyzer::db::AnalysisDb;
use warnalyzer::db::SiblingUnit;
use warnalyzer::defs::AbsDef;
use warnalyzer::defs::Compilation;
use warnalyzer::defs::CrateDisambiguator;
use warnalyzer::defs::CrateId;
use warnalyzer::defs::CrateSaveAnalysis;
use warnalyzer::defs::CrateSaveAnalysisMetadata;
use warnalyzer::defs::Def;
use warnalyzer::defs::ExternalCrate;
use warnalyzer::defs::ItemId;
use warnalyzer::defs::Prelude;
use warnalyzer::defs::Ref;
use warnalyzer::defs::Span;
use warnalyzer::detect::Verdict;
use warnalyzer::mute::MuteSpans;
use warnalyzer::mute::MuteSpansCache;
use warnalyzer::report::order_defs;
use warnalyzer::order::Precedence;

fn unit(a: u64, b: u64) -> CrateDisambiguator {
    CrateDisambiguator(a, b)
}

fn prelude(own: CrateDisambiguator, deps: &[CrateDisambiguator]) -> Prelude {
    let mut external_crates = Vec::new();
    for (i, d) in deps.iter().enumerate() {
        external_crates.push(ExternalCrate {
            num: (i + 1) as u32,
            id: CrateId { name: "dep".to_string(), disambiguator: *d },
        });
    }
    Prelude { crate_id: CrateId { name: "unit".to_string(), disambiguator: own }, external_crates }
}

fn span(file: &str, l1: u32, c1: u32, l2: u32, c2: u32) -> Span {
    Span { file_name: file.to_string(), line_start: l1, line_end: l2, column_start: c1, column_end: c2 }
}

fn def(kind: &str, name: &str, index: u32, s: Span) -> Def {
    Def {
        kind: kind.to_string(),
        name: name.to_string(),
        id: ItemId { krate: 0, index },
        span: s,
        parent: None,
        decl_id: None,
    }
}

fn reference(krate: u32, index: u32) -> Ref {
    Ref { kind: "Function".to_string(), ref_id: ItemId { krate, index }, span: span("use.rs", 1, 1, 1, 4) }
}

fn graph(own: CrateDisambiguator, deps: &[CrateDisambiguator], defs: Vec<Def>, refs: Vec<Ref>) -> AnalysisDb {
    let mut db = AnalysisDb::new(None);
    db.ingest(&CrateSaveAnalysis { prelude: prelude(own, deps), defs, refs }).unwrap();
    db
}

fn lines(report: &Vec<AbsDef>) -> Vec<String> {
    report.iter().map(|d| d.report_line()).collect()
}

fn verdict_of(db: &AnalysisDb, cache: &MuteSpansCache, slot: usize) -> Verdict {
    db.verdict(db.def_at(slot), cache)
}

#[test]
fn an_unreferenced_function_is_reported() {
    let db = graph(unit(1, 1), &[], vec![def("Function", "foo", 1, span("a.rs", 10, 1, 10, 9))], vec![]);
    let cache = MuteSpansCache::new("");
    let report = db.get_unused_defs(&cache);
    assert_eq!(lines(&report), vec!["a.rs:10:1: unused Function 'foo'".to_string()]);
    assert_eq!(report[0].span.display_str(), "a.rs:10:1");
    assert_eq!(verdict_of(&db, &cache, 0), Verdict::Unused);
}

#[test]
fn a_function_that_another_unit_uses_is_not_reported() {
    let leaf = CrateSaveAnalysisMetadata {
        prelude: prelude(unit(2, 2), &[unit(1, 1)]),
        compilation: Compilation { directory: "/home/u/project/app".to_string() },
    };
    let lib = SiblingUnit {
        metadata: CrateSaveAnalysisMetadata {
            prelude: prelude(unit(1, 1), &[]),
            compilation: Compilation { directory: "/home/u/project/lib".to_string() },
        },
        analysis: CrateSaveAnalysis {
            prelude: prelude(unit(1, 1), &[]),
            defs: vec![def("Function", "foo", 1, span("a.rs", 10, 1, 10, 9))],
            refs: vec![],
        },
    };
    let app = SiblingUnit {
        metadata: leaf.clone(),
        analysis: CrateSaveAnalysis {
            prelude: prelude(unit(2, 2), &[unit(1, 1)]),
            defs: vec![],
            refs: vec![reference(1, 1)],
        },
    };
    let db = AnalysisDb::from_path(None, &leaf, &vec![lib, app]).unwrap();
    let cache = MuteSpansCache::new("");
    assert!(db.get_unused_defs(&cache).is_empty());
    assert_eq!(verdict_of(&db, &cache, 0), Verdict::Used);
}

#[test]
fn the_underscore_rule_comes_before_the_rule_for_locals() {
    let db = graph(unit(1, 1), &[], vec![def("Local", "_tmp", 1, span("a.rs", 3, 9, 3, 13))], vec![]);
    let cache = MuteSpansCache::new("");
    assert!(db.get_unused_defs(&cache).is_empty());
    assert_eq!(verdict_of(&db, &cache, 0), Verdict::Underscore);
    assert_eq!(db.early_verdict(db.def_at(0)), Some(Verdict::Underscore));
}

#[test]
fn a_tuple_variant_is_not_reported() {
    let db = graph(unit(1, 1), &[], vec![def("TupleVariant", "V", 1, span("a.rs", 3, 5, 3, 6))], vec![]);
    let cache = MuteSpansCache::new("");
    assert!(db.get_unused_defs(&cache).is_empty());
    assert_eq!(verdict_of(&db, &cache, 0), Verdict::TupleVariant);
}

#[test]
fn a_definition_inside_a_macro_range_is_not_reported() {
    let db = graph(unit(1, 1), &[], vec![def("Function", "generated_fn", 1, span("b.rs", 20, 1, 20, 12))], vec![]);
    let mut cache = MuteSpansCache::new("");
    assert_eq!(db.get_unused_defs(&cache).len(), 1);
    cache.insert(unit(1, 1), "b.rs", MuteSpans::from_iter(vec![((20, 1), (20, 30))]));
    assert!(db.get_unused_defs(&cache).is_empty());
    assert_eq!(verdict_of(&db, &cache, 0), Verdict::Macro);
    assert_eq!(db.early_verdict(db.def_at(0)), None);
}

#[test]
fn a_definition_that_overlaps_a_macro_range_is_reported() {
    let db = graph(unit(1, 1), &[], vec![def("Function", "f", 1, span("b.rs", 20, 20, 20, 40))], vec![]);
    let mut cache = MuteSpansCache::new("");
    cache.insert(unit(1, 1), "b.rs", MuteSpans::from_iter(vec![((20, 1), (20, 30))]));
    assert_eq!(lines(&db.get_unused_defs(&cache)), vec!["b.rs:20:20: unused Function 'f'".to_string()]);
}

#[test]
fn the_macro_ranges_of_another_unit_do_not_count() {
    let db = graph(unit(1, 1), &[], vec![def("Function", "f", 1, span("b.rs", 20, 1, 20, 12))], vec![]);
    let mut cache = MuteSpansCache::new("");
    cache.insert(unit(2, 2), "b.rs", MuteSpans::from_iter(vec![((20, 1), (20, 30))]));
    cache.insert(unit(1, 1), "c.rs", MuteSpans::from_iter(vec![((20, 1), (20, 30))]));
    assert_eq!(db.get_unused_defs(&cache).len(), 1);
}

#[test]
fn locals_and_receivers_are_not_reported() {
    let db = graph(
        unit(1, 1),
        &[],
        vec![
            def("Local", "self", 1, span("a.rs", 3, 9, 3, 13)),
            def("Local", "x", 2, span("a.rs", 4, 9, 4, 10)),
            def("Function", "self", 3, span("a.rs", 5, 4, 5, 8)),
        ],
        vec![],
    );
    let cache = MuteSpansCache::new("");
    assert_eq!(verdict_of(&db, &cache, 0), Verdict::SelfReceiver);
    assert_eq!(verdict_of(&db, &cache, 1), Verdict::Local);
    assert_eq!(verdict_of(&db, &cache, 2), Verdict::Unused);
    assert_eq!(lines(&db.get_unused_defs(&cache)), vec!["a.rs:5:4: unused Function 'self'".to_string()]);
}

#[test]
fn an_implementation_follows_the_item_of_its_trait() {
    let mut used_impl = def("Method", "run", 2, span("a.rs", 9, 8, 9, 11));
    used_impl.decl_id = Some(ItemId { krate: 0, index: 1 });
    let mut foreign_impl = def("Method", "fmt", 3, span("a.rs", 12, 8, 12, 11));
    foreign_impl.decl_id = Some(ItemId { krate: 1, index: 40 });
    let mut unused_impl = def("Method", "stop", 5, span("a.rs", 15, 8, 15, 12));
    unused_impl.decl_id = Some(ItemId { krate: 0, index: 4 });
    let db = graph(
        unit(1, 1),
        &[unit(7, 7)],
        vec![
            def("Method", "run", 1, span("a.rs", 2, 8, 2, 11)),
            used_impl,
            foreign_impl,
            def("Method", "stop", 4, span("a.rs", 3, 8, 3, 12)),
            unused_impl,
        ],
        vec![reference(0, 1)],
    );
    let cache = MuteSpansCache::new("");
    assert_eq!(verdict_of(&db, &cache, 0), Verdict::Used);
    assert_eq!(verdict_of(&db, &cache, 1), Verdict::TraitImplementation);
    assert_eq!(verdict_of(&db, &cache, 2), Verdict::TraitImplementation);
    assert_eq!(verdict_of(&db, &cache, 3), Verdict::Unused);
    assert_eq!(verdict_of(&db, &cache, 4), Verdict::Unused);
    assert_eq!(
        lines(&db.get_unused_defs(&cache)),
        vec![
            "a.rs:3:8: unused Method 'stop'".to_string(),
            "a.rs:15:8: unused Method 'stop'".to_string(),
        ]
    );
}

#[test]
fn a_type_of_a_trait_is_not_reported() {
    let mut assoc = def("Type", "Item", 2, span("a.rs", 3, 10, 3, 14));
    assoc.parent = Some(ItemId { krate: 0, index: 1 });
    let mut of_struct = def("Type", "Alias", 4, span("a.rs", 8, 10, 8, 15));
    of_struct.parent = Some(ItemId { krate: 0, index: 3 });
    let mut orphan = def("Type", "Lost", 5, span("a.rs", 9, 10, 9, 14));
    orphan.parent = Some(ItemId { krate: 0, index: 99 });
    let mut method = def("Method", "next", 6, span("a.rs", 4, 8, 4, 12));
    method.parent = Some(ItemId { krate: 0, index: 1 });
    let db = graph(
        unit(1, 1),
        &[],
        vec![
            def("Trait", "Iter", 1, span("a.rs", 2, 7, 2, 11)),
            assoc,
            def("Struct", "S", 3, span("a.rs", 7, 8, 7, 9)),
            of_struct,
            orphan,
            method,
        ],
        vec![reference(0, 1), reference(0, 3)],
    );
    let cache = MuteSpansCache::new("");
    assert_eq!(verdict_of(&db, &cache, 1), Verdict::AssociatedType);
    assert_eq!(verdict_of(&db, &cache, 3), Verdict::Unused);
    assert_eq!(verdict_of(&db, &cache, 4), Verdict::Unused);
    assert_eq!(verdict_of(&db, &cache, 5), Verdict::Unused);
    assert_eq!(
        lines(&db.get_unused_defs(&cache)),
        vec![
            "a.rs:4:8: unused Method 'next'".to_string(),
            "a.rs:8:10: unused Type 'Alias'".to_string(),
            "a.rs:9:10: unused Type 'Lost'".to_string(),
        ]
    );
}

#[test]
fn the_report_is_sorted_by_kind_then_name_then_place() {
    let defs = vec![
        def("Struct", "Zed", 1, span("a.rs", 1, 1, 1, 4)),
        def("Function", "beta", 2, span("z.rs", 1, 1, 1, 5)),
        def("Function", "alpha", 3, span("b.rs", 9, 1, 9, 6)),
        def("Function", "alpha", 4, span("b.rs", 2, 1, 2, 6)),
        def("Function", "alpha", 5, span("a.rs", 7, 3, 7, 8)),
        def("Enum", "E", 6, span("c.rs", 1, 1, 1, 2)),
    ];
    let expected = vec![
        "c.rs:1:1: unused Enum 'E'".to_string(),
        "a.rs:7:3: unused Function 'alpha'".to_string(),
        "b.rs:2:1: unused Function 'alpha'".to_string(),
        "b.rs:9:1: unused Function 'alpha'".to_string(),
        "z.rs:1:1: unused Function 'beta'".to_string(),
        "a.rs:1:1: unused Struct 'Zed'".to_string(),
    ];
    let cache = MuteSpansCache::new("");
    let forward = graph(unit(1, 1), &[], defs.clone(), vec![]);
    let mut reversed = defs;
    reversed.reverse();
    let backward = graph(unit(1, 1), &[], reversed, vec![]);
    assert_eq!(lines(&forward.get_unused_defs(&cache)), expected);
    assert_eq!(lines(&backward.get_unused_defs(&cache)), expected);
    assert_eq!(forward.get_unused_defs(&cache), forward.get_unused_defs(&cache));
}

#[test]
fn definitions_are_ordered_by_every_field() {
    let db = graph(
        unit(1, 1),
        &[],
        vec![
            def("Function", "f", 1, span("a.rs", 1, 1, 1, 2)),
            def("Function", "f", 2, span("a.rs", 1, 1, 1, 2)),
            def("Function", "f", 3, span("a.rs", 1, 1, 1, 3)),
        ],
        vec![],
    );
    assert_eq!(order_defs(db.def_at(0), db.def_at(1)), Precedence::Before);
    assert_eq!(order_defs(db.def_at(1), db.def_at(0)), Precedence::After);
    assert_eq!(order_defs(db.def_at(1), db.def_at(1)), Precedence::Same);
    assert_eq!(order_defs(db.def_at(1), db.def_at(2)), Precedence::Before);
}

#[test]
fn the_sources_to_index_are_those_of_the_open_definitions() {
    let db = graph(
        unit(1, 1),
        &[],
        vec![
            def("Function", "f", 1, span("b.rs", 20, 1, 20, 12)),
            def("Function", "g", 2, span("b.rs", 30, 1, 30, 12)),
            def("Function", "h", 3, span("c.rs", 1, 1, 1, 2)),
            def("Function", "_skipped", 4, span("d.rs", 1, 1, 1, 2)),
            def("Function", "used", 5, span("e.rs", 1, 1, 1, 2)),
            def("Local", "x", 6, span("f.rs", 1, 1, 1, 2)),
        ],
        vec![reference(0, 5)],
    );
    let mut cache = MuteSpansCache::new("");
    assert_eq!(
        db.macro_sources(&cache),
        vec![(unit(1, 1), "b.rs".to_string()), (unit(1, 1), "c.rs".to_string())]
    );
    cache.insert(unit(1, 1), "b.rs", MuteSpans::from_iter(vec![]));
    assert_eq!(db.macro_sources(&cache), vec![(unit(1, 1), "c.rs".to_string())]);
    cache.insert(unit(1, 1), "c.rs", MuteSpans::from_iter(vec![]));
    assert!(db.macro_sources(&cache).is_empty());
}

#[test]
fn findings_sorted_in_any_order_are_the_report() {
    let db = graph(
        unit(1, 1),
        &[],
        vec![
            def("Struct", "Zed", 1, span("a.rs", 1, 1, 1, 4)),
            def("Function", "beta", 2, span("z.rs", 1, 1, 1, 5)),
            def("Local", "x", 3, span("b.rs", 9, 1, 9, 6)),
            def("Function", "alpha", 4, span("b.rs", 2, 1, 2, 6)),
            def("Function", "used", 5, span("a.rs", 7, 3, 7, 8)),
        ],
        vec![reference(0, 5)],
    );
    let cache = MuteSpansCache::new("");
    let mut forward = Vec::new();
    let mut backward = Vec::new();
    for i in 0..db.len() {
        if db.verdict(db.def_at(i), &cache) == Verdict::Unused {
            forward.push(db.def_at(i).clone());
        }
        let j = db.len() - 1 - i;
        if db.verdict(db.def_at(j), &cache) == Verdict::Unused {
            backward.push(db.def_at(j).clone());
        }
    }
    let report = db.get_unused_defs(&cache);
    assert_eq!(report.len(), 3);
    assert_eq!(warnalyzer::order::sort(forward), report);
    assert_eq!(warnalyzer::order::sort(backward), report);
}
