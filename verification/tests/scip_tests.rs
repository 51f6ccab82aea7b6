use warnalyzer::order::sort;
use warnalyzer::order::Precedence;
use warnalyzer::scip::order_defs;
use warnalyzer::scip::order_spans;
use warnalyzer::scip::shorten_symbol;
use warnalyzer::scip::AbsDef;
use warnalyzer::scip::AnalysisDb;
use warnalyzer::scip::Descriptor;
use warnalyzer::scip::Document;
use warnalyzer::scip::Index;
use warnalyzer::scip::Kind;
use warnalyzer::scip::Occurrence;
use warnalyzer::scip::Roles;
use warnalyzer::scip::Span;
use warnalyzer::scip::SymbolInformation;
use warnalyzer::scip::DEFINITION;
use warnalyzer::scip::FORWARD_DEFINITION;
use warnalyzer::scip::GENERATED;
use warnalyzer::scip::IMPORT;
use warnalyzer::scip::READ_ACCESS;
use warnalyzer::scip::TEST;
use warnalyzer::scip::WRITE_ACCESS;
use warnalyzer::Options;

fn occ(symbol: &str, range: Vec<i32>, roles: i32) -> Occurrence {
    Occurrence { symbol: symbol.to_string(), range, symbol_roles: roles }
}

fn info(symbol: &str, name: &str, kind: Option<i32>) -> SymbolInformation {
    SymbolInformation { symbol: symbol.to_string(), display_name: name.to_string(), kind: kind.map(Kind) }
}

fn doc(path: &str, symbols: Vec<SymbolInformation>, occurrences: Vec<Occurrence>) -> Document {
    Document { relative_path: path.to_string(), symbols, occurrences }
}

fn load(documents: Vec<Document>) -> AnalysisDb {
    AnalysisDb::from_path(None, Options { recurse: false }, Index { documents }).unwrap()
}

fn span(file: &str, l1: u32, c1: u32, l2: u32, c2: u32) -> Span {
    Span { file: file.to_string(), start_line: l1, start_col: c1, end_line: l2, end_col: c2 }
}

fn places(report: &Vec<AbsDef>) -> Vec<String> {
    report.iter().map(|d| d.span.display_str()).collect()
}

#[test]
fn a_range_of_four_numbers_counts_from_zero() {
    assert_eq!(Span::from_scip_range("a.rs", &[9, 0, 11, 4]), Ok(span("a.rs", 10, 1, 12, 5)));
}

#[test]
fn a_range_of_three_numbers_lies_on_one_line() {
    assert_eq!(Span::from_scip_range("a.rs", &[9, 0, 8]), Ok(span("a.rs", 10, 1, 10, 9)));
}

#[test]
fn a_range_of_another_length_is_an_error() {
    let short = Span::from_scip_range("a.rs", &[1, 2]);
    assert_eq!(short.unwrap_err().0, "range has wrong number of arguments: 2");
    let empty = Span::from_scip_range("a.rs", &[]);
    assert_eq!(empty.unwrap_err().0, "range has wrong number of arguments: 0");
    let long = Span::from_scip_range("a.rs", &[1, 2, 3, 4, 5]);
    assert_eq!(long.unwrap_err().0, "range has wrong number of arguments: 5");
}

#[test]
fn a_negative_number_of_a_range_wraps() {
    assert_eq!(
        Span::from_scip_range("a.rs", &[-1, -2, i32::MAX, i32::MIN]),
        Ok(span("a.rs", 0, u32::MAX, 2147483648, 2147483649))
    );
}

#[test]
fn display_str_names_the_start() {
    assert_eq!(span("src/lib.rs", 10, 1, 12, 5).display_str(), "src/lib.rs:10:1");
    assert_eq!(span("", 0, 4294967295, 0, 0).display_str(), ":0:4294967295");
}

#[test]
fn roles_are_read_from_their_bits() {
    let all = Roles(0x7f);
    assert!(all.is_definition() && all.is_import() && all.is_write_access() && all.is_read_access());
    assert!(all.is_generated() && all.is_test() && all.is_forward_definition());
    let none = Roles(0);
    assert!(!none.is_definition() && !none.is_import() && !none.is_write_access());
    assert!(!none.is_read_access() && !none.is_generated() && !none.is_test());
    assert!(!none.is_forward_definition());
    assert!(Roles(1).is_definition() && !Roles(1).is_import());
    assert!(Roles(2).is_import() && !Roles(2).is_definition());
    assert!(Roles(4).is_write_access() && !Roles(4).is_read_access());
    assert!(Roles(8).is_read_access() && !Roles(8).is_write_access());
    assert!(Roles(16).is_generated() && !Roles(16).is_test());
    assert!(Roles(32).is_test() && !Roles(32).is_generated());
    assert!(Roles(64).is_forward_definition() && !Roles(64).is_definition());
    assert!(Roles(9).is_definition() && Roles(9).is_read_access() && !Roles(9).is_import());
    assert!(Roles(-1).is_definition() && Roles(-1).is_forward_definition());
    assert!(!Roles(128).is_forward_definition());
}

#[test]
fn the_bits_of_the_roles_are_those_of_the_index_format() {
    assert_eq!(DEFINITION, scip::types::SymbolRole::Definition as i32);
    assert_eq!(IMPORT, scip::types::SymbolRole::Import as i32);
    assert_eq!(WRITE_ACCESS, scip::types::SymbolRole::WriteAccess as i32);
    assert_eq!(READ_ACCESS, scip::types::SymbolRole::ReadAccess as i32);
    assert_eq!(GENERATED, scip::types::SymbolRole::Generated as i32);
    assert_eq!(TEST, scip::types::SymbolRole::Test as i32);
    assert_eq!(FORWARD_DEFINITION, scip::types::SymbolRole::ForwardDefinition as i32);
}

#[test]
fn a_kind_gives_its_number() {
    assert_eq!(Kind(17).kind_enum(), 17);
    assert_eq!(Kind(scip::types::symbol_information::Kind::Function as i32).kind_enum(), 17);
    assert!(Kind(3) < Kind(17));
}

#[test]
fn a_symbol_is_shortened_to_package_and_descriptors() {
    let d = |name: &str, suffix: &str| Descriptor { name: name.to_string(), suffix: suffix.to_string() };
    assert_eq!(shorten_symbol("pkg", &vec![]), "pkg::");
    assert_eq!(shorten_symbol("pkg", &vec![d("Foo", "Type")]), "pkg::Foo_Type");
    assert_eq!(
        shorten_symbol("pkg", &vec![d("m", "Namespace"), d("Foo", "Type"), d("run", "Method")]),
        "pkg::m_Namespace:Foo_Type:run_Method"
    );
    assert_eq!(shorten_symbol("", &vec![d("", ""), d("", "")]), "::_:_");
}

#[test]
fn a_symbol_with_a_definition_only_is_reported() {
    let db = load(vec![doc(
        "src/foo.rs",
        vec![info("pkg/Foo#", "Foo", Some(49))],
        vec![occ("pkg/Foo#", vec![4, 11, 14], DEFINITION)],
    )]);
    assert_eq!(db.len(), 1);
    let report = db.get_unused_defs();
    assert_eq!(
        report,
        vec![AbsDef { span: span("src/foo.rs", 5, 12, 5, 15), name: Some("Foo".to_string()), kind: Some(Kind(49)) }]
    );
}

#[test]
fn a_symbol_that_occurs_elsewhere_is_not_reported() {
    let db = load(vec![
        doc(
            "src/foo.rs",
            vec![info("pkg/Foo#", "Foo", Some(49))],
            vec![occ("pkg/Foo#", vec![4, 11, 14], DEFINITION)],
        ),
        doc("src/main.rs", vec![], vec![occ("pkg/Foo#", vec![1, 4, 7], 0)]),
    ]);
    assert_eq!(db.len(), 1);
    assert!(db.get_unused_defs().is_empty());
}

#[test]
fn an_import_counts_as_a_use() {
    let db = load(vec![doc(
        "src/foo.rs",
        vec![],
        vec![
            occ("pkg/Foo#", vec![4, 11, 14], DEFINITION),
            occ("pkg/Foo#", vec![0, 4, 7], IMPORT),
            occ("pkg/Bar#", vec![6, 11, 14], DEFINITION | GENERATED),
            occ("pkg/Baz#", vec![8, 11, 14], DEFINITION),
            occ("pkg/Baz#", vec![9, 11, 14], READ_ACCESS | TEST),
        ],
    )]);
    assert_eq!(places(&db.get_unused_defs()), vec!["src/foo.rs:7:12".to_string()]);
}

#[test]
fn a_second_definition_is_no_use() {
    let db = load(vec![doc(
        "src/foo.rs",
        vec![],
        vec![
            occ("pkg/Foo#", vec![4, 11, 14], DEFINITION),
            occ("pkg/Foo#", vec![8, 11, 14], DEFINITION | WRITE_ACCESS),
        ],
    )]);
    assert_eq!(db.len(), 1);
    assert_eq!(places(&db.get_unused_defs()), vec!["src/foo.rs:9:12".to_string()]);
}

#[test]
fn a_name_with_an_underscore_is_not_reported() {
    let db = load(vec![doc(
        "src/foo.rs",
        vec![info("pkg/_foo().", "_foo", Some(17)), info("pkg/bar().", "bar_", Some(17))],
        vec![
            occ("pkg/_foo().", vec![4, 3, 7], DEFINITION),
            occ("pkg/bar().", vec![6, 3, 7], DEFINITION),
            occ("pkg/_anon().", vec![8, 3, 8], DEFINITION),
        ],
    )]);
    let report = db.get_unused_defs();
    assert_eq!(places(&report), vec!["src/foo.rs:7:4".to_string(), "src/foo.rs:9:4".to_string()]);
    assert_eq!(report[0].name, Some("bar_".to_string()));
    assert_eq!(report[1].name, None);
    assert_eq!(report[1].kind, None);
}

#[test]
fn the_names_of_a_document_are_its_own() {
    let db = load(vec![
        doc("a.rs", vec![info("pkg/f().", "first", None), info("pkg/f().", "last", Some(17))], vec![occ("pkg/f().", vec![0, 0, 1], DEFINITION)]),
        doc("b.rs", vec![], vec![occ("pkg/g().", vec![0, 0, 1], DEFINITION)]),
        doc("c.rs", vec![info("pkg/g().", "elsewhere", None)], vec![]),
    ]);
    let report = db.get_unused_defs();
    assert_eq!(report.len(), 2);
    assert_eq!(report[0].name, Some("last".to_string()));
    assert_eq!(report[0].kind, Some(Kind(17)));
    assert_eq!(report[1].name, None);
}

#[test]
fn a_bad_range_of_a_definition_fails_the_load() {
    let loaded = AnalysisDb::from_path(
        None,
        Options { recurse: false },
        Index {
            documents: vec![doc(
                "a.rs",
                vec![],
                vec![occ("pkg/f().", vec![0, 0, 1], DEFINITION), occ("pkg/g().", vec![0, 0], DEFINITION)],
            )],
        },
    );
    assert_eq!(loaded.err().unwrap().0, "range has wrong number of arguments: 2");
}

#[test]
fn a_bad_range_of_a_use_is_not_read() {
    let db = load(vec![doc(
        "a.rs",
        vec![],
        vec![occ("pkg/f().", vec![0, 0, 1], DEFINITION), occ("pkg/f().", vec![], READ_ACCESS)],
    )]);
    assert!(db.get_unused_defs().is_empty());
}

#[test]
fn the_report_of_an_index_is_sorted_by_place() {
    let db = load(vec![
        doc(
            "z.rs",
            vec![],
            vec![occ("a#", vec![2, 0, 1], DEFINITION), occ("b#", vec![0, 5, 6], DEFINITION)],
        ),
        doc(
            "a.rs",
            vec![],
            vec![
                occ("z#", vec![7, 0, 1], DEFINITION),
                occ("y#", vec![0, 5, 0, 9], DEFINITION),
                occ("x#", vec![0, 5, 0, 7], DEFINITION),
                occ("w#", vec![0, 2, 3, 0], DEFINITION),
                occ("v#", vec![0, 3, FORWARD_DEFINITION], DEFINITION),
            ],
        ),
    ]);
    let report = db.get_unused_defs();
    let mut expected = report.clone();
    expected.sort();
    assert_eq!(report, expected);
    assert_eq!(
        places(&report),
        vec!["a.rs:1:3", "a.rs:1:4", "a.rs:1:6", "a.rs:1:6", "a.rs:8:1", "z.rs:1:6", "z.rs:3:1"]
    );
    assert_eq!(report[2].span.end_col, 8);
    assert_eq!(report[3].span.end_col, 10);
}

#[test]
fn definitions_of_an_index_are_ordered_as_they_derive() {
    let d = |file: &str, line: u32, name: Option<&str>, kind: Option<i32>| AbsDef {
        span: span(file, line, 1, line, 2),
        name: name.map(|n| n.to_string()),
        kind: kind.map(Kind),
    };
    let samples = vec![
        d("a.rs", 1, None, None),
        d("a.rs", 1, None, Some(3)),
        d("a.rs", 1, Some(""), None),
        d("a.rs", 1, Some("a"), Some(2)),
        d("a.rs", 1, Some("a"), Some(3)),
        d("a.rs", 1, Some("b"), None),
        d("a.rs", 2, None, None),
        d("b.rs", 1, None, Some(-1)),
        d("b.rs", 1, None, Some(0)),
    ];
    for a in samples.iter() {
        for b in samples.iter() {
            let expected = if a < b {
                Precedence::Before
            } else if a == b {
                Precedence::Same
            } else {
                Precedence::After
            };
            assert_eq!(order_defs(a, b), expected);
        }
    }
    let mut shuffled: Vec<AbsDef> = samples.iter().rev().cloned().collect();
    shuffled.swap(1, 5);
    assert_eq!(sort(shuffled), samples);
    assert_eq!(order_spans(&span("a.rs", 1, 2, 3, 4), &span("a.rs", 1, 2, 3, 5)), Precedence::Before);
}
