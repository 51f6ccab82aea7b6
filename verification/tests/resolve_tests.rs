use warnalyzer::defs::AbsItemId;
use warnalyzer::defs::CrateDisambiguator;
use warnalyzer::defs::CrateId;
use warnalyzer::defs::Def;
use warnalyzer::defs::ExternalCrate;
use warnalyzer::defs::ItemId;
use warnalyzer::defs::Prelude;
use warnalyzer::defs::Ref;
use warnalyzer::defs::Span;
use warnalyzer::resolve::resolve_optional;
use warnalyzer::resolve::SchemaError;

fn unit(a: u64, b: u64) -> CrateDisambiguator {
    CrateDisambiguator(a, b)
}

fn crate_id(name: &str, a: u64, b: u64) -> CrateId {
    CrateId { name: name.to_string(), disambiguator: unit(a, b) }
}

fn table() -> Prelude {
    Prelude {
        crate_id: crate_id("leaf", 1, 1),
        external_crates: vec![
            ExternalCrate { num: 1, id: crate_id("std", 10, 10) },
            ExternalCrate { num: 2, id: crate_id("dep", 20, 20) },
        ],
    }
}

fn span() -> Span {
    Span { file_name: "a.rs".to_string(), line_start: 10, line_end: 10, column_start: 1, column_end: 9 }
}

#[test]
fn unit_zero_is_the_unit_itself() {
    assert_eq!(table().disambiguator_for_id(0), Ok(unit(1, 1)));
}

#[test]
fn a_dependency_resolves_by_its_ordinal() {
    assert_eq!(table().disambiguator_for_id(1), Ok(unit(10, 10)));
    assert_eq!(table().disambiguator_for_id(2), Ok(unit(20, 20)));
}

#[test]
fn a_number_beyond_the_table_is_an_error() {
    assert_eq!(table().disambiguator_for_id(3), Err(SchemaError::IndexOutOfRange { index: 3 }));
    assert_eq!(
        table().disambiguator_for_id(u32::MAX),
        Err(SchemaError::IndexOutOfRange { index: u32::MAX })
    );
}

#[test]
fn a_wrong_ordinal_is_an_error() {
    let mut t = table();
    t.external_crates[1].num = 7;
    assert_eq!(t.disambiguator_for_id(1), Ok(unit(10, 10)));
    assert_eq!(t.disambiguator_for_id(2), Err(SchemaError::OrdinalMismatch { index: 2, found: 7 }));
}

#[test]
fn an_empty_table_resolves_the_unit_only() {
    let t = Prelude { crate_id: crate_id("alone", 5, 6), external_crates: vec![] };
    assert_eq!(t.disambiguator_for_id(0), Ok(unit(5, 6)));
    assert_eq!(t.disambiguator_for_id(1), Err(SchemaError::IndexOutOfRange { index: 1 }));
}

#[test]
fn resolving_twice_gives_the_same_number() {
    let t = table();
    let local = ItemId { krate: 2, index: 33 };
    let first = local.resolve(&t);
    let second = local.resolve(&t);
    assert_eq!(first, second);
    assert_eq!(first, Ok(AbsItemId { krate: unit(20, 20), index: 33 }));
    let other = Prelude {
        crate_id: crate_id("renamed", 1, 1),
        external_crates: vec![
            ExternalCrate { num: 1, id: crate_id("x", 10, 10) },
            ExternalCrate { num: 2, id: crate_id("y", 20, 20) },
        ],
    };
    assert_eq!(local.resolve(&other), first);
}

#[test]
fn an_item_keeps_its_slot() {
    let t = table();
    assert_eq!(
        ItemId { krate: 0, index: 4 }.resolve(&t),
        Ok(AbsItemId { krate: unit(1, 1), index: 4 })
    );
    assert_eq!(
        ItemId { krate: 9, index: 4 }.resolve(&t),
        Err(SchemaError::IndexOutOfRange { index: 9 })
    );
}

#[test]
fn an_absent_item_resolves_to_none() {
    let t = table();
    assert_eq!(resolve_optional(&None, &t), Ok(None));
    assert_eq!(
        resolve_optional(&Some(ItemId { krate: 1, index: 2 }), &t),
        Ok(Some(AbsItemId { krate: unit(10, 10), index: 2 }))
    );
    assert_eq!(
        resolve_optional(&Some(ItemId { krate: 5, index: 2 }), &t),
        Err(SchemaError::IndexOutOfRange { index: 5 })
    );
}

#[test]
fn a_definition_resolves_every_number() {
    let t = table();
    let d = Def {
        kind: "Method".to_string(),
        name: "run".to_string(),
        id: ItemId { krate: 0, index: 7 },
        span: span(),
        parent: Some(ItemId { krate: 0, index: 3 }),
        decl_id: Some(ItemId { krate: 2, index: 11 }),
    };
    let global = d.resolve(&t).unwrap();
    assert_eq!(global.kind, "Method");
    assert_eq!(global.name, "run");
    assert_eq!(global.id, AbsItemId { krate: unit(1, 1), index: 7 });
    assert_eq!(global.span, span());
    assert_eq!(global.parent, Some(AbsItemId { krate: unit(1, 1), index: 3 }));
    assert_eq!(global.decl_id, Some(AbsItemId { krate: unit(20, 20), index: 11 }));
}

#[test]
fn the_first_bad_number_of_a_definition_gives_the_error() {
    let t = table();
    let d = Def {
        kind: "Method".to_string(),
        name: "run".to_string(),
        id: ItemId { krate: 0, index: 7 },
        span: span(),
        parent: Some(ItemId { krate: 8, index: 3 }),
        decl_id: Some(ItemId { krate: 9, index: 11 }),
    };
    assert_eq!(d.resolve(&t), Err(SchemaError::IndexOutOfRange { index: 8 }));
    let e = Def { id: ItemId { krate: 4, index: 7 }, ..d };
    assert_eq!(e.resolve(&t), Err(SchemaError::IndexOutOfRange { index: 4 }));
}

#[test]
fn a_reference_resolves_its_target() {
    let t = table();
    let r = Ref { kind: "Function".to_string(), ref_id: ItemId { krate: 1, index: 5 }, span: span() };
    let global = r.resolve(&t).unwrap();
    assert_eq!(global.kind, "Function");
    assert_eq!(global.ref_id, AbsItemId { krate: unit(10, 10), index: 5 });
    assert_eq!(global.span, span());
    let bad = Ref { kind: "Function".to_string(), ref_id: ItemId { krate: 3, index: 5 }, span: span() };
    assert_eq!(bad.resolve(&t), Err(SchemaError::IndexOutOfRange { index: 3 }));
}

#[test]
fn schema_errors_have_messages() {
    assert_eq!(
        SchemaError::IndexOutOfRange { index: 3 }.to_str_err().0,
        "no dependency has the number 3"
    );
    assert_eq!(
        SchemaError::OrdinalMismatch { index: 2, found: 7 }.to_str_err().0,
        "dependency 2 declares the number 7"
    );
}
