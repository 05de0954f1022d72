// The attribute folds and the chain resolution order: the foreign-type
// lists of the type-level attribute append in order, repeated field keys
// are won by the last declaration, and a field's effective wrapped type
// follows the declared first-match-wins order.

use rkyv_with::desc::DataDescription;
use rkyv_with::desc::DeriveError;
use rkyv_with::desc::FieldDescription;
use rkyv_with::desc::FieldMeta;
use rkyv_with::desc::FieldsDescription;
use rkyv_with::desc::Getter;
use rkyv_with::desc::ParsedAttributes;
use rkyv_with::desc::TopMeta;
use rkyv_with::desc::TypeDescription;
use rkyv_with::plan::Plan;
use rkyv_with::plan::PlanShape;

fn s(x: &str) -> String {
    String::from(x)
}

fn names(xs: &[&str]) -> Vec<String> {
    xs.iter().map(|x| s(x)).collect()
}

#[test]
fn top_attr_lists_append_in_order() {
    let attrs = vec![
        TopMeta::From(names(&["remote::A", "remote::B"])),
        TopMeta::From(names(&["remote::C"])),
    ];
    let tys = rkyv_with::desc::parse_top_attrs(&attrs).expect("every entry is a from list");
    assert_eq!(tys, names(&["remote::A", "remote::B", "remote::C"]));
}

#[test]
fn top_attr_unknown_key_fails() {
    let attrs = vec![TopMeta::From(names(&["remote::A"])), TopMeta::Other];
    let err = rkyv_with::desc::parse_top_attrs(&attrs).expect_err("only `from` is accepted");
    assert_eq!(err, DeriveError::UnexpectedTopMeta);
    assert_eq!(err.message(), "expected `from`");
}

#[test]
fn field_attrs_last_declaration_wins() {
    let attrs = vec![
        FieldMeta::From(s("First")),
        FieldMeta::Via(names(&["W1"])),
        FieldMeta::From(s("Second")),
        FieldMeta::GetterOwned,
        FieldMeta::Other,
        FieldMeta::Getter(s("remote::get")),
    ];
    let p = ParsedAttributes::new(&attrs).expect("every entry is well formed");
    assert_eq!(p.from.as_deref(), Some("Second"));
    assert_eq!(p.via, Some(names(&["W1"])));
    let g = p.getter.expect("a getter path was declared");
    assert_eq!(g.path, "remote::get");
    assert!(g.owned_self);
}

#[test]
fn owned_flag_without_path_yields_no_getter() {
    let p = ParsedAttributes::new(&vec![FieldMeta::GetterOwned]).unwrap();
    assert!(p.getter.is_none());
    assert!(p.from.is_none());
    assert!(p.via.is_none());
}

#[test]
fn empty_via_entry_fails_the_fold() {
    let err = ParsedAttributes::new(&vec![FieldMeta::Via(Vec::new())]).expect_err("no wrappers");
    assert_eq!(err, DeriveError::EmptyViaChain);
}

#[test]
fn empty_getter_entry_fails_the_fold() {
    let err = ParsedAttributes::new(&vec![FieldMeta::Getter(s(""))]).expect_err("no path");
    assert_eq!(err, DeriveError::EmptyGetterPath);
}

#[test]
fn getter_exprs_follow_the_mode() {
    let by_ref = Getter { path: s("remote::Remote::as_inner"), owned_self: false };
    assert_eq!(by_ref.make_expr(&s("remote::Remote")), "remote::Remote::as_inner(field)");
    let by_val = Getter { path: s("remote::Remote::into_inner"), owned_self: true };
    assert_eq!(
        by_val.make_expr(&s("remote::Remote")),
        "remote::Remote::into_inner(<remote::Remote as Clone>::clone(field))",
    );
}

fn one_field_description(field: FieldDescription) -> TypeDescription {
    TypeDescription {
        ident: s("Example"),
        generics: Vec::new(),
        from_tys: names(&["Remote"]),
        data: DataDescription::Struct(FieldsDescription::Unnamed(vec![field])),
    }
}

fn chain_of(td: &TypeDescription) -> rkyv_with::chain::Chain {
    let plan: Plan = rkyv_with::plan::derive(td).expect("generation should succeed");
    match plan.shape {
        PlanShape::Struct(_, mut pfs) => pfs.remove(0).chain,
        PlanShape::Sum(_) => panic!("a struct stays a struct"),
    }
}

#[test]
fn one_adapter_serves_several_foreign_types() {
    let td = TypeDescription {
        ident: s("Example"),
        generics: Vec::new(),
        from_tys: names(&["remote::A", "remote::B"]),
        data: DataDescription::Struct(FieldsDescription::Unit),
    };
    let plan = rkyv_with::plan::derive(&td).expect("two foreign types are fine");
    assert_eq!(plan.from_tys, names(&["remote::A", "remote::B"]));
}

#[test]
fn resolution_order_first_match_wins() {
    let base = FieldDescription {
        ident: None,
        ty: s("Local"),
        from: None,
        via: None,
        getter: None,
        with_chain: Vec::new(),
    };

    // from and via: the via wrappers compose onto the foreign type
    let mut both = base_clone(&base);
    both.from = Some(s("Foreign"));
    both.via = Some(names(&["V1", "V2"]));
    both.with_chain = names(&["Ignored"]);
    let c = chain_of(&one_field_description(both));
    assert_eq!(c.base, "Foreign");
    assert_eq!(c.layers, names(&["V1", "V2"]));
    assert_eq!(c.unwrap_count, 2);

    // from alone: the declared type itself is the single wrapper
    let mut from_only = base_clone(&base);
    from_only.from = Some(s("Foreign"));
    from_only.with_chain = names(&["Ignored"]);
    let c = chain_of(&one_field_description(from_only));
    assert_eq!(c.base, "Foreign");
    assert_eq!(c.layers, names(&["Local"]));
    assert_eq!(c.unwrap_count, 1);

    // via alone: the wrappers compose onto the declared type
    let mut via_only = base_clone(&base);
    via_only.via = Some(names(&["V1"]));
    via_only.with_chain = names(&["Ignored"]);
    let c = chain_of(&one_field_description(via_only));
    assert_eq!(c.base, "Local");
    assert_eq!(c.layers, names(&["V1"]));
    assert_eq!(c.unwrap_count, 1);

    // neither: the anonymous wrapper chain applies
    let mut anon = base_clone(&base);
    anon.with_chain = names(&["W1", "W2"]);
    let c = chain_of(&one_field_description(anon));
    assert_eq!(c.base, "Local");
    assert_eq!(c.layers, names(&["W1", "W2"]));
    assert_eq!(c.unwrap_count, 2);

    // nothing at all: the field's own type, unmodified
    let c = chain_of(&one_field_description(base_clone(&base)));
    assert_eq!(c.base, "Local");
    assert!(c.layers.is_empty());
    assert_eq!(c.unwrap_count, 0);
}

fn base_clone(f: &FieldDescription) -> FieldDescription {
    FieldDescription {
        ident: f.ident.clone(),
        ty: f.ty.clone(),
        from: f.from.clone(),
        via: f.via.clone(),
        getter: None,
        with_chain: f.with_chain.clone(),
    }
}
