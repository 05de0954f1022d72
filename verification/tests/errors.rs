// Every failure the library reports, provoked on purpose: configuration
// errors at generation time, the variant-consistency violation at resolve
// time, and each way an archived representation can be inconsistent.

use rkyv_with::archive::resolve_with;
use rkyv_with::archive::ArchivedField;
use rkyv_with::archive::ArchivedValue;
use rkyv_with::archive::VariantMismatch;
use rkyv_with::chain::Chain;
use rkyv_with::desc::strip_raw;
use rkyv_with::desc::DataDescription;
use rkyv_with::desc::DeriveError;
use rkyv_with::desc::FieldDescription;
use rkyv_with::desc::FieldsDescription;
use rkyv_with::desc::FieldsKind;
use rkyv_with::desc::Getter;
use rkyv_with::desc::TypeDescription;
use rkyv_with::desc::VariantDescription;
use rkyv_with::deserialize::deserialize_with;
use rkyv_with::deserialize::DeserializeError;
use rkyv_with::plan::Plan;
use rkyv_with::plan::PlanField;
use rkyv_with::plan::PlanShape;
use rkyv_with::serialize::serialize_with;
use rkyv_with::sink::ByteSink;
use rkyv_with::value::FieldValue;
use rkyv_with::value::ForeignValue;

fn s(x: &str) -> String {
    String::from(x)
}

fn bare_field(ty: &str) -> FieldDescription {
    FieldDescription {
        ident: None,
        ty: s(ty),
        from: None,
        via: None,
        getter: None,
        with_chain: Vec::new(),
    }
}

fn description(from_tys: &[&str], data: DataDescription) -> TypeDescription {
    TypeDescription {
        ident: s("Example"),
        generics: Vec::new(),
        from_tys: from_tys.iter().map(|x| s(x)).collect(),
        data,
    }
}

#[test]
fn missing_from_fails() {
    let td = description(&[], DataDescription::Struct(FieldsDescription::Unit));
    let err = rkyv_with::plan::derive(&td).expect_err("no foreign type was declared");
    assert_eq!(err, DeriveError::MissingFrom);
    assert_eq!(err.message(), "requires top level attribute `from`");
}

#[test]
fn union_fails() {
    let td = description(&["Remote"], DataDescription::Union);
    let err = rkyv_with::plan::derive(&td).expect_err("a union has no discriminant");
    assert_eq!(err, DeriveError::UnionUnsupported);
    assert_eq!(err.message(), "cannot be derived for unions");
}

#[test]
fn missing_from_wins_over_union() {
    let td = description(&[], DataDescription::Union);
    let err = rkyv_with::plan::derive(&td).expect_err("two configuration faults at once");
    assert_eq!(err, DeriveError::MissingFrom);
}

#[test]
fn empty_via_chain_fails() {
    let mut field = bare_field("u64");
    field.via = Some(Vec::new());
    let td = description(
        &["Remote"],
        DataDescription::Struct(FieldsDescription::Unnamed(vec![field])),
    );
    let err = rkyv_with::plan::derive(&td).expect_err("an empty wrapper chain is malformed");
    assert_eq!(err, DeriveError::EmptyViaChain);
    assert_eq!(err.message(), "expected at least one wrapper in `via`");
}

#[test]
fn empty_getter_path_fails() {
    let mut field = bare_field("u64");
    field.getter = Some(Getter { path: s(""), owned_self: false });
    let td = description(
        &["Remote"],
        DataDescription::Struct(FieldsDescription::Unnamed(vec![field])),
    );
    let err = rkyv_with::plan::derive(&td).expect_err("an empty accessor path is malformed");
    assert_eq!(err, DeriveError::EmptyGetterPath);
    assert_eq!(err.message(), "expected a path in `getter`");
}

#[test]
fn chain_fault_wins_over_getter_fault() {
    let mut field = bare_field("u64");
    field.via = Some(Vec::new());
    field.getter = Some(Getter { path: s(""), owned_self: false });
    let td = description(
        &["Remote"],
        DataDescription::Struct(FieldsDescription::Unnamed(vec![field])),
    );
    let err = rkyv_with::plan::derive(&td).expect_err("both records are malformed");
    assert_eq!(err, DeriveError::EmptyViaChain);
}

#[test]
fn malformed_field_inside_enum_fails() {
    let mut field = bare_field("u64");
    field.via = Some(Vec::new());
    let td = description(
        &["Remote"],
        DataDescription::Enum(vec![VariantDescription {
            ident: s("A"),
            fields: FieldsDescription::Unnamed(vec![field]),
        }]),
    );
    let err = rkyv_with::plan::derive(&td).expect_err("the variant's field is malformed");
    assert_eq!(err, DeriveError::EmptyViaChain);
}

fn enum_plan() -> Plan {
    let td = description(
        &["Remote"],
        DataDescription::Enum(vec![
            VariantDescription { ident: s("A"), fields: FieldsDescription::Unit },
            VariantDescription {
                ident: s("B"),
                fields: FieldsDescription::Unnamed(vec![bare_field("u8")]),
            },
        ]),
    );
    rkyv_with::plan::derive(&td).expect("generation should succeed")
}

#[test]
fn variant_mismatch_is_rejected() {
    let plan = enum_plan();
    let unit_value = ForeignValue::Variant(0, Vec::new());
    let byte_value = ForeignValue::Variant(1, vec![FieldValue::Byte(3)]);

    // a resolver produced for one variant cannot resolve another
    let mut sink = ByteSink::unbounded();
    let resolver = serialize_with(&plan, &unit_value, &mut sink).unwrap();
    let err = resolve_with(&plan, &byte_value, resolver).expect_err("different variants");
    assert_eq!(err, VariantMismatch);

    // matching variants resolve
    let mut sink2 = ByteSink::unbounded();
    let resolver2 = serialize_with(&plan, &byte_value, &mut sink2).unwrap();
    assert!(resolve_with(&plan, &byte_value, resolver2).is_ok());
}

#[test]
fn unknown_tag_is_rejected() {
    let plan = enum_plan();
    let archived = ArchivedValue::Variant(9, Vec::new());
    let err = deserialize_with(&plan, &archived, &Vec::new()).expect_err("no ninth variant");
    assert_eq!(err, DeserializeError::UnknownTag);
}

#[test]
fn shape_mismatch_is_rejected() {
    let plan = enum_plan();
    let archived = ArchivedValue::Struct(Vec::new());
    let err = deserialize_with(&plan, &archived, &Vec::new()).expect_err("an enum has a tag");
    assert_eq!(err, DeserializeError::ShapeMismatch);
}

#[test]
fn out_of_bounds_field_is_rejected() {
    let plan = enum_plan();
    let archived = ArchivedValue::Variant(1, vec![ArchivedField { pos: 10, len: 2 }]);
    let err = deserialize_with(&plan, &archived, &vec![1, 2]).expect_err("region past the end");
    assert_eq!(err, DeserializeError::OutOfBounds);
}

#[test]
fn bad_encoding_is_rejected() {
    let plan = enum_plan();
    let archived = ArchivedValue::Variant(1, vec![ArchivedField { pos: 0, len: 2 }]);
    let err = deserialize_with(&plan, &archived, &vec![0xee, 0xee]).expect_err("no such tag byte");
    assert_eq!(err, DeserializeError::BadEncoding);
}

fn one_field_plan(chain: Chain) -> Plan {
    Plan {
        ident: s("Example"),
        from_tys: vec![s("Remote")],
        shape: PlanShape::Struct(
            FieldsKind::Unnamed,
            vec![PlanField { ident: None, getter: None, chain }],
        ),
    }
}

#[test]
fn chain_mismatch_is_rejected() {
    // a hand-made plan whose carried unwrap count disagrees with its
    // layers: more steps than layers fails, and so do leftover layers
    let too_many = one_field_plan(Chain {
        base: s("Remote"),
        layers: vec![s("Wrapper")],
        unwrap_count: 2,
    });
    let leftover = one_field_plan(Chain {
        base: s("Remote"),
        layers: vec![s("Wrapper")],
        unwrap_count: 0,
    });
    let bytes = vec![rkyv_with::codec::TAG_BYTE, 7];
    let archived = ArchivedValue::Struct(vec![ArchivedField { pos: 0, len: 2 }]);
    for plan in [too_many, leftover] {
        let err = deserialize_with(&plan, &archived, &bytes).expect_err("count must match layers");
        assert_eq!(err, DeserializeError::ChainMismatch);
    }
}

#[test]
fn raw_identifiers_are_stripped() {
    assert_eq!(strip_raw(&s("r#type")), "type");
    assert_eq!(strip_raw(&s("plain")), "plain");
    assert_eq!(strip_raw(&s("r#")), "");
    assert_eq!(strip_raw(&s("r")), "r");
}
