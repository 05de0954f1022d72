// The supported shapes, end to end: a plan is generated from a type
// description, a foreign value is serialized through a sink, resolved into
// its archived representation, and deserialized back.

use rkyv_with::archive::resolve_with;
use rkyv_with::archive::ArchivedValue;
use rkyv_with::desc::DataDescription;
use rkyv_with::desc::FieldDescription;
use rkyv_with::desc::FieldsDescription;
use rkyv_with::desc::Getter;
use rkyv_with::desc::TypeDescription;
use rkyv_with::desc::VariantDescription;
use rkyv_with::deserialize::deserialize_with;
use rkyv_with::plan::Plan;
use rkyv_with::serialize::serialize_with;
use rkyv_with::sink::ByteSink;
use rkyv_with::value::FieldValue;
use rkyv_with::value::ForeignValue;

fn s(x: &str) -> String {
    String::from(x)
}

fn names(xs: &[&str]) -> Vec<String> {
    xs.iter().map(|x| s(x)).collect()
}

fn plain_field(ident: Option<&str>, ty: &str) -> FieldDescription {
    FieldDescription {
        ident: ident.map(s),
        ty: s(ty),
        from: None,
        via: None,
        getter: None,
        with_chain: Vec::new(),
    }
}

fn with_field(ident: Option<&str>, ty: &str, with_chain: &[&str]) -> FieldDescription {
    FieldDescription { with_chain: names(with_chain), ..plain_field(ident, ty) }
}

fn via_field(ident: Option<&str>, ty: &str, from: &str, via: &[&str]) -> FieldDescription {
    FieldDescription { from: Some(s(from)), via: Some(names(via)), ..plain_field(ident, ty) }
}

fn getter_field(ident: Option<&str>, ty: &str, path: &str, owned: bool) -> FieldDescription {
    FieldDescription {
        getter: Some(Getter { path: s(path), owned_self: owned }),
        ..plain_field(ident, ty)
    }
}

fn struct_description(name: &str, from_ty: &str, fields: FieldsDescription) -> TypeDescription {
    TypeDescription {
        ident: s(name),
        generics: Vec::new(),
        from_tys: names(&[from_ty]),
        data: DataDescription::Struct(fields),
    }
}

fn must_plan(td: &TypeDescription) -> Plan {
    rkyv_with::plan::derive(td).expect("generation should succeed")
}

fn roundtrip(td: &TypeDescription, value: &ForeignValue) {
    let plan = must_plan(td);
    let mut sink = ByteSink::unbounded();
    let resolver = serialize_with(&plan, value, &mut sink).expect("sink accepts everything");
    let archived = resolve_with(&plan, value, resolver).expect("same variant on both sides");
    let bytes = sink.into_bytes();
    let recovered = deserialize_with(&plan, &archived, &bytes).expect("archived data is intact");
    assert_eq!(&recovered, value);
}

// The four example fields used across these tests, mirroring a foreign
// struct { a: u8, b: Vec<A>, c: Option<NonZeroU64>, d: Vec<PathBuf> } with
// b copy-optimized, c niche-optimized, and d behind a two-stage chain.
fn example_fields(named: bool) -> Vec<FieldDescription> {
    let name = move |n: &'static str| if named { Some(n) } else { None };
    vec![
        plain_field(name("a"), "u8"),
        with_field(name("b"), "Vec<A>", &["CopyOptimize"]),
        via_field(name("c"), "Option<NonZeroU64>", "Option<NonZeroU64>", &["Niche"]),
        via_field(name("d"), "Vec<String>", "Vec<PathBuf>", &["WithNoop", "Map<AsString>"]),
    ]
}

fn example_zero_value() -> ForeignValue {
    ForeignValue::Struct(vec![
        FieldValue::Byte(0),
        FieldValue::Ints(Vec::new()),
        FieldValue::OptInt(None),
        FieldValue::Texts(Vec::new()),
    ])
}

#[test]
fn named_struct() {
    let mut td = struct_description(
        "Example",
        "Remote::<A>",
        FieldsDescription::Named(example_fields(true)),
    );
    td.generics = names(&["A"]);
    roundtrip(&td, &example_zero_value());
}

#[test]
fn unnamed_struct() {
    let mut td = struct_description(
        "Example",
        "Remote::<A>",
        FieldsDescription::Unnamed(example_fields(false)),
    );
    td.generics = names(&["A"]);
    roundtrip(&td, &example_zero_value());
}

#[test]
fn unit_struct() {
    let td = TypeDescription {
        ident: s("Example"),
        generics: Vec::new(),
        from_tys: names(&["Remote"]),
        data: DataDescription::Struct(FieldsDescription::Unit),
    };
    roundtrip(&td, &ForeignValue::Struct(Vec::new()));
}

#[test]
fn full_enum() {
    let td = TypeDescription {
        ident: s("Example"),
        generics: names(&["A"]),
        from_tys: names(&["Remote::<A>"]),
        data: DataDescription::Enum(vec![
            VariantDescription { ident: s("A"), fields: FieldsDescription::Unit },
            VariantDescription {
                ident: s("B"),
                fields: FieldsDescription::Unnamed(vec![plain_field(None, "u8")]),
            },
            VariantDescription {
                ident: s("C"),
                fields: FieldsDescription::Named(vec![
                    with_field(Some("a"), "Vec<A>", &["CopyOptimize"]),
                    via_field(Some("b"), "Option<NonZeroU64>", "Option<NonZeroU64>", &["Niche"]),
                    via_field(Some("c"), "Vec<String>", "Vec<PathBuf>", &[
                        "WithNoop",
                        "Map<AsString>",
                    ]),
                ]),
            },
        ]),
    };
    let values = [
        ForeignValue::Variant(0, Vec::new()),
        ForeignValue::Variant(1, vec![FieldValue::Byte(0)]),
        ForeignValue::Variant(
            2,
            vec![
                FieldValue::Ints(Vec::new()),
                FieldValue::OptInt(None),
                FieldValue::Texts(Vec::new()),
            ],
        ),
    ];
    for value in values.iter() {
        roundtrip(&td, value);
    }

    // the archived tag is the variant's declaration index
    let plan = must_plan(&td);
    for (index, value) in values.iter().enumerate() {
        let mut sink = ByteSink::unbounded();
        let resolver = serialize_with(&plan, value, &mut sink).unwrap();
        let archived = resolve_with(&plan, value, resolver).unwrap();
        match archived {
            ArchivedValue::Variant(tag, _) => assert_eq!(tag, index),
            ArchivedValue::Struct(_) => panic!("an enum archives with a tag"),
        }
    }
}

fn archive_only(td: &TypeDescription, value: &ForeignValue) -> Vec<u8> {
    let plan = must_plan(td);
    let mut sink = ByteSink::unbounded();
    let resolver = serialize_with(&plan, value, &mut sink).expect("sink accepts everything");
    let _ = resolve_with(&plan, value, resolver).expect("same variant on both sides");
    sink.into_bytes()
}

#[test]
fn named_struct_private() {
    let remote = ForeignValue::Struct(vec![FieldValue::Bytes(vec![0, 0, 0, 0])]);
    let by_val = struct_description(
        "ExampleByVal",
        "remote::Remote",
        FieldsDescription::Named(vec![getter_field(
            Some("inner"),
            "[u8; 4]",
            "remote::Remote::into_inner",
            true,
        )]),
    );
    let by_ref = struct_description(
        "ExampleByRef",
        "remote::Remote",
        FieldsDescription::Named(vec![getter_field(
            Some("inner"),
            "[u8; 4]",
            "remote::Remote::to_inner",
            false,
        )]),
    );
    let through_ref = struct_description(
        "ExampleThroughRef",
        "remote::Remote",
        FieldsDescription::Named(vec![getter_field(
            Some("inner"),
            "[u8; 4]",
            "remote::Remote::as_inner",
            false,
        )]),
    );
    let _ = archive_only(&by_val, &remote);
    let _ = archive_only(&by_ref, &remote);
    let _ = archive_only(&through_ref, &remote);
}

#[test]
fn unnamed_struct_private() {
    let remote = ForeignValue::Struct(vec![FieldValue::Bytes(vec![0, 0, 0, 0])]);
    let by_ref = struct_description(
        "ExampleByRef",
        "remote::Remote",
        FieldsDescription::Unnamed(vec![getter_field(
            None,
            "[u8; 4]",
            "remote::Remote::as_inner",
            false,
        )]),
    );
    let by_val = struct_description(
        "ExampleByVal",
        "remote::Remote",
        FieldsDescription::Unnamed(vec![getter_field(
            None,
            "[u8; 4]",
            "remote::Remote::into_inner",
            true,
        )]),
    );
    let _ = archive_only(&by_ref, &remote);
    let _ = archive_only(&by_val, &remote);
}
