// The library's stated properties on concrete values: chain lengths and
// their unwrap counts, accessor-mode byte equality, exact encodings, and
// sink failure propagation.

use rkyv_with::archive::resolve_with;
use rkyv_with::codec::TAG_BYTE;
use rkyv_with::codec::TAG_BYTES;
use rkyv_with::codec::TAG_INT;
use rkyv_with::codec::TAG_INTS;
use rkyv_with::codec::TAG_OPT_NONE;
use rkyv_with::codec::TAG_OPT_SOME;
use rkyv_with::codec::TAG_TEXTS;
use rkyv_with::desc::DataDescription;
use rkyv_with::desc::FieldDescription;
use rkyv_with::desc::FieldsDescription;
use rkyv_with::desc::Getter;
use rkyv_with::desc::TypeDescription;
use rkyv_with::deserialize::deserialize_with;
use rkyv_with::plan::Plan;
use rkyv_with::serialize::serialize_with;
use rkyv_with::sink::ByteSink;
use rkyv_with::value::FieldValue;
use rkyv_with::value::ForeignValue;

fn s(x: &str) -> String {
    String::from(x)
}

fn names(xs: &[&str]) -> Vec<String> {
    xs.iter().map(|x| s(x)).collect()
}

fn bare_field(ty: &str) -> FieldDescription {
    FieldDescription {
        ident: None,
        ty: s(ty),
        from: None,
        via: None,
        getter: None,
        with_chain: Vec::new(),
    }
}

fn one_field_struct(field: FieldDescription) -> TypeDescription {
    TypeDescription {
        ident: s("Example"),
        generics: Vec::new(),
        from_tys: names(&["Remote"]),
        data: DataDescription::Struct(FieldsDescription::Unnamed(vec![field])),
    }
}

fn must_plan(td: &TypeDescription) -> Plan {
    rkyv_with::plan::derive(td).expect("generation should succeed")
}

fn serialized_bytes(td: &TypeDescription, value: &ForeignValue) -> Vec<u8> {
    let plan = must_plan(td);
    let mut sink = ByteSink::unbounded();
    let resolver = serialize_with(&plan, value, &mut sink).expect("sink accepts everything");
    let _ = resolve_with(&plan, value, resolver).expect("same variant on both sides");
    sink.into_bytes()
}

fn roundtrip_value(td: &TypeDescription, value: &ForeignValue) -> ForeignValue {
    let plan = must_plan(td);
    let mut sink = ByteSink::unbounded();
    let resolver = serialize_with(&plan, value, &mut sink).unwrap();
    let archived = resolve_with(&plan, value, resolver).unwrap();
    let bytes = sink.into_bytes();
    deserialize_with(&plan, &archived, &bytes).unwrap()
}

fn le(x: u64) -> Vec<u8> {
    x.to_le_bytes().to_vec()
}

#[test]
fn chain_lengths_round_trip_alike() {
    // chains of length one, two and three, and a single wrapper whose
    // effect composes all three: same bytes, same recovered value
    let chains: [&[&str]; 4] = [
        &["Stage1"],
        &["Stage1", "Stage2"],
        &["Stage1", "Stage2", "Stage3"],
        &["ComposedStages"],
    ];
    let value = ForeignValue::Struct(vec![FieldValue::Int(99)]);
    let mut all_bytes: Vec<Vec<u8>> = Vec::new();
    for chain in chains.iter() {
        let mut field = bare_field("u64");
        field.via = Some(names(chain));
        field.from = Some(s("RemoteInner"));
        let td = one_field_struct(field);
        assert_eq!(roundtrip_value(&td, &value), value);
        all_bytes.push(serialized_bytes(&td, &value));
    }
    assert_eq!(all_bytes[0], all_bytes[1]);
    assert_eq!(all_bytes[0], all_bytes[2]);
    assert_eq!(all_bytes[0], all_bytes[3]);
}

#[test]
fn unwrap_count_matches_chain_length() {
    for n in 1usize..=3 {
        let mut field = bare_field("u64");
        let layer_names: Vec<String> = (0..n).map(|k| format!("Wrapper{}", k)).collect();
        field.via = Some(layer_names);
        let td = one_field_struct(field);
        let plan = must_plan(&td);
        match &plan.shape {
            rkyv_with::plan::PlanShape::Struct(_, pfs) => {
                assert_eq!(pfs[0].chain.unwrap_count, n);
                assert_eq!(pfs[0].chain.layers.len(), n);
            },
            rkyv_with::plan::PlanShape::Sum(_) => panic!("a struct stays a struct"),
        }
    }
}

#[test]
fn getter_modes_write_equal_bytes() {
    let value = ForeignValue::Struct(vec![FieldValue::Bytes(vec![1, 2, 3, 4])]);
    let mut by_ref = bare_field("[u8; 4]");
    by_ref.getter = Some(Getter { path: s("remote::Remote::as_inner"), owned_self: false });
    let mut by_val = bare_field("[u8; 4]");
    by_val.getter = Some(Getter { path: s("remote::Remote::into_inner"), owned_self: true });
    let direct = bare_field("[u8; 4]");

    let bytes_ref = serialized_bytes(&one_field_struct(by_ref), &value);
    let bytes_val = serialized_bytes(&one_field_struct(by_val), &value);
    let bytes_direct = serialized_bytes(&one_field_struct(direct), &value);
    assert_eq!(bytes_ref, bytes_val);
    assert_eq!(bytes_ref, bytes_direct);
}

#[test]
fn encodings_are_exact() {
    let cases: Vec<(FieldValue, Vec<u8>)> = vec![
        (FieldValue::Byte(7), vec![TAG_BYTE, 7]),
        (FieldValue::Int(5), [vec![TAG_INT], le(5)].concat()),
        (FieldValue::Bytes(vec![9, 8, 7]), [vec![TAG_BYTES], le(3), vec![9, 8, 7]].concat()),
        (FieldValue::Ints(vec![5, 6]), [vec![TAG_INTS], le(2), le(5), le(6)].concat()),
        (
            FieldValue::Texts(vec![vec![97, 98]]),
            [vec![TAG_TEXTS], le(1), le(2), vec![97, 98]].concat(),
        ),
        (FieldValue::OptInt(None), vec![TAG_OPT_NONE]),
        (FieldValue::OptInt(Some(9)), [vec![TAG_OPT_SOME], le(9)].concat()),
    ];
    for (value, expected) in cases {
        let td = one_field_struct(bare_field("T"));
        let wrapped = ForeignValue::Struct(vec![value]);
        assert_eq!(serialized_bytes(&td, &wrapped), expected);
    }
}

#[test]
fn payload_is_fields_in_declaration_order() {
    let td = TypeDescription {
        ident: s("Example"),
        generics: Vec::new(),
        from_tys: names(&["Remote"]),
        data: DataDescription::Struct(FieldsDescription::Unnamed(vec![
            bare_field("u8"),
            bare_field("u64"),
        ])),
    };
    let value = ForeignValue::Struct(vec![FieldValue::Byte(1), FieldValue::Int(2)]);
    let expected = [vec![TAG_BYTE, 1], vec![TAG_INT], le(2)].concat();
    assert_eq!(serialized_bytes(&td, &value), expected);
}

#[test]
fn bounded_sink_rejects_and_keeps_prefix() {
    let td = TypeDescription {
        ident: s("Example"),
        generics: Vec::new(),
        from_tys: names(&["Remote"]),
        data: DataDescription::Struct(FieldsDescription::Unnamed(vec![
            bare_field("u8"),
            bare_field("u64"),
        ])),
    };
    let plan = must_plan(&td);
    let value = ForeignValue::Struct(vec![FieldValue::Byte(1), FieldValue::Int(2)]);

    // the first field (2 bytes) fits, the second (9 bytes) does not
    let mut sink = ByteSink::bounded(4);
    let r = serialize_with(&plan, &value, &mut sink);
    assert!(r.is_err());
    assert_eq!(sink.into_bytes(), vec![TAG_BYTE, 1]);

    // a sink with room for everything accepts the whole payload
    let mut roomy = ByteSink::bounded(11);
    assert!(serialize_with(&plan, &value, &mut roomy).is_ok());
    assert_eq!(roomy.into_bytes().len(), 11);
}

#[test]
fn populated_values_round_trip() {
    let td = TypeDescription {
        ident: s("Example"),
        generics: Vec::new(),
        from_tys: names(&["Remote"]),
        data: DataDescription::Struct(FieldsDescription::Named(vec![
            bare_field("u8"),
            bare_field("Vec<u64>"),
            bare_field("Option<NonZeroU64>"),
            bare_field("Vec<String>"),
            bare_field("[u8; 4]"),
        ])),
    };
    let value = ForeignValue::Struct(vec![
        FieldValue::Byte(200),
        FieldValue::Ints(vec![1, u64::MAX, 0]),
        FieldValue::OptInt(Some(42)),
        FieldValue::Texts(vec![b"alpha".to_vec(), Vec::new(), b"beta".to_vec()]),
        FieldValue::Bytes(vec![4, 3, 2, 1]),
    ]);
    assert_eq!(roundtrip_value(&td, &value), value);
}

#[test]
fn decode_rejects_malformed_regions() {
    // an unknown tag
    assert_eq!(rkyv_with::codec::decode_field(&vec![0xee], 0, 1), None);
    // a truncated integer
    assert_eq!(rkyv_with::codec::decode_field(&vec![TAG_INT, 1, 2], 0, 3), None);
    // a byte string whose length prefix overruns the region
    let bad = [vec![TAG_BYTES], le(5), vec![1, 2]].concat();
    let bad_len = bad.len();
    assert_eq!(rkyv_with::codec::decode_field(&bad, 0, bad_len), None);
    // a valid region decodes
    let good = [vec![TAG_INT], le(77)].concat();
    assert_eq!(rkyv_with::codec::decode_field(&good, 0, 9), Some(FieldValue::Int(77)));
}
