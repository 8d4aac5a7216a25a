use pyrotobuf::Error;
use pyrotobuf::descriptor::{Cardinality, DescriptorPool, FieldDescriptor, Kind, MessageDescriptor};
use pyrotobuf::json::JsonOptions;
use pyrotobuf::message::{DynamicMessage, Value};
use pyrotobuf::text::TextOptions;
use pyrotobuf::wire::{wire_decode, wire_encode};

fn f(name: &str, number: u32, kind: Kind) -> FieldDescriptor {
    FieldDescriptor {
        name: name.to_string(),
        full_name: format!("demo.All.{}", name),
        json_name: name.to_string(),
        number,
        kind,
        cardinality: Cardinality::Optional,
    }
}

fn scalar_pool() -> DescriptorPool {
    let md = MessageDescriptor {
        name: "All".to_string(),
        full_name: "demo.All".to_string(),
        fields: vec![
            f("b", 1, Kind::Bool),
            f("i32", 2, Kind::Int32),
            f("i64", 3, Kind::Int64),
            f("u32", 4, Kind::Uint32),
            f("u64", 5, Kind::Uint64),
            f("s32", 6, Kind::Sint32),
            f("s64", 7, Kind::Sint64),
            f("f32", 8, Kind::Fixed32),
            f("f64", 9, Kind::Fixed64),
            f("sf32", 10, Kind::Sfixed32),
            f("sf64", 11, Kind::Sfixed64),
            f("txt", 12, Kind::Str),
            f("raw", 13, Kind::Bytes),
            f("e", 14, Kind::Enum),
        ],
        wire_order: vec![],
    };
    DescriptorPool::assemble(vec![md], vec![]).unwrap()
}

fn person_and_family_pool() -> DescriptorPool {
    let person = MessageDescriptor {
        name: "Person".to_string(),
        full_name: "demo.Person".to_string(),
        fields: vec![
            FieldDescriptor {
                name: "name".to_string(),
                full_name: "demo.Person.name".to_string(),
                json_name: "name".to_string(),
                number: 1,
                kind: Kind::Str,
                cardinality: Cardinality::Optional,
            },
            FieldDescriptor {
                name: "age".to_string(),
                full_name: "demo.Person.age".to_string(),
                json_name: "age".to_string(),
                number: 2,
                kind: Kind::Int32,
                cardinality: Cardinality::Optional,
            },
            FieldDescriptor {
                name: "user_id".to_string(),
                full_name: "demo.Person.user_id".to_string(),
                json_name: "userId".to_string(),
                number: 3,
                kind: Kind::Str,
                cardinality: Cardinality::Optional,
            },
        ],
        wire_order: vec![],
    };
    let family = MessageDescriptor {
        name: "Family".to_string(),
        full_name: "demo.Family".to_string(),
        fields: vec![
            FieldDescriptor {
                name: "label".to_string(),
                full_name: "demo.Family.label".to_string(),
                json_name: "label".to_string(),
                number: 1,
                kind: Kind::Str,
                cardinality: Cardinality::Optional,
            },
            FieldDescriptor {
                name: "head".to_string(),
                full_name: "demo.Family.head".to_string(),
                json_name: "head".to_string(),
                number: 2,
                kind: Kind::Message(0),
                cardinality: Cardinality::Optional,
            },
        ],
        wire_order: vec![],
    };
    DescriptorPool::assemble(vec![person, family], vec![]).unwrap()
}

fn ann(pool: &DescriptorPool) -> DynamicMessage {
    let mut m = DynamicMessage::new(pool, 0);
    m.set_field_by_name(pool, "name", Value::Str("Ann".to_string()))
        .unwrap();
    m.set_field_by_name(pool, "age", Value::I32(30)).unwrap();
    m
}

#[test]
fn wire_round_trip_scenario_person() {
    let pool = person_and_family_pool();
    let m = ann(&pool);
    let bytes = wire_encode(&pool, &m);
    // name="Ann" -> key 0a len 3 'A' 'n' 'n'; age=30 -> key 10 1e.
    assert_eq!(bytes, vec![0x0a, 0x03, 0x41, 0x6e, 0x6e, 0x10, 0x1e]);
    let back = wire_decode(&pool, 0, &bytes).unwrap();
    assert!(back.equals(&m));
}

#[test]
fn wire_round_trip_every_scalar_kind() {
    let pool = scalar_pool();
    let mut m = DynamicMessage::new(&pool, 0);
    m.set_field_by_name(&pool, "b", Value::Bool(true)).unwrap();
    m.set_field_by_name(&pool, "i32", Value::I32(-42)).unwrap();
    m.set_field_by_name(&pool, "i64", Value::I64(i64::MIN)).unwrap();
    m.set_field_by_name(&pool, "u32", Value::U32(u32::MAX)).unwrap();
    m.set_field_by_name(&pool, "u64", Value::U64(u64::MAX)).unwrap();
    m.set_field_by_name(&pool, "s32", Value::I32(-7)).unwrap();
    m.set_field_by_name(&pool, "s64", Value::I64(-1)).unwrap();
    m.set_field_by_name(&pool, "f32", Value::U32(0xdeadbeef)).unwrap();
    m.set_field_by_name(&pool, "f64", Value::U64(0x0123456789abcdef)).unwrap();
    m.set_field_by_name(&pool, "sf32", Value::I32(i32::MIN)).unwrap();
    m.set_field_by_name(&pool, "sf64", Value::I64(-5)).unwrap();
    m.set_field_by_name(&pool, "txt", Value::Str("héllo\n".to_string())).unwrap();
    m.set_field_by_name(&pool, "raw", Value::Bytes(vec![0, 1, 2, 255])).unwrap();
    m.set_field_by_name(&pool, "e", Value::EnumNumber(-3)).unwrap();
    let bytes = wire_encode(&pool, &m);
    let back = wire_decode(&pool, 0, &bytes).unwrap();
    assert!(back.equals(&m));
}

#[test]
fn wire_encodes_sint_with_zigzag() {
    let pool = scalar_pool();
    let mut m = DynamicMessage::new(&pool, 0);
    m.set_field_by_name(&pool, "s32", Value::I32(-1)).unwrap();
    let bytes = wire_encode(&pool, &m);
    // field 6, varint wire type -> key 0x30; zigzag(-1) == 1.
    assert_eq!(bytes, vec![0x30, 0x01]);
}

#[test]
fn wire_round_trip_nested_message() {
    let pool = person_and_family_pool();
    let mut fam = DynamicMessage::new(&pool, 1);
    fam.set_field_by_name(&pool, "label", Value::Str("smiths".to_string()))
        .unwrap();
    fam.set_field_by_name(&pool, "head", Value::Message(Box::new(ann(&pool))))
        .unwrap();
    let bytes = wire_encode(&pool, &fam);
    let back = wire_decode(&pool, 1, &bytes).unwrap();
    assert!(back.equals(&fam));
}

#[test]
fn wire_decode_skips_unknown_fields() {
    let pool = person_and_family_pool();
    // Unknown field 15 (varint 7), then name="Ann".
    let bytes = vec![0x78, 0x07, 0x0a, 0x03, 0x41, 0x6e, 0x6e];
    let m = wire_decode(&pool, 0, &bytes).unwrap();
    assert!(m.equals(&{
        let mut e = DynamicMessage::new(&pool, 0);
        e.set_field_by_name(&pool, "name", Value::Str("Ann".to_string()))
            .unwrap();
        e
    }));
}

#[test]
fn wire_decode_rejects_truncated_input() {
    let pool = person_and_family_pool();
    assert!(matches!(wire_decode(&pool, 0, &vec![0x0a, 0x05, 0x41]), Err(Error::WireDecode)));
    assert!(matches!(wire_decode(&pool, 0, &vec![0x80]), Err(Error::WireDecode)));
}

#[test]
fn wire_decode_rejects_wrong_wire_type() {
    let pool = person_and_family_pool();
    // Field 2 (age, varint kind) sent as length-delimited: key 0x12.
    assert!(matches!(wire_decode(&pool, 0, &vec![0x12, 0x01, 0x00]), Err(Error::WireDecode)));
}

#[test]
fn json_scenario_person_defaults() {
    let pool = person_and_family_pool();
    let m = ann(&pool);
    let o = JsonOptions::default();
    let s = m.to_json(&pool, &o).unwrap();
    assert_eq!(s, "{\"name\":\"Ann\",\"age\":30,\"userId\":\"\"}");
}

#[test]
fn json_skip_default_fields_drops_unset_and_zero() {
    let pool = person_and_family_pool();
    let m = ann(&pool);
    let o = JsonOptions {
        skip_default_fields: true,
        ..JsonOptions::default()
    };
    assert_eq!(m.to_json(&pool, &o).unwrap(), "{\"name\":\"Ann\",\"age\":30}");
}

#[test]
fn json_use_proto_field_name_keeps_declared_name() {
    let pool = person_and_family_pool();
    let mut m = DynamicMessage::new(&pool, 0);
    m.set_field_by_name(&pool, "user_id", Value::Str("u7".to_string()))
        .unwrap();
    let skip = JsonOptions {
        skip_default_fields: true,
        ..JsonOptions::default()
    };
    let proto = JsonOptions {
        use_proto_field_name: true,
        skip_default_fields: true,
        ..JsonOptions::default()
    };
    assert_eq!(m.to_json(&pool, &skip).unwrap(), "{\"userId\":\"u7\"}");
    assert_eq!(m.to_json(&pool, &proto).unwrap(), "{\"user_id\":\"u7\"}");
}

#[test]
fn json_stringify_64_bit_integers() {
    let pool = scalar_pool();
    let mut m = DynamicMessage::new(&pool, 0);
    m.set_field_by_name(&pool, "i64", Value::I64(-9007199254740993))
        .unwrap();
    let o = JsonOptions {
        stringify_64_bit_integers: true,
        skip_default_fields: true,
        ..JsonOptions::default()
    };
    assert_eq!(m.to_json(&pool, &o).unwrap(), "{\"i64\":\"-9007199254740993\"}");
}

#[test]
fn json_bytes_render_as_base64() {
    let pool = scalar_pool();
    let mut m = DynamicMessage::new(&pool, 0);
    m.set_field_by_name(&pool, "raw", Value::Bytes(vec![1, 2, 3, 4]))
        .unwrap();
    let o = JsonOptions {
        skip_default_fields: true,
        ..JsonOptions::default()
    };
    assert_eq!(m.to_json(&pool, &o).unwrap(), "{\"raw\":\"AQIDBA==\"}");
}

#[test]
fn json_escapes_string_content() {
    let pool = person_and_family_pool();
    let mut m = DynamicMessage::new(&pool, 0);
    m.set_field_by_name(&pool, "name", Value::Str("a\"b\\c\n\u{1}".to_string()))
        .unwrap();
    let o = JsonOptions {
        skip_default_fields: true,
        ..JsonOptions::default()
    };
    assert_eq!(m.to_json(&pool, &o).unwrap(), "{\"name\":\"a\\\"b\\\\c\\n\\u0001\"}");
}

#[test]
fn json_round_trip_reproduces_set_fields() {
    let pool = person_and_family_pool();
    let mut fam = DynamicMessage::new(&pool, 1);
    fam.set_field_by_name(&pool, "label", Value::Str("smiths".to_string()))
        .unwrap();
    fam.set_field_by_name(&pool, "head", Value::Message(Box::new(ann(&pool))))
        .unwrap();
    let o = JsonOptions {
        skip_default_fields: true,
        ..JsonOptions::default()
    };
    let s = fam.to_json(&pool, &o).unwrap();
    let back = DynamicMessage::from_json(&pool, 1, &s).unwrap();
    assert!(back.equals(&fam));
}

#[test]
fn json_parse_accepts_both_name_forms_and_whitespace() {
    let pool = person_and_family_pool();
    let m = DynamicMessage::from_json(&pool, 0, " { \"user_id\" : \"a\" , \"age\" : 5 } ")
        .unwrap();
    let m2 = DynamicMessage::from_json(&pool, 0, "{\"userId\":\"a\",\"age\":5}").unwrap();
    assert!(m.equals(&m2));
}

#[test]
fn json_parse_null_leaves_field_unset() {
    let pool = person_and_family_pool();
    let m = DynamicMessage::from_json(&pool, 1, "{\"head\":null,\"label\":\"x\"}").unwrap();
    assert_eq!(m.fields(&pool).len(), 1);
}

#[test]
fn json_parse_rejects_malformed_and_mismatched_input() {
    let pool = person_and_family_pool();
    assert!(matches!(
        DynamicMessage::from_json(&pool, 0, "{\"age\":\"x\"}"),
        Err(Error::JsonParse)
    ));
    assert!(matches!(DynamicMessage::from_json(&pool, 0, "{\"nope\":1}"), Err(Error::JsonParse)));
    assert!(matches!(DynamicMessage::from_json(&pool, 0, "{"), Err(Error::JsonParse)));
    assert!(matches!(DynamicMessage::from_json(&pool, 0, "{} trailing"), Err(Error::JsonParse)));
    assert!(matches!(DynamicMessage::from_json(&pool, 0, "{\"age\":2147483648}"), Err(Error::JsonParse)));
}

#[test]
fn json_parse_unescapes_strings_and_base64() {
    let pool = scalar_pool();
    let m = DynamicMessage::from_json(
        &pool,
        0,
        "{\"txt\":\"a\\nb\\u0041\",\"raw\":\"AQIDBA==\"}",
    )
    .unwrap();
    match m.get_field_by_name(&pool, "txt").unwrap() {
        Value::Str(s) => assert_eq!(s, "a\nbA"),
        _ => panic!("wrong kind"),
    }
    match m.get_field_by_name(&pool, "raw").unwrap() {
        Value::Bytes(b) => assert_eq!(b, vec![1, 2, 3, 4]),
        _ => panic!("wrong kind"),
    }
}

#[test]
fn text_scenario_pretty_one_field_per_line() {
    let pool = person_and_family_pool();
    let m = ann(&pool);
    let o = TextOptions {
        pretty: true,
        ..TextOptions::default()
    };
    assert_eq!(m.to_text(&pool, &o).unwrap(), "name: \"Ann\"\nage: 30\n");
}

#[test]
fn text_compact_and_nested_pretty() {
    let pool = person_and_family_pool();
    let mut fam = DynamicMessage::new(&pool, 1);
    fam.set_field_by_name(&pool, "label", Value::Str("s".to_string()))
        .unwrap();
    fam.set_field_by_name(&pool, "head", Value::Message(Box::new(ann(&pool))))
        .unwrap();
    let compact = TextOptions::default();
    assert_eq!(
        fam.to_text(&pool, &compact).unwrap(),
        "label: \"s\",head{name: \"Ann\",age: 30}"
    );
    let pretty = TextOptions {
        pretty: true,
        ..TextOptions::default()
    };
    assert_eq!(
        fam.to_text(&pool, &pretty).unwrap(),
        "label: \"s\"\nhead {\n  name: \"Ann\"\n  age: 30\n}\n"
    );
}

#[test]
fn text_escapes_strings_and_bytes() {
    let pool = scalar_pool();
    let mut m = DynamicMessage::new(&pool, 0);
    m.set_field_by_name(&pool, "txt", Value::Str("a\"b\n".to_string()))
        .unwrap();
    m.set_field_by_name(&pool, "raw", Value::Bytes(vec![65, 0, 255]))
        .unwrap();
    let o = TextOptions::default();
    assert_eq!(
        m.to_text(&pool, &o).unwrap(),
        "txt: \"a\\\"b\\n\",raw: \"A\\000\\377\""
    );
}

#[test]
fn float_values_other_than_zero_are_unsupported_in_text_and_json() {
    let md = MessageDescriptor {
        name: "F".to_string(),
        full_name: "demo.F".to_string(),
        fields: vec![f("d", 1, Kind::Double)],
        wire_order: vec![],
    };
    let pool = DescriptorPool::assemble(vec![md], vec![]).unwrap();
    let mut m = DynamicMessage::new(&pool, 0);
    // The bit pattern of a non-zero double, carried opaquely.
    m.set_field_by_name(&pool, "d", Value::F64Bits(0x3ff0000000000000))
        .unwrap();
    let jo = JsonOptions::default();
    let to = TextOptions::default();
    assert!(matches!(m.to_json(&pool, &jo), Err(Error::Unsupported)));
    assert!(matches!(m.to_text(&pool, &to), Err(Error::Unsupported)));
    // The wire codec carries the bits exactly.
    let bytes = wire_encode(&pool, &m);
    let back = wire_decode(&pool, 0, &bytes).unwrap();
    assert!(back.equals(&m));
    // An unset double field still renders as its zero value.
    let empty = DynamicMessage::new(&pool, 0);
    assert_eq!(empty.to_json(&pool, &jo).unwrap(), "{\"d\":0}");
}

#[test]
fn text_parse_round_trips_rendered_output() {
    let pool = person_and_family_pool();
    let mut fam = DynamicMessage::new(&pool, 1);
    fam.set_field_by_name(&pool, "label", Value::Str("s\"x\n".to_string()))
        .unwrap();
    fam.set_field_by_name(&pool, "head", Value::Message(Box::new(ann(&pool))))
        .unwrap();
    for pretty in [false, true] {
        let o = TextOptions {
            pretty,
            ..TextOptions::default()
        };
        let rendered = fam.to_text(&pool, &o).unwrap();
        let back = DynamicMessage::from_text(&pool, 1, &rendered).unwrap();
        assert!(back.equals(&fam));
    }
}

#[test]
fn text_parse_reads_names_values_and_braces() {
    let pool = person_and_family_pool();
    let m = DynamicMessage::from_text(&pool, 1, " label: \"x\" , head { age: 7 } ").unwrap();
    match m.get_field_by_name(&pool, "head").unwrap() {
        Value::Message(sub) => match sub.get_field_by_name(&pool, "age").unwrap() {
            Value::I32(n) => assert_eq!(n, 7),
            _ => panic!("wrong kind"),
        },
        _ => panic!("wrong kind"),
    }
}

#[test]
fn text_parse_unescapes_octal_bytes() {
    let pool = scalar_pool();
    let m = DynamicMessage::from_text(&pool, 0, "raw: \"A\\000\\377\"").unwrap();
    match m.get_field_by_name(&pool, "raw").unwrap() {
        Value::Bytes(b) => assert_eq!(b, vec![65, 0, 255]),
        _ => panic!("wrong kind"),
    }
}

#[test]
fn text_parse_rejects_unknown_fields_and_syntax_errors() {
    let pool = person_and_family_pool();
    assert!(matches!(
        DynamicMessage::from_text(&pool, 0, "nope: 1"),
        Err(Error::TextParse)
    ));
    assert!(matches!(
        DynamicMessage::from_text(&pool, 0, "age 1"),
        Err(Error::TextParse)
    ));
    assert!(matches!(
        DynamicMessage::from_text(&pool, 0, "age: \"x\""),
        Err(Error::TextParse)
    ));
    assert!(matches!(
        DynamicMessage::from_text(&pool, 1, "head { age: 1"),
        Err(Error::TextParse)
    ));
}

#[test]
fn json_omits_unset_message_fields_even_with_defaults() {
    let pool = person_and_family_pool();
    let fam = DynamicMessage::new(&pool, 1);
    let o = JsonOptions::default();
    // The unset string field renders as its zero value; the unset
    // message-typed field is omitted entirely.
    assert_eq!(fam.to_json(&pool, &o).unwrap(), "{\"label\":\"\"}");
}
