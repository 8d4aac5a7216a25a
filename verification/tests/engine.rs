use pyrotobuf::Error;
use pyrotobuf::descriptor::{
    Cardinality, DescriptorPool, FieldDescriptor, Kind, MessageDescriptor, MethodDescriptor,
    ServiceDescriptor,
};
use pyrotobuf::message::{DynamicMessage, Value};

fn field(name: &str, msg: &str, number: u32, kind: Kind, json: &str) -> FieldDescriptor {
    FieldDescriptor {
        name: name.to_string(),
        full_name: format!("{}.{}", msg, name),
        json_name: json.to_string(),
        number,
        kind,
        cardinality: Cardinality::Optional,
    }
}

fn person_message() -> MessageDescriptor {
    MessageDescriptor {
        name: "Person".to_string(),
        full_name: "demo.Person".to_string(),
        fields: vec![
            field("name", "demo.Person", 1, Kind::Str, "name"),
            field("age", "demo.Person", 2, Kind::Int32, "age"),
            field("user_id", "demo.Person", 3, Kind::Str, "userId"),
        ],
        wire_order: vec![],
    }
}

fn person_pool() -> DescriptorPool {
    DescriptorPool::assemble(vec![person_message()], vec![]).unwrap()
}

fn family_pool() -> DescriptorPool {
    // demo.Person at index 0, demo.Family at index 1 with a nested Person.
    let family = MessageDescriptor {
        name: "Family".to_string(),
        full_name: "demo.Family".to_string(),
        fields: vec![
            field("label", "demo.Family", 1, Kind::Str, "label"),
            field("head", "demo.Family", 2, Kind::Message(0), "head"),
            field("count", "demo.Family", 7, Kind::Uint64, "count"),
        ],
        wire_order: vec![],
    };
    DescriptorPool::assemble(vec![person_message(), family], vec![]).unwrap()
}

fn ann(pool: &DescriptorPool, idx: usize) -> DynamicMessage {
    let mut m = DynamicMessage::new(pool, idx);
    m.set_field_by_name(pool, "name", Value::Str("Ann".to_string()))
        .unwrap();
    m.set_field_by_name(pool, "age", Value::I32(30)).unwrap();
    m
}

#[test]
fn lookup_by_name_finds_message() {
    let pool = person_pool();
    let idx = pool.get_message_by_name("demo.Person").unwrap();
    assert_eq!(idx, 0);
    assert_eq!(pool.messages[idx].name, "Person");
}

#[test]
fn lookup_unknown_type_is_not_found() {
    let pool = person_pool();
    assert_eq!(pool.get_message_by_name("Unknown.Type"), Err(Error::NotFound));
    assert_eq!(pool.get_service_by_name("Unknown.Svc"), Err(Error::NotFound));
}

#[test]
fn get_unset_field_yields_zero_value() {
    let pool = person_pool();
    let m = DynamicMessage::new(&pool, 0);
    match m.get_field_by_name(&pool, "name").unwrap() {
        Value::Str(s) => assert_eq!(s, ""),
        _ => panic!("wrong kind"),
    }
    match m.get_field_by_number(&pool, 2).unwrap() {
        Value::I32(n) => assert_eq!(n, 0),
        _ => panic!("wrong kind"),
    }
}

#[test]
fn set_then_get_round_trips_value() {
    let pool = person_pool();
    let m = ann(&pool, 0);
    match m.get_field_by_name(&pool, "age").unwrap() {
        Value::I32(n) => assert_eq!(n, 30),
        _ => panic!("wrong kind"),
    }
    match m.get_field_by_number(&pool, 1).unwrap() {
        Value::Str(s) => assert_eq!(s, "Ann"),
        _ => panic!("wrong kind"),
    }
}

#[test]
fn set_kind_mismatch_fails_and_leaves_message_unchanged() {
    let pool = person_pool();
    let mut m = ann(&pool, 0);
    let snapshot = m.deep_clone();
    let r = m.set_field_by_name(&pool, "age", Value::Str("x".to_string()));
    assert_eq!(r, Err(Error::TypeMismatch));
    assert!(m.equals(&snapshot));
    let r2 = m.set_field_by_number(&pool, 1, Value::Bool(true));
    assert_eq!(r2, Err(Error::TypeMismatch));
    assert!(m.equals(&snapshot));
}

#[test]
fn unknown_field_name_and_number_fail_with_field_not_found() {
    let pool = person_pool();
    let mut m = ann(&pool, 0);
    let snapshot = m.deep_clone();
    assert!(matches!(m.get_field_by_name(&pool, "nope"), Err(Error::FieldNotFound)));
    assert!(matches!(m.get_field_by_number(&pool, 99), Err(Error::FieldNotFound)));
    assert_eq!(
        m.set_field_by_name(&pool, "nope", Value::I32(1)),
        Err(Error::FieldNotFound)
    );
    assert_eq!(
        m.set_field_by_number(&pool, 99, Value::I32(1)),
        Err(Error::FieldNotFound)
    );
    assert!(m.equals(&snapshot));
}

#[test]
fn enumeration_order_is_declaration_order_whatever_the_set_order() {
    let pool = person_pool();
    let mut a = DynamicMessage::new(&pool, 0);
    a.set_field_by_name(&pool, "age", Value::I32(30)).unwrap();
    a.set_field_by_name(&pool, "name", Value::Str("Ann".to_string()))
        .unwrap();
    let mut b = DynamicMessage::new(&pool, 0);
    b.set_field_by_name(&pool, "name", Value::Str("Ann".to_string()))
        .unwrap();
    b.set_field_by_name(&pool, "age", Value::I32(30)).unwrap();
    assert!(a.equals(&b));
    let fields = a.fields(&pool);
    assert_eq!(fields.len(), 2);
    assert_eq!(fields[0].0.name, "name");
    assert_eq!(fields[1].0.name, "age");
}

#[test]
fn batch_construction_applies_all_or_fails() {
    let pool = person_pool();
    let entries = vec![
        ("name".to_string(), Value::Str("Ann".to_string())),
        ("age".to_string(), Value::I32(30)),
    ];
    let m = DynamicMessage::new_with_entries(&pool, 0, &entries).unwrap();
    assert!(m.equals(&ann(&pool, 0)));
    let bad = vec![
        ("name".to_string(), Value::Str("Ann".to_string())),
        ("age".to_string(), Value::Bool(true)),
    ];
    assert!(matches!(
        DynamicMessage::new_with_entries(&pool, 0, &bad),
        Err(Error::TypeMismatch)
    ));
    let unknown = vec![("who".to_string(), Value::I32(1))];
    assert!(matches!(
        DynamicMessage::new_with_entries(&pool, 0, &unknown),
        Err(Error::FieldNotFound)
    ));
}

#[test]
fn repeated_fields_are_unsupported() {
    let mut md = person_message();
    md.fields.push(FieldDescriptor {
        name: "tags".to_string(),
        full_name: "demo.Person.tags".to_string(),
        json_name: "tags".to_string(),
        number: 9,
        kind: Kind::Str,
        cardinality: Cardinality::Repeated,
    });
    let pool = DescriptorPool::assemble(vec![md], vec![]).unwrap();
    let mut m = DynamicMessage::new(&pool, 0);
    assert!(matches!(m.get_field_by_name(&pool, "tags"), Err(Error::Unsupported)));
    assert!(matches!(
        m.set_field_by_name(&pool, "tags", Value::Str("x".to_string())),
        Err(Error::Unsupported)
    ));
}

#[test]
fn assemble_rejects_duplicate_numbers_and_names() {
    let mut md = person_message();
    md.fields.push(field("name2", "demo.Person", 1, Kind::Str, "name2"));
    assert_eq!(
        DescriptorPool::assemble(vec![md], vec![]).err(),
        Some(Error::SchemaDecode)
    );
    let mut md2 = person_message();
    md2.fields.push(field("name", "demo.Person", 8, Kind::Str, "name"));
    assert_eq!(
        DescriptorPool::assemble(vec![md2], vec![]).err(),
        Some(Error::SchemaDecode)
    );
    let md3 = person_message();
    let mut bad = md3;
    bad.fields[0].number = 0;
    assert_eq!(
        DescriptorPool::assemble(vec![bad], vec![]).err(),
        Some(Error::SchemaDecode)
    );
}

#[test]
fn service_descriptors_resolve_methods() {
    let svc = ServiceDescriptor {
        name: "Greeter".to_string(),
        full_name: "demo.Greeter".to_string(),
        methods: vec![MethodDescriptor {
            name: "Hello".to_string(),
            full_name: "demo.Greeter.Hello".to_string(),
            input: 0,
            output: 0,
        }],
    };
    let pool = DescriptorPool::assemble(vec![person_message()], vec![svc]).unwrap();
    let si = pool.get_service_by_name("demo.Greeter").unwrap();
    let s = &pool.services[si];
    let mi = s.get_method_by_name("Hello").unwrap();
    assert_eq!(s.methods[mi].input_message(), 0);
    assert_eq!(s.methods[mi].output_message(), 0);
    assert_eq!(s.repr(), "<ServiceDescriptor('demo.Greeter')>");
    assert_eq!(s.get_method_by_name("Bye"), Err(Error::NotFound));
}

#[test]
fn descriptor_reprs_render_names_and_kinds() {
    let pool = family_pool();
    assert_eq!(pool.messages[0].repr(), "<MessageDescriptor('demo.Person')>");
    let age = &pool.messages[0].fields[1];
    assert_eq!(
        age.repr(&pool),
        "<FieldDescription(number=2, name='age', kind='int32', carnality='optional')>"
    );
    let head = &pool.messages[1].fields[1];
    assert_eq!(
        head.repr(&pool),
        "<FieldDescription(number=2, name='head', kind='demo.Person', carnality='optional')>"
    );
}

#[test]
fn message_repr_names_type_and_fields() {
    let pool = person_pool();
    let m = ann(&pool, 0);
    assert_eq!(
        m.repr(&pool).unwrap(),
        "Message('demo.Person', name: \"Ann\",age: 30)"
    );
}

#[test]
fn nested_message_values_must_match_target_type() {
    let pool = family_pool();
    let person = ann(&pool, 0);
    let mut fam = DynamicMessage::new(&pool, 1);
    fam.set_field_by_name(&pool, "head", Value::Message(Box::new(person.deep_clone())))
        .unwrap();
    // A Family message is not a Person: assigning it to `head` must fail.
    let other = DynamicMessage::new(&pool, 1);
    assert_eq!(
        fam.set_field_by_name(&pool, "head", Value::Message(Box::new(other))),
        Err(Error::TypeMismatch)
    );
    match fam.get_field_by_name(&pool, "head").unwrap() {
        Value::Message(sub) => assert!(sub.equals(&person)),
        _ => panic!("wrong kind"),
    }
}

#[test]
fn error_labels_are_stable() {
    assert_eq!(Error::SchemaDecode.describe(), "schema decode error");
    assert_eq!(Error::NotFound.describe(), "not found");
    assert_eq!(Error::FieldNotFound.describe(), "field not found");
    assert_eq!(Error::TypeMismatch.describe(), "type mismatch");
    assert_eq!(Error::WireDecode.describe(), "wire decode error");
    assert_eq!(Error::TextParse.describe(), "text parse error");
    assert_eq!(Error::JsonParse.describe(), "json parse error");
    assert_eq!(Error::Unsupported.describe(), "unsupported");
}
