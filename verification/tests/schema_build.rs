// Building the pool from real serialized descriptor bundles: these tests
// hand-craft `FileDescriptorSet` wire bytes, so they exercise the whole
// ingestion path, including the prost-reflect decoding the library relies
// on.

use pyrotobuf::Error;
use pyrotobuf::descriptor::{Cardinality, DescriptorPool, Kind};
use pyrotobuf::message::{DynamicMessage, Value};
use pyrotobuf::wire::{wire_decode, wire_encode};

fn varint(mut n: u64) -> Vec<u8> {
    let mut out = Vec::new();
    while n >= 128 {
        out.push((n % 128 + 128) as u8);
        n /= 128;
    }
    out.push(n as u8);
    out
}

fn tag_ld(field: u64, payload: &[u8]) -> Vec<u8> {
    let mut out = varint(field * 8 + 2);
    out.extend_from_slice(&varint(payload.len() as u64));
    out.extend_from_slice(payload);
    out
}

fn tag_vint(field: u64, value: u64) -> Vec<u8> {
    let mut out = varint(field * 8);
    out.extend_from_slice(&varint(value));
    out
}

fn tag_str(field: u64, text: &str) -> Vec<u8> {
    tag_ld(field, text.as_bytes())
}

fn field_proto(name: &str, number: u64, type_code: u64, target: Option<&str>) -> Vec<u8> {
    let mut out = tag_str(1, name);
    out.extend_from_slice(&tag_vint(3, number));
    out.extend_from_slice(&tag_vint(4, 1)); // LABEL_OPTIONAL
    out.extend_from_slice(&tag_vint(5, type_code));
    if let Some(t) = target {
        out.extend_from_slice(&tag_str(6, t));
    }
    out
}

fn demo_descriptor_set() -> Vec<u8> {
    // message Person { string user_id = 3; string name = 1; int32 age = 2; }
    let mut person = tag_str(1, "Person");
    person.extend_from_slice(&tag_ld(2, &field_proto("user_id", 3, 9, None)));
    person.extend_from_slice(&tag_ld(2, &field_proto("name", 1, 9, None)));
    person.extend_from_slice(&tag_ld(2, &field_proto("age", 2, 5, None)));
    // message Family { Person head = 1; }
    let mut family = tag_str(1, "Family");
    family.extend_from_slice(&tag_ld(2, &field_proto("head", 1, 11, Some(".demo.Person"))));
    // service Greeter { rpc SayHello(Person) returns (Person); }
    let mut method = tag_str(1, "SayHello");
    method.extend_from_slice(&tag_str(2, ".demo.Person"));
    method.extend_from_slice(&tag_str(3, ".demo.Person"));
    let mut service = tag_str(1, "Greeter");
    service.extend_from_slice(&tag_ld(2, &method));
    // The file, and the set holding it.
    let mut file = tag_str(1, "demo.proto");
    file.extend_from_slice(&tag_str(2, "demo"));
    file.extend_from_slice(&tag_ld(4, &person));
    file.extend_from_slice(&tag_ld(4, &family));
    file.extend_from_slice(&tag_ld(6, &service));
    file.extend_from_slice(&tag_str(12, "proto3"));
    tag_ld(1, &file)
}

#[test]
fn build_resolves_names_kinds_and_cross_references() {
    let bytes = demo_descriptor_set();
    let pool = DescriptorPool::build(&bytes).unwrap();
    let pi = pool.get_message_by_name("demo.Person").unwrap();
    let fi = pool.get_message_by_name("demo.Family").unwrap();
    let person = &pool.messages[pi];
    assert_eq!(person.name, "Person");
    assert_eq!(person.full_name, "demo.Person");
    // Declaration order is kept, independent of field numbers.
    assert_eq!(person.fields[0].name, "user_id");
    assert_eq!(person.fields[0].number, 3);
    assert_eq!(person.fields[0].kind, Kind::Str);
    assert_eq!(person.fields[0].cardinality, Cardinality::Optional);
    assert_eq!(person.fields[1].name, "name");
    assert_eq!(person.fields[2].name, "age");
    assert_eq!(person.fields[2].kind, Kind::Int32);
    assert_eq!(person.fields[2].full_name, "demo.Person.age");
    // The JSON alias is computed from the declared name.
    assert_eq!(person.fields[0].json_name, "userId");
    // The message-typed field of Family resolves to Person's pool index.
    let family = &pool.messages[fi];
    assert_eq!(family.fields[0].kind, Kind::Message(pi));
}

#[test]
fn build_resolves_services_and_methods() {
    let bytes = demo_descriptor_set();
    let pool = DescriptorPool::build(&bytes).unwrap();
    let pi = pool.get_message_by_name("demo.Person").unwrap();
    let si = pool.get_service_by_name("demo.Greeter").unwrap();
    let svc = &pool.services[si];
    assert_eq!(svc.full_name, "demo.Greeter");
    assert_eq!(svc.name, "Greeter");
    let mi = svc.get_method_by_name("SayHello").unwrap();
    assert_eq!(svc.methods[mi].full_name, "demo.Greeter.SayHello");
    assert_eq!(svc.methods[mi].input_message(), pi);
    assert_eq!(svc.methods[mi].output_message(), pi);
}

#[test]
fn built_pool_drives_the_codecs() {
    let bytes = demo_descriptor_set();
    let pool = DescriptorPool::build(&bytes).unwrap();
    let pi = pool.get_message_by_name("demo.Person").unwrap();
    let mut m = DynamicMessage::new(&pool, pi);
    m.set_field_by_name(&pool, "name", Value::Str("Ann".to_string()))
        .unwrap();
    m.set_field_by_name(&pool, "age", Value::I32(30)).unwrap();
    let wire = wire_encode(&pool, &m);
    // Emission follows field numbers: name (1) before age (2), although
    // user_id (3) is declared first.
    assert_eq!(wire, vec![0x0a, 0x03, 0x41, 0x6e, 0x6e, 0x10, 0x1e]);
    let back = wire_decode(&pool, pi, &wire).unwrap();
    assert!(back.equals(&m));
}

#[test]
fn build_rejects_malformed_bundles() {
    assert!(matches!(DescriptorPool::build(&[0xff, 0xff, 0xff]), Err(Error::SchemaDecode)));
    // A bundle whose message field references an undeclared type.
    let mut broken = tag_str(1, "Broken");
    broken.extend_from_slice(&tag_ld(2, &field_proto("x", 1, 11, Some(".demo.Missing"))));
    let mut file = tag_str(1, "b.proto");
    file.extend_from_slice(&tag_str(2, "demo"));
    file.extend_from_slice(&tag_ld(4, &broken));
    file.extend_from_slice(&tag_str(12, "proto3"));
    let set = tag_ld(1, &file);
    assert!(matches!(DescriptorPool::build(&set), Err(Error::SchemaDecode)));
}

#[test]
fn camel_case_follows_proto_json_naming() {
    assert_eq!(pyrotobuf::schema::camel_case("user_id"), "userId");
    assert_eq!(pyrotobuf::schema::camel_case("a_b_c"), "aBC");
    assert_eq!(pyrotobuf::schema::camel_case("already"), "already");
    assert_eq!(pyrotobuf::schema::camel_case("_x"), "X");
}
