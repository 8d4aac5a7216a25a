//! Schema ingestion: building the verified descriptor pool from a serialized
//! descriptor bundle.
//!
//! Decoding and cross-checking of the bundle itself is done by the
//! `prost_reflect` crate, reached only through the trusted [`pr_extract`]
//! wrapper, whose result — every declaration as plain values, each field
//! declaration as its own wire bytes — is named [`schema_of`], a function of
//! the bundle bytes alone.  Everything after that boundary is verified: the
//! field bytes are parsed by the wire primitives, names are resolved, and
//! [`DescriptorPool::assemble`] re-validates all of it, so
//! [`DescriptorPool::build`] owes exactly the pool those declarations
//! describe.

use vstd::prelude::*;

use crate::Error;
use crate::descriptor::{
    Cardinality, DescriptorPool, FieldDescV, FieldDescriptor, Kind, MessageDescriptor,
    MethodDescriptor, MsgDescV, PoolV, ServiceDescriptor, SvcDescV,
};
use crate::wire::{i32_of_u32_exec, read_varint, skip_value_exec, string_from_utf8};

verus! {

/// One method declaration as the bundle carries it: its name and the
/// fully-qualified names of its input and output message types.
pub struct RawMethod {
    pub name: String,
    pub input: String,
    pub output: String,
}

/// One service declaration: its fully-qualified name and its methods.
pub struct RawService {
    pub full_name: String,
    pub methods: Vec<RawMethod>,
}

/// One message declaration: its fully-qualified name and each of its field
/// declarations as that declaration's own wire bytes.
pub struct RawMessage {
    pub full_name: String,
    pub fields: Vec<Vec<u8>>,
}

/// Everything the engine reads out of a decoded schema bundle, as plain
/// values.
pub struct RawSchema {
    pub messages: Vec<RawMessage>,
    pub services: Vec<RawService>,
}

/// The mathematical models of the raw declarations.
#[verifier::ext_equal]
pub struct RawMethodV {
    pub name: Seq<char>,
    pub input: Seq<char>,
    pub output: Seq<char>,
}

#[verifier::ext_equal]
pub struct RawSvcV {
    pub full_name: Seq<char>,
    pub methods: Seq<RawMethodV>,
}

#[verifier::ext_equal]
pub struct RawMsgV {
    pub full_name: Seq<char>,
    pub fields: Seq<Seq<u8>>,
}

#[verifier::ext_equal]
pub struct RawSchemaV {
    pub messages: Seq<RawMsgV>,
    pub services: Seq<RawSvcV>,
}

impl View for RawMethod {
    type V = RawMethodV;

    open spec fn view(&self) -> RawMethodV {
        RawMethodV { name: self.name@, input: self.input@, output: self.output@ }
    }
}

impl View for RawService {
    type V = RawSvcV;

    open spec fn view(&self) -> RawSvcV {
        RawSvcV {
            full_name: self.full_name@,
            methods: self.methods@.map_values(|m: RawMethod| m@),
        }
    }
}

impl View for RawMessage {
    type V = RawMsgV;

    open spec fn view(&self) -> RawMsgV {
        RawMsgV {
            full_name: self.full_name@,
            fields: self.fields@.map_values(|f: Vec<u8>| f@),
        }
    }
}

impl View for RawSchema {
    type V = RawSchemaV;

    open spec fn view(&self) -> RawSchemaV {
        RawSchemaV {
            messages: self.messages@.map_values(|m: RawMessage| m@),
            services: self.services@.map_values(|s: RawService| s@),
        }
    }
}

pub uninterp spec fn schema_of(bytes: Seq<u8>) -> Option<RawSchemaV>;

/// Relies on `prost_reflect::DescriptorPool::decode` and the descriptor
/// accessors `all_messages`, `full_name`, `descriptor_proto` (whose `field`
/// list is in declaration order), `services`, `methods`, `name`, `input`,
/// `output`, and on `prost::Message::encode_to_vec`: decoding validates the
/// bundle and fails on a malformed one, and the declarations extracted here
/// are a function of the bytes alone — every collection walked is
/// index-ordered, nothing depends on chance or the machine.  The result is
/// named [`schema_of`]; nothing more is assumed of it, and everything built
/// from it is re-validated by verified code.
#[verifier::external_body]
fn pr_extract(bytes: &[u8]) -> (r: Option<RawSchema>)
    ensures
        r matches Some(s) ==> schema_of(bytes@) == Some(s@),
        r is None ==> schema_of(bytes@) is None,
{
    let pool = prost_reflect::DescriptorPool::decode(bytes).ok()?;
    let messages = pool.all_messages().map(|m| RawMessage {
        full_name: m.full_name().to_owned(),
        fields: m.descriptor_proto().field.iter().map(|f| prost_reflect::prost::Message::encode_to_vec(f)).collect(),
    }).collect();
    let services = pool.services().map(|s| RawService {
        full_name: s.full_name().to_owned(),
        methods: s.methods().map(|t| RawMethod {
            name: t.name().to_owned(),
            input: t.input().full_name().to_owned(),
            output: t.output().full_name().to_owned(),
        }).collect(),
    }).collect();
    Some(RawSchema { messages, services })
}

/// The scalar pieces of one raw field declaration, as the descriptor wire
/// format carries them.
pub struct RawField {
    pub name: Option<String>,
    pub number: Option<i32>,
    pub label: Option<i32>,
    pub type_code: Option<i32>,
    pub target_name: Option<String>,
    pub json_name: Option<String>,
}

/// The mathematical model of the scalar pieces.
#[verifier::ext_equal]
pub struct RawFieldV {
    pub name: Option<Seq<char>>,
    pub number: Option<i32>,
    pub label: Option<i32>,
    pub type_code: Option<i32>,
    pub target_name: Option<Seq<char>>,
    pub json_name: Option<Seq<char>>,
}

impl View for RawField {
    type V = RawFieldV;

    open spec fn view(&self) -> RawFieldV {
        RawFieldV {
            name: match self.name {
                Some(ref s) => Some(s@),
                None => None,
            },
            number: self.number,
            label: self.label,
            type_code: self.type_code,
            target_name: match self.target_name {
                Some(ref s) => Some(s@),
                None => None,
            },
            json_name: match self.json_name {
                Some(ref s) => Some(s@),
                None => None,
            },
        }
    }
}

/// A field declaration with nothing read yet.
pub open spec fn raw_field_init() -> RawFieldV {
    RawFieldV {
        name: None,
        number: None,
        label: None,
        type_code: None,
        target_name: None,
        json_name: None,
    }
}

/// What parsing a serialized field declaration yields from position `pos`
/// with pieces `acc` already read: name (1), target type (6) and JSON alias
/// (10) as length-delimited strings, number (3), label (4) and type code
/// (5) as varints, anything else skipped.
pub open spec fn pfp(b: Seq<u8>, pos: int, acc: RawFieldV) -> Result<RawFieldV, Error>
    decreases b.len() - pos,
{
    if pos == b.len() {
        Ok(acc)
    } else if pos < 0 || pos > b.len() {
        Err(Error::SchemaDecode)
    } else {
        match crate::wire::dec_varint(b, pos, b.len() as int) {
            None => Err(Error::SchemaDecode),
            Some((key, p1)) => {
                if !(pos < p1 <= b.len()) {
                    Err(Error::SchemaDecode)
                } else {
                    let num = key / 8;
                    let wt = key % 8;
                    if num == 1 || num == 6 || num == 10 {
                        if wt != 2 {
                            Err(Error::SchemaDecode)
                        } else {
                            match crate::wire::dec_varint(b, p1, b.len() as int) {
                                None => Err(Error::SchemaDecode),
                                Some((n, p2)) => {
                                    if !(p1 < p2 <= b.len()) {
                                        Err(Error::SchemaDecode)
                                    } else if p2 + n > b.len() {
                                        Err(Error::SchemaDecode)
                                    } else {
                                        let payload = b.subrange(p2, p2 + n);
                                        if !vstd::utf8::valid_utf8(payload) {
                                            Err(Error::SchemaDecode)
                                        } else {
                                            let t = vstd::utf8::decode_utf8(payload);
                                            let acc2 = if num == 1 {
                                                RawFieldV { name: Some(t), ..acc }
                                            } else if num == 6 {
                                                RawFieldV { target_name: Some(t), ..acc }
                                            } else {
                                                RawFieldV { json_name: Some(t), ..acc }
                                            };
                                            pfp(b, p2 + n, acc2)
                                        }
                                    }
                                },
                            }
                        }
                    } else if num == 3 || num == 4 || num == 5 {
                        if wt != 0 {
                            Err(Error::SchemaDecode)
                        } else {
                            match crate::wire::dec_varint(b, p1, b.len() as int) {
                                None => Err(Error::SchemaDecode),
                                Some((n, p2)) => {
                                    if !(p1 < p2 <= b.len()) {
                                        Err(Error::SchemaDecode)
                                    } else {
                                        let v = crate::wire::i32_of_u32(
                                            (n % 0x100000000) as u32,
                                        );
                                        let acc2 = if num == 3 {
                                            RawFieldV { number: Some(v), ..acc }
                                        } else if num == 4 {
                                            RawFieldV { label: Some(v), ..acc }
                                        } else {
                                            RawFieldV { type_code: Some(v), ..acc }
                                        };
                                        pfp(b, p2, acc2)
                                    }
                                },
                            }
                        }
                    } else {
                        match crate::wire::skip_value(b, p1, b.len() as int, wt) {
                            None => Err(Error::SchemaDecode),
                            Some(p2) => {
                                if p1 <= p2 <= b.len() && p2 > pos {
                                    pfp(b, p2, acc)
                                } else {
                                    Err(Error::SchemaDecode)
                                }
                            },
                        }
                    }
                }
            },
        }
    }
}

/// Parses a serialized field declaration: name, number, label, type code,
/// target type and JSON alias, skipping everything else.  Fails with
/// [`Error::SchemaDecode`] on malformed bytes.
fn parse_field_proto(b: &Vec<u8>) -> (r: Result<RawField, Error>)
    ensures
        pfp(b@, 0, raw_field_init()) == (match r {
            Ok(f) => Ok::<RawFieldV, Error>(f@),
            Err(e) => Err::<RawFieldV, Error>(e),
        }),
{
    let end = b.len();
    let mut raw = RawField {
        name: None,
        number: None,
        label: None,
        type_code: None,
        target_name: None,
        json_name: None,
    };
    let mut pos: usize = 0;
    while pos < end
        invariant
            pos <= end == b@.len(),
            pfp(b@, 0, raw_field_init()) == pfp(b@, pos as int, raw@),
        decreases end - pos,
    {
        let (key, p1) = match read_varint(b, pos, end) {
            Ok(x) => x,
            Err(_) => {
                return Err(Error::SchemaDecode);
            },
        };
        let num = key / 8;
        let wt = key % 8;
        if num == 1 || num == 6 || num == 10 {
            if wt != 2 {
                return Err(Error::SchemaDecode);
            }
            let (n, p2) = match read_varint(b, p1, end) {
                Ok(x) => x,
                Err(_) => {
                    return Err(Error::SchemaDecode);
                },
            };
            if n > (end - p2) as u64 {
                return Err(Error::SchemaDecode);
            }
            let stop = p2 + (n as usize);
            let payload = crate::wire::copy_range(b, p2, stop);
            let s = match string_from_utf8(payload) {
                Some(s) => s,
                None => {
                    return Err(Error::SchemaDecode);
                },
            };
            if num == 1 {
                raw.name = Some(s);
            } else if num == 6 {
                raw.target_name = Some(s);
            } else {
                raw.json_name = Some(s);
            }
            pos = stop;
        } else if num == 3 || num == 4 || num == 5 {
            if wt != 0 {
                return Err(Error::SchemaDecode);
            }
            let (n, p2) = match read_varint(b, p1, end) {
                Ok(x) => x,
                Err(_) => {
                    return Err(Error::SchemaDecode);
                },
            };
            let v = i32_of_u32_exec((n % 0x100000000) as u32);
            if num == 3 {
                raw.number = Some(v);
            } else if num == 4 {
                raw.label = Some(v);
            } else {
                raw.type_code = Some(v);
            }
            pos = p2;
        } else {
            let p2 = match skip_value_exec(b, p1, end, wt) {
                Ok(x) => x,
                Err(_) => {
                    return Err(Error::SchemaDecode);
                },
            };
            if p2 <= pos {
                return Err(Error::SchemaDecode);
            }
            pos = p2;
        }
    }
    Ok(raw)
}

/// The ASCII upper-case image of a letter; any other character is itself.
pub open spec fn upper_ascii(c: char) -> char {
    match c {
        'a' => 'A',
        'b' => 'B',
        'c' => 'C',
        'd' => 'D',
        'e' => 'E',
        'f' => 'F',
        'g' => 'G',
        'h' => 'H',
        'i' => 'I',
        'j' => 'J',
        'k' => 'K',
        'l' => 'L',
        'm' => 'M',
        'n' => 'N',
        'o' => 'O',
        'p' => 'P',
        'q' => 'Q',
        'r' => 'R',
        's' => 'S',
        't' => 'T',
        'u' => 'U',
        'v' => 'V',
        'w' => 'W',
        'x' => 'X',
        'y' => 'Y',
        'z' => 'Z',
        _ => c,
    }
}

fn upper_ascii_exec(c: char) -> (r: char)
    ensures
        r == upper_ascii(c),
{
    match c {
        'a' => 'A',
        'b' => 'B',
        'c' => 'C',
        'd' => 'D',
        'e' => 'E',
        'f' => 'F',
        'g' => 'G',
        'h' => 'H',
        'i' => 'I',
        'j' => 'J',
        'k' => 'K',
        'l' => 'L',
        'm' => 'M',
        'n' => 'N',
        'o' => 'O',
        'p' => 'P',
        'q' => 'Q',
        'r' => 'R',
        's' => 'S',
        't' => 'T',
        'u' => 'U',
        'v' => 'V',
        'w' => 'W',
        'x' => 'X',
        'y' => 'Y',
        'z' => 'Z',
        _ => c,
    }
}

/// The lower-camel-case JSON alias of a declared field name: underscores are
/// dropped and the letter after each underscore is upper-cased.
pub open spec fn camel_of(s: Seq<char>, up: bool) -> Seq<char>
    decreases s.len(),
{
    if s.len() == 0 {
        Seq::empty()
    } else if s[0] == '_' {
        camel_of(s.subrange(1, s.len() as int), true)
    } else if up {
        seq![upper_ascii(s[0])] + camel_of(s.subrange(1, s.len() as int), false)
    } else {
        seq![s[0]] + camel_of(s.subrange(1, s.len() as int), false)
    }
}

/// Computes the lower-camel-case JSON alias of a field name.
pub fn camel_case(name: &str) -> (r: String)
    ensures
        r@ == camel_of(name@, false),
{
    let len = name.unicode_len();
    let mut out = String::new();
    let mut up = false;
    let mut i: usize = 0;
    assert(name@.subrange(0, len as int) =~= name@);
    assert(Seq::<char>::empty() + camel_of(name@, false) =~= camel_of(name@, false));
    while i < len
        invariant
            len == name@.len(),
            i <= len,
            camel_of(name@, false) == out@ + camel_of(
                name@.subrange(i as int, len as int),
                up,
            ),
        decreases len - i,
    {
        let c = name.get_char(i);
        let ghost before = out@;
        let ghost rest = name@.subrange(i as int, len as int);
        assert(rest[0] == name@[i as int]);
        assert(rest.subrange(1, rest.len() as int) =~= name@.subrange(i + 1, len as int));
        if c == '_' {
            up = true;
        } else if up {
            push_char(&mut out, upper_ascii_exec(c));
            up = false;
            assert(out@ =~= before + seq![upper_ascii(name@[i as int])]);
        } else {
            push_char(&mut out, c);
            assert(out@ =~= before + seq![name@[i as int]]);
        }
        proof {
            assert(camel_of(name@, false) =~= out@ + camel_of(
                name@.subrange(i + 1, len as int),
                up,
            ));
        }
        i += 1;
    }
    assert(name@.subrange(len as int, len as int) =~= Seq::<char>::empty());
    assert(out@ =~= camel_of(name@, false));
    out
}

/// Relies on `String::push`: appends exactly one character.
#[verifier::external_body]
pub(crate) fn push_char(s: &mut String, c: char)
    ensures
        final(s)@ == old(s)@ + seq![c],
{
    s.push(c);
}

/// The segment of a dotted name after its last dot, scanning left of `i`.
pub open spec fn last_segment_from(s: Seq<char>, i: int) -> Seq<char>
    decreases i,
{
    if i <= 0 {
        s
    } else if s[i - 1] == '.' {
        s.subrange(i, s.len() as int)
    } else {
        last_segment_from(s, i - 1)
    }
}

/// The short name of a dotted fully-qualified name: its last segment.
pub open spec fn last_segment(s: Seq<char>) -> Seq<char> {
    last_segment_from(s, s.len() as int)
}

/// Computes the short name of a fully-qualified dotted name.
pub fn short_name(full: &str) -> (r: String)
    ensures
        r@ == last_segment(full@),
{
    let len = full.unicode_len();
    let mut i: usize = len;
    while i > 0
        invariant
            len == full@.len(),
            i <= len,
            last_segment(full@) == last_segment_from(full@, i as int),
        decreases i,
    {
        if full.get_char(i - 1) == '.' {
            let seg = full.substring_char(i, len);
            return seg.to_owned();
        }
        i -= 1;
    }
    full.to_owned()
}

/// The first position of `target` in a name list, scanning from `i`.
pub open spec fn name_index_from(names: Seq<Seq<char>>, target: Seq<char>, i: int) -> Option<int>
    decreases names.len() - i,
{
    if i < 0 || i >= names.len() {
        None
    } else if names[i] == target {
        Some(i)
    } else {
        name_index_from(names, target, i + 1)
    }
}

/// The position of `target` in a name list, if any.
pub open spec fn name_index(names: Seq<Seq<char>>, target: Seq<char>) -> Option<int> {
    name_index_from(names, target, 0)
}

/// Finds the pool index of a message by its fully-qualified name.
fn find_full_name(names: &Vec<String>, target: &String) -> (r: Option<usize>)
    ensures
        ({
            let nv = names@.map_values(|s: String| s@);
            match r {
                Some(i) => name_index(nv, target@) == Some(i as int) && i < names@.len(),
                None => name_index(nv, target@) is None,
            }
        }),
{
    let ghost nv = names@.map_values(|s: String| s@);
    let n = names.len();
    for i in 0..n
        invariant
            n == names@.len(),
            nv == names@.map_values(|s: String| s@),
            name_index_from(nv, target@, i as int) == name_index(nv, target@),
            forall|j: int| 0 <= j < i ==> nv[j] != target@,
    {
        if names[i] == *target {
            assert(nv[i as int] == names@[i as int]@);
            return Some(i);
        }
        assert(nv[i as int] == names@[i as int]@);
    }
    None
}

/// The scalar kind declared by a type code, if the code names one.
pub open spec fn scalar_kind_of(code: i32) -> Option<Kind> {
    if code == 1 {
        Some(Kind::Double)
    } else if code == 2 {
        Some(Kind::Float)
    } else if code == 3 {
        Some(Kind::Int64)
    } else if code == 4 {
        Some(Kind::Uint64)
    } else if code == 5 {
        Some(Kind::Int32)
    } else if code == 6 {
        Some(Kind::Fixed64)
    } else if code == 7 {
        Some(Kind::Fixed32)
    } else if code == 8 {
        Some(Kind::Bool)
    } else if code == 9 {
        Some(Kind::Str)
    } else if code == 12 {
        Some(Kind::Bytes)
    } else if code == 13 {
        Some(Kind::Uint32)
    } else if code == 14 {
        Some(Kind::Enum)
    } else if code == 15 {
        Some(Kind::Sfixed32)
    } else if code == 16 {
        Some(Kind::Sfixed64)
    } else if code == 17 {
        Some(Kind::Sint32)
    } else if code == 18 {
        Some(Kind::Sint64)
    } else {
        None
    }
}

/// What a raw field declaration becomes in the pool: name and number
/// present and positive, a known label and type code, message-typed fields
/// resolved by their leading-dot fully-qualified target name, the JSON
/// alias taken from the declaration or computed from the name.
pub open spec fn build_field_spec(
    raw: RawFieldV,
    msg_full: Seq<char>,
    names: Seq<Seq<char>>,
) -> Result<FieldDescV, Error> {
    match raw.name {
        None => Err(Error::SchemaDecode),
        Some(name) => match raw.number {
            None => Err(Error::SchemaDecode),
            Some(number_raw) => {
                if number_raw < 1 {
                    Err(Error::SchemaDecode)
                } else {
                    let lbl_ok = match raw.label {
                        None => true,
                        Some(l) => l == 1 || l == 2 || l == 3,
                    };
                    if !lbl_ok {
                        Err(Error::SchemaDecode)
                    } else {
                        let cardinality = match raw.label {
                            Some(2) => Cardinality::Required,
                            Some(3) => Cardinality::Repeated,
                            _ => Cardinality::Optional,
                        };
                        match raw.type_code {
                            None => Err(Error::SchemaDecode),
                            Some(code) => {
                                let kind = if code == 11 {
                                    match raw.target_name {
                                        None => None,
                                        Some(tn) => {
                                            if tn.len() < 2 || tn[0] != '.' {
                                                None
                                            } else {
                                                match name_index(
                                                    names,
                                                    tn.subrange(1, tn.len() as int),
                                                ) {
                                                    None => None,
                                                    Some(t) => Some(Kind::Message(t as usize)),
                                                }
                                            }
                                        },
                                    }
                                } else {
                                    scalar_kind_of(code)
                                };
                                match kind {
                                    None => Err(Error::SchemaDecode),
                                    Some(k) => Ok(
                                        FieldDescV {
                                            name: name,
                                            full_name: msg_full + seq!['.'] + name,
                                            json_name: match raw.json_name {
                                                Some(j) => j,
                                                None => camel_of(name, false),
                                            },
                                            number: number_raw as u32,
                                            kind: k,
                                            cardinality: cardinality,
                                        },
                                    ),
                                }
                            },
                        }
                    }
                }
            },
        },
    }
}

/// Turns a raw field declaration into the pool's field descriptor, exactly
/// as [`build_field_spec`] says.
fn build_field(
    raw: RawField,
    msg_full_name: &String,
    names: &Vec<String>,
) -> (r: Result<FieldDescriptor, Error>)
    ensures
        build_field_spec(raw@, msg_full_name@, names@.map_values(|s: String| s@)) == (match r {
            Ok(fd) => Ok::<FieldDescV, Error>(fd@),
            Err(e) => Err::<FieldDescV, Error>(e),
        }),
{
    let name = match raw.name {
        Some(x) => x,
        None => {
            return Err(Error::SchemaDecode);
        },
    };
    let number_raw = match raw.number {
        Some(x) => x,
        None => {
            return Err(Error::SchemaDecode);
        },
    };
    if number_raw < 1 {
        return Err(Error::SchemaDecode);
    }
    let number = number_raw as u32;
    let cardinality = match raw.label {
        None => Cardinality::Optional,
        Some(1) => Cardinality::Optional,
        Some(2) => Cardinality::Required,
        Some(3) => Cardinality::Repeated,
        Some(_) => {
            return Err(Error::SchemaDecode);
        },
    };
    let code = match raw.type_code {
        Some(x) => x,
        None => {
            return Err(Error::SchemaDecode);
        },
    };
    let kind = match code {
        1 => Kind::Double,
        2 => Kind::Float,
        3 => Kind::Int64,
        4 => Kind::Uint64,
        5 => Kind::Int32,
        6 => Kind::Fixed64,
        7 => Kind::Fixed32,
        8 => Kind::Bool,
        9 => Kind::Str,
        12 => Kind::Bytes,
        13 => Kind::Uint32,
        14 => Kind::Enum,
        15 => Kind::Sfixed32,
        16 => Kind::Sfixed64,
        17 => Kind::Sint32,
        18 => Kind::Sint64,
        11 => {
            let tn = match &raw.target_name {
                Some(x) => x,
                None => {
                    return Err(Error::SchemaDecode);
                },
            };
            let tlen = tn.as_str().unicode_len();
            if tlen < 2 || tn.as_str().get_char(0) != '.' {
                return Err(Error::SchemaDecode);
            }
            let stripped = tn.as_str().substring_char(1, tlen).to_owned();
            match find_full_name(names, &stripped) {
                Some(t) => Kind::Message(t),
                None => {
                    return Err(Error::SchemaDecode);
                },
            }
        },
        _ => {
            return Err(Error::SchemaDecode);
        },
    };
    let json_name = match raw.json_name {
        Some(x) => x,
        None => camel_case(name.as_str()),
    };
    let mut full_name = msg_full_name.clone();
    full_name.append(".");
    full_name.append(name.as_str());
    proof {
        reveal_strlit(".");
        assert(full_name@ =~= msg_full_name@ + seq!['.'] + name@);
    }
    Ok(FieldDescriptor { name, full_name, json_name, number, kind, cardinality })
}

/// The fully-qualified names of a raw schema's messages.
pub open spec fn msg_names(sch: RawSchemaV) -> Seq<Seq<char>> {
    sch.messages.map_values(|m: RawMsgV| m.full_name)
}

/// The field descriptors built from one message's raw field declarations,
/// from position `j` on.
pub open spec fn fields_from(
    fprotos: Seq<Seq<u8>>,
    j: int,
    msg_full: Seq<char>,
    names: Seq<Seq<char>>,
) -> Result<Seq<FieldDescV>, Error>
    decreases fprotos.len() - j,
{
    if j < 0 || j >= fprotos.len() {
        Ok(Seq::empty())
    } else {
        match pfp(fprotos[j], 0, raw_field_init()) {
            Err(_e) => Err(Error::SchemaDecode),
            Ok(raw) => match build_field_spec(raw, msg_full, names) {
                Err(_e) => Err(Error::SchemaDecode),
                Ok(fd) => match fields_from(fprotos, j + 1, msg_full, names) {
                    Err(e) => Err(e),
                    Ok(rest) => Ok(seq![fd] + rest),
                },
            },
        }
    }
}

/// The message descriptors built from a raw schema, from position `i` on,
/// with empty wire orders (assembly computes those).
pub open spec fn msgs_from(sch: RawSchemaV, i: int) -> Result<Seq<MsgDescV>, Error>
    decreases sch.messages.len() - i,
{
    if i < 0 || i >= sch.messages.len() {
        Ok(Seq::empty())
    } else {
        let rm = sch.messages[i];
        match fields_from(rm.fields, 0, rm.full_name, msg_names(sch)) {
            Err(e) => Err(e),
            Ok(fds) => match msgs_from(sch, i + 1) {
                Err(e) => Err(e),
                Ok(rest) => Ok(
                    seq![
                        MsgDescV {
                            name: last_segment(rm.full_name),
                            full_name: rm.full_name,
                            fields: fds,
                            wire_order: Seq::empty(),
                        },
                    ] + rest,
                ),
            },
        }
    }
}

/// The method descriptors built from one service's raw methods, from
/// position `j` on, input and output resolved by fully-qualified name.
pub open spec fn methods_from(
    ms: Seq<RawMethodV>,
    j: int,
    svc_full: Seq<char>,
    names: Seq<Seq<char>>,
) -> Result<Seq<crate::descriptor::MethodDescV>, Error>
    decreases ms.len() - j,
{
    if j < 0 || j >= ms.len() {
        Ok(Seq::empty())
    } else {
        let rm = ms[j];
        match (name_index(names, rm.input), name_index(names, rm.output)) {
            (Some(inp), Some(outp)) => match methods_from(ms, j + 1, svc_full, names) {
                Err(e) => Err(e),
                Ok(rest) => Ok(
                    seq![
                        crate::descriptor::MethodDescV {
                            name: rm.name,
                            full_name: svc_full + seq!['.'] + rm.name,
                            input: inp as usize,
                            output: outp as usize,
                        },
                    ] + rest,
                ),
            },
            _ => Err(Error::SchemaDecode),
        }
    }
}

/// The service descriptors built from a raw schema, from position `i` on.
pub open spec fn svcs_from(sch: RawSchemaV, i: int) -> Result<Seq<SvcDescV>, Error>
    decreases sch.services.len() - i,
{
    if i < 0 || i >= sch.services.len() {
        Ok(Seq::empty())
    } else {
        let rs = sch.services[i];
        match methods_from(rs.methods, 0, rs.full_name, msg_names(sch)) {
            Err(e) => Err(e),
            Ok(methods) => match svcs_from(sch, i + 1) {
                Err(e) => Err(e),
                Ok(rest) => Ok(
                    seq![
                        SvcDescV {
                            name: last_segment(rs.full_name),
                            full_name: rs.full_name,
                            methods: methods,
                        },
                    ] + rest,
                ),
            },
        }
    }
}

/// Does pool `p` hold exactly the given declarations, well formed?
pub open spec fn built_pool_matches(p: PoolV, mv: Seq<MsgDescV>, sv: Seq<SvcDescV>) -> bool {
    &&& p.wf()
    &&& p.messages.len() == mv.len()
    &&& forall|i: int|
        0 <= i < mv.len() ==> (#[trigger] p.messages[i]).name == mv[i].name
            && p.messages[i].full_name == mv[i].full_name && p.messages[i].fields == mv[i].fields
    &&& p.services == sv
}

impl DescriptorPool {
    /// Builds the pool from a serialized descriptor bundle: the bundle is
    /// decoded and cross-checked by `prost_reflect`, its declarations —
    /// named [`schema_of`] — are parsed and resolved by verified code, and
    /// [`DescriptorPool::assemble`] re-validates all of it.  Succeeds
    /// exactly when the bundle decodes, every declaration parses and
    /// resolves, and the result validates; the returned pool then holds
    /// exactly those declarations.
    #[verifier::rlimit(100)]
    #[verifier::spinoff_prover]
    pub fn build(bytes: &[u8]) -> (r: Result<DescriptorPool, Error>)
        ensures
            ({
                match schema_of(bytes@) {
                    None => r == Err::<DescriptorPool, Error>(Error::SchemaDecode),
                    Some(sch) => match (msgs_from(sch, 0), svcs_from(sch, 0)) {
                        (Ok(mv), Ok(sv)) => (match r {
                            Ok(p) => crate::descriptor::input_valid(mv, sv)
                                && built_pool_matches(p@, mv, sv),
                            Err(e) => e == Error::SchemaDecode
                                && !crate::descriptor::input_valid(mv, sv),
                        }),
                        _ => r == Err::<DescriptorPool, Error>(Error::SchemaDecode),
                    },
                }
            }),
            r matches Err(e) ==> e == Error::SchemaDecode,
    {
        let sch = match pr_extract(bytes) {
            Some(s) => s,
            None => {
                return Err(Error::SchemaDecode);
            },
        };
        let ghost schv = sch@;
        let n = sch.messages.len();
        let mut full_names: Vec<String> = Vec::new();
        let mut i: usize = 0;
        while i < n
            invariant
                i <= n,
                n == sch.messages@.len(),
                schv == sch@,
                schema_of(bytes@) == Some(schv),
                full_names@.len() == i,
                forall|k: int|
                    0 <= k < i ==> (#[trigger] full_names@[k])@ == schv.messages[k].full_name,
            decreases n - i,
        {
            full_names.push(sch.messages[i].full_name.clone());
            proof {
                assert(schv.messages[i as int] == sch.messages@[i as int]@);
            }
            i += 1;
        }
        let ghost namesv = msg_names(schv);
        proof {
            assert(full_names@.map_values(|s: String| s@) =~= namesv);
        }
        let mut out_msgs: Vec<MessageDescriptor> = Vec::new();
        let mut i: usize = 0;
        while i < n
            invariant
                i <= n,
                n == sch.messages@.len(),
                schv == sch@,
                schema_of(bytes@) == Some(schv),
                full_names@.len() == n,
                namesv == msg_names(schv),
                full_names@.map_values(|s: String| s@) == namesv,
                out_msgs@.len() == i,
                msgs_from(schv, 0) == (match msgs_from(schv, i as int) {
                    Ok(rest) => Ok::<Seq<MsgDescV>, Error>(
                        out_msgs@.map_values(|m: MessageDescriptor| m@) + rest,
                    ),
                    Err(e) => Err::<Seq<MsgDescV>, Error>(e),
                }),
            decreases n - i,
        {
            let ghost rm = schv.messages[i as int];
            proof {
                assert(rm == sch.messages@[i as int]@);
                assert(namesv[i as int] == rm.full_name);
                assert(full_names@.map_values(|s: String| s@)[i as int] == full_names@[i as int]@);
            }
            let full = full_names[i].clone();
            assert(full@ == rm.full_name);
            let name = short_name(full.as_str());
            let np = sch.messages[i].fields.len();
            let mut fds: Vec<FieldDescriptor> = Vec::new();
            let mut j: usize = 0;
            while j < np
                invariant
                    j <= np,
                    i < n == sch.messages@.len(),
                    schv == sch@,
                    schema_of(bytes@) == Some(schv),
                schema_of(bytes@) == Some(schv),
                    rm == schv.messages[i as int],
                    np == sch.messages@[i as int].fields@.len(),
                    np == rm.fields.len(),
                    full@ == rm.full_name,
                    full_names@.len() == n,
                    full_names@.map_values(|s: String| s@) == namesv,
                    namesv == msg_names(schv),
                    msgs_from(schv, 0) == (match msgs_from(schv, i as int) {
                        Ok(rest) => Ok::<Seq<MsgDescV>, Error>(
                            out_msgs@.map_values(|m: MessageDescriptor| m@) + rest,
                        ),
                        Err(e) => Err::<Seq<MsgDescV>, Error>(e),
                    }),
                    fds@.len() == j,
                    fields_from(rm.fields, 0, rm.full_name, namesv) == (match fields_from(
                        rm.fields,
                        j as int,
                        rm.full_name,
                        namesv,
                    ) {
                        Ok(rest) => Ok::<Seq<FieldDescV>, Error>(
                            fds@.map_values(|f: FieldDescriptor| f@) + rest,
                        ),
                        Err(e) => Err::<Seq<FieldDescV>, Error>(e),
                    }),
                decreases np - j,
            {
                proof {
                    assert(rm.fields[j as int] == sch.messages@[i as int].fields@[j as int]@);
                }
                let ghost fmap = fds@.map_values(|f: FieldDescriptor| f@);
                let raw = match parse_field_proto(&sch.messages[i].fields[j]) {
                    Ok(x) => x,
                    Err(_) => {
                        proof {
                            assert(fields_from(rm.fields, j as int, rm.full_name, namesv)
                                == Err::<Seq<FieldDescV>, Error>(Error::SchemaDecode));
                            assert(msgs_from(schv, i as int) == Err::<Seq<MsgDescV>, Error>(
                                Error::SchemaDecode,
                            ));
                            assert(msgs_from(schv, 0) == Err::<Seq<MsgDescV>, Error>(
                                Error::SchemaDecode,
                            ));
                        }
                        return Err(Error::SchemaDecode);
                    },
                };
                let fd = match build_field(raw, &full, &full_names) {
                    Ok(x) => x,
                    Err(_) => {
                        proof {
                            assert(fields_from(rm.fields, j as int, rm.full_name, namesv)
                                == Err::<Seq<FieldDescV>, Error>(Error::SchemaDecode));
                            assert(msgs_from(schv, i as int) == Err::<Seq<MsgDescV>, Error>(
                                Error::SchemaDecode,
                            ));
                            assert(msgs_from(schv, 0) == Err::<Seq<MsgDescV>, Error>(
                                Error::SchemaDecode,
                            ));
                        }
                        return Err(Error::SchemaDecode);
                    },
                };
                fds.push(fd);
                proof {
                    assert(fds@.map_values(|f: FieldDescriptor| f@) =~= fmap.push(
                        fds@[j as int]@,
                    ));
                    match fields_from(rm.fields, j + 1, rm.full_name, namesv) {
                        Ok(rest) => {
                            assert(fmap + (seq![fds@[j as int]@] + rest) =~= fmap.push(
                                fds@[j as int]@,
                            ) + rest);
                        },
                        Err(_) => {},
                    }
                }
                j += 1;
            }
            let ghost mmap = out_msgs@.map_values(|m: MessageDescriptor| m@);
            let built = MessageDescriptor {
                name,
                full_name: full,
                fields: fds,
                wire_order: Vec::new(),
            };
            out_msgs.push(built);
            proof {
                let hd = out_msgs@[i as int]@;
                assert(out_msgs@.map_values(|m: MessageDescriptor| m@) =~= mmap.push(hd));
                assert(fields_from(rm.fields, np as int, rm.full_name, namesv) == Ok::<
                    Seq<FieldDescV>,
                    Error,
                >(Seq::empty()));
                match fields_from(rm.fields, 0, rm.full_name, namesv) {
                    Ok(allf) => {
                        assert(hd.fields =~= allf);
                        assert(hd =~= MsgDescV {
                            name: last_segment(rm.full_name),
                            full_name: rm.full_name,
                            fields: allf,
                            wire_order: Seq::empty(),
                        });
                        match msgs_from(schv, i + 1) {
                            Ok(rest) => {
                                assert(mmap + (seq![hd] + rest) =~= mmap.push(hd) + rest);
                            },
                            Err(_) => {},
                        }
                    },
                    Err(_) => {
                        assert(false);
                    },
                }
            }
            i += 1;
        }
        let ns = sch.services.len();
        let mut out_svcs: Vec<ServiceDescriptor> = Vec::new();
        let mut i: usize = 0;
        while i < ns
            invariant
                i <= ns,
                ns == sch.services@.len(),
                schv == sch@,
                schema_of(bytes@) == Some(schv),
                n == sch.messages@.len(),
                full_names@.len() == n,
                full_names@.map_values(|s: String| s@) == namesv,
                namesv == msg_names(schv),
                out_msgs@.len() == n,
                msgs_from(schv, 0) == Ok::<Seq<MsgDescV>, Error>(
                    out_msgs@.map_values(|m: MessageDescriptor| m@),
                ),
                out_svcs@.len() == i,
                svcs_from(schv, 0) == (match svcs_from(schv, i as int) {
                    Ok(rest) => Ok::<Seq<SvcDescV>, Error>(
                        out_svcs@.map_values(|s: ServiceDescriptor| s@) + rest,
                    ),
                    Err(e) => Err::<Seq<SvcDescV>, Error>(e),
                }),
            decreases ns - i,
        {
            let ghost rs = schv.services[i as int];
            proof {
                assert(rs == sch.services@[i as int]@);
            }
            let sfull = sch.services[i].full_name.clone();
            assert(sfull@ == rs.full_name);
            let sname = short_name(sfull.as_str());
            let nm = sch.services[i].methods.len();
            let mut out_methods: Vec<MethodDescriptor> = Vec::new();
            let mut j: usize = 0;
            while j < nm
                invariant
                    j <= nm,
                    i < ns == sch.services@.len(),
                    schv == sch@,
                    schema_of(bytes@) == Some(schv),
                schema_of(bytes@) == Some(schv),
                    rs == schv.services[i as int],
                    nm == sch.services@[i as int].methods@.len(),
                    nm == rs.methods.len(),
                    sfull@ == rs.full_name,
                    full_names@.len() == n == sch.messages@.len(),
                    full_names@.map_values(|s: String| s@) == namesv,
                    namesv == msg_names(schv),
                    svcs_from(schv, 0) == (match svcs_from(schv, i as int) {
                        Ok(rest) => Ok::<Seq<SvcDescV>, Error>(
                            out_svcs@.map_values(|s: ServiceDescriptor| s@) + rest,
                        ),
                        Err(e) => Err::<Seq<SvcDescV>, Error>(e),
                    }),
                    out_methods@.len() == j,
                    methods_from(rs.methods, 0, rs.full_name, namesv) == (match methods_from(
                        rs.methods,
                        j as int,
                        rs.full_name,
                        namesv,
                    ) {
                        Ok(rest) => Ok::<Seq<crate::descriptor::MethodDescV>, Error>(
                            out_methods@.map_values(|m: MethodDescriptor| m@) + rest,
                        ),
                        Err(e) => Err::<Seq<crate::descriptor::MethodDescV>, Error>(e),
                    }),
                decreases nm - j,
            {
                proof {
                    assert(rs.methods[j as int] == sch.services@[i as int].methods@[j as int]@);
                }
                let ghost qmap = out_methods@.map_values(|m: MethodDescriptor| m@);
                let mname = sch.services[i].methods[j].name.clone();
                let mut mfull = sfull.clone();
                mfull.append(".");
                mfull.append(mname.as_str());
                proof {
                    reveal_strlit(".");
                    assert(mfull@ =~= rs.full_name + seq!['.'] + rs.methods[j as int].name);
                }
                let input = match find_full_name(&full_names, &sch.services[i].methods[j].input) {
                    Some(t) => t,
                    None => {
                        proof {
                            assert(methods_from(rs.methods, j as int, rs.full_name, namesv)
                                == Err::<Seq<crate::descriptor::MethodDescV>, Error>(
                                Error::SchemaDecode,
                            ));
                            assert(svcs_from(schv, i as int) == Err::<Seq<SvcDescV>, Error>(
                                Error::SchemaDecode,
                            ));
                            assert(svcs_from(schv, 0) == Err::<Seq<SvcDescV>, Error>(
                                Error::SchemaDecode,
                            ));
                        }
                        return Err(Error::SchemaDecode);
                    },
                };
                let output = match find_full_name(&full_names, &sch.services[i].methods[j].output) {
                    Some(t) => t,
                    None => {
                        proof {
                            assert(methods_from(rs.methods, j as int, rs.full_name, namesv)
                                == Err::<Seq<crate::descriptor::MethodDescV>, Error>(
                                Error::SchemaDecode,
                            ));
                            assert(svcs_from(schv, i as int) == Err::<Seq<SvcDescV>, Error>(
                                Error::SchemaDecode,
                            ));
                            assert(svcs_from(schv, 0) == Err::<Seq<SvcDescV>, Error>(
                                Error::SchemaDecode,
                            ));
                        }
                        return Err(Error::SchemaDecode);
                    },
                };
                out_methods.push(MethodDescriptor { name: mname, full_name: mfull, input, output });
                proof {
                    let hd = out_methods@[j as int]@;
                    assert(out_methods@.map_values(|m: MethodDescriptor| m@) =~= qmap.push(hd));
                    assert(hd =~= crate::descriptor::MethodDescV {
                        name: rs.methods[j as int].name,
                        full_name: rs.full_name + seq!['.'] + rs.methods[j as int].name,
                        input: hd.input,
                        output: hd.output,
                    });
                    match methods_from(rs.methods, j + 1, rs.full_name, namesv) {
                        Ok(rest) => {
                            assert(qmap + (seq![hd] + rest) =~= qmap.push(hd) + rest);
                        },
                        Err(_) => {},
                    }
                }
                j += 1;
            }
            let ghost smap = out_svcs@.map_values(|s: ServiceDescriptor| s@);
            let builts = ServiceDescriptor { name: sname, full_name: sfull, methods: out_methods };
            out_svcs.push(builts);
            proof {
                let hd = out_svcs@[i as int]@;
                assert(out_svcs@.map_values(|s: ServiceDescriptor| s@) =~= smap.push(hd));
                assert(methods_from(rs.methods, nm as int, rs.full_name, namesv) == Ok::<
                    Seq<crate::descriptor::MethodDescV>,
                    Error,
                >(Seq::empty()));
                match methods_from(rs.methods, 0, rs.full_name, namesv) {
                    Ok(allm) => {
                        assert(hd.methods =~= allm);
                        assert(hd =~= SvcDescV {
                            name: last_segment(rs.full_name),
                            full_name: rs.full_name,
                            methods: allm,
                        });
                        match svcs_from(schv, i + 1) {
                            Ok(rest) => {
                                assert(smap + (seq![hd] + rest) =~= smap.push(hd) + rest);
                            },
                            Err(_) => {},
                        }
                    },
                    Err(_) => {
                        assert(false);
                    },
                }
            }
            i += 1;
        }
        proof {
            assert(msgs_from(schv, n as int) == Ok::<Seq<MsgDescV>, Error>(Seq::empty()));
            assert(svcs_from(schv, ns as int) == Ok::<Seq<SvcDescV>, Error>(Seq::empty()));
            match msgs_from(schv, 0) {
                Ok(mv) => {
                    assert(out_msgs@.map_values(|m: MessageDescriptor| m@) =~= mv);
                },
                Err(_) => {
                    assert(false);
                },
            }
            match svcs_from(schv, 0) {
                Ok(sv) => {
                    assert(out_svcs@.map_values(|s: ServiceDescriptor| s@) =~= sv);
                },
                Err(_) => {
                    assert(false);
                },
            }
        }
        match DescriptorPool::assemble(out_msgs, out_svcs) {
            Ok(p) => Ok(p),
            Err(_) => Err(Error::SchemaDecode),
        }
    }
}

} // verus!
