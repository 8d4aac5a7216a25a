//! The JSON codec: rendering a dynamic message per the protobuf JSON
//! mapping, and parsing it back.
//!
//! Field names render as their lower-camel-case JSON alias unless
//! `use_proto_field_name` asks for the declared name; 64-bit integers render
//! as decimal strings under `stringify_64_bit_integers`; fields whose value
//! equals the kind's zero value are omitted under `skip_default_fields`,
//! otherwise every singular field is rendered, an unset message-typed field
//! as `null`.  Bytes render as base64, enum values as bare numbers (the
//! engine carries no enum descriptors).  Floating-point values other than
//! zero have no rendering here: meeting one fails with
//! [`Error::Unsupported`].
//!
//! The parser reads objects with the same shape: keys matching a field's
//! declared name or JSON alias, integer fields from plain or quoted decimal
//! digits (no exponent or fraction forms), strings with the standard escapes
//! (`\uXXXX` outside the surrogate range), bytes from base64, `null` leaving
//! a field unset, and unknown keys refused.

use vstd::prelude::*;

use crate::Error;
use crate::descriptor::{Cardinality, DescriptorPool, Kind, MsgDescV, PoolV};
use crate::message::{
    DynamicMessage, SpecMsg, SpecValue, Value, empty_msg_spec, kind_matches, lemma_slots_view,
    lemma_slots_wf, msg_wf, slots_view, value_view, value_wf, zero_value_spec,
};
use crate::schema::push_char;

verus! {

/// Options of the JSON encoder.
#[derive(Clone, Copy, Debug, PartialEq, Eq, Structural)]
pub struct JsonOptions {
    pub stringify_64_bit_integers: bool,
    pub use_enum_numbers: bool,
    pub use_proto_field_name: bool,
    pub skip_default_fields: bool,
}

impl Default for JsonOptions {
    /// All options off: camel-case names, plain numbers, defaults included.
    fn default() -> (r: JsonOptions)
        ensures
            r == (JsonOptions {
                stringify_64_bit_integers: false,
                use_enum_numbers: false,
                use_proto_field_name: false,
                skip_default_fields: false,
            }),
    {
        JsonOptions {
            stringify_64_bit_integers: false,
            use_enum_numbers: false,
            use_proto_field_name: false,
            skip_default_fields: false,
        }
    }
}

/// The decimal digit character of `d`.
pub open spec fn digit_char(d: int) -> char {
    if d == 0 {
        '0'
    } else if d == 1 {
        '1'
    } else if d == 2 {
        '2'
    } else if d == 3 {
        '3'
    } else if d == 4 {
        '4'
    } else if d == 5 {
        '5'
    } else if d == 6 {
        '6'
    } else if d == 7 {
        '7'
    } else if d == 8 {
        '8'
    } else if d == 9 {
        '9'
    } else {
        '?'
    }
}

/// The decimal rendering of a non-negative integer.
pub open spec fn dec_nat(n: int) -> Seq<char>
    decreases n,
{
    if n < 0 {
        Seq::empty()
    } else if n < 10 {
        seq![digit_char(n)]
    } else {
        dec_nat(n / 10).push(digit_char(n % 10))
    }
}

/// The decimal rendering of an integer, with sign.
pub open spec fn dec_int(n: int) -> Seq<char> {
    if n < 0 {
        seq!['-'] + dec_nat(-n)
    } else {
        dec_nat(n)
    }
}

fn digit_exec(d: u64) -> (r: char)
    requires
        d < 10,
    ensures
        r == digit_char(d as int),
{
    match d {
        0 => '0',
        1 => '1',
        2 => '2',
        3 => '3',
        4 => '4',
        5 => '5',
        6 => '6',
        7 => '7',
        8 => '8',
        9 => '9',
        _ => '?',
    }
}

/// Appends the decimal rendering of `n`.
pub fn push_u64(out: &mut String, n: u64)
    ensures
        final(out)@ == old(out)@ + dec_nat(n as int),
    decreases n,
{
    if n < 10 {
        push_char(out, digit_exec(n));
    } else {
        proof {
            assert(n / 10 < n) by {
                vstd::arithmetic::div_mod::lemma_fundamental_div_mod(n as int, 10);
            }
        }
        push_u64(out, n / 10);
        push_char(out, digit_exec(n % 10));
        assert(final(out)@ =~= old(out)@ + dec_nat(n as int));
    }
}

/// Appends the decimal rendering of `n`, with sign.
pub fn push_i64(out: &mut String, n: i64)
    ensures
        final(out)@ == old(out)@ + dec_int(n as int),
{
    if n >= 0 {
        push_u64(out, n as u64);
    } else {
        push_char(out, '-');
        let m: u64 = if n == i64::MIN {
            0x8000000000000000u64
        } else {
            (-n) as u64
        };
        push_u64(out, m);
        assert(final(out)@ =~= old(out)@ + dec_int(n as int));
    }
}

/// The lower-case hex digit character of `d`.
pub open spec fn hex_char(d: int) -> char {
    if d == 0 {
        '0'
    } else if d == 1 {
        '1'
    } else if d == 2 {
        '2'
    } else if d == 3 {
        '3'
    } else if d == 4 {
        '4'
    } else if d == 5 {
        '5'
    } else if d == 6 {
        '6'
    } else if d == 7 {
        '7'
    } else if d == 8 {
        '8'
    } else if d == 9 {
        '9'
    } else if d == 10 {
        'a'
    } else if d == 11 {
        'b'
    } else if d == 12 {
        'c'
    } else if d == 13 {
        'd'
    } else if d == 14 {
        'e'
    } else if d == 15 {
        'f'
    } else {
        '?'
    }
}

fn hex_exec(d: u32) -> (r: char)
    requires
        d < 16,
    ensures
        r == hex_char(d as int),
{
    match d {
        0 => '0',
        1 => '1',
        2 => '2',
        3 => '3',
        4 => '4',
        5 => '5',
        6 => '6',
        7 => '7',
        8 => '8',
        9 => '9',
        10 => 'a',
        11 => 'b',
        12 => 'c',
        13 => 'd',
        14 => 'e',
        15 => 'f',
        _ => '?',
    }
}

/// The JSON escape of one character.
pub open spec fn esc_char(c: char) -> Seq<char> {
    if c == '"' {
        seq!['\\', '"']
    } else if c == '\\' {
        seq!['\\', '\\']
    } else if c == '\n' {
        seq!['\\', 'n']
    } else if c == '\r' {
        seq!['\\', 'r']
    } else if c == '\t' {
        seq!['\\', 't']
    } else if c == '\u{8}' {
        seq!['\\', 'b']
    } else if c == '\u{c}' {
        seq!['\\', 'f']
    } else if (c as u32) < 32 {
        seq!['\\', 'u', '0', '0', hex_char((c as u32) as int / 16), hex_char((c as u32) as int % 16)]
    } else {
        seq![c]
    }
}

/// The JSON escape of a whole string.
pub open spec fn esc_str(s: Seq<char>) -> Seq<char>
    decreases s.len(),
{
    if s.len() == 0 {
        Seq::empty()
    } else {
        esc_char(s[0]) + esc_str(s.subrange(1, s.len() as int))
    }
}

/// Appends the JSON escape of `s`.
fn push_escaped(out: &mut String, s: &str)
    ensures
        final(out)@ == old(out)@ + esc_str(s@),
{
    let len = s.unicode_len();
    let mut i: usize = 0;
    assert(s@.subrange(0, len as int) =~= s@);
    while i < len
        invariant
            len == s@.len(),
            i <= len,
            old(out)@ + esc_str(s@) == out@ + esc_str(s@.subrange(i as int, len as int)),
        decreases len - i,
    {
        let c = s.get_char(i);
        let ghost rest = s@.subrange(i as int, len as int);
        proof {
            assert(rest[0] == s@[i as int]);
            assert(rest.subrange(1, rest.len() as int) =~= s@.subrange(i + 1, len as int));
        }
        let ghost before = out@;
        if c == '"' {
            push_char(out, '\\');
            push_char(out, '"');
        } else if c == '\\' {
            push_char(out, '\\');
            push_char(out, '\\');
        } else if c == '\n' {
            push_char(out, '\\');
            push_char(out, 'n');
        } else if c == '\r' {
            push_char(out, '\\');
            push_char(out, 'r');
        } else if c == '\t' {
            push_char(out, '\\');
            push_char(out, 't');
        } else if c == '\u{8}' {
            push_char(out, '\\');
            push_char(out, 'b');
        } else if c == '\u{c}' {
            push_char(out, '\\');
            push_char(out, 'f');
        } else if (c as u32) < 32 {
            push_char(out, '\\');
            push_char(out, 'u');
            push_char(out, '0');
            push_char(out, '0');
            push_char(out, hex_exec((c as u32) / 16));
            push_char(out, hex_exec((c as u32) % 16));
        } else {
            push_char(out, c);
        }
        proof {
            assert(out@ =~= before + esc_char(s@[i as int]));
            assert(old(out)@ + esc_str(s@) =~= out@ + esc_str(s@.subrange(i + 1, len as int)));
        }
        i += 1;
    }
    assert(s@.subrange(len as int, len as int) =~= Seq::<char>::empty());
    assert(final(out)@ =~= old(out)@ + esc_str(s@));
}

/// The base64 alphabet character of `v`.
pub open spec fn b64_char(v: int) -> char {
    if v == 0 {
        'A'
    } else if v == 1 {
        'B'
    } else if v == 2 {
        'C'
    } else if v == 3 {
        'D'
    } else if v == 4 {
        'E'
    } else if v == 5 {
        'F'
    } else if v == 6 {
        'G'
    } else if v == 7 {
        'H'
    } else if v == 8 {
        'I'
    } else if v == 9 {
        'J'
    } else if v == 10 {
        'K'
    } else if v == 11 {
        'L'
    } else if v == 12 {
        'M'
    } else if v == 13 {
        'N'
    } else if v == 14 {
        'O'
    } else if v == 15 {
        'P'
    } else if v == 16 {
        'Q'
    } else if v == 17 {
        'R'
    } else if v == 18 {
        'S'
    } else if v == 19 {
        'T'
    } else if v == 20 {
        'U'
    } else if v == 21 {
        'V'
    } else if v == 22 {
        'W'
    } else if v == 23 {
        'X'
    } else if v == 24 {
        'Y'
    } else if v == 25 {
        'Z'
    } else if v == 26 {
        'a'
    } else if v == 27 {
        'b'
    } else if v == 28 {
        'c'
    } else if v == 29 {
        'd'
    } else if v == 30 {
        'e'
    } else if v == 31 {
        'f'
    } else if v == 32 {
        'g'
    } else if v == 33 {
        'h'
    } else if v == 34 {
        'i'
    } else if v == 35 {
        'j'
    } else if v == 36 {
        'k'
    } else if v == 37 {
        'l'
    } else if v == 38 {
        'm'
    } else if v == 39 {
        'n'
    } else if v == 40 {
        'o'
    } else if v == 41 {
        'p'
    } else if v == 42 {
        'q'
    } else if v == 43 {
        'r'
    } else if v == 44 {
        's'
    } else if v == 45 {
        't'
    } else if v == 46 {
        'u'
    } else if v == 47 {
        'v'
    } else if v == 48 {
        'w'
    } else if v == 49 {
        'x'
    } else if v == 50 {
        'y'
    } else if v == 51 {
        'z'
    } else if v == 52 {
        '0'
    } else if v == 53 {
        '1'
    } else if v == 54 {
        '2'
    } else if v == 55 {
        '3'
    } else if v == 56 {
        '4'
    } else if v == 57 {
        '5'
    } else if v == 58 {
        '6'
    } else if v == 59 {
        '7'
    } else if v == 60 {
        '8'
    } else if v == 61 {
        '9'
    } else if v == 62 {
        '+'
    } else if v == 63 {
        '/'
    } else {
        '?'
    }
}

fn b64_exec(v: u8) -> (r: char)
    requires
        v < 64,
    ensures
        r == b64_char(v as int),
{
    match v {
        0 => 'A',
        1 => 'B',
        2 => 'C',
        3 => 'D',
        4 => 'E',
        5 => 'F',
        6 => 'G',
        7 => 'H',
        8 => 'I',
        9 => 'J',
        10 => 'K',
        11 => 'L',
        12 => 'M',
        13 => 'N',
        14 => 'O',
        15 => 'P',
        16 => 'Q',
        17 => 'R',
        18 => 'S',
        19 => 'T',
        20 => 'U',
        21 => 'V',
        22 => 'W',
        23 => 'X',
        24 => 'Y',
        25 => 'Z',
        26 => 'a',
        27 => 'b',
        28 => 'c',
        29 => 'd',
        30 => 'e',
        31 => 'f',
        32 => 'g',
        33 => 'h',
        34 => 'i',
        35 => 'j',
        36 => 'k',
        37 => 'l',
        38 => 'm',
        39 => 'n',
        40 => 'o',
        41 => 'p',
        42 => 'q',
        43 => 'r',
        44 => 's',
        45 => 't',
        46 => 'u',
        47 => 'v',
        48 => 'w',
        49 => 'x',
        50 => 'y',
        51 => 'z',
        52 => '0',
        53 => '1',
        54 => '2',
        55 => '3',
        56 => '4',
        57 => '5',
        58 => '6',
        59 => '7',
        60 => '8',
        61 => '9',
        62 => '+',
        63 => '/',
        _ => '?',
    }
}

/// The base64 rendering of a byte sequence, with padding.
pub open spec fn b64(bytes: Seq<u8>) -> Seq<char>
    decreases bytes.len(),
{
    if bytes.len() == 0 {
        Seq::empty()
    } else if bytes.len() == 1 {
        let b0 = bytes[0] as int;
        seq![b64_char(b0 / 4), b64_char((b0 % 4) * 16), '=', '=']
    } else if bytes.len() == 2 {
        let b0 = bytes[0] as int;
        let b1 = bytes[1] as int;
        seq![b64_char(b0 / 4), b64_char((b0 % 4) * 16 + b1 / 16), b64_char((b1 % 16) * 4), '=']
    } else {
        let b0 = bytes[0] as int;
        let b1 = bytes[1] as int;
        let b2 = bytes[2] as int;
        seq![
            b64_char(b0 / 4),
            b64_char((b0 % 4) * 16 + b1 / 16),
            b64_char((b1 % 16) * 4 + b2 / 64),
            b64_char(b2 % 64),
        ] + b64(bytes.subrange(3, bytes.len() as int))
    }
}

/// Appends the base64 rendering of `bytes[pos..]`.
fn push_b64(out: &mut String, bytes: &Vec<u8>, pos: usize)
    requires
        pos <= bytes@.len(),
    ensures
        final(out)@ == old(out)@ + b64(bytes@.subrange(pos as int, bytes@.len() as int)),
    decreases bytes@.len() - pos,
{
    let n = bytes.len();
    let ghost rest = bytes@.subrange(pos as int, n as int);
    if pos == n {
        assert(final(out)@ =~= old(out)@ + b64(rest));
    } else if pos + 1 == n {
        let b0 = bytes[pos];
        push_char(out, b64_exec(b0 / 4));
        push_char(out, b64_exec((b0 % 4) * 16));
        push_char(out, '=');
        push_char(out, '=');
        assert(rest[0] == bytes@[pos as int]);
        assert(final(out)@ =~= old(out)@ + b64(rest));
    } else if pos + 2 == n {
        let b0 = bytes[pos];
        let b1 = bytes[pos + 1];
        push_char(out, b64_exec(b0 / 4));
        push_char(out, b64_exec((b0 % 4) * 16 + b1 / 16));
        push_char(out, b64_exec((b1 % 16) * 4));
        push_char(out, '=');
        assert(rest[0] == bytes@[pos as int] && rest[1] == bytes@[pos + 1]);
        assert(final(out)@ =~= old(out)@ + b64(rest));
    } else {
        let b0 = bytes[pos];
        let b1 = bytes[pos + 1];
        let b2 = bytes[pos + 2];
        push_char(out, b64_exec(b0 / 4));
        push_char(out, b64_exec((b0 % 4) * 16 + b1 / 16));
        push_char(out, b64_exec((b1 % 16) * 4 + b2 / 64));
        push_char(out, b64_exec(b2 % 64));
        push_b64(out, bytes, pos + 3);
        proof {
            assert(rest[0] == bytes@[pos as int] && rest[1] == bytes@[pos + 1] && rest[2]
                == bytes@[pos + 2]);
            assert(rest.subrange(3, rest.len() as int) =~= bytes@.subrange(pos + 3, n as int));
            assert(final(out)@ =~= old(out)@ + b64(rest));
        }
    }
}

/// Can the JSON codec render this value?  Floating-point bit patterns other
/// than zero have no rendering in the verified engine.
pub open spec fn json_ok_value(v: SpecValue) -> bool
    decreases v, 0int,
{
    match v {
        SpecValue::F32Bits(n) => n == 0,
        SpecValue::F64Bits(n) => n == 0,
        SpecValue::Message(sub) => json_ok_slots(sub.slots),
        _ => true,
    }
}

pub open spec fn json_ok_slots(slots: Seq<Option<SpecValue>>) -> bool
    decreases slots, 1int,
{
    if slots.len() == 0 {
        true
    } else {
        json_ok_slots(slots.subrange(0, slots.len() - 1)) && (match slots[slots.len() - 1] {
            None => true,
            Some(v) => json_ok_value(v),
        })
    }
}

pub open spec fn json_ok_msg(m: SpecMsg) -> bool {
    json_ok_slots(m.slots)
}

/// `json_ok_slots` constrains the slots pointwise.
pub proof fn lemma_json_ok_slots(slots: Seq<Option<SpecValue>>)
    ensures
        json_ok_slots(slots) <==> (forall|i: int|
            0 <= i < slots.len() ==> (match #[trigger] slots[i] {
                None => true,
                Some(v) => json_ok_value(v),
            })),
    decreases slots,
{
    if slots.len() > 0 {
        let s0 = slots.subrange(0, slots.len() - 1);
        lemma_json_ok_slots(s0);
        assert(forall|i: int| 0 <= i < s0.len() ==> s0[i] == slots[i]);
    }
}

/// The JSON rendering of one value under its declared kind.
pub open spec fn json_value(pool: PoolV, k: Kind, v: SpecValue, o: JsonOptions) -> Seq<char>
    decreases v, 2int, 0int,
{
    match v {
        SpecValue::Bool(b) => if b {
            "true"@
        } else {
            "false"@
        },
        SpecValue::I32(n) => dec_int(n as int),
        SpecValue::U32(n) => dec_nat(n as int),
        SpecValue::EnumNumber(n) => dec_int(n as int),
        SpecValue::I64(n) => if o.stringify_64_bit_integers {
            seq!['"'] + dec_int(n as int) + seq!['"']
        } else {
            dec_int(n as int)
        },
        SpecValue::U64(n) => if o.stringify_64_bit_integers {
            seq!['"'] + dec_nat(n as int) + seq!['"']
        } else {
            dec_nat(n as int)
        },
        SpecValue::F32Bits(_n) => seq!['0'],
        SpecValue::F64Bits(_n) => seq!['0'],
        SpecValue::Str(s) => seq!['"'] + esc_str(s) + seq!['"'],
        SpecValue::Bytes(bs) => seq!['"'] + b64(bs) + seq!['"'],
        SpecValue::Message(sub) => json_msg(pool, sub, o),
    }
}

/// The rendering of an unset scalar field's zero value under its kind:
/// what [`json_value`] gives the kind's zero value.  Unset message-typed
/// fields are never rendered, so their arm is empty.
pub open spec fn json_zero(k: Kind, o: JsonOptions) -> Seq<char> {
    match k {
        Kind::Bool => "false"@,
        Kind::Str => seq!['"', '"'],
        Kind::Bytes => seq!['"', '"'],
        Kind::Message(_t) => Seq::empty(),
        Kind::Int64 | Kind::Sint64 | Kind::Sfixed64 | Kind::Uint64 | Kind::Fixed64 => if o.stringify_64_bit_integers {
            seq!['"', '0', '"']
        } else {
            seq!['0']
        },
        _ => seq!['0'],
    }
}

/// The rendered fields of a message from declaration position `i` on;
/// `first` says whether no field has been rendered yet (no leading comma).
pub open spec fn json_fields(pool: PoolV, m: SpecMsg, o: JsonOptions, i: int, first: bool) -> Seq<
    char,
>
    decreases m, 3int, pool.messages[m.msg].fields.len() - i,

{
    let md = pool.messages[m.msg];
    if i < 0 || i >= md.fields.len() {
        Seq::empty()
    } else {
        let fd = md.fields[i];
        let slot = if 0 <= i < m.slots.len() {
            m.slots[i]
        } else {
            None
        };
        let skip = fd.cardinality == Cardinality::Repeated || (match slot {
            Some(v) => o.skip_default_fields && v == zero_value_spec(pool, fd.kind),
            None => o.skip_default_fields || (fd.kind matches Kind::Message(_t)),
        });
        if skip {
            json_fields(pool, m, o, i + 1, first)
        } else {
            let fname = if o.use_proto_field_name {
                fd.name
            } else {
                fd.json_name
            };
            let rendered = match slot {
                Some(v) => json_value(pool, fd.kind, v, o),
                None => json_zero(fd.kind, o),
            };
            let lead = if first {
                Seq::<char>::empty()
            } else {
                seq![',']
            };
            lead + seq!['"'] + esc_str(fname) + seq!['"', ':'] + rendered + json_fields(
                pool,
                m,
                o,
                i + 1,
                false,
            )
        }
    }
}

/// The JSON rendering of a whole message.
pub open spec fn json_msg(pool: PoolV, m: SpecMsg, o: JsonOptions) -> Seq<char>
    decreases m, 4int, 0int,
{
    seq!['{'] + json_fields(pool, m, o, 0, true) + seq!['}']
}


/// Appends the rendering of an unset field's zero value.
fn enc_json_zero(out: &mut String, k: Kind, o: &JsonOptions)
    ensures
        final(out)@ == old(out)@ + json_zero(k, *o),
{
    match k {
        Kind::Bool => {
            out.append("false");
        },
        Kind::Str | Kind::Bytes => {
            out.append("\"\"");
        },
        Kind::Message(_) => {},
        Kind::Int64 | Kind::Sint64 | Kind::Sfixed64 | Kind::Uint64 | Kind::Fixed64 => {
            if o.stringify_64_bit_integers {
                out.append("\"0\"");
            } else {
                out.append("0");
            }
        },
        _ => {
            out.append("0");
        },
    }
    proof {
        reveal_strlit("false");
        reveal_strlit("\"\"");
        reveal_strlit("\"0\"");
        reveal_strlit("0");
        assert(final(out)@ =~= old(out)@ + json_zero(k, *o));
    }
}

/// Appends the JSON rendering of one value.  Fails with
/// [`Error::Unsupported`] on a floating-point bit pattern other than zero.
fn enc_json_value(pool: &DescriptorPool, out: &mut String, v: &Value, o: &JsonOptions) -> (r:
    Result<(), Error>)
    requires
        pool@.wf(),
        value_wf(pool@, value_view(*v)),
    ensures
        json_ok_value(value_view(*v)) ==> r is Ok && final(out)@ == old(out)@ + json_value(
            pool@,
            Kind::Bool,
            value_view(*v),
            *o,
        ),
        r matches Err(e) ==> e == Error::Unsupported && !json_ok_value(value_view(*v)),
        !json_ok_value(value_view(*v)) ==> r is Err,
    decreases *v, 1int,
{
    match v {
        Value::Bool(b) => {
            if *b {
                out.append("true");
            } else {
                out.append("false");
            }
            proof {
                reveal_strlit("true");
                reveal_strlit("false");
                assert(final(out)@ =~= old(out)@ + json_value(pool@, Kind::Bool, value_view(*v), *o));
            }
            Ok(())
        },
        Value::I32(n) => {
            push_i64(out, *n as i64);
            Ok(())
        },
        Value::U32(n) => {
            push_u64(out, *n as u64);
            Ok(())
        },
        Value::EnumNumber(n) => {
            push_i64(out, *n as i64);
            Ok(())
        },
        Value::I64(n) => {
            if o.stringify_64_bit_integers {
                push_char(out, '"');
                push_i64(out, *n);
                push_char(out, '"');
                assert(final(out)@ =~= old(out)@ + json_value(pool@, Kind::Bool, value_view(*v), *o));
            } else {
                push_i64(out, *n);
            }
            Ok(())
        },
        Value::U64(n) => {
            if o.stringify_64_bit_integers {
                push_char(out, '"');
                push_u64(out, *n);
                push_char(out, '"');
                assert(final(out)@ =~= old(out)@ + json_value(pool@, Kind::Bool, value_view(*v), *o));
            } else {
                push_u64(out, *n);
            }
            Ok(())
        },
        Value::F32Bits(n) => {
            if *n == 0 {
                push_char(out, '0');
                assert(final(out)@ =~= old(out)@ + json_value(pool@, Kind::Bool, value_view(*v), *o));
                Ok(())
            } else {
                Err(Error::Unsupported)
            }
        },
        Value::F64Bits(n) => {
            if *n == 0 {
                push_char(out, '0');
                assert(final(out)@ =~= old(out)@ + json_value(pool@, Kind::Bool, value_view(*v), *o));
                Ok(())
            } else {
                Err(Error::Unsupported)
            }
        },
        Value::Str(st) => {
            push_char(out, '"');
            push_escaped(out, st.as_str());
            push_char(out, '"');
            assert(final(out)@ =~= old(out)@ + json_value(pool@, Kind::Bool, value_view(*v), *o));
            Ok(())
        },
        Value::Bytes(bs) => {
            push_char(out, '"');
            push_b64(out, bs, 0);
            push_char(out, '"');
            proof {
                assert(bs@.subrange(0, bs@.len() as int) =~= bs@);
                assert(final(out)@ =~= old(out)@ + json_value(pool@, Kind::Bool, value_view(*v), *o));
            }
            Ok(())
        },
        Value::Message(sub) => {
            let r = enc_json_msg(pool, &**sub, out, o);
            proof {
                if json_ok_value(value_view(*v)) {
                    assert(json_ok_msg(msg_view_of(&**sub)));
                }
            }
            r
        },
    }
}

/// The view of a borrowed message (helper for nested proofs).
pub open spec fn msg_view_of(m: &DynamicMessage) -> SpecMsg {
    m@
}

/// The kind's zero value prints as a value the codec accepts.
proof fn lemma_json_ok_zero(pool: PoolV, k: Kind)
    ensures
        json_ok_value(zero_value_spec(pool, k)),
{
    match k {
        Kind::Message(t) => {
            let e = empty_msg_spec(pool, t as int);
            lemma_json_ok_slots(e.slots);
        },
        _ => (),
    }
}

/// Appends one rendered field: the leading comma when one is owed, the
/// quoted field name, and the value (or the kind's zero value while unset).
/// The caller guarantees the field is one the rendering spec emits.
#[verifier::rlimit(100)]
#[verifier::spinoff_prover]
fn enc_json_field(
    pool: &DescriptorPool,
    m: &DynamicMessage,
    out: &mut String,
    o: &JsonOptions,
    i: usize,
    first: bool,
) -> (r: Result<(), Error>)
    requires
        pool@.wf(),
        msg_wf(pool@, m@),
        i < pool@.messages[m@.msg].fields.len(),
        ({
            let fd = pool@.messages[m@.msg].fields[i as int];
            let slot = m@.slots[i as int];
            &&& fd.cardinality != Cardinality::Repeated
            &&& match slot {
                Some(v) => !(o.skip_default_fields && v == zero_value_spec(pool@, fd.kind)),
                None => !o.skip_default_fields && !(fd.kind matches Kind::Message(_t)),
            }
        }),
    ensures
        ({
            let fd = pool@.messages[m@.msg].fields[i as int];
            let slot = m@.slots[i as int];
            let fname = if o.use_proto_field_name {
                fd.name
            } else {
                fd.json_name
            };
            let rendered = match slot {
                Some(v) => json_value(pool@, fd.kind, v, *o),
                None => json_zero(fd.kind, *o),
            };
            match r {
                Ok(()) => final(out)@ == old(out)@ + (if first {
                    Seq::<char>::empty()
                } else {
                    seq![',']
                }) + seq!['"'] + esc_str(fname) + seq!['"', ':'] + rendered && (match slot {
                    Some(v) => json_ok_value(v),
                    None => true,
                }),
                Err(e) => e == Error::Unsupported && (slot matches Some(v) && !json_ok_value(v)),
            }
        }),
    decreases *m, 2int,
{
    proof {
        lemma_slots_view(m.slots@);
        lemma_slots_wf(pool@, pool@.messages[m@.msg].fields, m@.slots);
    }
    let md = &pool.messages[m.msg];
    let fd = &md.fields[i];
    let ghost before = out@;
    if !first {
        push_char(out, ',');
    }
    push_char(out, '"');
    if o.use_proto_field_name {
        push_escaped(out, fd.name.as_str());
    } else {
        push_escaped(out, fd.json_name.as_str());
    }
    push_char(out, '"');
    push_char(out, ':');
    match &m.slots[i] {
        Some(v) => {
            match enc_json_value(pool, out, v, o) {
                Ok(()) => {
                    proof {
                        assert(json_value(pool@, Kind::Bool, value_view(*v), *o) == json_value(
                            pool@,
                            pool@.messages[m@.msg].fields[i as int].kind,
                            value_view(*v),
                            *o,
                        ));
                        assert(final(out)@ =~= old(out)@ + (if first {
                            Seq::<char>::empty()
                        } else {
                            seq![',']
                        }) + seq!['"'] + esc_str(
                            if o.use_proto_field_name {
                                fd@.name
                            } else {
                                fd@.json_name
                            },
                        ) + seq!['"', ':'] + json_value(
                            pool@,
                            pool@.messages[m@.msg].fields[i as int].kind,
                            value_view(*v),
                            *o,
                        ));
                    }
                    Ok(())
                },
                Err(e) => Err(e),
            }
        },
        None => {
            enc_json_zero(out, fd.kind, o);
            proof {
                assert(final(out)@ =~= old(out)@ + (if first {
                    Seq::<char>::empty()
                } else {
                    seq![',']
                }) + seq!['"'] + esc_str(
                    if o.use_proto_field_name {
                        fd@.name
                    } else {
                        fd@.json_name
                    },
                ) + seq!['"', ':'] + json_zero(fd@.kind, *o));
            }
            Ok(())
        },
    }
}

/// Appends the JSON object rendering of a message.  Fails exactly when some
/// set field holds a floating-point value other than zero.
#[verifier::rlimit(100)]
#[verifier::spinoff_prover]
fn enc_json_msg(pool: &DescriptorPool, m: &DynamicMessage, out: &mut String, o: &JsonOptions) -> (r:
    Result<(), Error>)
    requires
        pool@.wf(),
        msg_wf(pool@, m@),
    ensures
        json_ok_msg(m@) ==> (r is Ok && final(out)@ == old(out)@ + json_msg(pool@, m@, *o)),
        r matches Err(e) ==> e == Error::Unsupported && !json_ok_msg(m@),
        !json_ok_msg(m@) ==> r is Err,
    decreases *m, 3int,
{
    push_char(out, '{');
    let md = &pool.messages[m.msg];
    let nf = md.fields.len();
    let ghost afteropen = out@;
    proof {
        lemma_slots_view(m.slots@);
        lemma_slots_wf(pool@, pool@.messages[m@.msg].fields, m@.slots);
        lemma_json_ok_slots(m@.slots);
    }
    let mut first = true;
    let mut i: usize = 0;
    while i < nf
        invariant
            pool@.wf(),
            msg_wf(pool@, m@),
            md@ == pool@.messages[m@.msg],
            nf == md.fields.len(),
            i <= nf,
            slots_view(m.slots@).len() == m.slots@.len(),
            forall|t: int|
                0 <= t < m.slots@.len() ==> #[trigger] slots_view(m.slots@)[t] == (match m.slots@[t] {
                    None => None,
                    Some(v) => Some(value_view(v)),
                }),
            forall|t: int|
                0 <= t < i ==> (match #[trigger] m@.slots[t] {
                    None => true,
                    Some(v) => json_ok_value(v),
                }),
            json_ok_msg(m@) ==> afteropen + json_fields(pool@, m@, *o, 0, true) == out@
                + json_fields(pool@, m@, *o, i as int, first),
        decreases nf - i,
    {
        proof {
            lemma_slots_wf(pool@, pool@.messages[m@.msg].fields, m@.slots);
            lemma_json_ok_slots(m@.slots);
        }
        let fd = &md.fields[i];
        let ghost slot = m@.slots[i as int];
        let mut skip = matches!(fd.cardinality, Cardinality::Repeated);
        if !skip {
            match &m.slots[i] {
                Some(v) => {
                    if o.skip_default_fields {
                        let z = crate::message::zero_value(pool, fd.kind);
                        if crate::message::value_eq(v, &z) {
                            skip = true;
                            proof {
                                lemma_json_ok_zero(pool@, fd@.kind);
                            }
                        }
                    }
                },
                None => {
                    if o.skip_default_fields || matches!(fd.kind, Kind::Message(_)) {
                        skip = true;
                    }
                },
            }
        }
        if !skip {
            match enc_json_field(pool, m, out, o, i, first) {
                Ok(()) => (),
                Err(e) => {
                    proof {
                        assert(!json_ok_msg(m@));
                    }
                    return Err(e);
                },
            }
            proof {
                if json_ok_msg(m@) {
                    assert(afteropen + json_fields(pool@, m@, *o, 0, true) =~= out@
                        + json_fields(pool@, m@, *o, i + 1, false));
                }
            }
            first = false;
        } else {
            proof {
                if json_ok_msg(m@) {
                    assert(afteropen + json_fields(pool@, m@, *o, 0, true) == out@
                        + json_fields(pool@, m@, *o, i + 1, first));
                }
            }
        }
        i += 1;
    }
    push_char(out, '}');
    proof {
        lemma_json_ok_slots(m@.slots);
        assert(json_ok_msg(m@));
        assert(json_fields(pool@, m@, *o, nf as int, first) =~= Seq::<char>::empty());
        assert(final(out)@ =~= old(out)@ + json_msg(pool@, m@, *o));
    }
    Ok(())
}

impl DynamicMessage {
    /// Renders this message as JSON text under the given options.  Fails
    /// with [`Error::Unsupported`] exactly when a rendered field holds a
    /// floating-point value other than zero, which the verified engine
    /// cannot print.
    pub fn to_json(&self, pool: &DescriptorPool, o: &JsonOptions) -> (r: Result<String, Error>)
        requires
            pool@.wf(),
            msg_wf(pool@, self@),
        ensures
            json_ok_msg(self@) ==> (r matches Ok(s) && s@ == json_msg(pool@, self@, *o)),
            r matches Err(e) ==> e == Error::Unsupported && !json_ok_msg(self@),
            r is Err <==> !json_ok_msg(self@),
    {
        let mut out = String::new();
        match enc_json_msg(pool, self, &mut out, o) {
            Ok(()) => {
                assert(out@ =~= json_msg(pool@, self@, *o) || !json_ok_msg(self@)) by {
                    if json_ok_msg(self@) {
                        assert(out@ =~= Seq::<char>::empty() + json_msg(pool@, self@, *o));
                    }
                }
                Ok(out)
            },
            Err(e) => Err(e),
        }
    }
}


/// Is this byte JSON whitespace?
pub open spec fn is_ws(c: u8) -> bool {
    c == 32 || c == 9 || c == 10 || c == 13
}

/// The first non-whitespace position at or after `pos`.
pub open spec fn jd_ws(b: Seq<u8>, pos: int) -> int
    decreases b.len() - pos,
{
    if pos < 0 || pos >= b.len() {
        pos
    } else if is_ws(b[pos]) {
        jd_ws(b, pos + 1)
    } else {
        pos
    }
}

/// Do the bytes at `pos` spell out `lit`?
pub open spec fn jd_lit(b: Seq<u8>, pos: int, lit: Seq<u8>) -> bool {
    0 <= pos && pos + lit.len() <= b.len() && b.subrange(pos, pos + lit.len()) == lit
}

/// The value of a base64 alphabet byte, or 64 for any other byte.
pub open spec fn b64_val(c: u8) -> int {
    if c == 65 {
        0
    } else if c == 66 {
        1
    } else if c == 67 {
        2
    } else if c == 68 {
        3
    } else if c == 69 {
        4
    } else if c == 70 {
        5
    } else if c == 71 {
        6
    } else if c == 72 {
        7
    } else if c == 73 {
        8
    } else if c == 74 {
        9
    } else if c == 75 {
        10
    } else if c == 76 {
        11
    } else if c == 77 {
        12
    } else if c == 78 {
        13
    } else if c == 79 {
        14
    } else if c == 80 {
        15
    } else if c == 81 {
        16
    } else if c == 82 {
        17
    } else if c == 83 {
        18
    } else if c == 84 {
        19
    } else if c == 85 {
        20
    } else if c == 86 {
        21
    } else if c == 87 {
        22
    } else if c == 88 {
        23
    } else if c == 89 {
        24
    } else if c == 90 {
        25
    } else if c == 97 {
        26
    } else if c == 98 {
        27
    } else if c == 99 {
        28
    } else if c == 100 {
        29
    } else if c == 101 {
        30
    } else if c == 102 {
        31
    } else if c == 103 {
        32
    } else if c == 104 {
        33
    } else if c == 105 {
        34
    } else if c == 106 {
        35
    } else if c == 107 {
        36
    } else if c == 108 {
        37
    } else if c == 109 {
        38
    } else if c == 110 {
        39
    } else if c == 111 {
        40
    } else if c == 112 {
        41
    } else if c == 113 {
        42
    } else if c == 114 {
        43
    } else if c == 115 {
        44
    } else if c == 116 {
        45
    } else if c == 117 {
        46
    } else if c == 118 {
        47
    } else if c == 119 {
        48
    } else if c == 120 {
        49
    } else if c == 121 {
        50
    } else if c == 122 {
        51
    } else if c == 48 {
        52
    } else if c == 49 {
        53
    } else if c == 50 {
        54
    } else if c == 51 {
        55
    } else if c == 52 {
        56
    } else if c == 53 {
        57
    } else if c == 54 {
        58
    } else if c == 55 {
        59
    } else if c == 56 {
        60
    } else if c == 57 {
        61
    } else if c == 43 {
        62
    } else if c == 47 {
        63
    } else {
        64
    }
}

/// Strict base64 decoding of a whole character string (as bytes): full
/// groups of four, canonical padding.
pub open spec fn jd_b64(s: Seq<u8>) -> Result<Seq<u8>, Error>
    decreases s.len(),
{
    if s.len() == 0 {
        Ok(Seq::empty())
    } else if s.len() % 4 != 0 {
        Err(Error::JsonParse)
    } else {
        let v0 = b64_val(s[0]);
        let v1 = b64_val(s[1]);
        if v0 >= 64 || v1 >= 64 {
            Err(Error::JsonParse)
        } else if s.len() == 4 && s[3] == 61 {
            if s[2] == 61 {
                if v1 % 16 == 0 {
                    Ok(seq![(v0 * 4 + v1 / 16) as u8])
                } else {
                    Err(Error::JsonParse)
                }
            } else {
                let v2 = b64_val(s[2]);
                if v2 < 64 && v2 % 4 == 0 {
                    Ok(seq![(v0 * 4 + v1 / 16) as u8, ((v1 % 16) * 16 + v2 / 4) as u8])
                } else {
                    Err(Error::JsonParse)
                }
            }
        } else {
            let v2 = b64_val(s[2]);
            let v3 = b64_val(s[3]);
            if v2 >= 64 || v3 >= 64 {
                Err(Error::JsonParse)
            } else {
                match jd_b64(s.subrange(4, s.len() as int)) {
                    Err(e) => Err(e),
                    Ok(rest) => Ok(
                        seq![
                            (v0 * 4 + v1 / 16) as u8,
                            ((v1 % 16) * 16 + v2 / 4) as u8,
                            ((v2 % 4) * 64 + v3) as u8,
                        ] + rest,
                    ),
                }
            }
        }
    }
}

/// The value of an ASCII hex digit byte, or 16 for any other byte.
pub open spec fn hex_val(c: u8) -> int {
    if 48 <= c <= 57 {
        c - 48
    } else if 97 <= c <= 102 {
        c - 87
    } else if 65 <= c <= 70 {
        c - 55
    } else {
        16
    }
}

/// The UTF-8 bytes of a code point below 0x10000.
pub open spec fn utf8_of_cp(cp: int) -> Seq<u8> {
    if cp < 0x80 {
        seq![cp as u8]
    } else if cp < 0x800 {
        seq![(192 + cp / 64) as u8, (128 + cp % 64) as u8]
    } else {
        seq![(224 + cp / 4096) as u8, (128 + (cp / 64) % 64) as u8, (128 + cp % 64) as u8]
    }
}

/// Parses JSON string content after the opening quote: the unescaped bytes
/// and the position after the closing quote.
pub open spec fn jd_str_content(b: Seq<u8>, pos: int, acc: Seq<u8>) -> Result<(Seq<u8>, int), Error>
    decreases b.len() - pos,
{
    if pos < 0 || pos >= b.len() {
        Err(Error::JsonParse)
    } else {
        let c = b[pos];
        if c == 34 {
            Ok((acc, pos + 1))
        } else if c == 92 {
            if pos + 1 >= b.len() {
                Err(Error::JsonParse)
            } else {
                let e = b[pos + 1];
                if e == 34 || e == 92 || e == 47 {
                    jd_str_content(b, pos + 2, acc.push(e))
                } else if e == 98 {
                    jd_str_content(b, pos + 2, acc.push(8))
                } else if e == 102 {
                    jd_str_content(b, pos + 2, acc.push(12))
                } else if e == 110 {
                    jd_str_content(b, pos + 2, acc.push(10))
                } else if e == 114 {
                    jd_str_content(b, pos + 2, acc.push(13))
                } else if e == 116 {
                    jd_str_content(b, pos + 2, acc.push(9))
                } else if e == 117 {
                    if pos + 6 > b.len() {
                        Err(Error::JsonParse)
                    } else {
                        let h0 = hex_val(b[pos + 2]);
                        let h1 = hex_val(b[pos + 3]);
                        let h2 = hex_val(b[pos + 4]);
                        let h3 = hex_val(b[pos + 5]);
                        if h0 >= 16 || h1 >= 16 || h2 >= 16 || h3 >= 16 {
                            Err(Error::JsonParse)
                        } else {
                            let cp = h0 * 4096 + h1 * 256 + h2 * 16 + h3;
                            if 0xd800 <= cp <= 0xdfff {
                                Err(Error::JsonParse)
                            } else {
                                jd_str_content(b, pos + 6, acc + utf8_of_cp(cp))
                            }
                        }
                    }
                } else {
                    Err(Error::JsonParse)
                }
            }
        } else {
            jd_str_content(b, pos + 1, acc.push(c))
        }
    }
}

/// Parses a quoted JSON string at `pos`: its unescaped bytes and the
/// position after it.
pub open spec fn jd_string(b: Seq<u8>, pos: int) -> Result<(Seq<u8>, int), Error> {
    if 0 <= pos < b.len() && b[pos] == 34 {
        jd_str_content(b, pos + 1, Seq::empty())
    } else {
        Err(Error::JsonParse)
    }
}

/// Parses an unsigned decimal run starting with accumulator `acc`: its value
/// and the position after the last digit.
pub open spec fn jd_digits(b: Seq<u8>, pos: int, acc: u64) -> Result<(u64, int), Error>
    decreases b.len() - pos,
{
    if pos < 0 || pos >= b.len() || !(48 <= b[pos] <= 57) {
        Ok((acc, pos))
    } else {
        let d = (b[pos] - 48) as u64;
        if acc > 0x1999999999999999 || (acc == 0x1999999999999999 && d > 5) {
            Err(Error::JsonParse)
        } else {
            jd_digits(b, pos + 1, (acc * 10 + d) as u64)
        }
    }
}

/// Parses a decimal integer, optionally negative and optionally quoted: the
/// sign, magnitude and position after it.
pub open spec fn jd_int(b: Seq<u8>, pos: int) -> Result<(bool, u64, int), Error> {
    if 0 <= pos < b.len() && b[pos] == 34 {
        match jd_int_bare(b, pos + 1) {
            Err(e) => Err(e),
            Ok((neg, mag, p)) => {
                if p < b.len() && b[p] == 34 {
                    Ok((neg, mag, p + 1))
                } else {
                    Err(Error::JsonParse)
                }
            },
        }
    } else {
        jd_int_bare(b, pos)
    }
}

/// Parses a bare decimal integer with optional leading minus.
pub open spec fn jd_int_bare(b: Seq<u8>, pos: int) -> Result<(bool, u64, int), Error> {
    if 0 <= pos < b.len() && b[pos] == 45 {
        if pos + 1 < b.len() && 48 <= b[pos + 1] <= 57 {
            match jd_digits(b, pos + 2, (b[pos + 1] - 48) as u64) {
                Err(e) => Err(e),
                Ok((mag, p)) => Ok((true, mag, p)),
            }
        } else {
            Err(Error::JsonParse)
        }
    } else if 0 <= pos < b.len() && 48 <= b[pos] <= 57 {
        match jd_digits(b, pos + 1, (b[pos] - 48) as u64) {
            Err(e) => Err(e),
            Ok((mag, p)) => Ok((false, mag, p)),
        }
    } else {
        Err(Error::JsonParse)
    }
}

/// The first field position whose declared name or JSON alias equals `key`,
/// scanning from `i`.
pub open spec fn field_index_by_json_from(md: MsgDescV, key: Seq<char>, i: int) -> Option<int>
    decreases md.fields.len() - i,
{
    if i < 0 || i >= md.fields.len() {
        None
    } else if md.fields[i].name == key || md.fields[i].json_name == key {
        Some(i)
    } else {
        field_index_by_json_from(md, key, i + 1)
    }
}

pub open spec fn field_index_by_json(md: MsgDescV, key: Seq<char>) -> Option<int> {
    field_index_by_json_from(md, key, 0)
}

/// Parses one JSON value for a field of kind `k`: `None` for a JSON `null`
/// (the field stays unset), else the engine value, and the position after
/// it.  Fails with [`Error::JsonParse`] on malformed or out-of-range input
/// and with [`Error::Unsupported`] on a non-zero floating-point number.
pub open spec fn jd_value(pool: PoolV, k: Kind, b: Seq<u8>, pos: int) -> Result<
    (Option<SpecValue>, int),
    Error,
>
    decreases b.len() - pos, 1int,
{
    if jd_lit(b, pos, seq![110u8, 117u8, 108u8, 108u8]) {
        Ok((None, pos + 4))
    } else {
        match k {
            Kind::Bool => {
                if jd_lit(b, pos, seq![116u8, 114u8, 117u8, 101u8]) {
                    Ok((Some(SpecValue::Bool(true)), pos + 4))
                } else if jd_lit(b, pos, seq![102u8, 97u8, 108u8, 115u8, 101u8]) {
                    Ok((Some(SpecValue::Bool(false)), pos + 5))
                } else {
                    Err(Error::JsonParse)
                }
            },
            Kind::Int32 | Kind::Sint32 | Kind::Sfixed32 | Kind::Enum => {
                match jd_int(b, pos) {
                    Err(e) => Err(e),
                    Ok((neg, mag, p)) => {
                        if neg && mag <= 0x80000000 {
                            let v = (-(mag as int)) as i32;
                            if k is Enum {
                                Ok((Some(SpecValue::EnumNumber(v)), p))
                            } else {
                                Ok((Some(SpecValue::I32(v)), p))
                            }
                        } else if !neg && mag <= 0x7fffffff {
                            let v = mag as i32;
                            if k is Enum {
                                Ok((Some(SpecValue::EnumNumber(v)), p))
                            } else {
                                Ok((Some(SpecValue::I32(v)), p))
                            }
                        } else {
                            Err(Error::JsonParse)
                        }
                    },
                }
            },
            Kind::Int64 | Kind::Sint64 | Kind::Sfixed64 => {
                match jd_int(b, pos) {
                    Err(e) => Err(e),
                    Ok((neg, mag, p)) => {
                        if neg && mag <= 0x8000000000000000 {
                            Ok((Some(SpecValue::I64((-(mag as int)) as i64)), p))
                        } else if !neg && mag <= 0x7fffffffffffffff {
                            Ok((Some(SpecValue::I64(mag as i64)), p))
                        } else {
                            Err(Error::JsonParse)
                        }
                    },
                }
            },
            Kind::Uint32 | Kind::Fixed32 => {
                match jd_int(b, pos) {
                    Err(e) => Err(e),
                    Ok((neg, mag, p)) => {
                        if (neg && mag != 0) || mag > 0xffffffff {
                            Err(Error::JsonParse)
                        } else {
                            Ok((Some(SpecValue::U32(mag as u32)), p))
                        }
                    },
                }
            },
            Kind::Uint64 | Kind::Fixed64 => {
                match jd_int(b, pos) {
                    Err(e) => Err(e),
                    Ok((neg, mag, p)) => {
                        if neg && mag != 0 {
                            Err(Error::JsonParse)
                        } else {
                            Ok((Some(SpecValue::U64(mag)), p))
                        }
                    },
                }
            },
            Kind::Double => {
                match jd_int(b, pos) {
                    Err(e) => Err(e),
                    Ok((_neg, mag, p)) => {
                        if mag == 0 {
                            Ok((Some(SpecValue::F64Bits(0)), p))
                        } else {
                            Err(Error::Unsupported)
                        }
                    },
                }
            },
            Kind::Float => {
                match jd_int(b, pos) {
                    Err(e) => Err(e),
                    Ok((_neg, mag, p)) => {
                        if mag == 0 {
                            Ok((Some(SpecValue::F32Bits(0)), p))
                        } else {
                            Err(Error::Unsupported)
                        }
                    },
                }
            },
            Kind::Str => {
                match jd_string(b, pos) {
                    Err(e) => Err(e),
                    Ok((bytes, p)) => {
                        if vstd::utf8::valid_utf8(bytes) {
                            Ok((Some(SpecValue::Str(vstd::utf8::decode_utf8(bytes))), p))
                        } else {
                            Err(Error::JsonParse)
                        }
                    },
                }
            },
            Kind::Bytes => {
                match jd_string(b, pos) {
                    Err(e) => Err(e),
                    Ok((chars, p)) => {
                        match jd_b64(chars) {
                            Err(e) => Err(e),
                            Ok(bytes) => Ok((Some(SpecValue::Bytes(bytes)), p)),
                        }
                    },
                }
            },
            Kind::Message(t) => {
                match jd_obj(pool, t as int, b, pos) {
                    Err(e) => Err(e),
                    Ok((sub, p)) => Ok((Some(SpecValue::Message(sub)), p)),
                }
            },
        }
    }
}

/// Parses the members of an object into `m`, after the opening brace and any
/// leading member already handled; `pos` stands on a key or closing brace.
pub open spec fn jd_members(pool: PoolV, mi: int, b: Seq<u8>, pos: int, m: SpecMsg) -> Result<
    (SpecMsg, int),
    Error,
>
    decreases b.len() - pos, 2int,
{
    let md = pool.messages[mi];
    match jd_string(b, pos) {
        Err(e) => Err(e),
        Ok((keybytes, p1)) => {
            if !(pos < p1 <= b.len()) {
                Err(Error::JsonParse)
            } else if !vstd::utf8::valid_utf8(keybytes) {
                Err(Error::JsonParse)
            } else {
                let key = vstd::utf8::decode_utf8(keybytes);
                match field_index_by_json(md, key) {
                    None => Err(Error::JsonParse),
                    Some(fi) => {
                        if md.fields[fi].cardinality == Cardinality::Repeated {
                            Err(Error::Unsupported)
                        } else {
                            let p2 = jd_ws(b, p1);
                            if !(p2 < b.len() && b[p2] == 58) {
                                Err(Error::JsonParse)
                            } else {
                                let p3 = jd_ws(b, p2 + 1);
                                if !(pos < p3 <= b.len()) {
                                    Err(Error::JsonParse)
                                } else {
                                    match jd_value(pool, md.fields[fi].kind, b, p3) {
                                    Err(e) => Err(e),
                                    Ok((ov, p4)) => {
                                        if !(pos < p4 <= b.len()) {
                                            Err(Error::JsonParse)
                                        } else {
                                            let m2 = match ov {
                                                None => m,
                                                Some(v) => SpecMsg {
                                                    msg: m.msg,
                                                    slots: m.slots.update(fi, Some(v)),
                                                },
                                            };
                                            let p5 = jd_ws(b, p4);
                                            if p5 < b.len() && b[p5] == 44 {
                                                let p6 = jd_ws(b, p5 + 1);
                                                if p6 > pos && p6 <= b.len() {
                                                    jd_members(pool, mi, b, p6, m2)
                                                } else {
                                                    Err(Error::JsonParse)
                                                }
                                            } else if p5 < b.len() && b[p5] == 125 {
                                                Ok((m2, p5 + 1))
                                            } else {
                                                Err(Error::JsonParse)
                                            }
                                        }
                                    },
                                }
                                }
                            }
                        }
                    },
                }
            }
        },
    }
}

/// Parses a JSON object at `pos` as a message of type `mi`.
pub open spec fn jd_obj(pool: PoolV, mi: int, b: Seq<u8>, pos: int) -> Result<(SpecMsg, int), Error>
    decreases b.len() - pos, 0int,
{
    if 0 <= pos < b.len() && b[pos] == 123 {
        let p1 = jd_ws(b, pos + 1);
        if p1 < b.len() && b[p1] == 125 {
            Ok((empty_msg_spec(pool, mi), p1 + 1))
        } else if p1 > pos && p1 <= b.len() {
            jd_members(pool, mi, b, p1, empty_msg_spec(pool, mi))
        } else {
            Err(Error::JsonParse)
        }
    } else {
        Err(Error::JsonParse)
    }
}

/// Parses a whole JSON document (as UTF-8 bytes) as a message of type `mi`:
/// one object, nothing but whitespace around it.
pub open spec fn jd_doc(pool: PoolV, mi: int, b: Seq<u8>) -> Result<SpecMsg, Error> {
    let p0 = jd_ws(b, 0);
    match jd_obj(pool, mi, b, p0) {
        Err(e) => Err(e),
        Ok((m, p)) => {
            if jd_ws(b, p) == b.len() {
                Ok(m)
            } else {
                Err(Error::JsonParse)
            }
        },
    }
}


pub(crate) fn x_ws(b: &Vec<u8>, pos: usize) -> (r: usize)
    requires
        pos <= b@.len(),
    ensures
        r as int == jd_ws(b@, pos as int),
        pos <= r <= b@.len(),
{
    let n = b.len();
    let mut i = pos;
    while i < n && (b[i] == 32 || b[i] == 9 || b[i] == 10 || b[i] == 13)
        invariant
            pos <= i <= n == b@.len(),
            jd_ws(b@, pos as int) == jd_ws(b@, i as int),
        decreases n - i,
    {
        i += 1;
    }
    i
}

pub(crate) fn x_lit4(b: &Vec<u8>, pos: usize, a0: u8, a1: u8, a2: u8, a3: u8) -> (r: bool)
    requires
        pos <= b@.len(),
    ensures
        r == jd_lit(b@, pos as int, seq![a0, a1, a2, a3]),
{
    if b.len() - pos >= 4 && b[pos] == a0 && b[pos + 1] == a1 && b[pos + 2] == a2 && b[pos + 3]
        == a3 {
        assert(b@.subrange(pos as int, pos + 4) =~= seq![a0, a1, a2, a3]);
        true
    } else {
        proof {
            if pos + 4 <= b@.len() {
                let l = seq![a0, a1, a2, a3];
                assert(b@.subrange(pos as int, pos + 4)[0] == b@[pos as int]);
                assert(b@.subrange(pos as int, pos + 4)[1] == b@[pos + 1]);
                assert(b@.subrange(pos as int, pos + 4)[2] == b@[pos + 2]);
                assert(b@.subrange(pos as int, pos + 4)[3] == b@[pos + 3]);
            }
        }
        false
    }
}

pub(crate) fn x_lit5(b: &Vec<u8>, pos: usize, a0: u8, a1: u8, a2: u8, a3: u8, a4: u8) -> (r: bool)
    requires
        pos <= b@.len(),
    ensures
        r == jd_lit(b@, pos as int, seq![a0, a1, a2, a3, a4]),
{
    if b.len() - pos >= 5 && b[pos] == a0 && b[pos + 1] == a1 && b[pos + 2] == a2 && b[pos + 3]
        == a3 && b[pos + 4] == a4 {
        assert(b@.subrange(pos as int, pos + 5) =~= seq![a0, a1, a2, a3, a4]);
        true
    } else {
        proof {
            if pos + 5 <= b@.len() {
                assert(b@.subrange(pos as int, pos + 5)[0] == b@[pos as int]);
                assert(b@.subrange(pos as int, pos + 5)[1] == b@[pos + 1]);
                assert(b@.subrange(pos as int, pos + 5)[2] == b@[pos + 2]);
                assert(b@.subrange(pos as int, pos + 5)[3] == b@[pos + 3]);
                assert(b@.subrange(pos as int, pos + 5)[4] == b@[pos + 4]);
            }
        }
        false
    }
}

fn x_b64_val(c: u8) -> (r: u8)
    ensures
        r as int == b64_val(c),
{
    match c {
        65 => 0,
        66 => 1,
        67 => 2,
        68 => 3,
        69 => 4,
        70 => 5,
        71 => 6,
        72 => 7,
        73 => 8,
        74 => 9,
        75 => 10,
        76 => 11,
        77 => 12,
        78 => 13,
        79 => 14,
        80 => 15,
        81 => 16,
        82 => 17,
        83 => 18,
        84 => 19,
        85 => 20,
        86 => 21,
        87 => 22,
        88 => 23,
        89 => 24,
        90 => 25,
        97 => 26,
        98 => 27,
        99 => 28,
        100 => 29,
        101 => 30,
        102 => 31,
        103 => 32,
        104 => 33,
        105 => 34,
        106 => 35,
        107 => 36,
        108 => 37,
        109 => 38,
        110 => 39,
        111 => 40,
        112 => 41,
        113 => 42,
        114 => 43,
        115 => 44,
        116 => 45,
        117 => 46,
        118 => 47,
        119 => 48,
        120 => 49,
        121 => 50,
        122 => 51,
        48 => 52,
        49 => 53,
        50 => 54,
        51 => 55,
        52 => 56,
        53 => 57,
        54 => 58,
        55 => 59,
        56 => 60,
        57 => 61,
        43 => 62,
        47 => 63,
        _ => 64,
    }
}

pub(crate) fn x_hex_val(c: u8) -> (r: u8)
    ensures
        r as int == hex_val(c),
{
    if 48 <= c && c <= 57 {
        c - 48
    } else if 97 <= c && c <= 102 {
        c - 87
    } else if 65 <= c && c <= 70 {
        c - 55
    } else {
        16
    }
}

/// Strict base64 decoding of a character string held as bytes.
fn x_b64_decode(s: &Vec<u8>) -> (r: Result<Vec<u8>, Error>)
    ensures
        jd_b64(s@) == (match r {
            Ok(v) => Ok::<Seq<u8>, Error>(v@),
            Err(e) => Err::<Seq<u8>, Error>(e),
        }),
{
    let n = s.len();
    if n % 4 != 0 && n != 0 {
        return Err(Error::JsonParse);
    }
    let mut out: Vec<u8> = Vec::new();
    let mut pos: usize = 0;
    proof {
        assert(s@.subrange(0, n as int) =~= s@);
        match jd_b64(s@) {
            Ok(r) => {
                assert(Seq::<u8>::empty() + r =~= r);
            },
            Err(_) => {},
        }
    }
    while pos < n
        invariant
            n == s@.len(),
            pos <= n,
            pos % 4 == 0,
            n % 4 == 0,
            jd_b64(s@) == (match jd_b64(s@.subrange(pos as int, n as int)) {
                Ok(rest) => Ok::<Seq<u8>, Error>(out@ + rest),
                Err(e) => Err::<Seq<u8>, Error>(e),
            }),
        decreases n - pos,
    {
        let ghost chunkrest = s@.subrange(pos as int, n as int);
        proof {
            assert(chunkrest.len() == n - pos);
            assert(chunkrest[0] == s@[pos as int]);
            assert(chunkrest[1] == s@[pos + 1]);
            assert(chunkrest[2] == s@[pos + 2]);
            assert(chunkrest[3] == s@[pos + 3]);
        }
        let ghost ob = out@;
        let v0 = x_b64_val(s[pos]);
        let v1 = x_b64_val(s[pos + 1]);
        if v0 >= 64 || v1 >= 64 {
            return Err(Error::JsonParse);
        }
        if n - pos == 4 && s[pos + 3] == 61 {
            if s[pos + 2] == 61 {
                if v1 % 16 == 0 {
                    out.push(v0 * 4 + v1 / 16);
                    proof {
                        assert(jd_b64(chunkrest) == Ok::<Seq<u8>, Error>(
                            seq![(v0 * 4 + v1 / 16) as u8],
                        ));
                        assert(out@ =~= ob + seq![(v0 * 4 + v1 / 16) as u8]);
                    }
                    return Ok(out);
                } else {
                    return Err(Error::JsonParse);
                }
            } else {
                let v2 = x_b64_val(s[pos + 2]);
                if v2 < 64 && v2 % 4 == 0 {
                    out.push(v0 * 4 + v1 / 16);
                    out.push((v1 % 16) * 16 + v2 / 4);
                    proof {
                        assert(jd_b64(chunkrest) == Ok::<Seq<u8>, Error>(
                            seq![(v0 * 4 + v1 / 16) as u8, ((v1 % 16) * 16 + v2 / 4) as u8],
                        ));
                        assert(out@ =~= ob + seq![
                            (v0 * 4 + v1 / 16) as u8,
                            ((v1 % 16) * 16 + v2 / 4) as u8,
                        ]);
                    }
                    return Ok(out);
                } else {
                    return Err(Error::JsonParse);
                }
            }
        }
        let v2 = x_b64_val(s[pos + 2]);
        let v3 = x_b64_val(s[pos + 3]);
        if v2 >= 64 || v3 >= 64 {
            return Err(Error::JsonParse);
        }
        out.push(v0 * 4 + v1 / 16);
        out.push((v1 % 16) * 16 + v2 / 4);
        out.push((v2 % 4) * 64 + v3);
        proof {
            assert(chunkrest.subrange(4, chunkrest.len() as int) =~= s@.subrange(
                pos + 4,
                n as int,
            ));
            assert(out@ =~= ob + seq![
                (v0 * 4 + v1 / 16) as u8,
                ((v1 % 16) * 16 + v2 / 4) as u8,
                ((v2 % 4) * 64 + v3) as u8,
            ]);
        }
        pos += 4;
        proof {
            let tail = s@.subrange(pos as int, n as int);
            match jd_b64(tail) {
                Ok(rest) => {
                    assert(ob + (seq![
                        (v0 * 4 + v1 / 16) as u8,
                        ((v1 % 16) * 16 + v2 / 4) as u8,
                        ((v2 % 4) * 64 + v3) as u8,
                    ] + rest) =~= out@ + rest);
                },
                Err(_) => {},
            }
        }
    }
    assert(s@.subrange(n as int, n as int) =~= Seq::<u8>::empty());
    assert(out@ + Seq::<u8>::empty() =~= out@);
    Ok(out)
}


fn x_str_content(b: &Vec<u8>, pos: usize, acc: Vec<u8>) -> (r: Result<(Vec<u8>, usize), Error>)
    requires
        pos <= b@.len(),
    ensures
        jd_str_content(b@, pos as int, acc@) == (match r {
            Ok((v, p)) => Ok::<(Seq<u8>, int), Error>((v@, p as int)),
            Err(e) => Err::<(Seq<u8>, int), Error>(e),
        }),
        r matches Ok((v, p)) ==> pos < p <= b@.len(),
    decreases b@.len() - pos,
{
    if pos >= b.len() {
        return Err(Error::JsonParse);
    }
    let c = b[pos];
    if c == 34 {
        Ok((acc, pos + 1))
    } else if c == 92 {
        if pos + 1 >= b.len() {
            return Err(Error::JsonParse);
        }
        let e = b[pos + 1];
        if e == 34 || e == 92 || e == 47 {
            let mut acc2 = acc;
            acc2.push(e);
            x_str_content(b, pos + 2, acc2)
        } else if e == 98 {
            let mut acc2 = acc;
            acc2.push(8);
            x_str_content(b, pos + 2, acc2)
        } else if e == 102 {
            let mut acc2 = acc;
            acc2.push(12);
            x_str_content(b, pos + 2, acc2)
        } else if e == 110 {
            let mut acc2 = acc;
            acc2.push(10);
            x_str_content(b, pos + 2, acc2)
        } else if e == 114 {
            let mut acc2 = acc;
            acc2.push(13);
            x_str_content(b, pos + 2, acc2)
        } else if e == 116 {
            let mut acc2 = acc;
            acc2.push(9);
            x_str_content(b, pos + 2, acc2)
        } else if e == 117 {
            if b.len() - pos < 6 {
                return Err(Error::JsonParse);
            }
            let h0 = x_hex_val(b[pos + 2]);
            let h1 = x_hex_val(b[pos + 3]);
            let h2 = x_hex_val(b[pos + 4]);
            let h3 = x_hex_val(b[pos + 5]);
            if h0 >= 16 || h1 >= 16 || h2 >= 16 || h3 >= 16 {
                return Err(Error::JsonParse);
            }
            let cp: u32 = (h0 as u32) * 4096 + (h1 as u32) * 256 + (h2 as u32) * 16 + (h3 as u32);
            if 0xd800 <= cp && cp <= 0xdfff {
                return Err(Error::JsonParse);
            }
            let mut acc2 = acc;
            if cp < 0x80 {
                acc2.push(cp as u8);
                assert(acc2@ =~= acc@ + utf8_of_cp(cp as int));
            } else if cp < 0x800 {
                acc2.push(192 + (cp / 64) as u8);
                acc2.push(128 + (cp % 64) as u8);
                assert(acc2@ =~= acc@ + utf8_of_cp(cp as int));
            } else {
                acc2.push(224 + (cp / 4096) as u8);
                acc2.push(128 + ((cp / 64) % 64) as u8);
                acc2.push(128 + (cp % 64) as u8);
                assert(acc2@ =~= acc@ + utf8_of_cp(cp as int));
            }
            x_str_content(b, pos + 6, acc2)
        } else {
            Err(Error::JsonParse)
        }
    } else {
        let mut acc2 = acc;
        acc2.push(c);
        x_str_content(b, pos + 1, acc2)
    }
}

fn x_string(b: &Vec<u8>, pos: usize) -> (r: Result<(Vec<u8>, usize), Error>)
    requires
        pos <= b@.len(),
    ensures
        jd_string(b@, pos as int) == (match r {
            Ok((v, p)) => Ok::<(Seq<u8>, int), Error>((v@, p as int)),
            Err(e) => Err::<(Seq<u8>, int), Error>(e),
        }),
        r matches Ok((v, p)) ==> pos < p <= b@.len(),
{
    if pos < b.len() && b[pos] == 34 {
        x_str_content(b, pos + 1, Vec::new())
    } else {
        Err(Error::JsonParse)
    }
}

pub(crate) fn x_digits(b: &Vec<u8>, pos: usize, acc: u64) -> (r: Result<(u64, usize), Error>)
    requires
        pos <= b@.len(),
    ensures
        jd_digits(b@, pos as int, acc) == (match r {
            Ok((v, p)) => Ok::<(u64, int), Error>((v, p as int)),
            Err(e) => Err::<(u64, int), Error>(e),
        }),
        r matches Ok((v, p)) ==> pos <= p <= b@.len(),
    decreases b@.len() - pos,
{
    if pos >= b.len() || b[pos] < 48 || b[pos] > 57 {
        return Ok((acc, pos));
    }
    let d = (b[pos] - 48) as u64;
    if acc > 0x1999999999999999 || (acc == 0x1999999999999999 && d > 5) {
        return Err(Error::JsonParse);
    }
    x_digits(b, pos + 1, acc * 10 + d)
}

pub(crate) fn x_int_bare(b: &Vec<u8>, pos: usize) -> (r: Result<(bool, u64, usize), Error>)
    requires
        pos <= b@.len(),
    ensures
        jd_int_bare(b@, pos as int) == (match r {
            Ok((neg, mag, p)) => Ok::<(bool, u64, int), Error>((neg, mag, p as int)),
            Err(e) => Err::<(bool, u64, int), Error>(e),
        }),
        r matches Ok((neg, mag, p)) ==> pos < p <= b@.len(),
{
    if pos < b.len() && b[pos] == 45 {
        if pos + 1 < b.len() && 48 <= b[pos + 1] && b[pos + 1] <= 57 {
            match x_digits(b, pos + 2, (b[pos + 1] - 48) as u64) {
                Ok((mag, p)) => Ok((true, mag, p)),
                Err(e) => Err(e),
            }
        } else {
            Err(Error::JsonParse)
        }
    } else if pos < b.len() && 48 <= b[pos] && b[pos] <= 57 {
        match x_digits(b, pos + 1, (b[pos] - 48) as u64) {
            Ok((mag, p)) => Ok((false, mag, p)),
            Err(e) => Err(e),
        }
    } else {
        Err(Error::JsonParse)
    }
}

pub(crate) fn x_int(b: &Vec<u8>, pos: usize) -> (r: Result<(bool, u64, usize), Error>)
    requires
        pos <= b@.len(),
    ensures
        jd_int(b@, pos as int) == (match r {
            Ok((neg, mag, p)) => Ok::<(bool, u64, int), Error>((neg, mag, p as int)),
            Err(e) => Err::<(bool, u64, int), Error>(e),
        }),
        r matches Ok((neg, mag, p)) ==> pos < p <= b@.len(),
{
    if pos < b.len() && b[pos] == 34 {
        match x_int_bare(b, pos + 1) {
            Err(e) => Err(e),
            Ok((neg, mag, p)) => {
                if p < b.len() && b[p] == 34 {
                    Ok((neg, mag, p + 1))
                } else {
                    Err(Error::JsonParse)
                }
            },
        }
    } else {
        x_int_bare(b, pos)
    }
}

/// Finds the field whose declared name or JSON alias equals `key`.
fn x_field_by_json(md: &crate::descriptor::MessageDescriptor, key: &String) -> (r: Option<usize>)
    ensures
        match r {
            Some(i) => field_index_by_json(md@, key@) == Some(i as int) && i < md@.fields.len(),
            None => field_index_by_json(md@, key@) is None,
        },
{
    let n = md.fields.len();
    for i in 0..n
        invariant
            n == md.fields.len(),
            field_index_by_json_from(md@, key@, i as int) == field_index_by_json(md@, key@),
            forall|j: int|
                0 <= j < i ==> md@.fields[j].name != key@ && md@.fields[j].json_name != key@,
    {
        if md.fields[i].name == *key || md.fields[i].json_name == *key {
            return Some(i);
        }
    }
    None
}

/// Parses one JSON value for a field of kind `k`, mirroring [`jd_value`].
#[verifier::rlimit(100)]
#[verifier::spinoff_prover]
fn x_value(pool: &DescriptorPool, k: Kind, b: &Vec<u8>, pos: usize) -> (r: Result<
    (Option<Value>, usize),
    Error,
>)
    requires
        pool@.wf(),
        pos <= b@.len(),
        match k {
            Kind::Message(t) => t < pool@.messages.len(),
            _ => true,
        },
    ensures
        jd_value(pool@, k, b@, pos as int) == (match r {
            Ok((ov, p)) => Ok::<(Option<SpecValue>, int), Error>(
                (
                    match ov {
                        None => None,
                        Some(v) => Some(value_view(v)),
                    },
                    p as int,
                ),
            ),
            Err(e) => Err::<(Option<SpecValue>, int), Error>(e),
        }),
        r matches Ok((ov, p)) ==> p <= b@.len() && (ov matches Some(v) ==> kind_matches(
            k,
            value_view(v),
        ) && value_wf(pool@, value_view(v))),
    decreases b@.len() - pos, 1int,
{
    let blen = b.len();
    if x_lit4(b, pos, 110, 117, 108, 108) {
        return Ok((None, pos + 4));
    }
    match k {
        Kind::Bool => {
            if x_lit4(b, pos, 116, 114, 117, 101) {
                Ok((Some(Value::Bool(true)), pos + 4))
            } else if x_lit5(b, pos, 102, 97, 108, 115, 101) {
                Ok((Some(Value::Bool(false)), pos + 5))
            } else {
                Err(Error::JsonParse)
            }
        },
        Kind::Int32 | Kind::Sint32 | Kind::Sfixed32 | Kind::Enum => {
            match x_int(b, pos) {
                Err(e) => Err(e),
                Ok((neg, mag, p)) => {
                    if neg && mag <= 0x80000000 {
                        let v: i32 = if mag == 0x80000000 {
                            i32::MIN
                        } else {
                            -(mag as i32)
                        };
                        if matches!(k, Kind::Enum) {
                            Ok((Some(Value::EnumNumber(v)), p))
                        } else {
                            Ok((Some(Value::I32(v)), p))
                        }
                    } else if !neg && mag <= 0x7fffffff {
                        let v: i32 = mag as i32;
                        if matches!(k, Kind::Enum) {
                            Ok((Some(Value::EnumNumber(v)), p))
                        } else {
                            Ok((Some(Value::I32(v)), p))
                        }
                    } else {
                        Err(Error::JsonParse)
                    }
                },
            }
        },
        Kind::Int64 | Kind::Sint64 | Kind::Sfixed64 => {
            match x_int(b, pos) {
                Err(e) => Err(e),
                Ok((neg, mag, p)) => {
                    if neg && mag <= 0x8000000000000000 {
                        let v: i64 = if mag == 0x8000000000000000 {
                            i64::MIN
                        } else {
                            -(mag as i64)
                        };
                        Ok((Some(Value::I64(v)), p))
                    } else if !neg && mag <= 0x7fffffffffffffff {
                        Ok((Some(Value::I64(mag as i64)), p))
                    } else {
                        Err(Error::JsonParse)
                    }
                },
            }
        },
        Kind::Uint32 | Kind::Fixed32 => {
            match x_int(b, pos) {
                Err(e) => Err(e),
                Ok((neg, mag, p)) => {
                    if (neg && mag != 0) || mag > 0xffffffff {
                        Err(Error::JsonParse)
                    } else {
                        Ok((Some(Value::U32(mag as u32)), p))
                    }
                },
            }
        },
        Kind::Uint64 | Kind::Fixed64 => {
            match x_int(b, pos) {
                Err(e) => Err(e),
                Ok((neg, mag, p)) => {
                    if neg && mag != 0 {
                        Err(Error::JsonParse)
                    } else {
                        Ok((Some(Value::U64(mag)), p))
                    }
                },
            }
        },
        Kind::Double => {
            match x_int(b, pos) {
                Err(e) => Err(e),
                Ok((_neg, mag, p)) => {
                    if mag == 0 {
                        Ok((Some(Value::F64Bits(0)), p))
                    } else {
                        Err(Error::Unsupported)
                    }
                },
            }
        },
        Kind::Float => {
            match x_int(b, pos) {
                Err(e) => Err(e),
                Ok((_neg, mag, p)) => {
                    if mag == 0 {
                        Ok((Some(Value::F32Bits(0)), p))
                    } else {
                        Err(Error::Unsupported)
                    }
                },
            }
        },
        Kind::Str => {
            match x_string(b, pos) {
                Err(e) => Err(e),
                Ok((bytes, p)) => {
                    match crate::wire::string_from_utf8(bytes) {
                        Some(s) => Ok((Some(Value::Str(s)), p)),
                        None => Err(Error::JsonParse),
                    }
                },
            }
        },
        Kind::Bytes => {
            match x_string(b, pos) {
                Err(e) => Err(e),
                Ok((chars, p)) => {
                    match x_b64_decode(&chars) {
                        Err(e) => Err(e),
                        Ok(bytes) => Ok((Some(Value::Bytes(bytes)), p)),
                    }
                },
            }
        },
        Kind::Message(t) => {
            match x_obj(pool, t, b, pos) {
                Err(e) => Err(e),
                Ok((sub, p)) => Ok((Some(Value::Message(Box::new(sub))), p)),
            }
        },
    }
}

/// Parses object members into `m`, mirroring [`jd_members`].
fn x_members(pool: &DescriptorPool, mi: usize, b: &Vec<u8>, pos: usize, m: DynamicMessage) -> (r:
    Result<(DynamicMessage, usize), Error>)
    requires
        pool@.wf(),
        mi < pool@.messages.len(),
        pos <= b@.len(),
        msg_wf(pool@, m@),
        m@.msg == mi as int,
    ensures
        jd_members(pool@, mi as int, b@, pos as int, m@) == (match r {
            Ok((m2, p)) => Ok::<(SpecMsg, int), Error>((m2@, p as int)),
            Err(e) => Err::<(SpecMsg, int), Error>(e),
        }),
        r matches Ok((m2, p)) ==> msg_wf(pool@, m2@) && m2@.msg == mi as int && p <= b@.len(),
    decreases b@.len() - pos, 2int,
{
    let (keybytes, p1) = match x_string(b, pos) {
        Ok(x) => x,
        Err(e) => {
            return Err(e);
        },
    };
    let key = match crate::wire::string_from_utf8(keybytes) {
        Some(s) => s,
        None => {
            return Err(Error::JsonParse);
        },
    };
    let md = &pool.messages[mi];
    let fi = match x_field_by_json(md, &key) {
        Some(x) => x,
        None => {
            return Err(Error::JsonParse);
        },
    };
    assert(pool@.messages[mi as int].wf(pool@.messages.len() as int));
    let fd = &md.fields[fi];
    if matches!(fd.cardinality, Cardinality::Repeated) {
        return Err(Error::Unsupported);
    }
    let p2 = x_ws(b, p1);
    if !(p2 < b.len() && b[p2] == 58) {
        return Err(Error::JsonParse);
    }
    let p3 = x_ws(b, p2 + 1);
    if !(pos < p3 && p3 <= b.len()) {
        return Err(Error::JsonParse);
    }
    let (ov, p4) = match x_value(pool, fd.kind, b, p3) {
        Ok(x) => x,
        Err(e) => {
            return Err(e);
        },
    };
    if !(p4 > pos) {
        return Err(Error::JsonParse);
    }
    let mut m2 = m;
    match ov {
        None => (),
        Some(v) => {
            proof {
                lemma_slots_view(m2.slots@);
                lemma_slots_wf(pool@, pool@.messages[mi as int].fields, m2@.slots);
            }
            let ghost before = m2@;
            let ghost vv = value_view(v);
            m2.slots[fi] = Some(v);
            proof {
                lemma_slots_view(m2.slots@);
                assert(slots_view(m2.slots@) =~= before.slots.update(fi as int, Some(vv)));
                assert(m2@ =~= SpecMsg {
                    msg: before.msg,
                    slots: before.slots.update(fi as int, Some(vv)),
                });
                lemma_slots_wf(pool@, pool@.messages[mi as int].fields, m2@.slots);
            }
        },
    }
    let p5 = x_ws(b, p4);
    if p5 < b.len() && b[p5] == 44 {
        let p6 = x_ws(b, p5 + 1);
        if p6 > pos && p6 <= b.len() {
            x_members(pool, mi, b, p6, m2)
        } else {
            Err(Error::JsonParse)
        }
    } else if p5 < b.len() && b[p5] == 125 {
        Ok((m2, p5 + 1))
    } else {
        Err(Error::JsonParse)
    }
}

/// Parses a JSON object as a message of type `mi`, mirroring [`jd_obj`].
fn x_obj(pool: &DescriptorPool, mi: usize, b: &Vec<u8>, pos: usize) -> (r: Result<
    (DynamicMessage, usize),
    Error,
>)
    requires
        pool@.wf(),
        mi < pool@.messages.len(),
        pos <= b@.len(),
    ensures
        jd_obj(pool@, mi as int, b@, pos as int) == (match r {
            Ok((m, p)) => Ok::<(SpecMsg, int), Error>((m@, p as int)),
            Err(e) => Err::<(SpecMsg, int), Error>(e),
        }),
        r matches Ok((m, p)) ==> msg_wf(pool@, m@) && m@.msg == mi as int && p <= b@.len(),
    decreases b@.len() - pos, 0int,
{
    if pos < b.len() && b[pos] == 123 {
        let p1 = x_ws(b, pos + 1);
        if p1 < b.len() && b[p1] == 125 {
            let m = DynamicMessage::new(pool, mi);
            Ok((m, p1 + 1))
        } else if p1 > pos && p1 <= b.len() {
            let m = DynamicMessage::new(pool, mi);
            x_members(pool, mi, b, p1, m)
        } else {
            Err(Error::JsonParse)
        }
    } else {
        Err(Error::JsonParse)
    }
}

impl DynamicMessage {
    /// Parses JSON text as a message of type `msg_index`: one object with
    /// nothing but whitespace around it, per the field-name conventions of
    /// the JSON codec.  Fails with [`Error::JsonParse`] on malformed input
    /// or a value unfit for its field, and with [`Error::Unsupported`] on a
    /// repeated field or a non-zero floating-point number.
    pub fn from_json(pool: &DescriptorPool, msg_index: usize, text: &str) -> (r: Result<
        DynamicMessage,
        Error,
    >)
        requires
            pool@.wf(),
            msg_index < pool@.messages.len(),
        ensures
            jd_doc(pool@, msg_index as int, vstd::utf8::encode_utf8(text@)) == (match r {
                Ok(m) => Ok::<SpecMsg, Error>(m@),
                Err(e) => Err::<SpecMsg, Error>(e),
            }),
            r matches Ok(m) ==> msg_wf(pool@, m@) && m@.msg == msg_index as int,
    {
        let b = text.as_bytes_vec();
        let p0 = x_ws(&b, 0);
        match x_obj(pool, msg_index, &b, p0) {
            Err(e) => Err(e),
            Ok((m, p)) => {
                let p_end = x_ws(&b, p);
                if p_end == b.len() {
                    Ok(m)
                } else {
                    Err(Error::JsonParse)
                }
            },
        }
    }
}


} // verus!
