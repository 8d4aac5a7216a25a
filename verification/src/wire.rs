//! The binary wire codec: standard protobuf wire encoding of a dynamic
//! message, and its decoder.
//!
//! Encoding is deterministic: fields are emitted in ascending field-number
//! order (the descriptor's `wire_order`), each as a varint key carrying the
//! field number and wire type, followed by the value — varints for the
//! integer kinds (zig-zag coded for `sint32`/`sint64`), fixed-width
//! little-endian for the `fixed` and floating-point kinds, and
//! length-delimited payloads for strings, bytes and nested messages.
//!
//! The decoder accepts fields in any order (last occurrence wins), skips
//! unknown field numbers, and fails with [`Error::WireDecode`] on truncated
//! input, malformed varints, or a wire type unfit for the declared field
//! kind.  A field number declared `repeated` has no value representation in
//! this engine; meeting one fails with [`Error::Unsupported`].

use vstd::prelude::*;

use crate::Error;
use crate::descriptor::{Cardinality, DescriptorPool, FieldDescV, Kind, PoolV};
use crate::message::{
    DynamicMessage, SpecMsg, SpecValue, Value, empty_msg_spec, field_index_by_number,
    field_index_by_number_from, kind_matches, lemma_slots_view, lemma_slots_wf, msg_wf,
    slots_view, value_view, value_wf,
};

verus! {

/// The base-128 varint encoding of `n`, least-significant group first.
pub open spec fn varint(n: u64) -> Seq<u8>
    decreases n,
{
    if n < 128 {
        seq![n as u8]
    } else {
        seq![(n % 128 + 128) as u8] + varint(n / 128)
    }
}

/// Zig-zag coding of a signed 32-bit value onto the unsigned range.
pub open spec fn zigzag32(x: i32) -> u32 {
    if x >= 0 {
        (2 * (x as int)) as u32
    } else {
        ((-(2 * (x as int))) - 1) as u32
    }
}

/// Zig-zag coding of a signed 64-bit value onto the unsigned range.
pub open spec fn zigzag64(x: i64) -> u64 {
    if x >= 0 {
        (2 * (x as int)) as u64
    } else {
        ((-(2 * (x as int))) - 1) as u64
    }
}

/// The unsigned 64-bit image of a signed 64-bit value, two's complement.
pub open spec fn u64_of_i64(x: i64) -> u64 {
    if x >= 0 {
        x as u64
    } else {
        ((x as int) + 0x10000000000000000) as u64
    }
}

/// Little-endian bytes of a 32-bit value.
pub open spec fn le32(n: u32) -> Seq<u8> {
    seq![
        (n % 256) as u8,
        ((n / 256) % 256) as u8,
        ((n / 65536) % 256) as u8,
        ((n / 16777216) % 256) as u8,
    ]
}

/// Little-endian bytes of a 64-bit value.
pub open spec fn le64(n: u64) -> Seq<u8> {
    le32((n % 0x100000000) as u32) + le32((n / 0x100000000) as u32)
}

/// The unsigned 32-bit image of a signed 32-bit value, two's complement.
pub open spec fn u32_of_i32(x: i32) -> u32 {
    if x >= 0 {
        x as u32
    } else {
        ((x as int) + 0x100000000) as u32
    }
}

/// The wire type of a field kind: 0 varint, 1 fixed 64-bit, 2
/// length-delimited, 5 fixed 32-bit.
pub open spec fn wire_type_of(k: Kind) -> u64 {
    match k {
        Kind::Double => 1,
        Kind::Float => 5,
        Kind::Int32 => 0,
        Kind::Int64 => 0,
        Kind::Uint32 => 0,
        Kind::Uint64 => 0,
        Kind::Sint32 => 0,
        Kind::Sint64 => 0,
        Kind::Fixed32 => 5,
        Kind::Fixed64 => 1,
        Kind::Sfixed32 => 5,
        Kind::Sfixed64 => 1,
        Kind::Bool => 0,
        Kind::Str => 2,
        Kind::Bytes => 2,
        Kind::Enum => 0,
        Kind::Message(_) => 2,
    }
}

/// The key varint value of a field: its number shifted past the wire type.
pub open spec fn key_of(fd: FieldDescV) -> u64 {
    ((fd.number as int) * 8 + wire_type_of(fd.kind)) as u64
}

/// The encoded payload of one value under its declared kind.
pub open spec fn enc_value(pool: PoolV, k: Kind, v: SpecValue) -> Seq<u8>
    decreases v, 1int,
{
    match v {
        SpecValue::Bool(b) => varint(if b { 1u64 } else { 0u64 }),
        SpecValue::I32(n) => {
            match k {
                Kind::Sint32 => varint(zigzag32(n) as u64),
                Kind::Sfixed32 => le32(u32_of_i32(n)),
                _ => varint(u64_of_i64(n as i64)),
            }
        },
        SpecValue::I64(n) => {
            match k {
                Kind::Sint64 => varint(zigzag64(n)),
                Kind::Sfixed64 => le64(u64_of_i64(n)),
                _ => varint(u64_of_i64(n)),
            }
        },
        SpecValue::U32(n) => {
            match k {
                Kind::Fixed32 => le32(n),
                _ => varint(n as u64),
            }
        },
        SpecValue::U64(n) => {
            match k {
                Kind::Fixed64 => le64(n),
                _ => varint(n),
            }
        },
        SpecValue::F32Bits(n) => le32(n),
        SpecValue::F64Bits(n) => le64(n),
        SpecValue::Str(s) => {
            let payload = vstd::utf8::encode_utf8(s);
            varint(payload.len() as u64) + payload
        },
        SpecValue::Bytes(b) => varint(b.len() as u64) + b,
        SpecValue::EnumNumber(n) => varint(u64_of_i64(n as i64)),
        SpecValue::Message(sub) => {
            let payload = enc_fields_from(pool, sub, 0);
            varint(payload.len() as u64) + payload
        },
    }
}

/// The encoded field-number order suffix of a message, starting at position
/// `j` of the descriptor's `wire_order`: every explicitly set field among
/// `wire_order[j..]`, each as its key varint followed by its payload.
pub open spec fn enc_fields_from(pool: PoolV, m: SpecMsg, j: int) -> Seq<u8>
    decreases m, 2int, pool.messages[m.msg].wire_order.len() - j,
{
    let md = pool.messages[m.msg];
    if j < 0 || j >= md.wire_order.len() {
        Seq::empty()
    } else {
        let fi = md.wire_order[j] as int;
        let part = if 0 <= fi < m.slots.len() && 0 <= fi < md.fields.len() {
            match m.slots[fi] {
                None => Seq::<u8>::empty(),
                Some(v) => varint(key_of(md.fields[fi])) + enc_value(
                    pool,
                    md.fields[fi].kind,
                    v,
                ),
            }
        } else {
            Seq::<u8>::empty()
        };
        part + enc_fields_from(pool, m, j + 1)
    }
}

/// The wire encoding of a whole message.
pub open spec fn enc_msg(pool: PoolV, m: SpecMsg) -> Seq<u8> {
    enc_fields_from(pool, m, 0)
}

/// The signed 32-bit value whose two's complement image is `u`.
pub open spec fn i32_of_u32(u: u32) -> i32 {
    if u < 0x80000000 {
        u as i32
    } else {
        ((u as int) - 0x100000000) as i32
    }
}

/// The signed 64-bit value whose two's complement image is `u`.
pub open spec fn i64_of_u64(u: u64) -> i64 {
    if u < 0x8000000000000000 {
        u as i64
    } else {
        ((u as int) - 0x10000000000000000) as i64
    }
}

/// The inverse of [`zigzag32`].
pub open spec fn unzigzag32(z: u32) -> i32 {
    if z % 2 == 0 {
        (z / 2) as i32
    } else {
        ((-((z / 2) as int)) - 1) as i32
    }
}

/// The inverse of [`zigzag64`].
pub open spec fn unzigzag64(z: u64) -> i64 {
    if z % 2 == 0 {
        (z / 2) as i64
    } else {
        ((-((z / 2) as int)) - 1) as i64
    }
}

/// The 32-bit value read little-endian at `pos`.
pub open spec fn rd32(b: Seq<u8>, pos: int) -> u32 {
    (b[pos] + 256 * b[pos + 1] + 65536 * b[pos + 2] + 16777216 * b[pos + 3]) as u32
}

/// The 64-bit value read little-endian at `pos`.
pub open spec fn rd64(b: Seq<u8>, pos: int) -> u64 {
    (rd32(b, pos) + 0x100000000 * rd32(b, pos + 4)) as u64
}

/// Parses one varint in `b[pos..end)`: its value and the position after it,
/// or `None` on truncation or 64-bit overflow.
pub open spec fn dec_varint(b: Seq<u8>, pos: int, end: int) -> Option<(u64, int)>
    decreases end - pos,
{
    if pos < 0 || pos >= end || end > b.len() {
        None
    } else {
        let x = b[pos];
        if x < 128 {
            Some((x as u64, pos + 1))
        } else {
            match dec_varint(b, pos + 1, end) {
                None => None,
                Some((hi, p)) => {
                    if (hi as int) * 128 + (x - 128) < 0x10000000000000000 {
                        Some(((hi * 128 + ((x - 128) as u64)) as u64, p))
                    } else {
                        None
                    }
                },
            }
        }
    }
}

/// The position after a skipped value of wire type `wt`, for field numbers
/// the descriptor does not declare.  Wire types 3 and 4 (groups) are not
/// accepted.
pub open spec fn skip_value(b: Seq<u8>, pos: int, end: int, wt: u64) -> Option<int> {
    if wt == 0 {
        match dec_varint(b, pos, end) {
            None => None,
            Some((_n, p)) => Some(p),
        }
    } else if wt == 1 {
        if pos + 8 <= end {
            Some(pos + 8)
        } else {
            None
        }
    } else if wt == 5 {
        if pos + 4 <= end {
            Some(pos + 4)
        } else {
            None
        }
    } else if wt == 2 {
        match dec_varint(b, pos, end) {
            None => None,
            Some((n, p)) => {
                if p + n <= end {
                    Some(p + n)
                } else {
                    None
                }
            },
        }
    } else {
        None
    }
}

/// Parses one value of kind `k` in `b[pos..end)`: the value and the position
/// after it, or the decode error.
pub open spec fn dec_value(pool: PoolV, k: Kind, b: Seq<u8>, pos: int, end: int) -> Result<
    (SpecValue, int),
    Error,
>
    decreases end - pos,
{
    match k {
        Kind::Int32 | Kind::Int64 | Kind::Uint32 | Kind::Uint64 | Kind::Sint32 | Kind::Sint64
            | Kind::Bool | Kind::Enum => {
            match dec_varint(b, pos, end) {
                None => Err(Error::WireDecode),
                Some((n, p)) => {
                    let v = match k {
                        Kind::Int32 => SpecValue::I32(i32_of_u32((n % 0x100000000) as u32)),
                        Kind::Int64 => SpecValue::I64(i64_of_u64(n)),
                        Kind::Uint32 => SpecValue::U32((n % 0x100000000) as u32),
                        Kind::Uint64 => SpecValue::U64(n),
                        Kind::Sint32 => SpecValue::I32(unzigzag32((n % 0x100000000) as u32)),
                        Kind::Sint64 => SpecValue::I64(unzigzag64(n)),
                        Kind::Bool => SpecValue::Bool(n != 0),
                        _ => SpecValue::EnumNumber(i32_of_u32((n % 0x100000000) as u32)),
                    };
                    Ok((v, p))
                },
            }
        },
        Kind::Fixed32 | Kind::Sfixed32 | Kind::Float => {
            if pos + 4 <= end && 0 <= pos && end <= b.len() {
                let n = rd32(b, pos);
                let v = match k {
                    Kind::Fixed32 => SpecValue::U32(n),
                    Kind::Sfixed32 => SpecValue::I32(i32_of_u32(n)),
                    _ => SpecValue::F32Bits(n),
                };
                Ok((v, pos + 4))
            } else {
                Err(Error::WireDecode)
            }
        },
        Kind::Fixed64 | Kind::Sfixed64 | Kind::Double => {
            if pos + 8 <= end && 0 <= pos && end <= b.len() {
                let n = rd64(b, pos);
                let v = match k {
                    Kind::Fixed64 => SpecValue::U64(n),
                    Kind::Sfixed64 => SpecValue::I64(i64_of_u64(n)),
                    _ => SpecValue::F64Bits(n),
                };
                Ok((v, pos + 8))
            } else {
                Err(Error::WireDecode)
            }
        },
        Kind::Str => {
            match dec_varint(b, pos, end) {
                None => Err(Error::WireDecode),
                Some((n, p)) => {
                    if p + n <= end {
                        let payload = b.subrange(p, p + n);
                        if vstd::utf8::valid_utf8(payload) {
                            Ok((SpecValue::Str(vstd::utf8::decode_utf8(payload)), p + n))
                        } else {
                            Err(Error::WireDecode)
                        }
                    } else {
                        Err(Error::WireDecode)
                    }
                },
            }
        },
        Kind::Bytes => {
            match dec_varint(b, pos, end) {
                None => Err(Error::WireDecode),
                Some((n, p)) => {
                    if p + n <= end {
                        Ok((SpecValue::Bytes(b.subrange(p, p + n)), p + n))
                    } else {
                        Err(Error::WireDecode)
                    }
                },
            }
        },
        Kind::Message(t) => {
            match dec_varint(b, pos, end) {
                None => Err(Error::WireDecode),
                Some((n, p)) => {
                    if p + n <= end && p > pos {
                        match dec_fields(pool, t as int, b, p, p + n, empty_msg_spec(pool, t as int)) {
                            Err(e) => Err(e),
                            Ok(sub) => Ok((SpecValue::Message(sub), p + n)),
                        }
                    } else {
                        Err(Error::WireDecode)
                    }
                },
            }
        },
    }
}

/// Parses fields of message type `mi` from `b[pos..end)` into `m`, the
/// standard wire semantics: any field order, last occurrence of a field
/// wins, unknown field numbers skipped, truncation or a wire type unfit for
/// the declared kind refused.
pub open spec fn dec_fields(pool: PoolV, mi: int, b: Seq<u8>, pos: int, end: int, m: SpecMsg) -> Result<
    SpecMsg,
    Error,
>
    decreases end - pos,
{
    if pos == end {
        Ok(m)
    } else if pos < 0 || pos > end || end > b.len() {
        Err(Error::WireDecode)
    } else {
        match dec_varint(b, pos, end) {
            None => Err(Error::WireDecode),
            Some((key, p1)) => {
                if !(pos < p1 <= end) {
                    Err(Error::WireDecode)
                } else {
                    let num = key / 8;
                    let wt = key % 8;
                    if num < 1 || num > u32::MAX as u64 {
                        Err(Error::WireDecode)
                    } else {
                        match field_index_by_number(pool.messages[mi], num as u32) {
                            None => {
                                match skip_value(b, p1, end, wt) {
                                    None => Err(Error::WireDecode),
                                    Some(p2) => {
                                        if p1 <= p2 <= end {
                                            dec_fields(pool, mi, b, p2, end, m)
                                        } else {
                                            Err(Error::WireDecode)
                                        }
                                    },
                                }
                            },
                            Some(fi) => {
                                let fd = pool.messages[mi].fields[fi];
                                if fd.cardinality == Cardinality::Repeated {
                                    Err(Error::Unsupported)
                                } else if wt != wire_type_of(fd.kind) {
                                    Err(Error::WireDecode)
                                } else {
                                    match dec_value(pool, fd.kind, b, p1, end) {
                                        Err(e) => Err(e),
                                        Ok((v, p2)) => {
                                            if p1 < p2 <= end {
                                                dec_fields(
                                                    pool,
                                                    mi,
                                                    b,
                                                    p2,
                                                    end,
                                                    SpecMsg {
                                                        msg: m.msg,
                                                        slots: m.slots.update(fi, Some(v)),
                                                    },
                                                )
                                            } else {
                                                Err(Error::WireDecode)
                                            }
                                        },
                                    }
                                }
                            },
                        }
                    }
                }
            },
        }
    }
}

/// The decode of a whole buffer as a message of type `mi`.
pub open spec fn dec_msg(pool: PoolV, mi: int, b: Seq<u8>) -> Result<SpecMsg, Error> {
    dec_fields(pool, mi, b, 0, b.len() as int, empty_msg_spec(pool, mi))
}

fn push_varint(out: &mut Vec<u8>, n: u64)
    ensures
        final(out)@ == old(out)@ + varint(n),
    decreases n,
{
    if n < 128 {
        out.push(n as u8);
        assert(final(out)@ =~= old(out)@ + varint(n));
    } else {
        out.push((n % 128 + 128) as u8);
        push_varint(out, n / 128);
        assert(final(out)@ =~= old(out)@ + varint(n));
    }
}

fn append_bytes(out: &mut Vec<u8>, b: &Vec<u8>)
    ensures
        final(out)@ == old(out)@ + b@,
{
    let n = b.len();
    for i in 0..n
        invariant
            n == b.len(),
            out@ == old(out)@ + b@.subrange(0, i as int),
    {
        out.push(b[i]);
        assert(out@ =~= old(out)@ + b@.subrange(0, i + 1));
    }
    assert(final(out)@ =~= old(out)@ + b@);
}

fn zigzag32_exec(x: i32) -> (r: u32)
    ensures
        r == zigzag32(x),
{
    if x >= 0 {
        (x as u32) * 2
    } else {
        let m: u32 = (-(x as i64)) as u32;
        (m - 1) * 2 + 1
    }
}

fn zigzag64_exec(x: i64) -> (r: u64)
    ensures
        r == zigzag64(x),
{
    if x >= 0 {
        (x as u64) * 2
    } else if x == i64::MIN {
        u64::MAX
    } else {
        let m: u64 = (-x) as u64;
        (m - 1) * 2 + 1
    }
}

fn u64_of_i64_exec(x: i64) -> (r: u64)
    ensures
        r == u64_of_i64(x),
{
    if x >= 0 {
        x as u64
    } else {
        let m: u64 = (-(x + 1)) as u64;
        u64::MAX - m
    }
}

fn u32_of_i32_exec(x: i32) -> (r: u32)
    ensures
        r == u32_of_i32(x),
{
    if x >= 0 {
        x as u32
    } else {
        let m: u32 = (-(x + 1)) as u32;
        u32::MAX - m
    }
}

fn push_le32(out: &mut Vec<u8>, n: u32)
    ensures
        final(out)@ == old(out)@ + le32(n),
{
    out.push((n % 256) as u8);
    out.push(((n / 256) % 256) as u8);
    out.push(((n / 65536) % 256) as u8);
    out.push(((n / 16777216) % 256) as u8);
    assert(final(out)@ =~= old(out)@ + le32(n));
}

fn push_le64(out: &mut Vec<u8>, n: u64)
    ensures
        final(out)@ == old(out)@ + le64(n),
{
    push_le32(out, (n % 0x100000000) as u32);
    push_le32(out, (n / 0x100000000) as u32);
    assert(final(out)@ =~= old(out)@ + le64(n));
}

/// The executable wire type of a kind.
fn wire_type_exec(k: Kind) -> (r: u64)
    ensures
        r == wire_type_of(k),
{
    match k {
        Kind::Double | Kind::Fixed64 | Kind::Sfixed64 => 1,
        Kind::Float | Kind::Fixed32 | Kind::Sfixed32 => 5,
        Kind::Str | Kind::Bytes | Kind::Message(_) => 2,
        _ => 0,
    }
}

/// Appends the encoded payload of `v` under kind `k`.
fn push_value(pool: &DescriptorPool, out: &mut Vec<u8>, k: Kind, v: &Value)
    requires
        pool@.wf(),
        kind_matches(k, value_view(*v)),
        value_wf(pool@, value_view(*v)),
    ensures
        final(out)@ == old(out)@ + enc_value(pool@, k, value_view(*v)),
    decreases *v,
{
    match v {
        Value::Bool(b) => push_varint(out, if *b { 1 } else { 0 }),
        Value::I32(n) => {
            match k {
                Kind::Sint32 => push_varint(out, zigzag32_exec(*n) as u64),
                Kind::Sfixed32 => push_le32(out, u32_of_i32_exec(*n)),
                _ => push_varint(out, u64_of_i64_exec(*n as i64)),
            }
        },
        Value::I64(n) => {
            match k {
                Kind::Sint64 => push_varint(out, zigzag64_exec(*n)),
                Kind::Sfixed64 => push_le64(out, u64_of_i64_exec(*n)),
                _ => push_varint(out, u64_of_i64_exec(*n)),
            }
        },
        Value::U32(n) => {
            match k {
                Kind::Fixed32 => push_le32(out, *n),
                _ => push_varint(out, *n as u64),
            }
        },
        Value::U64(n) => {
            match k {
                Kind::Fixed64 => push_le64(out, *n),
                _ => push_varint(out, *n),
            }
        },
        Value::F32Bits(n) => push_le32(out, *n),
        Value::F64Bits(n) => push_le64(out, *n),
        Value::Str(s) => {
            let payload = s.as_str().as_bytes_vec();
            push_varint(out, payload.len() as u64);
            append_bytes(out, &payload);
            assert(final(out)@ =~= old(out)@ + enc_value(pool@, k, value_view(*v)));
        },
        Value::Bytes(b) => {
            push_varint(out, b.len() as u64);
            append_bytes(out, b);
            assert(final(out)@ =~= old(out)@ + enc_value(pool@, k, value_view(*v)));
        },
        Value::EnumNumber(n) => push_varint(out, u64_of_i64_exec(*n as i64)),
        Value::Message(sub) => {
            let mut payload: Vec<u8> = Vec::new();
            push_fields(pool, &**sub, &mut payload);
            push_varint(out, payload.len() as u64);
            append_bytes(out, &payload);
            assert(final(out)@ =~= old(out)@ + enc_value(pool@, k, value_view(*v)));
        },
    }
}

/// Appends every explicitly set field of `m`, in ascending field-number
/// order.
fn push_fields(pool: &DescriptorPool, m: &DynamicMessage, out: &mut Vec<u8>)
    requires
        pool@.wf(),
        msg_wf(pool@, m@),
    ensures
        final(out)@ == old(out)@ + enc_fields_from(pool@, m@, 0),
    decreases *m,
{
    let md = &pool.messages[m.msg];
    let wlen = md.wire_order.len();
    proof {
        lemma_slots_view(m.slots@);
        lemma_slots_wf(pool@, pool@.messages[m@.msg].fields, m@.slots);
    }
    let mut j: usize = 0;
    while j < wlen
        invariant
            pool@.wf(),
            msg_wf(pool@, m@),
            md@ == pool@.messages[m@.msg],
            wlen == md.wire_order.len(),
            j <= wlen,
            slots_view(m.slots@).len() == m.slots@.len(),
            forall|t: int|
                0 <= t < m.slots@.len() ==> #[trigger] slots_view(m.slots@)[t] == (match m.slots@[t] {
                    None => None,
                    Some(v) => Some(value_view(v)),
                }),
            old(out)@ + enc_fields_from(pool@, m@, 0) == out@ + enc_fields_from(
                pool@,
                m@,
                j as int,
            ),
        decreases wlen - j,
    {
        let fi = md.wire_order[j];
        proof {
            lemma_slots_wf(pool@, pool@.messages[m@.msg].fields, m@.slots);
        }
        assert(pool@.messages[m@.msg].wf(pool@.messages.len() as int));
        assert(fi < md@.fields.len());
        assert(m@.slots.len() == md@.fields.len());
        let ghost prev = out@;
        match &m.slots[fi] {
            None => {
                assert(enc_fields_from(pool@, m@, j as int) == enc_fields_from(
                    pool@,
                    m@,
                    j + 1,
                ));
            },
            Some(v) => {
                let fd = &md.fields[fi];
                let key: u64 = (fd.number as u64) * 8 + wire_type_exec(fd.kind);
                push_varint(out, key);
                push_value(pool, out, fd.kind, v);
                proof {
                    assert(key == key_of(md@.fields[fi as int]));
                    assert(out@ =~= prev + (varint(key_of(md@.fields[fi as int])) + enc_value(
                        pool@,
                        md@.fields[fi as int].kind,
                        value_view(*v),
                    )));
                    assert(prev + enc_fields_from(pool@, m@, j as int) =~= out@
                        + enc_fields_from(pool@, m@, j + 1));
                }
            },
        }
        j += 1;
    }
    assert(enc_fields_from(pool@, m@, wlen as int) =~= Seq::<u8>::empty());
    assert(final(out)@ =~= old(out)@ + enc_fields_from(pool@, m@, 0));
}

pub(crate) fn read_varint(b: &Vec<u8>, pos: usize, end: usize) -> (r: Result<(u64, usize), Error>)
    requires
        end <= b@.len(),
    ensures
        match r {
            Ok((v, p)) => dec_varint(b@, pos as int, end as int) == Some((v, p as int)) && pos < p
                <= end,
            Err(e) => dec_varint(b@, pos as int, end as int) is None && e == Error::WireDecode,
        },
    decreases end - pos,
{
    if pos >= end {
        return Err(Error::WireDecode);
    }
    let x = b[pos];
    if x < 128 {
        Ok((x as u64, pos + 1))
    } else {
        match read_varint(b, pos + 1, end) {
            Err(e) => Err(e),
            Ok((hi, p)) => {
                if hi < 0x200000000000000 {
                    Ok((hi * 128 + ((x - 128) as u64), p))
                } else {
                    assert((hi as int) * 128 + (x - 128) >= 0x10000000000000000);
                    Err(Error::WireDecode)
                }
            },
        }
    }
}

fn read_le32(b: &Vec<u8>, pos: usize, end: usize) -> (r: Result<(u32, usize), Error>)
    requires
        pos <= end <= b@.len(),
    ensures
        match r {
            Ok((v, p)) => pos + 4 <= end && v == rd32(b@, pos as int) && p == pos + 4,
            Err(e) => pos + 4 > end && e == Error::WireDecode,
        },
{
    if end - pos < 4 {
        return Err(Error::WireDecode);
    }
    let v: u32 = (b[pos] as u32) + 256 * (b[pos + 1] as u32) + 65536 * (b[pos + 2] as u32)
        + 16777216 * (b[pos + 3] as u32);
    Ok((v, pos + 4))
}

fn read_le64(b: &Vec<u8>, pos: usize, end: usize) -> (r: Result<(u64, usize), Error>)
    requires
        pos <= end <= b@.len(),
    ensures
        match r {
            Ok((v, p)) => pos + 8 <= end && v == rd64(b@, pos as int) && p == pos + 8,
            Err(e) => pos + 8 > end && e == Error::WireDecode,
        },
{
    if end - pos < 8 {
        return Err(Error::WireDecode);
    }
    let (lo, _) = match read_le32(b, pos, end) {
        Ok(x) => x,
        Err(e) => {
            return Err(e);
        },
    };
    let (hi, _) = match read_le32(b, pos + 4, end) {
        Ok(x) => x,
        Err(e) => {
            return Err(e);
        },
    };
    Ok(((lo as u64) + 0x100000000 * (hi as u64), pos + 8))
}

pub(crate) fn i32_of_u32_exec(u: u32) -> (r: i32)
    ensures
        r == i32_of_u32(u),
{
    if u < 0x80000000 {
        u as i32
    } else {
        -((u32::MAX - u) as i32) - 1
    }
}

fn i64_of_u64_exec(u: u64) -> (r: i64)
    ensures
        r == i64_of_u64(u),
{
    if u < 0x8000000000000000 {
        u as i64
    } else {
        -((u64::MAX - u) as i64) - 1
    }
}

fn unzigzag32_exec(z: u32) -> (r: i32)
    ensures
        r == unzigzag32(z),
{
    let h = z / 2;
    if z % 2 == 0 {
        h as i32
    } else {
        (-((h as i64) + 1)) as i32
    }
}

fn unzigzag64_exec(z: u64) -> (r: i64)
    ensures
        r == unzigzag64(z),
{
    let h = z / 2;
    if z % 2 == 0 {
        h as i64
    } else if h == 0x7fffffffffffffff {
        i64::MIN
    } else {
        -((h as i64) + 1)
    }
}

/// Copies `b[pos..end)` out as a byte vector.
pub(crate) fn copy_range(b: &Vec<u8>, pos: usize, end: usize) -> (r: Vec<u8>)
    requires
        pos <= end <= b@.len(),
    ensures
        r@ == b@.subrange(pos as int, end as int),
{
    let mut out: Vec<u8> = Vec::new();
    let mut i: usize = pos;
    while i < end
        invariant
            pos <= i <= end <= b@.len(),
            out@ == b@.subrange(pos as int, i as int),
        decreases end - i,
    {
        out.push(b[i]);
        assert(out@ =~= b@.subrange(pos as int, i + 1));
        i += 1;
    }
    out
}

/// Relies on `String::from_utf8`: returns the string with exactly the given
/// UTF-8 bytes when they are valid UTF-8, and refuses them otherwise, as
/// modelled by vstd's UTF-8 codec.
#[verifier::external_body]
pub(crate) fn string_from_utf8(v: Vec<u8>) -> (r: Option<String>)
    ensures
        match r {
            Some(s) => vstd::utf8::valid_utf8(v@) && s@ == vstd::utf8::decode_utf8(v@),
            None => !vstd::utf8::valid_utf8(v@),
        },
{
    match String::from_utf8(v) {
        Ok(s) => Some(s),
        Err(_) => None,
    }
}

/// Parses one value of kind `k` at `pos`, mirroring [`dec_value`].
fn read_value(pool: &DescriptorPool, k: Kind, b: &Vec<u8>, pos: usize, end: usize) -> (r: Result<
    (Value, usize),
    Error,
>)
    requires
        pool@.wf(),
        pos <= end <= b@.len(),
        match k {
            Kind::Message(t) => t < pool@.messages.len(),
            _ => true,
        },
    ensures
        dec_value(pool@, k, b@, pos as int, end as int) == (match r {
            Ok((v, p)) => Ok::<(SpecValue, int), Error>((value_view(v), p as int)),
            Err(e) => Err::<(SpecValue, int), Error>(e),
        }),
        r matches Ok((v, p)) ==> pos < p <= end && kind_matches(k, value_view(v)) && value_wf(
            pool@,
            value_view(v),
        ),
    decreases end - pos, 1int,
{
    match k {
        Kind::Int32 | Kind::Int64 | Kind::Uint32 | Kind::Uint64 | Kind::Sint32 | Kind::Sint64
            | Kind::Bool | Kind::Enum => {
            let (n, p) = match read_varint(b, pos, end) {
                Ok(x) => x,
                Err(e) => {
                    return Err(e);
                },
            };
            let low: u32 = (n % 0x100000000) as u32;
            let v = match k {
                Kind::Int32 => Value::I32(i32_of_u32_exec(low)),
                Kind::Int64 => Value::I64(i64_of_u64_exec(n)),
                Kind::Uint32 => Value::U32(low),
                Kind::Uint64 => Value::U64(n),
                Kind::Sint32 => Value::I32(unzigzag32_exec(low)),
                Kind::Sint64 => Value::I64(unzigzag64_exec(n)),
                Kind::Bool => Value::Bool(n != 0),
                _ => Value::EnumNumber(i32_of_u32_exec(low)),
            };
            Ok((v, p))
        },
        Kind::Fixed32 | Kind::Sfixed32 | Kind::Float => {
            let (n, p) = match read_le32(b, pos, end) {
                Ok(x) => x,
                Err(e) => {
                    return Err(e);
                },
            };
            let v = match k {
                Kind::Fixed32 => Value::U32(n),
                Kind::Sfixed32 => Value::I32(i32_of_u32_exec(n)),
                _ => Value::F32Bits(n),
            };
            Ok((v, p))
        },
        Kind::Fixed64 | Kind::Sfixed64 | Kind::Double => {
            let (n, p) = match read_le64(b, pos, end) {
                Ok(x) => x,
                Err(e) => {
                    return Err(e);
                },
            };
            let v = match k {
                Kind::Fixed64 => Value::U64(n),
                Kind::Sfixed64 => Value::I64(i64_of_u64_exec(n)),
                _ => Value::F64Bits(n),
            };
            Ok((v, p))
        },
        Kind::Str => {
            let (n, p) = match read_varint(b, pos, end) {
                Ok(x) => x,
                Err(e) => {
                    return Err(e);
                },
            };
            if n > (end - p) as u64 {
                return Err(Error::WireDecode);
            }
            let stop = p + (n as usize);
            let payload = copy_range(b, p, stop);
            match string_from_utf8(payload) {
                Some(s) => Ok((Value::Str(s), stop)),
                None => Err(Error::WireDecode),
            }
        },
        Kind::Bytes => {
            let (n, p) = match read_varint(b, pos, end) {
                Ok(x) => x,
                Err(e) => {
                    return Err(e);
                },
            };
            if n > (end - p) as u64 {
                return Err(Error::WireDecode);
            }
            let stop = p + (n as usize);
            let payload = copy_range(b, p, stop);
            Ok((Value::Bytes(payload), stop))
        },
        Kind::Message(t) => {
            let (n, p) = match read_varint(b, pos, end) {
                Ok(x) => x,
                Err(e) => {
                    return Err(e);
                },
            };
            if n > (end - p) as u64 {
                return Err(Error::WireDecode);
            }
            let stop = p + (n as usize);
            let empty = DynamicMessage::new(pool, t);
            match read_fields(pool, t, b, p, stop, empty) {
                Err(e) => Err(e),
                Ok(sub) => Ok((Value::Message(Box::new(sub)), stop)),
            }
        },
    }
}

/// Parses fields from `b[pos..end)` into `m`, mirroring [`dec_fields`].
fn read_fields(
    pool: &DescriptorPool,
    mi: usize,
    b: &Vec<u8>,
    pos: usize,
    end: usize,
    m: DynamicMessage,
) -> (r: Result<DynamicMessage, Error>)
    requires
        pool@.wf(),
        mi < pool@.messages.len(),
        pos <= end <= b@.len(),
        msg_wf(pool@, m@),
        m@.msg == mi as int,
    ensures
        dec_fields(pool@, mi as int, b@, pos as int, end as int, m@) == (match r {
            Ok(m2) => Ok::<SpecMsg, Error>(m2@),
            Err(e) => Err::<SpecMsg, Error>(e),
        }),
        r matches Ok(m2) ==> msg_wf(pool@, m2@) && m2@.msg == mi as int,
    decreases end - pos, 0int,
{
    if pos == end {
        return Ok(m);
    }
    let (key, p1) = match read_varint(b, pos, end) {
        Ok(x) => x,
        Err(e) => {
            return Err(e);
        },
    };
    let num = key / 8;
    let wt = key % 8;
    if num < 1 || num > u32::MAX as u64 {
        return Err(Error::WireDecode);
    }
    let md = &pool.messages[mi];
    match crate::message::find_field_by_number(md, num as u32) {
        None => {
            let p2 = match skip_value_exec(b, p1, end, wt) {
                Ok(x) => x,
                Err(e) => {
                    return Err(e);
                },
            };
            read_fields(pool, mi, b, p2, end, m)
        },
        Some(fi) => {
            assert(pool@.messages[mi as int].wf(pool@.messages.len() as int));
            let fd = &md.fields[fi];
            if matches!(fd.cardinality, Cardinality::Repeated) {
                return Err(Error::Unsupported);
            }
            if wt != wire_type_exec(fd.kind) {
                return Err(Error::WireDecode);
            }
            match read_value(pool, fd.kind, b, p1, end) {
                Err(e) => Err(e),
                Ok((v, p2)) => {
                    let mut m2 = m;
                    proof {
                        lemma_slots_view(m2.slots@);
                        lemma_slots_wf(pool@, pool@.messages[mi as int].fields, m2@.slots);
                    }
                    let ghost before = m2@;
                    let ghost vv = value_view(v);
                    m2.slots[fi] = Some(v);
                    proof {
                        lemma_slots_view(m2.slots@);
                        assert(slots_view(m2.slots@) =~= before.slots.update(
                            fi as int,
                            Some(vv),
                        ));
                        assert(m2@ =~= SpecMsg {
                            msg: before.msg,
                            slots: before.slots.update(fi as int, Some(vv)),
                        });
                        lemma_slots_wf(pool@, pool@.messages[mi as int].fields, m2@.slots);
                    }
                    read_fields(pool, mi, b, p2, end, m2)
                },
            }
        },
    }
}

/// Skips one value of wire type `wt`, mirroring [`skip_value`].
pub(crate) fn skip_value_exec(b: &Vec<u8>, pos: usize, end: usize, wt: u64) -> (r: Result<usize, Error>)
    requires
        pos <= end <= b@.len(),
    ensures
        match r {
            Ok(p) => skip_value(b@, pos as int, end as int, wt) == Some(p as int) && pos <= p
                <= end,
            Err(e) => skip_value(b@, pos as int, end as int, wt) is None && e == Error::WireDecode,
        },
{
    if wt == 0 {
        match read_varint(b, pos, end) {
            Ok((_n, p)) => Ok(p),
            Err(e) => Err(e),
        }
    } else if wt == 1 {
        if end - pos >= 8 {
            Ok(pos + 8)
        } else {
            Err(Error::WireDecode)
        }
    } else if wt == 5 {
        if end - pos >= 4 {
            Ok(pos + 4)
        } else {
            Err(Error::WireDecode)
        }
    } else if wt == 2 {
        match read_varint(b, pos, end) {
            Ok((n, p)) => {
                if n <= (end - p) as u64 {
                    Ok(p + (n as usize))
                } else {
                    Err(Error::WireDecode)
                }
            },
            Err(e) => Err(e),
        }
    } else {
        Err(Error::WireDecode)
    }
}

/// Decodes protobuf wire bytes as a message of type `msg_index`.  Fails with
/// [`Error::WireDecode`] on truncated input, malformed varints, or a wire
/// type unfit for the declared field kind, and with [`Error::Unsupported`]
/// when the input carries a field the descriptor declares `repeated`; on
/// success the message holds exactly the fields present in the input.
pub fn wire_decode(pool: &DescriptorPool, msg_index: usize, data: &Vec<u8>) -> (r: Result<
    DynamicMessage,
    Error,
>)
    requires
        pool@.wf(),
        msg_index < pool@.messages.len(),
    ensures
        dec_msg(pool@, msg_index as int, data@) == (match r {
            Ok(m) => Ok::<SpecMsg, Error>(m@),
            Err(e) => Err::<SpecMsg, Error>(e),
        }),
        r matches Ok(m) ==> msg_wf(pool@, m@) && m@.msg == msg_index as int,
{
    let empty = DynamicMessage::new(pool, msg_index);
    read_fields(pool, msg_index, data, 0, data.len(), empty)
}

impl DynamicMessage {
    /// The wire encoding of this message, as [`wire_encode`] computes it.
    pub fn to_protobuf(&self, pool: &DescriptorPool) -> (r: Vec<u8>)
        requires
            pool@.wf(),
            msg_wf(pool@, self@),
        ensures
            r@ == enc_msg(pool@, self@),
    {
        wire_encode(pool, self)
    }
}

/// Encodes `m` to protobuf wire bytes: the deterministic single encoding of
/// the message, fields in ascending field-number order.
pub fn wire_encode(pool: &DescriptorPool, m: &DynamicMessage) -> (r: Vec<u8>)
    requires
        pool@.wf(),
        msg_wf(pool@, m@),
    ensures
        r@ == enc_msg(pool@, m@),
{
    let mut out: Vec<u8> = Vec::new();
    push_fields(pool, m, &mut out);
    out
}


/// Every varint encoding has at least one byte.
pub proof fn lemma_varint_min_len(n: u64)
    ensures
        varint(n).len() >= 1,
{
}

/// Parsing at the start of a varint encoding yields the encoded value and
/// stops right after it, whatever follows in the buffer.
pub proof fn lemma_dec_varint_of_enc(b: Seq<u8>, pos: int, end: int, n: u64)
    requires
        0 <= pos,
        pos + varint(n).len() <= end <= b.len(),
        b.subrange(pos, pos + varint(n).len()) == varint(n),
    ensures
        dec_varint(b, pos, end) == Some((n, pos + varint(n).len())),
    decreases n,
{
    let v = varint(n);
    assert(b[pos] == v[0]);
    if n < 128 {
        assert(dec_varint(b, pos, end) == Some((n, pos + 1)));
    } else {
        let tail = varint(n / 128);
        assert(v == seq![(n % 128 + 128) as u8] + tail);
        assert(b[pos] == (n % 128 + 128) as u8);
        assert(b[pos] >= 128);
        assert forall|t: int| 0 <= t < tail.len() implies #[trigger] b.subrange(
            pos + 1,
            pos + 1 + tail.len(),
        )[t] == tail[t] by {
            assert(b.subrange(pos, pos + v.len())[t + 1] == v[t + 1]);
            assert(v[t + 1] == tail[t]);
            assert(b.subrange(pos + 1, pos + 1 + tail.len())[t] == b[pos + 1 + t]);
        }
        assert(b.subrange(pos + 1, pos + 1 + tail.len()) =~= tail);
        lemma_dec_varint_of_enc(b, pos + 1, end, n / 128);
        assert(n / 128 < 0x200000000000000) by {
            assert(n / 128 <= u64::MAX / 128);
        }
        assert((n / 128) * 128 + (b[pos] - 128) == n) by {
            vstd::arithmetic::div_mod::lemma_fundamental_div_mod(n as int, 128);
        }
        assert(dec_varint(b, pos, end) == Some((n, pos + 1 + tail.len())));
    }
}

/// Two's complement round trip for 64-bit values.
pub proof fn lemma_i64_roundtrip(x: i64)
    ensures
        i64_of_u64(u64_of_i64(x)) == x,
{
}

/// Two's complement round trip for 32-bit values carried in a varint.
pub proof fn lemma_i32_roundtrip(x: i32)
    ensures
        i32_of_u32((u64_of_i64(x as i64) % 0x100000000) as u32) == x,
{
    if x >= 0 {
        vstd::arithmetic::div_mod::lemma_small_mod(x as nat, 0x100000000);
    } else {
        let u = u64_of_i64(x as i64);
        assert(u == (x as int) + 0x10000000000000000);
        vstd::arithmetic::div_mod::lemma_fundamental_div_mod_converse(
            u as int,
            0x100000000,
            0xffffffff,
            (x as int) + 0x100000000,
        );
        assert(u % 0x100000000 == (x as int) + 0x100000000);
    }
}

/// Truncation round trip for unsigned 32-bit values carried in a varint.
pub proof fn lemma_u32_roundtrip(x: u32)
    ensures
        ((x as u64) % 0x100000000) as u32 == x,
{
    vstd::arithmetic::div_mod::lemma_small_mod(x as nat, 0x100000000);
}

/// Zig-zag round trip for 32-bit values.
pub proof fn lemma_zigzag32_roundtrip(x: i32)
    ensures
        unzigzag32(((zigzag32(x) as u64) % 0x100000000) as u32) == x,
{
    vstd::arithmetic::div_mod::lemma_small_mod(zigzag32(x) as nat, 0x100000000);
    let z = zigzag32(x);
    if x >= 0 {
        vstd::arithmetic::div_mod::lemma_fundamental_div_mod_converse(
            z as int,
            2,
            x as int,
            0,
        );
    } else {
        vstd::arithmetic::div_mod::lemma_fundamental_div_mod_converse(
            z as int,
            2,
            -(x as int) - 1,
            1,
        );
    }
}

/// Zig-zag round trip for 64-bit values.
pub proof fn lemma_zigzag64_roundtrip(x: i64)
    ensures
        unzigzag64(zigzag64(x)) == x,
{
    let z = zigzag64(x);
    if x >= 0 {
        vstd::arithmetic::div_mod::lemma_fundamental_div_mod_converse(
            z as int,
            2,
            x as int,
            0,
        );
    } else {
        vstd::arithmetic::div_mod::lemma_fundamental_div_mod_converse(
            z as int,
            2,
            -(x as int) - 1,
            1,
        );
    }
}

/// A 32-bit value equals the little-endian recombination of its bytes.
pub proof fn lemma_le32_digits(u: u32)
    ensures
        (u % 256) + 256 * ((u / 256) % 256) + 65536 * ((u / 65536) % 256) + 16777216 * ((u
            / 16777216) % 256) == u,
{
    let x = u as u64;
    assert(x % 256 + 256 * ((x / 256) % 256) + 65536 * ((x / 65536) % 256) + 16777216 * ((x
        / 16777216) % 256) == x) by (bit_vector)
        requires
            x < 0x100000000,
    ;
}

/// Reading four little-endian bytes of `u` restores `u`.
pub proof fn lemma_rd32_le32(b: Seq<u8>, pos: int, u: u32)
    requires
        0 <= pos,
        pos + 4 <= b.len(),
        b.subrange(pos, pos + 4) == le32(u),
    ensures
        rd32(b, pos) == u,
{
    assert(b[pos] == le32(u)[0] && b[pos + 1] == le32(u)[1] && b[pos + 2] == le32(u)[2] && b[pos
        + 3] == le32(u)[3]) by {
        assert(forall|t: int| 0 <= t < 4 ==> b.subrange(pos, pos + 4)[t] == le32(u)[t]);
    }
    lemma_le32_digits(u);
}

/// Reading eight little-endian bytes of `u` restores `u`.
pub proof fn lemma_rd64_le64(b: Seq<u8>, pos: int, u: u64)
    requires
        0 <= pos,
        pos + 8 <= b.len(),
        b.subrange(pos, pos + 8) == le64(u),
    ensures
        rd64(b, pos) == u,
{
    let lo = (u % 0x100000000) as u32;
    let hi = (u / 0x100000000) as u32;
    assert forall|t: int| 0 <= t < 4 implies #[trigger] b.subrange(pos, pos + 4)[t] == le32(
        lo,
    )[t] by {
        assert(b.subrange(pos, pos + 8)[t] == le64(u)[t]);
        assert(le64(u)[t] == le32(lo)[t]);
        assert(b.subrange(pos, pos + 4)[t] == b[pos + t]);
    }
    assert(b.subrange(pos, pos + 4) =~= le32(lo));
    assert forall|t: int| 0 <= t < 4 implies #[trigger] b.subrange(pos + 4, pos + 8)[t] == le32(
        hi,
    )[t] by {
        assert(b.subrange(pos, pos + 8)[t + 4] == le64(u)[t + 4]);
        assert(le64(u)[t + 4] == le32(hi)[t]);
        assert(b.subrange(pos + 4, pos + 8)[t] == b[pos + 4 + t]);
    }
    assert(b.subrange(pos + 4, pos + 8) =~= le32(hi));
    lemma_rd32_le32(b, pos, lo);
    lemma_rd32_le32(b, pos + 4, hi);
    vstd::arithmetic::div_mod::lemma_fundamental_div_mod(u as int, 0x100000000);
}

/// Every encoded value payload has at least one byte.
pub proof fn lemma_enc_value_min_len(pool: PoolV, k: Kind, v: SpecValue)
    ensures
        enc_value(pool, k, v).len() >= 1,
{
    match v {
        SpecValue::Bool(b) => lemma_varint_min_len(if b { 1u64 } else { 0u64 }),
        SpecValue::I32(n) => {
            lemma_varint_min_len(zigzag32(n) as u64);
            lemma_varint_min_len(u64_of_i64(n as i64));
        },
        SpecValue::I64(n) => {
            lemma_varint_min_len(zigzag64(n));
            lemma_varint_min_len(u64_of_i64(n));
        },
        SpecValue::U32(n) => lemma_varint_min_len(n as u64),
        SpecValue::U64(n) => lemma_varint_min_len(n),
        SpecValue::F32Bits(_n) => (),
        SpecValue::F64Bits(_n) => (),
        SpecValue::Str(s) => lemma_varint_min_len(vstd::utf8::encode_utf8(s).len() as u64),
        SpecValue::Bytes(b) => lemma_varint_min_len(b.len() as u64),
        SpecValue::EnumNumber(n) => lemma_varint_min_len(u64_of_i64(n as i64)),
        SpecValue::Message(sub) => lemma_varint_min_len(enc_fields_from(pool, sub, 0).len() as u64),
    }
}

/// With unique field numbers, the number scan finds exactly the declaring
/// position.
pub proof fn lemma_field_index_of_number(md: crate::descriptor::MsgDescV, fi: int, s: int)
    requires
        0 <= s <= fi < md.fields.len(),
        forall|i: int, j: int|
            0 <= i < j < md.fields.len() ==> md.fields[i].number != md.fields[j].number,
    ensures
        field_index_by_number_from(md, md.fields[fi].number, s) == Some(fi),
    decreases fi - s,
{
    if s < fi {
        lemma_field_index_of_number(md, fi, s + 1);
    }
}


/// Splitting a buffer range that holds a concatenation.
pub proof fn lemma_subrange_split(b: Seq<u8>, pos: int, x: Seq<u8>, y: Seq<u8>)
    requires
        0 <= pos,
        pos + x.len() + y.len() <= b.len(),
        b.subrange(pos, pos + x.len() + y.len()) == x + y,
    ensures
        b.subrange(pos, pos + x.len()) == x,
        b.subrange(pos + x.len(), pos + x.len() + y.len()) == y,
{
    assert forall|t: int| 0 <= t < x.len() implies #[trigger] b.subrange(pos, pos + x.len())[t]
        == x[t] by {
        assert(b.subrange(pos, pos + x.len() + y.len())[t] == (x + y)[t]);
        assert(b.subrange(pos, pos + x.len())[t] == b[pos + t]);
    }
    assert(b.subrange(pos, pos + x.len()) =~= x);
    assert forall|t: int| 0 <= t < y.len() implies #[trigger] b.subrange(
        pos + x.len(),
        pos + x.len() + y.len(),
    )[t] == y[t] by {
        assert(b.subrange(pos, pos + x.len() + y.len())[t + x.len()] == (x + y)[t + x.len()]);
        assert((x + y)[t + x.len()] == y[t]);
        assert(b.subrange(pos + x.len(), pos + x.len() + y.len())[t] == b[pos + x.len() + t]);
    }
    assert(b.subrange(pos + x.len(), pos + x.len() + y.len()) =~= y);
}

/// Has field position `i` already been emitted among `wire_order[0..j)`?
pub open spec fn covered_by(md: crate::descriptor::MsgDescV, j: int, i: int) -> bool {
    exists|k: int| 0 <= k < j && md.wire_order[k] == i
}

/// Parsing at the start of an encoded value payload yields exactly the
/// encoded value and stops right after it.
#[verifier::rlimit(80)]
pub proof fn lemma_dec_value_of_enc(
    pool: PoolV,
    k: Kind,
    v: SpecValue,
    b: Seq<u8>,
    pos: int,
    end: int,
)
    requires
        pool.wf(),
        kind_matches(k, v),
        value_wf(pool, v),
        match k {
            Kind::Message(t) => t < pool.messages.len(),
            _ => true,
        },
        b.len() < 0x10000000000000000,
        0 <= pos,
        pos + enc_value(pool, k, v).len() <= end <= b.len(),
        b.subrange(pos, pos + enc_value(pool, k, v).len()) == enc_value(pool, k, v),
    ensures
        dec_value(pool, k, b, pos, end) == Ok::<(SpecValue, int), Error>(
            (v, pos + enc_value(pool, k, v).len()),
        ),
    decreases v, 1int, 0int,
{
    let enc = enc_value(pool, k, v);
    match v {
        SpecValue::Bool(b0) => {
            let x: u64 = if b0 { 1 } else { 0 };
            lemma_dec_varint_of_enc(b, pos, end, x);
        },
        SpecValue::I32(n) => {
            match k {
                Kind::Sint32 => {
                    lemma_dec_varint_of_enc(b, pos, end, zigzag32(n) as u64);
                    lemma_zigzag32_roundtrip(n);
                },
                Kind::Sfixed32 => {
                    lemma_rd32_le32(b, pos, u32_of_i32(n));
                },
                _ => {
                    lemma_dec_varint_of_enc(b, pos, end, u64_of_i64(n as i64));
                    lemma_i32_roundtrip(n);
                },
            }
        },
        SpecValue::I64(n) => {
            match k {
                Kind::Sint64 => {
                    lemma_dec_varint_of_enc(b, pos, end, zigzag64(n));
                    lemma_zigzag64_roundtrip(n);
                },
                Kind::Sfixed64 => {
                    lemma_rd64_le64(b, pos, u64_of_i64(n));
                    lemma_i64_roundtrip(n);
                },
                _ => {
                    lemma_dec_varint_of_enc(b, pos, end, u64_of_i64(n));
                    lemma_i64_roundtrip(n);
                },
            }
        },
        SpecValue::U32(n) => {
            match k {
                Kind::Fixed32 => {
                    lemma_rd32_le32(b, pos, n);
                },
                _ => {
                    lemma_dec_varint_of_enc(b, pos, end, n as u64);
                    lemma_u32_roundtrip(n);
                },
            }
        },
        SpecValue::U64(n) => {
            match k {
                Kind::Fixed64 => {
                    lemma_rd64_le64(b, pos, n);
                },
                _ => {
                    lemma_dec_varint_of_enc(b, pos, end, n);
                },
            }
        },
        SpecValue::F32Bits(n) => {
            lemma_rd32_le32(b, pos, n);
        },
        SpecValue::F64Bits(n) => {
            lemma_rd64_le64(b, pos, n);
        },
        SpecValue::Str(s) => {
            let payload = vstd::utf8::encode_utf8(s);
            let kb = varint(payload.len() as u64);
            lemma_subrange_split(b, pos, kb, payload);
            lemma_dec_varint_of_enc(b, pos, end, payload.len() as u64);
            vstd::utf8::encode_utf8_valid_utf8(s);
            vstd::utf8::encode_utf8_decode_utf8(s);
            assert(b.subrange(pos + kb.len(), pos + kb.len() + payload.len()) == payload);
        },
        SpecValue::Bytes(bs) => {
            let kb = varint(bs.len() as u64);
            lemma_subrange_split(b, pos, kb, bs);
            lemma_dec_varint_of_enc(b, pos, end, bs.len() as u64);
        },
        SpecValue::EnumNumber(n) => {
            lemma_dec_varint_of_enc(b, pos, end, u64_of_i64(n as i64));
            lemma_i32_roundtrip(n);
        },
        SpecValue::Message(sub) => {
            let payload = enc_fields_from(pool, sub, 0);
            let kb = varint(payload.len() as u64);
            lemma_subrange_split(b, pos, kb, payload);
            lemma_dec_varint_of_enc(b, pos, end, payload.len() as u64);
            lemma_varint_min_len(payload.len() as u64);
            let p = pos + kb.len();
            let t = sub.msg;
            let empty = empty_msg_spec(pool, t);
            assert(forall|i: int|
                0 <= i < sub.slots.len() ==> #[trigger] empty.slots[i] == (if covered_by(
                    pool.messages[sub.msg],
                    0,
                    i,
                ) {
                    sub.slots[i]
                } else {
                    None::<SpecValue>
                }));
            lemma_rt_fields(pool, sub, b, p, 0, empty);
        },
    }
}

/// Parsing the field-suffix encoding of `m` from position `j` of its wire
/// order, into an accumulator that already holds exactly the fields emitted
/// before `j`, restores `m` itself.
#[verifier::rlimit(80)]
pub proof fn lemma_rt_fields(pool: PoolV, m: SpecMsg, b: Seq<u8>, pos: int, j: int, acc: SpecMsg)
    requires
        pool.wf(),
        msg_wf(pool, m),
        b.len() < 0x10000000000000000,
        0 <= j <= pool.messages[m.msg].wire_order.len(),
        0 <= pos,
        pos + enc_fields_from(pool, m, j).len() <= b.len(),
        b.subrange(pos, pos + enc_fields_from(pool, m, j).len()) == enc_fields_from(pool, m, j),
        acc.msg == m.msg,
        acc.slots.len() == m.slots.len(),
        forall|i: int|
            0 <= i < m.slots.len() ==> #[trigger] acc.slots[i] == (if covered_by(
                pool.messages[m.msg],
                j,
                i,
            ) {
                m.slots[i]
            } else {
                None::<SpecValue>
            }),
    ensures
        dec_fields(pool, m.msg, b, pos, pos + enc_fields_from(pool, m, j).len(), acc) == Ok::<
            SpecMsg,
            Error,
        >(m),
    decreases m, 2int, pool.messages[m.msg].wire_order.len() - j,
{
    let md = pool.messages[m.msg];
    let wlen = md.wire_order.len() as int;
    let enc = enc_fields_from(pool, m, j);
    let end = pos + enc.len();
    assert(md.wf(pool.messages.len() as int));
    if j == wlen {
        assert(enc.len() == 0);
        assert forall|i: int| 0 <= i < m.slots.len() implies #[trigger] acc.slots[i]
            == m.slots[i] by {
            assert(md.wire_order.contains(i as usize));
            let k = choose|k: int|
                0 <= k < md.wire_order.len() && md.wire_order[k] == i as usize;
            assert(covered_by(md, j, i));
        }
        assert(acc.slots =~= m.slots);
        assert(acc =~= m);
    } else {
        let fi = md.wire_order[j] as int;
        assert(0 <= fi < md.fields.len());
        assert(m.slots.len() == md.fields.len());
        let fd = md.fields[fi];
        let rest = enc_fields_from(pool, m, j + 1);
        match m.slots[fi] {
            None => {
                assert(enc =~= rest);
                let acc2 = acc;
                assert forall|i: int|
                    0 <= i < m.slots.len() implies #[trigger] acc2.slots[i] == (if covered_by(
                        md,
                        j + 1,
                        i,
                    ) {
                        m.slots[i]
                    } else {
                        None::<SpecValue>
                    }) by {
                    if i == fi {
                        assert(covered_by(md, j + 1, i));
                    } else {
                        if covered_by(md, j + 1, i) && !covered_by(md, j, i) {
                            let k = choose|k: int|
                                0 <= k < j + 1 && md.wire_order[k] == i;
                            assert(k == j);
                            assert(false);
                        }
                    }
                }
                lemma_rt_fields(pool, m, b, pos, j + 1, acc2);
            },
            Some(v) => {
                lemma_slots_wf(pool, md.fields, m.slots);
                assert(fd.cardinality != Cardinality::Repeated);
                assert(kind_matches(fd.kind, v) && value_wf(pool, v));
                let kb = varint(key_of(fd));
                let vb = enc_value(pool, fd.kind, v);
                assert(enc =~= kb + (vb + rest));
                lemma_subrange_split(b, pos, kb, vb + rest);
                lemma_subrange_split(b, pos + kb.len(), vb, rest);
                lemma_varint_min_len(key_of(fd));
                lemma_enc_value_min_len(pool, fd.kind, v);
                lemma_dec_varint_of_enc(b, pos, end, key_of(fd));
                let p1 = pos + kb.len();
                assert(wire_type_of(fd.kind) <= 5);
                assert(fd.number >= 1);
                vstd::arithmetic::div_mod::lemma_fundamental_div_mod_converse(
                    key_of(fd) as int,
                    8,
                    fd.number as int,
                    wire_type_of(fd.kind) as int,
                );
                assert(key_of(fd) / 8 == fd.number as u64);
                assert(key_of(fd) % 8 == wire_type_of(fd.kind));
                lemma_field_index_of_number(md, fi, 0);
                assert(field_index_by_number(md, fd.number) == Some(fi));
                lemma_dec_value_of_enc(pool, fd.kind, v, b, p1, end);
                let p2 = p1 + vb.len();
                let acc2 = SpecMsg { msg: acc.msg, slots: acc.slots.update(fi, Some(v)) };
                assert forall|i: int|
                    0 <= i < m.slots.len() implies #[trigger] acc2.slots[i] == (if covered_by(
                        md,
                        j + 1,
                        i,
                    ) {
                        m.slots[i]
                    } else {
                        None::<SpecValue>
                    }) by {
                    if i == fi {
                        assert(covered_by(md, j + 1, i));
                        assert(acc2.slots[i] == Some(v));
                    } else {
                        assert(acc2.slots[i] == acc.slots[i]);
                        if covered_by(md, j + 1, i) && !covered_by(md, j, i) {
                            let k = choose|k: int|
                                0 <= k < j + 1 && md.wire_order[k] == i;
                            assert(k == j);
                            assert(false);
                        }
                        if covered_by(md, j, i) {
                            assert(covered_by(md, j + 1, i));
                        }
                    }
                }
                lemma_rt_fields(pool, m, b, p2, j + 1, acc2);
                assert(dec_fields(pool, m.msg, b, pos, end, acc) == dec_fields(
                    pool,
                    m.msg,
                    b,
                    p2,
                    end,
                    acc2,
                ));
            },
        }
    }
}

/// Round trip of the wire codec: decoding the wire encoding of any
/// well-formed message — whatever mixture of scalar and nested-message
/// fields it holds — yields exactly that message, explicitly-set fields and
/// values included.  The length bound states the machine limit under which
/// an encoding can exist at all.
pub proof fn lemma_wire_round_trip(pool: PoolV, m: SpecMsg)
    requires
        pool.wf(),
        msg_wf(pool, m),
        enc_msg(pool, m).len() < 0x10000000000000000,
    ensures
        dec_msg(pool, m.msg, enc_msg(pool, m)) == Ok::<SpecMsg, Error>(m),
{
    let b = enc_msg(pool, m);
    assert(b.subrange(0, b.len() as int) =~= b);
    let empty = empty_msg_spec(pool, m.msg);
    assert(forall|i: int|
        0 <= i < m.slots.len() ==> #[trigger] empty.slots[i] == (if covered_by(
            pool.messages[m.msg],
            0,
            i,
        ) {
            m.slots[i]
        } else {
            None::<SpecValue>
        }));
    lemma_rt_fields(pool, m, b, 0, 0, empty);
}

} // verus!
