//! The protobuf text-format codec: rendering a dynamic message as
//! `name: value` lines, and parsing such text back.
//!
//! Only explicitly set fields are rendered, in declaration order.  Under
//! `pretty` each field stands on its own line, nested messages in indented
//! braces; otherwise fields are joined by commas.  Strings are quoted with
//! the usual named escapes and three-digit octal escapes for other control
//! bytes; bytes values render the same way, byte by byte.  Enum values
//! render as bare numbers.  The engine stores no unknown fields and does not
//! model `Any`, so `skip_unknown_fields` and `expand_any` change nothing of
//! the output.  Floating-point values other than zero have no rendering:
//! meeting one fails with [`Error::Unsupported`].

use vstd::prelude::*;

use crate::Error;
use crate::descriptor::{Cardinality, DescriptorPool, Kind, PoolV};
use crate::json::{dec_int, dec_nat, jd_int_bare, jd_lit, jd_ws, push_i64, push_u64};
use crate::message::{
    DynamicMessage, SpecMsg, SpecValue, Value, empty_msg_spec, field_index_by_name,
    lemma_slots_view, lemma_slots_wf, msg_wf, slots_view, value_view, value_wf,
};
use crate::schema::push_char;

verus! {

/// Options of the text-format encoder.
#[derive(Clone, Copy, Debug, PartialEq, Eq, Structural)]
pub struct TextOptions {
    pub pretty: bool,
    pub skip_unknown_fields: bool,
    pub expand_any: bool,
}

impl Default for TextOptions {
    /// The defaults of the text renderer: compact output, unknown fields
    /// skipped, `Any` expanded (the latter two without effect here).
    fn default() -> (r: TextOptions)
        ensures
            r == (TextOptions { pretty: false, skip_unknown_fields: true, expand_any: true }),
    {
        TextOptions { pretty: false, skip_unknown_fields: true, expand_any: true }
    }
}

/// The octal digit character of `d`.
pub open spec fn oct_char(d: int) -> char {
    if d == 0 {
        '0'
    } else if d == 1 {
        '1'
    } else if d == 2 {
        '2'
    } else if d == 3 {
        '3'
    } else if d == 4 {
        '4'
    } else if d == 5 {
        '5'
    } else if d == 6 {
        '6'
    } else {
        '7'
    }
}

fn oct_exec(d: u32) -> (r: char)
    requires
        d < 8,
    ensures
        r == oct_char(d as int),
{
    match d {
        0 => '0',
        1 => '1',
        2 => '2',
        3 => '3',
        4 => '4',
        5 => '5',
        6 => '6',
        _ => '7',
    }
}

/// The text-format escape of one character.
pub open spec fn tesc_char(c: char) -> Seq<char> {
    if c == '"' {
        seq!['\\', '"']
    } else if c == '\\' {
        seq!['\\', '\\']
    } else if c == '\n' {
        seq!['\\', 'n']
    } else if c == '\r' {
        seq!['\\', 'r']
    } else if c == '\t' {
        seq!['\\', 't']
    } else if (c as u32) < 32 {
        seq!['\\', oct_char((c as u32) as int / 64), oct_char(((c as u32) as int / 8) % 8), oct_char(
            (c as u32) as int % 8,
        )]
    } else {
        seq![c]
    }
}

/// The text-format escape of a whole string.
pub open spec fn tesc_str(s: Seq<char>) -> Seq<char>
    decreases s.len(),
{
    if s.len() == 0 {
        Seq::empty()
    } else {
        tesc_char(s[0]) + tesc_str(s.subrange(1, s.len() as int))
    }
}

/// The text-format escape of one byte.
pub open spec fn tesc_byte(c: u8) -> Seq<char> {
    if c == 34 {
        seq!['\\', '"']
    } else if c == 92 {
        seq!['\\', '\\']
    } else if c == 10 {
        seq!['\\', 'n']
    } else if c == 13 {
        seq!['\\', 'r']
    } else if c == 9 {
        seq!['\\', 't']
    } else if 32 <= c <= 126 {
        seq![c as char]
    } else {
        seq!['\\', oct_char(c as int / 64), oct_char((c as int / 8) % 8), oct_char(c as int % 8)]
    }
}

/// The text-format escape of a byte string.
pub open spec fn tesc_bytes(s: Seq<u8>) -> Seq<char>
    decreases s.len(),
{
    if s.len() == 0 {
        Seq::empty()
    } else {
        tesc_byte(s[0]) + tesc_bytes(s.subrange(1, s.len() as int))
    }
}

/// Can the text codec render this value?  As for JSON: floating-point bit
/// patterns other than zero cannot be printed.
pub open spec fn text_ok_value(v: SpecValue) -> bool
    decreases v, 0int,
{
    match v {
        SpecValue::F32Bits(n) => n == 0,
        SpecValue::F64Bits(n) => n == 0,
        SpecValue::Message(sub) => text_ok_slots(sub.slots),
        _ => true,
    }
}

pub open spec fn text_ok_slots(slots: Seq<Option<SpecValue>>) -> bool
    decreases slots, 1int,
{
    if slots.len() == 0 {
        true
    } else {
        text_ok_slots(slots.subrange(0, slots.len() - 1)) && (match slots[slots.len() - 1] {
            None => true,
            Some(v) => text_ok_value(v),
        })
    }
}

pub open spec fn text_ok_msg(m: SpecMsg) -> bool {
    text_ok_slots(m.slots)
}

/// `text_ok_slots` constrains the slots pointwise.
pub proof fn lemma_text_ok_slots(slots: Seq<Option<SpecValue>>)
    ensures
        text_ok_slots(slots) <==> (forall|i: int|
            0 <= i < slots.len() ==> (match #[trigger] slots[i] {
                None => true,
                Some(v) => text_ok_value(v),
            })),
    decreases slots,
{
    if slots.len() > 0 {
        let s0 = slots.subrange(0, slots.len() - 1);
        lemma_text_ok_slots(s0);
        assert(forall|i: int| 0 <= i < s0.len() ==> s0[i] == slots[i]);
    }
}

/// The text rendering of one scalar value (nested messages are handled by
/// the field renderer).
pub open spec fn txt_scalar(v: SpecValue) -> Seq<char> {
    match v {
        SpecValue::Bool(b) => if b {
            "true"@
        } else {
            "false"@
        },
        SpecValue::I32(n) => dec_int(n as int),
        SpecValue::I64(n) => dec_int(n as int),
        SpecValue::U32(n) => dec_nat(n as int),
        SpecValue::U64(n) => dec_nat(n as int),
        SpecValue::EnumNumber(n) => dec_int(n as int),
        SpecValue::F32Bits(_n) => seq!['0'],
        SpecValue::F64Bits(_n) => seq!['0'],
        SpecValue::Str(s) => seq!['"'] + tesc_str(s) + seq!['"'],
        SpecValue::Bytes(bs) => seq!['"'] + tesc_bytes(bs) + seq!['"'],
        SpecValue::Message(_sub) => Seq::empty(),
    }
}

/// The rendered set fields of a message from declaration position `i` on,
/// with `ind` the indentation of the current nesting level; `first` says
/// whether no field has been rendered yet (compact form only).
pub open spec fn txt_fields(pool: PoolV, m: SpecMsg, o: TextOptions, i: int, ind: Seq<char>, first: bool) -> Seq<
    char,
>
    decreases m, 2int, pool.messages[m.msg].fields.len() - i,
{
    let md = pool.messages[m.msg];
    if i < 0 || i >= md.fields.len() {
        Seq::empty()
    } else {
        let fd = md.fields[i];
        let slot = if 0 <= i < m.slots.len() {
            m.slots[i]
        } else {
            None
        };
        match slot {
            None => txt_fields(pool, m, o, i + 1, ind, first),
            Some(v) => {
                let rendered = match v {
                    SpecValue::Message(sub) => if o.pretty {
                        fd.name + seq![' ', '{', '\n'] + txt_fields(
                            pool,
                            sub,
                            o,
                            0,
                            ind + seq![' ', ' '],
                            true,
                        ) + ind + seq!['}']
                    } else {
                        fd.name + seq!['{'] + txt_fields(pool, sub, o, 0, ind + seq![' ', ' '], true)
                            + seq!['}']
                    },
                    _ => fd.name + seq![':', ' '] + txt_scalar(v),
                };
                if o.pretty {
                    ind + rendered + seq!['\n'] + txt_fields(pool, m, o, i + 1, ind, false)
                } else {
                    (if first {
                        Seq::<char>::empty()
                    } else {
                        seq![',']
                    }) + rendered + txt_fields(pool, m, o, i + 1, ind, false)
                }
            },
        }
    }
}

/// The text rendering of a whole message.
pub open spec fn txt_msg(pool: PoolV, m: SpecMsg, o: TextOptions) -> Seq<char> {
    txt_fields(pool, m, o, 0, Seq::empty(), true)
}

/// Appends the text escape of `s`.
fn push_tesc(out: &mut String, s: &str)
    ensures
        final(out)@ == old(out)@ + tesc_str(s@),
{
    let len = s.unicode_len();
    let mut i: usize = 0;
    assert(s@.subrange(0, len as int) =~= s@);
    while i < len
        invariant
            len == s@.len(),
            i <= len,
            old(out)@ + tesc_str(s@) == out@ + tesc_str(s@.subrange(i as int, len as int)),
        decreases len - i,
    {
        let c = s.get_char(i);
        let ghost rest = s@.subrange(i as int, len as int);
        proof {
            assert(rest[0] == s@[i as int]);
            assert(rest.subrange(1, rest.len() as int) =~= s@.subrange(i + 1, len as int));
        }
        let ghost before = out@;
        if c == '"' {
            push_char(out, '\\');
            push_char(out, '"');
        } else if c == '\\' {
            push_char(out, '\\');
            push_char(out, '\\');
        } else if c == '\n' {
            push_char(out, '\\');
            push_char(out, 'n');
        } else if c == '\r' {
            push_char(out, '\\');
            push_char(out, 'r');
        } else if c == '\t' {
            push_char(out, '\\');
            push_char(out, 't');
        } else if (c as u32) < 32 {
            push_char(out, '\\');
            push_char(out, oct_exec((c as u32) / 64));
            push_char(out, oct_exec(((c as u32) / 8) % 8));
            push_char(out, oct_exec((c as u32) % 8));
        } else {
            push_char(out, c);
        }
        proof {
            assert(out@ =~= before + tesc_char(s@[i as int]));
            assert(old(out)@ + tesc_str(s@) =~= out@ + tesc_str(s@.subrange(i + 1, len as int)));
        }
        i += 1;
    }
    assert(s@.subrange(len as int, len as int) =~= Seq::<char>::empty());
    assert(final(out)@ =~= old(out)@ + tesc_str(s@));
}

/// Appends the text escape of byte string `bs`.
fn push_tesc_bytes(out: &mut String, bs: &Vec<u8>)
    ensures
        final(out)@ == old(out)@ + tesc_bytes(bs@),
{
    let len = bs.len();
    let mut i: usize = 0;
    assert(bs@.subrange(0, len as int) =~= bs@);
    while i < len
        invariant
            len == bs@.len(),
            i <= len,
            old(out)@ + tesc_bytes(bs@) == out@ + tesc_bytes(bs@.subrange(i as int, len as int)),
        decreases len - i,
    {
        let c = bs[i];
        let ghost rest = bs@.subrange(i as int, len as int);
        proof {
            assert(rest[0] == bs@[i as int]);
            assert(rest.subrange(1, rest.len() as int) =~= bs@.subrange(i + 1, len as int));
        }
        let ghost before = out@;
        if c == 34 {
            push_char(out, '\\');
            push_char(out, '"');
        } else if c == 92 {
            push_char(out, '\\');
            push_char(out, '\\');
        } else if c == 10 {
            push_char(out, '\\');
            push_char(out, 'n');
        } else if c == 13 {
            push_char(out, '\\');
            push_char(out, 'r');
        } else if c == 9 {
            push_char(out, '\\');
            push_char(out, 't');
        } else if 32 <= c && c <= 126 {
            push_char(out, byte_to_char(c));
        } else {
            push_char(out, '\\');
            push_char(out, oct_exec((c as u32) / 64));
            push_char(out, oct_exec(((c as u32) / 8) % 8));
            push_char(out, oct_exec((c as u32) % 8));
        }
        proof {
            assert(out@ =~= before + tesc_byte(bs@[i as int]));
            assert(old(out)@ + tesc_bytes(bs@) =~= out@ + tesc_bytes(
                bs@.subrange(i + 1, len as int),
            ));
        }
        i += 1;
    }
    assert(bs@.subrange(len as int, len as int) =~= Seq::<u8>::empty());
    assert(final(out)@ =~= old(out)@ + tesc_bytes(bs@));
}

/// Relies on `char::from`: the character of an ASCII byte.
#[verifier::external_body]
fn byte_to_char(c: u8) -> (r: char)
    requires
        c < 128,
    ensures
        r == c as char,
{
    char::from(c)
}

/// Appends the text rendering of one scalar value after its `name: `
/// prefix.  Fails on a non-zero floating-point bit pattern.
fn push_txt_scalar(out: &mut String, v: &Value) -> (r: Result<(), Error>)
    requires
        !(v is Message),
    ensures
        text_ok_value(value_view(*v)) ==> (r is Ok && final(out)@ == old(out)@ + txt_scalar(
            value_view(*v),
        )),
        r matches Err(e) ==> e == Error::Unsupported && !text_ok_value(value_view(*v)),
        !text_ok_value(value_view(*v)) ==> r is Err,
        r is Err ==> final(out)@ == old(out)@,
{
    match v {
        Value::Bool(bv) => {
            if *bv {
                out.append("true");
            } else {
                out.append("false");
            }
            proof {
                reveal_strlit("true");
                reveal_strlit("false");
                assert(final(out)@ =~= old(out)@ + txt_scalar(value_view(*v)));
            }
            Ok(())
        },
        Value::I32(n) => {
            push_i64(out, *n as i64);
            Ok(())
        },
        Value::I64(n) => {
            push_i64(out, *n);
            Ok(())
        },
        Value::U32(n) => {
            push_u64(out, *n as u64);
            Ok(())
        },
        Value::U64(n) => {
            push_u64(out, *n);
            Ok(())
        },
        Value::EnumNumber(n) => {
            push_i64(out, *n as i64);
            Ok(())
        },
        Value::F32Bits(n) => {
            if *n == 0 {
                push_char(out, '0');
                assert(final(out)@ =~= old(out)@ + txt_scalar(value_view(*v)));
                Ok(())
            } else {
                Err(Error::Unsupported)
            }
        },
        Value::F64Bits(n) => {
            if *n == 0 {
                push_char(out, '0');
                assert(final(out)@ =~= old(out)@ + txt_scalar(value_view(*v)));
                Ok(())
            } else {
                Err(Error::Unsupported)
            }
        },
        Value::Str(st) => {
            push_char(out, '"');
            push_tesc(out, st.as_str());
            push_char(out, '"');
            assert(final(out)@ =~= old(out)@ + txt_scalar(value_view(*v)));
            Ok(())
        },
        Value::Bytes(bs) => {
            push_char(out, '"');
            push_tesc_bytes(out, bs);
            push_char(out, '"');
            assert(final(out)@ =~= old(out)@ + txt_scalar(value_view(*v)));
            Ok(())
        },
        Value::Message(_sub) => Err(Error::Unsupported),
    }
}

/// Appends the rendered set fields of `m`, indented by `ind`.
#[verifier::rlimit(100)]
#[verifier::spinoff_prover]
fn enc_txt_fields(
    pool: &DescriptorPool,
    m: &DynamicMessage,
    out: &mut String,
    o: &TextOptions,
    ind: &String,
) -> (r: Result<(), Error>)
    requires
        pool@.wf(),
        msg_wf(pool@, m@),
    ensures
        text_ok_msg(m@) ==> (r is Ok && final(out)@ == old(out)@ + txt_fields(
            pool@,
            m@,
            *o,
            0,
            ind@,
            true,
        )),
        r matches Err(e) ==> e == Error::Unsupported && !text_ok_msg(m@),
        !text_ok_msg(m@) ==> r is Err,
    decreases *m, 2int,
{
    let md = &pool.messages[m.msg];
    let nf = md.fields.len();
    proof {
        lemma_slots_view(m.slots@);
        lemma_slots_wf(pool@, pool@.messages[m@.msg].fields, m@.slots);
        lemma_text_ok_slots(m@.slots);
    }
    let mut first = true;
    let mut i: usize = 0;
    while i < nf
        invariant
            pool@.wf(),
            msg_wf(pool@, m@),
            md@ == pool@.messages[m@.msg],
            nf == md.fields.len(),
            i <= nf,
            slots_view(m.slots@).len() == m.slots@.len(),
            forall|t: int|
                0 <= t < m.slots@.len() ==> #[trigger] slots_view(m.slots@)[t] == (match m.slots@[t] {
                    None => None,
                    Some(v) => Some(value_view(v)),
                }),
            forall|t: int|
                0 <= t < i ==> (match #[trigger] m@.slots[t] {
                    None => true,
                    Some(v) => text_ok_value(v),
                }),
            text_ok_msg(m@) ==> old(out)@ + txt_fields(pool@, m@, *o, 0, ind@, true) == out@
                + txt_fields(pool@, m@, *o, i as int, ind@, first),
        decreases nf - i,
    {
        proof {
            lemma_slots_wf(pool@, pool@.messages[m@.msg].fields, m@.slots);
            lemma_text_ok_slots(m@.slots);
        }
        let fd = &md.fields[i];
        let ghost slot = m@.slots[i as int];
        match &m.slots[i] {
            None => {
                proof {
                    if text_ok_msg(m@) {
                        assert(old(out)@ + txt_fields(pool@, m@, *o, 0, ind@, true) == out@
                            + txt_fields(pool@, m@, *o, i + 1, ind@, first));
                    }
                }
            },
            Some(v) => {
                let ghost before = out@;
                if o.pretty {
                    out.append(ind.as_str());
                } else if !first {
                    push_char(out, ',');
                }
                out.append(fd.name.as_str());
                match v {
                    Value::Message(sub) => {
                        if o.pretty {
                            push_char(out, ' ');
                            push_char(out, '{');
                            push_char(out, '\n');
                        } else {
                            push_char(out, '{');
                        }
                        let mut ind2 = ind.clone();
                        ind2.append("  ");
                        proof {
                            reveal_strlit("  ");
                            assert(ind2@ =~= ind@ + seq![' ', ' ']);
                        }
                        match enc_txt_fields(pool, &**sub, out, o, &ind2) {
                            Ok(()) => (),
                            Err(e) => {
                                proof {
                                    assert(slot matches Some(w) && w == value_view(*v));
                                    assert(!text_ok_msg(m@));
                                }
                                return Err(e);
                            },
                        }
                        if o.pretty {
                            out.append(ind.as_str());
                        }
                        push_char(out, '}');
                    },
                    _ => {
                        push_char(out, ':');
                        push_char(out, ' ');
                        match push_txt_scalar(out, v) {
                            Ok(()) => (),
                            Err(e) => {
                                proof {
                                    assert(slot matches Some(w) && w == value_view(*v));
                                    assert(!text_ok_msg(m@));
                                }
                                return Err(e);
                            },
                        }
                    },
                }
                if o.pretty {
                    push_char(out, '\n');
                }
                proof {
                    if text_ok_msg(m@) {
                        let vv = value_view(*v);
                        let fdv = pool@.messages[m@.msg].fields[i as int];
                        let rendered = match vv {
                            SpecValue::Message(sub) => if o.pretty {
                                fdv.name + seq![' ', '{', '\n'] + txt_fields(
                                    pool@,
                                    sub,
                                    *o,
                                    0,
                                    ind@ + seq![' ', ' '],
                                    true,
                                ) + ind@ + seq!['}']
                            } else {
                                fdv.name + seq!['{'] + txt_fields(
                                    pool@,
                                    sub,
                                    *o,
                                    0,
                                    ind@ + seq![' ', ' '],
                                    true,
                                ) + seq!['}']
                            },
                            _ => fdv.name + seq![':', ' '] + txt_scalar(vv),
                        };
                        if o.pretty {
                            assert(out@ =~= before + (ind@ + rendered + seq!['\n']));
                        } else {
                            assert(out@ =~= before + ((if first {
                                Seq::<char>::empty()
                            } else {
                                seq![',']
                            }) + rendered));
                        }
                        assert(old(out)@ + txt_fields(pool@, m@, *o, 0, ind@, true) =~= out@
                            + txt_fields(pool@, m@, *o, i + 1, ind@, false));
                    }
                }
                first = false;
            },
        }
        i += 1;
    }
    proof {
        lemma_text_ok_slots(m@.slots);
        assert(text_ok_msg(m@));
        assert(txt_fields(pool@, m@, *o, nf as int, ind@, first) =~= Seq::<char>::empty());
        assert(final(out)@ =~= old(out)@ + txt_fields(pool@, m@, *o, 0, ind@, true));
    }
    Ok(())
}

impl DynamicMessage {
    /// Renders this message in protobuf text format.  Fails with
    /// [`Error::Unsupported`] exactly when a set field holds a
    /// floating-point value other than zero.
    pub fn to_text(&self, pool: &DescriptorPool, o: &TextOptions) -> (r: Result<String, Error>)
        requires
            pool@.wf(),
            msg_wf(pool@, self@),
        ensures
            text_ok_msg(self@) ==> (r matches Ok(s) && s@ == txt_msg(pool@, self@, *o)),
            r matches Err(e) ==> e == Error::Unsupported && !text_ok_msg(self@),
            r is Err <==> !text_ok_msg(self@),
    {
        let mut out = String::new();
        let ind = String::new();
        match enc_txt_fields(pool, self, &mut out, o, &ind) {
            Ok(()) => {
                proof {
                    if text_ok_msg(self@) {
                        assert(out@ =~= Seq::<char>::empty() + txt_msg(pool@, self@, *o));
                    }
                }
                Ok(out)
            },
            Err(e) => Err(e),
        }
    }
}


impl DynamicMessage {
    /// The display form of a message, as the host bindings show it: its
    /// type's fully-qualified name and its set fields in compact text form.
    pub fn repr(&self, pool: &DescriptorPool) -> (r: Result<String, Error>)
        requires
            pool@.wf(),
            msg_wf(pool@, self@),
        ensures
            text_ok_msg(self@) ==> (r matches Ok(s) && s@ == "Message('"@
                + pool@.messages[self@.msg].full_name + "', "@ + txt_msg(
                pool@,
                self@,
                TextOptions { pretty: false, skip_unknown_fields: true, expand_any: true },
            ) + ")"@),
            r matches Err(e) ==> e == Error::Unsupported && !text_ok_msg(self@),
            r is Err <==> !text_ok_msg(self@),
    {
        let o = TextOptions { pretty: false, skip_unknown_fields: true, expand_any: true };
        let body = match self.to_text(pool, &o) {
            Ok(s) => s,
            Err(e) => {
                return Err(e);
            },
        };
        let mut out = String::new();
        out.append("Message('");
        out.append(pool.messages[self.msg].full_name.as_str());
        out.append("', ");
        out.append(body.as_str());
        out.append(")");
        proof {
            if text_ok_msg(self@) {
                assert(out@ =~= "Message('"@ + pool@.messages[self@.msg].full_name + "', "@
                    + txt_msg(pool@, self@, o) + ")"@);
            }
        }
        Ok(out)
    }
}


/// Is this byte part of a field-name identifier?
pub open spec fn is_ident_byte(c: u8) -> bool {
    (97 <= c <= 122) || (65 <= c <= 90) || (48 <= c <= 57) || c == 95
}

/// Collects an identifier's bytes from `pos`: the bytes and the position
/// after them.
pub open spec fn td_ident(b: Seq<u8>, pos: int, acc: Seq<u8>) -> (Seq<u8>, int)
    decreases b.len() - pos,
{
    if pos < 0 || pos >= b.len() || !is_ident_byte(b[pos]) {
        (acc, pos)
    } else {
        td_ident(b, pos + 1, acc.push(b[pos]))
    }
}

/// The value of an octal digit byte, or 8 for any other byte.
pub open spec fn oct_val(c: u8) -> int {
    if 48 <= c <= 55 {
        c - 48
    } else {
        8
    }
}

/// Parses quoted text-format string content after the opening quote: the
/// unescaped bytes and the position after the closing quote.  The escapes
/// are the named ones and one- to three-digit octal escapes.
pub open spec fn td_str_content(b: Seq<u8>, pos: int, acc: Seq<u8>) -> Result<(Seq<u8>, int), Error>
    decreases b.len() - pos,
{
    if pos < 0 || pos >= b.len() {
        Err(Error::TextParse)
    } else {
        let c = b[pos];
        if c == 34 {
            Ok((acc, pos + 1))
        } else if c == 92 {
            if pos + 1 >= b.len() {
                Err(Error::TextParse)
            } else {
                let e = b[pos + 1];
                if e == 34 || e == 92 {
                    td_str_content(b, pos + 2, acc.push(e))
                } else if e == 110 {
                    td_str_content(b, pos + 2, acc.push(10))
                } else if e == 114 {
                    td_str_content(b, pos + 2, acc.push(13))
                } else if e == 116 {
                    td_str_content(b, pos + 2, acc.push(9))
                } else if oct_val(e) < 8 {
                    let d0 = oct_val(e);
                    if pos + 2 < b.len() && oct_val(b[pos + 2]) < 8 {
                        let d1 = oct_val(b[pos + 2]);
                        if pos + 3 < b.len() && oct_val(b[pos + 3]) < 8 {
                            let d2 = oct_val(b[pos + 3]);
                            let v = d0 * 64 + d1 * 8 + d2;
                            if v < 256 {
                                td_str_content(b, pos + 4, acc.push(v as u8))
                            } else {
                                Err(Error::TextParse)
                            }
                        } else {
                            td_str_content(b, pos + 3, acc.push((d0 * 8 + d1) as u8))
                        }
                    } else {
                        td_str_content(b, pos + 2, acc.push(d0 as u8))
                    }
                } else {
                    Err(Error::TextParse)
                }
            }
        } else {
            td_str_content(b, pos + 1, acc.push(c))
        }
    }
}

/// Parses fields of message type `mi` from `pos` into `m`.  With `closed`
/// the run ends at a closing brace (consumed); otherwise at the end of the
/// input.  Fields are `name: value` pairs — braces for nested messages —
/// separated by whitespace and optional commas; unknown field names are
/// refused.
pub open spec fn td_fields(pool: PoolV, mi: int, b: Seq<u8>, pos: int, m: SpecMsg, closed: bool) -> Result<
    (SpecMsg, int),
    Error,
>
    decreases b.len() - pos, 0int,
{
    let md = pool.messages[mi];
    let p0 = jd_ws(b, pos);
    if !(pos <= p0 <= b.len()) {
        Err(Error::TextParse)
    } else if p0 == b.len() {
        if closed {
            Err(Error::TextParse)
        } else {
            Ok((m, p0))
        }
    } else if closed && b[p0] == 125 {
        Ok((m, p0 + 1))
    } else {
        let (name, p1) = td_ident(b, p0, Seq::empty());
        if !(p0 < p1 <= b.len()) {
            Err(Error::TextParse)
        } else if !vstd::utf8::valid_utf8(name) {
            Err(Error::TextParse)
        } else {
            match field_index_by_name(md, vstd::utf8::decode_utf8(name)) {
                None => Err(Error::TextParse),
                Some(fi) => {
                    let fd = md.fields[fi];
                    if fd.cardinality == Cardinality::Repeated {
                        Err(Error::Unsupported)
                    } else {
                        match fd.kind {
                            Kind::Message(t) => {
                                let p2 = jd_ws(b, p1);
                                let p3 = if p2 < b.len() && b[p2] == 58 {
                                    jd_ws(b, p2 + 1)
                                } else {
                                    p2
                                };
                                if !(p0 < p3 && p3 < b.len() && b[p3] == 123) {
                                    Err(Error::TextParse)
                                } else {
                                    match td_fields(
                                        pool,
                                        t as int,
                                        b,
                                        p3 + 1,
                                        empty_msg_spec(pool, t as int),
                                        true,
                                    ) {
                                        Err(e) => Err(e),
                                        Ok((sub, p4)) => {
                                            if !(p3 < p4 <= b.len()) {
                                                Err(Error::TextParse)
                                            } else {
                                                td_next(
                                                    pool,
                                                    mi,
                                                    b,
                                                    p0,
                                                    p4,
                                                    SpecMsg {
                                                        msg: m.msg,
                                                        slots: m.slots.update(
                                                            fi,
                                                            Some(SpecValue::Message(sub)),
                                                        ),
                                                    },
                                                    closed,
                                                )
                                            }
                                        },
                                    }
                                }
                            },
                            _ => {
                                let p2 = jd_ws(b, p1);
                                if !(p2 < b.len() && b[p2] == 58) {
                                    Err(Error::TextParse)
                                } else {
                                    let p3 = jd_ws(b, p2 + 1);
                                    if !(p0 < p3 <= b.len()) {
                                        Err(Error::TextParse)
                                    } else {
                                        match td_scalar(fd.kind, b, p3) {
                                            Err(e) => Err(e),
                                            Ok((v, p4)) => {
                                                if !(p3 < p4 <= b.len() && p0 < p4) {
                                                    Err(Error::TextParse)
                                                } else {
                                                    td_next(
                                                        pool,
                                                        mi,
                                                        b,
                                                        p0,
                                                        p4,
                                                        SpecMsg {
                                                            msg: m.msg,
                                                            slots: m.slots.update(fi, Some(v)),
                                                        },
                                                        closed,
                                                    )
                                                }
                                            },
                                        }
                                    }
                                }
                            },
                        }
                    }
                },
            }
        }
    }
}

/// After one parsed field ending at `p`, skips an optional comma and goes on
/// with the remaining fields.
pub open spec fn td_next(pool: PoolV, mi: int, b: Seq<u8>, start: int, p: int, m: SpecMsg, closed: bool) -> Result<
    (SpecMsg, int),
    Error,
>
    decreases b.len() - p, 1int,
{
    let p5 = jd_ws(b, p);
    let p6 = if p5 < b.len() && b[p5] == 44 {
        p5 + 1
    } else {
        p5
    };
    if start < p6 <= b.len() && p <= p6 {
        td_fields(pool, mi, b, p6, m, closed)
    } else {
        Err(Error::TextParse)
    }
}

/// Parses one scalar text value of kind `k`.
pub open spec fn td_scalar(k: Kind, b: Seq<u8>, pos: int) -> Result<(SpecValue, int), Error> {
    match k {
        Kind::Bool => {
            if jd_lit(b, pos, seq![116u8, 114u8, 117u8, 101u8]) {
                Ok((SpecValue::Bool(true), pos + 4))
            } else if jd_lit(b, pos, seq![102u8, 97u8, 108u8, 115u8, 101u8]) {
                Ok((SpecValue::Bool(false), pos + 5))
            } else {
                Err(Error::TextParse)
            }
        },
        Kind::Int32 | Kind::Sint32 | Kind::Sfixed32 | Kind::Enum => {
            match jd_int_bare(b, pos) {
                Err(_e) => Err(Error::TextParse),
                Ok((neg, mag, p)) => {
                    if neg && mag <= 0x80000000 {
                        let v = (-(mag as int)) as i32;
                        if k is Enum {
                            Ok((SpecValue::EnumNumber(v), p))
                        } else {
                            Ok((SpecValue::I32(v), p))
                        }
                    } else if !neg && mag <= 0x7fffffff {
                        let v = mag as i32;
                        if k is Enum {
                            Ok((SpecValue::EnumNumber(v), p))
                        } else {
                            Ok((SpecValue::I32(v), p))
                        }
                    } else {
                        Err(Error::TextParse)
                    }
                },
            }
        },
        Kind::Int64 | Kind::Sint64 | Kind::Sfixed64 => {
            match jd_int_bare(b, pos) {
                Err(_e) => Err(Error::TextParse),
                Ok((neg, mag, p)) => {
                    if neg && mag <= 0x8000000000000000 {
                        Ok((SpecValue::I64((-(mag as int)) as i64), p))
                    } else if !neg && mag <= 0x7fffffffffffffff {
                        Ok((SpecValue::I64(mag as i64), p))
                    } else {
                        Err(Error::TextParse)
                    }
                },
            }
        },
        Kind::Uint32 | Kind::Fixed32 => {
            match jd_int_bare(b, pos) {
                Err(_e) => Err(Error::TextParse),
                Ok((neg, mag, p)) => {
                    if (neg && mag != 0) || mag > 0xffffffff {
                        Err(Error::TextParse)
                    } else {
                        Ok((SpecValue::U32(mag as u32), p))
                    }
                },
            }
        },
        Kind::Uint64 | Kind::Fixed64 => {
            match jd_int_bare(b, pos) {
                Err(_e) => Err(Error::TextParse),
                Ok((neg, mag, p)) => {
                    if neg && mag != 0 {
                        Err(Error::TextParse)
                    } else {
                        Ok((SpecValue::U64(mag), p))
                    }
                },
            }
        },
        Kind::Double => {
            match jd_int_bare(b, pos) {
                Err(_e) => Err(Error::TextParse),
                Ok((_neg, mag, p)) => {
                    if mag == 0 {
                        Ok((SpecValue::F64Bits(0), p))
                    } else {
                        Err(Error::Unsupported)
                    }
                },
            }
        },
        Kind::Float => {
            match jd_int_bare(b, pos) {
                Err(_e) => Err(Error::TextParse),
                Ok((_neg, mag, p)) => {
                    if mag == 0 {
                        Ok((SpecValue::F32Bits(0), p))
                    } else {
                        Err(Error::Unsupported)
                    }
                },
            }
        },
        Kind::Str => {
            if 0 <= pos < b.len() && b[pos] == 34 {
                match td_str_content(b, pos + 1, Seq::empty()) {
                    Err(e) => Err(e),
                    Ok((bytes, p)) => {
                        if vstd::utf8::valid_utf8(bytes) {
                            Ok((SpecValue::Str(vstd::utf8::decode_utf8(bytes)), p))
                        } else {
                            Err(Error::TextParse)
                        }
                    },
                }
            } else {
                Err(Error::TextParse)
            }
        },
        Kind::Bytes => {
            if 0 <= pos < b.len() && b[pos] == 34 {
                match td_str_content(b, pos + 1, Seq::empty()) {
                    Err(e) => Err(e),
                    Ok((bytes, p)) => Ok((SpecValue::Bytes(bytes), p)),
                }
            } else {
                Err(Error::TextParse)
            }
        },
        Kind::Message(_t) => Err(Error::TextParse),
    }
}

/// Parses a whole text document (as UTF-8 bytes) as a message of type `mi`.
pub open spec fn td_doc(pool: PoolV, mi: int, b: Seq<u8>) -> Result<SpecMsg, Error> {
    match td_fields(pool, mi, b, 0, empty_msg_spec(pool, mi), false) {
        Err(e) => Err(e),
        Ok((m, p)) => {
            if p == b.len() {
                Ok(m)
            } else {
                Err(Error::TextParse)
            }
        },
    }
}


fn y_ident(b: &Vec<u8>, pos: usize, acc: Vec<u8>) -> (r: (Vec<u8>, usize))
    requires
        pos <= b@.len(),
    ensures
        td_ident(b@, pos as int, acc@) == (r.0@, r.1 as int),
        pos <= r.1 <= b@.len(),
    decreases b@.len() - pos,
{
    if pos >= b.len() {
        return (acc, pos);
    }
    let c = b[pos];
    let ident = (97 <= c && c <= 122) || (65 <= c && c <= 90) || (48 <= c && c <= 57) || c == 95;
    if !ident {
        return (acc, pos);
    }
    let mut acc2 = acc;
    acc2.push(c);
    y_ident(b, pos + 1, acc2)
}

fn y_str_content(b: &Vec<u8>, pos: usize, acc: Vec<u8>) -> (r: Result<(Vec<u8>, usize), Error>)
    requires
        pos <= b@.len(),
    ensures
        td_str_content(b@, pos as int, acc@) == (match r {
            Ok((v, p)) => Ok::<(Seq<u8>, int), Error>((v@, p as int)),
            Err(e) => Err::<(Seq<u8>, int), Error>(e),
        }),
        r matches Ok((v, p)) ==> pos < p <= b@.len(),
    decreases b@.len() - pos,
{
    if pos >= b.len() {
        return Err(Error::TextParse);
    }
    let c = b[pos];
    if c == 34 {
        Ok((acc, pos + 1))
    } else if c == 92 {
        if pos + 1 >= b.len() {
            return Err(Error::TextParse);
        }
        let e = b[pos + 1];
        if e == 34 || e == 92 {
            let mut acc2 = acc;
            acc2.push(e);
            y_str_content(b, pos + 2, acc2)
        } else if e == 110 {
            let mut acc2 = acc;
            acc2.push(10);
            y_str_content(b, pos + 2, acc2)
        } else if e == 114 {
            let mut acc2 = acc;
            acc2.push(13);
            y_str_content(b, pos + 2, acc2)
        } else if e == 116 {
            let mut acc2 = acc;
            acc2.push(9);
            y_str_content(b, pos + 2, acc2)
        } else if 48 <= e && e <= 55 {
            let d0 = (e - 48) as u32;
            if pos + 2 < b.len() && 48 <= b[pos + 2] && b[pos + 2] <= 55 {
                let d1 = (b[pos + 2] - 48) as u32;
                if pos + 3 < b.len() && 48 <= b[pos + 3] && b[pos + 3] <= 55 {
                    let d2 = (b[pos + 3] - 48) as u32;
                    let v = d0 * 64 + d1 * 8 + d2;
                    if v < 256 {
                        let mut acc2 = acc;
                        acc2.push(v as u8);
                        y_str_content(b, pos + 4, acc2)
                    } else {
                        Err(Error::TextParse)
                    }
                } else {
                    let mut acc2 = acc;
                    acc2.push((d0 * 8 + d1) as u8);
                    y_str_content(b, pos + 3, acc2)
                }
            } else {
                let mut acc2 = acc;
                acc2.push(d0 as u8);
                y_str_content(b, pos + 2, acc2)
            }
        } else {
            Err(Error::TextParse)
        }
    } else {
        let mut acc2 = acc;
        acc2.push(c);
        y_str_content(b, pos + 1, acc2)
    }
}

/// Parses one scalar text value of kind `k`, mirroring [`td_scalar`].
#[verifier::rlimit(100)]
fn y_scalar(k: Kind, b: &Vec<u8>, pos: usize) -> (r: Result<(Value, usize), Error>)
    requires
        pos <= b@.len(),
        !(k is Message),
    ensures
        td_scalar(k, b@, pos as int) == (match r {
            Ok((v, p)) => Ok::<(SpecValue, int), Error>((value_view(v), p as int)),
            Err(e) => Err::<(SpecValue, int), Error>(e),
        }),
        r matches Ok((v, p)) ==> pos < p <= b@.len() && crate::message::kind_matches(
            k,
            value_view(v),
        ) && !(value_view(v) is Message),
{
    let blen = b.len();
    match k {
        Kind::Bool => {
            if crate::json::x_lit4(b, pos, 116, 114, 117, 101) {
                Ok((Value::Bool(true), pos + 4))
            } else if crate::json::x_lit5(b, pos, 102, 97, 108, 115, 101) {
                Ok((Value::Bool(false), pos + 5))
            } else {
                Err(Error::TextParse)
            }
        },
        Kind::Int32 | Kind::Sint32 | Kind::Sfixed32 | Kind::Enum => {
            match crate::json::x_int_bare(b, pos) {
                Err(_e) => Err(Error::TextParse),
                Ok((neg, mag, p)) => {
                    if neg && mag <= 0x80000000 {
                        let v: i32 = if mag == 0x80000000 {
                            i32::MIN
                        } else {
                            -(mag as i32)
                        };
                        if matches!(k, Kind::Enum) {
                            Ok((Value::EnumNumber(v), p))
                        } else {
                            Ok((Value::I32(v), p))
                        }
                    } else if !neg && mag <= 0x7fffffff {
                        let v: i32 = mag as i32;
                        if matches!(k, Kind::Enum) {
                            Ok((Value::EnumNumber(v), p))
                        } else {
                            Ok((Value::I32(v), p))
                        }
                    } else {
                        Err(Error::TextParse)
                    }
                },
            }
        },
        Kind::Int64 | Kind::Sint64 | Kind::Sfixed64 => {
            match crate::json::x_int_bare(b, pos) {
                Err(_e) => Err(Error::TextParse),
                Ok((neg, mag, p)) => {
                    if neg && mag <= 0x8000000000000000 {
                        let v: i64 = if mag == 0x8000000000000000 {
                            i64::MIN
                        } else {
                            -(mag as i64)
                        };
                        Ok((Value::I64(v), p))
                    } else if !neg && mag <= 0x7fffffffffffffff {
                        Ok((Value::I64(mag as i64), p))
                    } else {
                        Err(Error::TextParse)
                    }
                },
            }
        },
        Kind::Uint32 | Kind::Fixed32 => {
            match crate::json::x_int_bare(b, pos) {
                Err(_e) => Err(Error::TextParse),
                Ok((neg, mag, p)) => {
                    if (neg && mag != 0) || mag > 0xffffffff {
                        Err(Error::TextParse)
                    } else {
                        Ok((Value::U32(mag as u32), p))
                    }
                },
            }
        },
        Kind::Uint64 | Kind::Fixed64 => {
            match crate::json::x_int_bare(b, pos) {
                Err(_e) => Err(Error::TextParse),
                Ok((neg, mag, p)) => {
                    if neg && mag != 0 {
                        Err(Error::TextParse)
                    } else {
                        Ok((Value::U64(mag), p))
                    }
                },
            }
        },
        Kind::Double => {
            match crate::json::x_int_bare(b, pos) {
                Err(_e) => Err(Error::TextParse),
                Ok((_neg, mag, p)) => {
                    if mag == 0 {
                        Ok((Value::F64Bits(0), p))
                    } else {
                        Err(Error::Unsupported)
                    }
                },
            }
        },
        Kind::Float => {
            match crate::json::x_int_bare(b, pos) {
                Err(_e) => Err(Error::TextParse),
                Ok((_neg, mag, p)) => {
                    if mag == 0 {
                        Ok((Value::F32Bits(0), p))
                    } else {
                        Err(Error::Unsupported)
                    }
                },
            }
        },
        Kind::Str => {
            if pos < b.len() && b[pos] == 34 {
                match y_str_content(b, pos + 1, Vec::new()) {
                    Err(e) => Err(e),
                    Ok((bytes, p)) => {
                        match crate::wire::string_from_utf8(bytes) {
                            Some(s) => Ok((Value::Str(s), p)),
                            None => Err(Error::TextParse),
                        }
                    },
                }
            } else {
                Err(Error::TextParse)
            }
        },
        Kind::Bytes => {
            if pos < b.len() && b[pos] == 34 {
                match y_str_content(b, pos + 1, Vec::new()) {
                    Err(e) => Err(e),
                    Ok((bytes, p)) => Ok((Value::Bytes(bytes), p)),
                }
            } else {
                Err(Error::TextParse)
            }
        },
        Kind::Message(_t) => Err(Error::TextParse),
    }
}


/// Parses fields from `pos` into `m`, mirroring [`td_fields`].
#[verifier::rlimit(100)]
#[verifier::spinoff_prover]
fn y_fields(
    pool: &DescriptorPool,
    mi: usize,
    b: &Vec<u8>,
    pos: usize,
    m: DynamicMessage,
    closed: bool,
) -> (r: Result<(DynamicMessage, usize), Error>)
    requires
        pool@.wf(),
        mi < pool@.messages.len(),
        pos <= b@.len(),
        msg_wf(pool@, m@),
        m@.msg == mi as int,
    ensures
        td_fields(pool@, mi as int, b@, pos as int, m@, closed) == (match r {
            Ok((m2, p)) => Ok::<(SpecMsg, int), Error>((m2@, p as int)),
            Err(e) => Err::<(SpecMsg, int), Error>(e),
        }),
        r matches Ok((m2, p)) ==> msg_wf(pool@, m2@) && m2@.msg == mi as int && p <= b@.len(),
    decreases b@.len() - pos, 0int,
{
    let p0 = crate::json::x_ws(b, pos);
    if p0 == b.len() {
        if closed {
            return Err(Error::TextParse);
        }
        return Ok((m, p0));
    }
    if closed && b[p0] == 125 {
        return Ok((m, p0 + 1));
    }
    let (name_bytes, p1) = y_ident(b, p0, Vec::new());
    if p1 <= p0 {
        return Err(Error::TextParse);
    }
    let name = match crate::wire::string_from_utf8(name_bytes) {
        Some(s) => s,
        None => {
            return Err(Error::TextParse);
        },
    };
    let md = &pool.messages[mi];
    let fi = match crate::message::find_field_by_name(md, name.as_str()) {
        Some(x) => x,
        None => {
            return Err(Error::TextParse);
        },
    };
    assert(pool@.messages[mi as int].wf(pool@.messages.len() as int));
    let fd = &md.fields[fi];
    if matches!(fd.cardinality, Cardinality::Repeated) {
        return Err(Error::Unsupported);
    }
    match fd.kind {
        Kind::Message(t) => {
            let p2 = crate::json::x_ws(b, p1);
            let p3: usize = if p2 < b.len() && b[p2] == 58 {
                crate::json::x_ws(b, p2 + 1)
            } else {
                p2
            };
            if !(p0 < p3 && p3 < b.len() && b[p3] == 123) {
                return Err(Error::TextParse);
            }
            let empty = DynamicMessage::new(pool, t);
            match y_fields(pool, t, b, p3 + 1, empty, true) {
                Err(e) => Err(e),
                Ok((sub, p4)) => {
                    if !(p3 < p4) {
                        return Err(Error::TextParse);
                    }
                    let m2 = update_slot(pool, mi, m, fi, Value::Message(Box::new(sub)));
                    y_next(pool, mi, b, p0, p4, m2, closed)
                },
            }
        },
        _ => {
            let p2 = crate::json::x_ws(b, p1);
            if !(p2 < b.len() && b[p2] == 58) {
                return Err(Error::TextParse);
            }
            let p3 = crate::json::x_ws(b, p2 + 1);
            if !(p0 < p3) {
                return Err(Error::TextParse);
            }
            match y_scalar(fd.kind, b, p3) {
                Err(e) => Err(e),
                Ok((v, p4)) => {
                    let m2 = update_slot(pool, mi, m, fi, v);
                    y_next(pool, mi, b, p0, p4, m2, closed)
                },
            }
        },
    }
}

/// Skips the separator after one parsed field, mirroring [`td_next`].
fn y_next(
    pool: &DescriptorPool,
    mi: usize,
    b: &Vec<u8>,
    start: usize,
    p: usize,
    m: DynamicMessage,
    closed: bool,
) -> (r: Result<(DynamicMessage, usize), Error>)
    requires
        pool@.wf(),
        mi < pool@.messages.len(),
        start < p <= b@.len(),
        msg_wf(pool@, m@),
        m@.msg == mi as int,
    ensures
        td_next(pool@, mi as int, b@, start as int, p as int, m@, closed) == (match r {
            Ok((m2, q)) => Ok::<(SpecMsg, int), Error>((m2@, q as int)),
            Err(e) => Err::<(SpecMsg, int), Error>(e),
        }),
        r matches Ok((m2, q)) ==> msg_wf(pool@, m2@) && m2@.msg == mi as int && q <= b@.len(),
    decreases b@.len() - p, 1int,
{
    let p5 = crate::json::x_ws(b, p);
    let p6: usize = if p5 < b.len() && b[p5] == 44 {
        p5 + 1
    } else {
        p5
    };
    y_fields(pool, mi, b, p6, m, closed)
}

/// Stores `v` into slot `fi`, keeping the invariant.
fn update_slot(
    pool: &DescriptorPool,
    mi: usize,
    m: DynamicMessage,
    fi: usize,
    v: Value,
) -> (r: DynamicMessage)
    requires
        pool@.wf(),
        mi < pool@.messages.len(),
        msg_wf(pool@, m@),
        m@.msg == mi as int,
        fi < pool@.messages[mi as int].fields.len(),
        crate::message::kind_matches(pool@.messages[mi as int].fields[fi as int].kind, value_view(v)),
        value_wf(pool@, value_view(v)),
        pool@.messages[mi as int].fields[fi as int].cardinality != Cardinality::Repeated,
    ensures
        r@ == (SpecMsg { msg: m@.msg, slots: m@.slots.update(fi as int, Some(value_view(v))) }),
        msg_wf(pool@, r@),
{
    let mut m2 = m;
    proof {
        lemma_slots_view(m2.slots@);
        lemma_slots_wf(pool@, pool@.messages[mi as int].fields, m2@.slots);
    }
    let ghost before = m2@;
    let ghost vv = value_view(v);
    m2.slots[fi] = Some(v);
    proof {
        lemma_slots_view(m2.slots@);
        assert(slots_view(m2.slots@) =~= before.slots.update(fi as int, Some(vv)));
        assert(m2@ =~= SpecMsg {
            msg: before.msg,
            slots: before.slots.update(fi as int, Some(vv)),
        });
        lemma_slots_wf(pool@, pool@.messages[mi as int].fields, m2@.slots);
    }
    m2
}

impl DynamicMessage {
    /// Parses protobuf text format as a message of type `msg_index`:
    /// `name: value` pairs separated by whitespace or commas, braces for
    /// nested messages, strict about unknown field names.  Fails with
    /// [`Error::TextParse`] on malformed input and with
    /// [`Error::Unsupported`] on a repeated field or a non-zero
    /// floating-point number.
    pub fn from_text(pool: &DescriptorPool, msg_index: usize, text: &str) -> (r: Result<
        DynamicMessage,
        Error,
    >)
        requires
            pool@.wf(),
            msg_index < pool@.messages.len(),
        ensures
            td_doc(pool@, msg_index as int, vstd::utf8::encode_utf8(text@)) == (match r {
                Ok(m) => Ok::<SpecMsg, Error>(m@),
                Err(e) => Err::<SpecMsg, Error>(e),
            }),
            r matches Ok(m) ==> msg_wf(pool@, m@) && m@.msg == msg_index as int,
    {
        let b = text.as_bytes_vec();
        let empty = DynamicMessage::new(pool, msg_index);
        match y_fields(pool, msg_index, &b, 0, empty, false) {
            Err(e) => Err(e),
            Ok((m, p)) => {
                if p == b.len() {
                    Ok(m)
                } else {
                    Err(Error::TextParse)
                }
            },
        }
    }
}

} // verus!
