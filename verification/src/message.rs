//! The value model and the dynamic message: a schema-bound container of
//! field values, with validated get/set/enumerate operations.
//!
//! A [`DynamicMessage`] references its message descriptor by pool index and
//! stores one optional slot per declared field, in declaration order.  An
//! unset slot reads as the field kind's zero value.  The container's
//! invariant, [`msg_wf`], says that every stored value's tag matches the
//! declared kind of its field.
//!
//! Floating-point field values are carried as their IEEE 754 bit patterns
//! (`F32Bits`, `F64Bits`); the engine never interprets them numerically.
//! List- and map-valued fields have no representation here: operations that
//! would need one report [`Error::Unsupported`].

use vstd::prelude::*;

use crate::Error;
use crate::descriptor::{Cardinality, DescriptorPool, FieldDescriptor, Kind, MsgDescV, PoolV};

verus! {

/// One field value: the tagged union over every kind the engine implements.
pub enum Value {
    Bool(bool),
    I32(i32),
    I64(i64),
    U32(u32),
    U64(u64),
    F32Bits(u32),
    F64Bits(u64),
    Str(String),
    Bytes(Vec<u8>),
    EnumNumber(i32),
    Message(Box<DynamicMessage>),
}

/// A message instance: the index of its descriptor in the pool, and one slot
/// per declared field, `None` while the field has not been explicitly set.
pub struct DynamicMessage {
    pub msg: usize,
    pub slots: Vec<Option<Value>>,
}

/// The mathematical model of a field value.
#[verifier::ext_equal]
pub enum SpecValue {
    Bool(bool),
    I32(i32),
    I64(i64),
    U32(u32),
    U64(u64),
    F32Bits(u32),
    F64Bits(u64),
    Str(Seq<char>),
    Bytes(Seq<u8>),
    EnumNumber(i32),
    Message(SpecMsg),
}

/// The mathematical model of a message instance.
#[verifier::ext_equal]
pub struct SpecMsg {
    pub msg: int,
    pub slots: Seq<Option<SpecValue>>,
}

pub open spec fn value_view(v: Value) -> SpecValue
    decreases v,
{
    match v {
        Value::Bool(b) => SpecValue::Bool(b),
        Value::I32(n) => SpecValue::I32(n),
        Value::I64(n) => SpecValue::I64(n),
        Value::U32(n) => SpecValue::U32(n),
        Value::U64(n) => SpecValue::U64(n),
        Value::F32Bits(n) => SpecValue::F32Bits(n),
        Value::F64Bits(n) => SpecValue::F64Bits(n),
        Value::Str(s) => SpecValue::Str(s@),
        Value::Bytes(b) => SpecValue::Bytes(b@),
        Value::EnumNumber(n) => SpecValue::EnumNumber(n),
        Value::Message(m) => SpecValue::Message(msg_view(*m)),
    }
}

pub open spec fn slots_view(s: Seq<Option<Value>>) -> Seq<Option<SpecValue>>
    decreases s,
{
    if s.len() == 0 {
        Seq::empty()
    } else {
        slots_view(s.subrange(0, s.len() - 1)).push(
            match s[s.len() - 1] {
                None => None,
                Some(v) => Some(value_view(v)),
            },
        )
    }
}

pub open spec fn msg_view(m: DynamicMessage) -> SpecMsg
    decreases m,
{
    SpecMsg { msg: m.msg as int, slots: slots_view(m.slots@) }
}

impl View for Value {
    type V = SpecValue;

    open spec fn view(&self) -> SpecValue {
        value_view(*self)
    }
}

impl View for DynamicMessage {
    type V = SpecMsg;

    open spec fn view(&self) -> SpecMsg {
        msg_view(*self)
    }
}

/// `slots_view` maps the slot sequence pointwise.
pub proof fn lemma_slots_view(s: Seq<Option<Value>>)
    ensures
        slots_view(s).len() == s.len(),
        forall|i: int|
            0 <= i < s.len() ==> #[trigger] slots_view(s)[i] == (match s[i] {
                None => None,
                Some(v) => Some(value_view(v)),
            }),
    decreases s,
{
    if s.len() > 0 {
        lemma_slots_view(s.subrange(0, s.len() - 1));
        assert forall|i: int|
            0 <= i < s.len() implies #[trigger] slots_view(s)[i] == (match s[i] {
                None => None,
                Some(v) => Some(value_view(v)),
            }) by {
            if i < s.len() - 1 {
                assert(s.subrange(0, s.len() - 1)[i] == s[i]);
            }
        }
    }
}

/// Does a value's tag match a declared field kind?  Message-typed fields
/// additionally require the value's message type to be the field's target.
pub open spec fn kind_matches(k: Kind, v: SpecValue) -> bool {
    match k {
        Kind::Double => v is F64Bits,
        Kind::Float => v is F32Bits,
        Kind::Int32 | Kind::Sint32 | Kind::Sfixed32 => v is I32,
        Kind::Int64 | Kind::Sint64 | Kind::Sfixed64 => v is I64,
        Kind::Uint32 | Kind::Fixed32 => v is U32,
        Kind::Uint64 | Kind::Fixed64 => v is U64,
        Kind::Bool => v is Bool,
        Kind::Str => v is Str,
        Kind::Bytes => v is Bytes,
        Kind::Enum => v is EnumNumber,
        Kind::Message(t) => v matches SpecValue::Message(sub) && sub.msg == t,
    }
}

/// Internal consistency of a value on its own: a nested message value must be
/// a well-formed message of the pool.  Scalars are always consistent.
pub open spec fn value_wf(pool: PoolV, v: SpecValue) -> bool
    decreases v,
{
    match v {
        SpecValue::Message(sub) => msg_wf(pool, sub),
        _ => true,
    }
}

pub open spec fn slots_wf(pool: PoolV, fields: Seq<crate::descriptor::FieldDescV>, slots: Seq<Option<SpecValue>>) -> bool
    decreases slots,
{
    if slots.len() == 0 {
        true
    } else {
        let i = slots.len() - 1;
        slots_wf(pool, fields, slots.subrange(0, i))
        && (i < fields.len() ==> match slots[i] {
            None => true,
            Some(v) => fields[i].cardinality != Cardinality::Repeated
                && kind_matches(fields[i].kind, v)
                && value_wf(pool, v),
        })
    }
}

/// The invariant of a dynamic message: its type exists in the pool, it has
/// one slot per declared field, and every stored value's tag matches the
/// declared kind of the field it is stored under.  Repeated fields are never
/// stored.
pub open spec fn msg_wf(pool: PoolV, m: SpecMsg) -> bool
    decreases m,
{
    &&& 0 <= m.msg < pool.messages.len()
    &&& m.slots.len() == pool.messages[m.msg].fields.len()
    &&& slots_wf(pool, pool.messages[m.msg].fields, m.slots)
}

/// `slots_wf` constrains the slot sequence pointwise.
pub proof fn lemma_slots_wf(pool: PoolV, fields: Seq<crate::descriptor::FieldDescV>, slots: Seq<Option<SpecValue>>)
    ensures
        slots_wf(pool, fields, slots) <==> forall|i: int|
            0 <= i < slots.len() && i < fields.len() ==> match #[trigger] slots[i] {
                None => true,
                Some(v) => fields[i].cardinality != Cardinality::Repeated
                    && kind_matches(fields[i].kind, v)
                    && value_wf(pool, v),
            },
    decreases slots,
{
    if slots.len() > 0 {
        let s0 = slots.subrange(0, slots.len() - 1);
        lemma_slots_wf(pool, fields, s0);
        assert(forall|i: int| 0 <= i < s0.len() ==> s0[i] == slots[i]);
    }
}

/// The kind-specific zero value read from a declared-but-unset field.  For a
/// message-typed field it is the empty message of the target type.
pub open spec fn zero_value_spec(pool: PoolV, k: Kind) -> SpecValue {
    match k {
        Kind::Double => SpecValue::F64Bits(0),
        Kind::Float => SpecValue::F32Bits(0),
        Kind::Int32 | Kind::Sint32 | Kind::Sfixed32 => SpecValue::I32(0),
        Kind::Int64 | Kind::Sint64 | Kind::Sfixed64 => SpecValue::I64(0),
        Kind::Uint32 | Kind::Fixed32 => SpecValue::U32(0),
        Kind::Uint64 | Kind::Fixed64 => SpecValue::U64(0),
        Kind::Bool => SpecValue::Bool(false),
        Kind::Str => SpecValue::Str(Seq::empty()),
        Kind::Bytes => SpecValue::Bytes(Seq::empty()),
        Kind::Enum => SpecValue::EnumNumber(0),
        Kind::Message(t) => SpecValue::Message(empty_msg_spec(pool, t as int)),
    }
}

/// The empty message of type `t`: no field explicitly set.
pub open spec fn empty_msg_spec(pool: PoolV, t: int) -> SpecMsg {
    SpecMsg {
        msg: t,
        slots: Seq::new(pool.messages[t].fields.len(), |i: int| None),
    }
}

/// The first field position declaring `name`, scanning from `i`.
pub open spec fn field_index_by_name_from(md: MsgDescV, name: Seq<char>, i: int) -> Option<int>
    decreases md.fields.len() - i,
{
    if i < 0 || i >= md.fields.len() {
        None
    } else if md.fields[i].name == name {
        Some(i)
    } else {
        field_index_by_name_from(md, name, i + 1)
    }
}

/// The position of the field declaring `name`, if any.
pub open spec fn field_index_by_name(md: MsgDescV, name: Seq<char>) -> Option<int> {
    field_index_by_name_from(md, name, 0)
}

/// The first field position declaring `number`, scanning from `i`.
pub open spec fn field_index_by_number_from(md: MsgDescV, number: u32, i: int) -> Option<int>
    decreases md.fields.len() - i,
{
    if i < 0 || i >= md.fields.len() {
        None
    } else if md.fields[i].number == number {
        Some(i)
    } else {
        field_index_by_number_from(md, number, i + 1)
    }
}

/// The position of the field declaring `number`, if any.
pub open spec fn field_index_by_number(md: MsgDescV, number: u32) -> Option<int> {
    field_index_by_number_from(md, number, 0)
}

/// What a read of the field at position `i` returns: the stored value, or the
/// kind's zero value while unset; repeated fields are unsupported.
pub open spec fn get_at_spec(pool: PoolV, m: SpecMsg, i: int) -> Result<SpecValue, Error> {
    let fd = pool.messages[m.msg].fields[i];
    if fd.cardinality == Cardinality::Repeated {
        Err(Error::Unsupported)
    } else {
        match m.slots[i] {
            Some(v) => Ok(v),
            None => Ok(zero_value_spec(pool, fd.kind)),
        }
    }
}

/// What a write of `v` into the field at position `i` does: the updated
/// message, or the error that leaves the message untouched.
pub open spec fn set_at_spec(pool: PoolV, m: SpecMsg, i: int, v: SpecValue) -> Result<SpecMsg, Error> {
    let fd = pool.messages[m.msg].fields[i];
    if fd.cardinality == Cardinality::Repeated {
        Err(Error::Unsupported)
    } else if !kind_matches(fd.kind, v) {
        Err(Error::TypeMismatch)
    } else {
        Ok(SpecMsg { msg: m.msg, slots: m.slots.update(i, Some(v)) })
    }
}

/// What a read by field name returns, including `FieldNotFound`.
pub open spec fn get_by_name_spec(pool: PoolV, m: SpecMsg, name: Seq<char>) -> Result<SpecValue, Error> {
    match field_index_by_name(pool.messages[m.msg], name) {
        None => Err(Error::FieldNotFound),
        Some(i) => get_at_spec(pool, m, i),
    }
}

/// What a read by field number returns, including `FieldNotFound`.
pub open spec fn get_by_number_spec(pool: PoolV, m: SpecMsg, number: u32) -> Result<SpecValue, Error> {
    match field_index_by_number(pool.messages[m.msg], number) {
        None => Err(Error::FieldNotFound),
        Some(i) => get_at_spec(pool, m, i),
    }
}

/// What a write by field name does, including `FieldNotFound`.
pub open spec fn set_by_name_spec(pool: PoolV, m: SpecMsg, name: Seq<char>, v: SpecValue) -> Result<SpecMsg, Error> {
    match field_index_by_name(pool.messages[m.msg], name) {
        None => Err(Error::FieldNotFound),
        Some(i) => set_at_spec(pool, m, i, v),
    }
}

/// What a write by field number does, including `FieldNotFound`.
pub open spec fn set_by_number_spec(pool: PoolV, m: SpecMsg, number: u32, v: SpecValue) -> Result<SpecMsg, Error> {
    match field_index_by_number(pool.messages[m.msg], number) {
        None => Err(Error::FieldNotFound),
        Some(i) => set_at_spec(pool, m, i, v),
    }
}

/// The declaration-ordered enumeration of the explicitly set fields among the
/// first `n` slots: pairs of field position and stored value.
pub open spec fn set_fields_upto(m: SpecMsg, n: int) -> Seq<(int, SpecValue)>
    decreases n,
{
    if n <= 0 {
        Seq::empty()
    } else {
        set_fields_upto(m, n - 1) + (match m.slots[n - 1] {
            None => Seq::empty(),
            Some(v) => seq![(n - 1, v)],
        })
    }
}

/// The declaration-ordered enumeration of all explicitly set fields.
pub open spec fn set_fields_spec(m: SpecMsg) -> Seq<(int, SpecValue)> {
    set_fields_upto(m, m.slots.len() as int)
}

/// Byte-sequence equality, element by element.
fn bytes_eq(a: &Vec<u8>, b: &Vec<u8>) -> (r: bool)
    ensures
        r == (a@ == b@),
{
    if a.len() != b.len() {
        assert(a@ != b@);
        return false;
    }
    let n = a.len();
    for i in 0..n
        invariant
            n == a.len() == b.len(),
            forall|j: int| 0 <= j < i ==> a@[j] == b@[j],
    {
        if a[i] != b[i] {
            assert(a@ != b@);
            return false;
        }
    }
    assert(a@ =~= b@);
    true
}

/// A deep copy of a byte vector.
fn bytes_clone(b: &Vec<u8>) -> (r: Vec<u8>)
    ensures
        r@ == b@,
{
    let mut out: Vec<u8> = Vec::new();
    let n = b.len();
    for i in 0..n
        invariant
            n == b.len(),
            out@ == b@.subrange(0, i as int),
    {
        out.push(b[i]);
        assert(out@ =~= b@.subrange(0, i + 1));
    }
    assert(b@.subrange(0, n as int) =~= b@);
    out
}

/// A deep copy of a value.  The copy shares no mutable state with its source
/// and models the same mathematical value.
pub fn value_clone(v: &Value) -> (r: Value)
    ensures
        value_view(r) == value_view(*v),
    decreases *v,
{
    match v {
        Value::Bool(b) => Value::Bool(*b),
        Value::I32(n) => Value::I32(*n),
        Value::I64(n) => Value::I64(*n),
        Value::U32(n) => Value::U32(*n),
        Value::U64(n) => Value::U64(*n),
        Value::F32Bits(n) => Value::F32Bits(*n),
        Value::F64Bits(n) => Value::F64Bits(*n),
        Value::Str(s) => Value::Str(s.clone()),
        Value::Bytes(b) => Value::Bytes(bytes_clone(b)),
        Value::EnumNumber(n) => Value::EnumNumber(*n),
        Value::Message(m) => Value::Message(Box::new(msg_clone(&**m))),
    }
}

/// A deep copy of a dynamic message.
pub fn msg_clone(m: &DynamicMessage) -> (r: DynamicMessage)
    ensures
        r@ == m@,
    decreases *m,
{
    let n = m.slots.len();
    let mut slots: Vec<Option<Value>> = Vec::new();
    let mut i: usize = 0;
    while i < n
        invariant
            n == m.slots.len(),
            i <= n,
            slots@.len() == i,
            forall|j: int|
                0 <= j < i ==> (match #[trigger] slots@[j] {
                    None => m.slots@[j] is None,
                    Some(v) => m.slots@[j] matches Some(w) && value_view(v) == value_view(w),
                }),
        decreases n - i,
    {
        match &m.slots[i] {
            None => slots.push(None),
            Some(v) => {
                let c = value_clone(v);
                slots.push(Some(c));
            },
        }
        i += 1;
    }
    proof {
        lemma_slots_view(slots@);
        lemma_slots_view(m.slots@);
        assert(slots_view(slots@) =~= slots_view(m.slots@));
    }
    let r = DynamicMessage { msg: m.msg, slots };
    proof {
        assert(r@ =~= m@);
    }
    r
}

/// Structural equality of two values.
pub fn value_eq(a: &Value, b: &Value) -> (r: bool)
    ensures
        r == (value_view(*a) == value_view(*b)),
    decreases *a,
{
    match (a, b) {
        (Value::Bool(x), Value::Bool(y)) => *x == *y,
        (Value::I32(x), Value::I32(y)) => *x == *y,
        (Value::I64(x), Value::I64(y)) => *x == *y,
        (Value::U32(x), Value::U32(y)) => *x == *y,
        (Value::U64(x), Value::U64(y)) => *x == *y,
        (Value::F32Bits(x), Value::F32Bits(y)) => *x == *y,
        (Value::F64Bits(x), Value::F64Bits(y)) => *x == *y,
        (Value::Str(x), Value::Str(y)) => *x == *y,
        (Value::Bytes(x), Value::Bytes(y)) => bytes_eq(x, y),
        (Value::EnumNumber(x), Value::EnumNumber(y)) => x == y,
        (Value::Message(x), Value::Message(y)) => msg_eq(&**x, &**y),
        _ => false,
    }
}

/// Structural equality of two messages: same message type, same set of
/// explicitly set fields, equal values.
pub fn msg_eq(a: &DynamicMessage, b: &DynamicMessage) -> (r: bool)
    ensures
        r == (a@ == b@),
    decreases *a,
{
    if a.msg != b.msg {
        return false;
    }
    if a.slots.len() != b.slots.len() {
        proof {
            lemma_slots_view(a.slots@);
            lemma_slots_view(b.slots@);
        }
        return false;
    }
    let n = a.slots.len();
    let mut i: usize = 0;
    proof {
        lemma_slots_view(a.slots@);
        lemma_slots_view(b.slots@);
    }
    while i < n
        invariant
            n == a.slots.len() == b.slots.len(),
            a.msg == b.msg,
            i <= n,
            forall|j: int| 0 <= j < i ==> slots_view(a.slots@)[j] == slots_view(b.slots@)[j],
            slots_view(a.slots@).len() == n && slots_view(b.slots@).len() == n,
            forall|j: int|
                0 <= j < n ==> #[trigger] slots_view(a.slots@)[j] == (match a.slots@[j] {
                    None => None,
                    Some(v) => Some(value_view(v)),
                }),
            forall|j: int|
                0 <= j < n ==> #[trigger] slots_view(b.slots@)[j] == (match b.slots@[j] {
                    None => None,
                    Some(v) => Some(value_view(v)),
                }),
        decreases n - i,
    {
        let same = match (&a.slots[i], &b.slots[i]) {
            (None, None) => true,
            (Some(x), Some(y)) => value_eq(x, y),
            _ => false,
        };
        if !same {
            assert(slots_view(a.slots@)[i as int] != slots_view(b.slots@)[i as int]);
            return false;
        }
        i += 1;
    }
    proof {
        assert(slots_view(a.slots@) =~= slots_view(b.slots@));
        assert(a@ =~= b@);
    }
    true
}

/// The executable zero value of a field kind.
pub fn zero_value(pool: &DescriptorPool, k: Kind) -> (r: Value)
    requires
        pool@.wf(),
        match k {
            Kind::Message(t) => t < pool@.messages.len(),
            _ => true,
        },
    ensures
        value_view(r) == zero_value_spec(pool@, k),
        value_wf(pool@, value_view(r)),
{
    match k {
        Kind::Double => Value::F64Bits(0),
        Kind::Float => Value::F32Bits(0),
        Kind::Int32 | Kind::Sint32 | Kind::Sfixed32 => Value::I32(0),
        Kind::Int64 | Kind::Sint64 | Kind::Sfixed64 => Value::I64(0),
        Kind::Uint32 | Kind::Fixed32 => Value::U32(0),
        Kind::Uint64 | Kind::Fixed64 => Value::U64(0),
        Kind::Bool => Value::Bool(false),
        Kind::Str => Value::Str(String::new()),
        Kind::Bytes => Value::Bytes(Vec::new()),
        Kind::Enum => Value::EnumNumber(0),
        Kind::Message(t) => {
            let sub = DynamicMessage::new(pool, t);
            Value::Message(Box::new(sub))
        },
    }
}

/// Does `v`'s tag match declared kind `k`?
pub fn value_matches_kind(k: Kind, v: &Value) -> (r: bool)
    ensures
        r == kind_matches(k, value_view(*v)),
{
    match k {
        Kind::Double => matches!(v, Value::F64Bits(_)),
        Kind::Float => matches!(v, Value::F32Bits(_)),
        Kind::Int32 | Kind::Sint32 | Kind::Sfixed32 => matches!(v, Value::I32(_)),
        Kind::Int64 | Kind::Sint64 | Kind::Sfixed64 => matches!(v, Value::I64(_)),
        Kind::Uint32 | Kind::Fixed32 => matches!(v, Value::U32(_)),
        Kind::Uint64 | Kind::Fixed64 => matches!(v, Value::U64(_)),
        Kind::Bool => matches!(v, Value::Bool(_)),
        Kind::Str => matches!(v, Value::Str(_)),
        Kind::Bytes => matches!(v, Value::Bytes(_)),
        Kind::Enum => matches!(v, Value::EnumNumber(_)),
        Kind::Message(t) => match v {
            Value::Message(sub) => sub.msg == t,
            _ => false,
        },
    }
}

/// Finds the position of the field named `name`, in declaration order.
pub fn find_field_by_name(md: &crate::descriptor::MessageDescriptor, name: &str) -> (r: Option<
    usize,
>)
    ensures
        match r {
            Some(i) => field_index_by_name(md@, name@) == Some(i as int) && i < md@.fields.len(),
            None => field_index_by_name(md@, name@) is None,
        },
{
    let owned = name.to_owned();
    let n = md.fields.len();
    for i in 0..n
        invariant
            n == md.fields.len(),
            owned@ == name@,
            field_index_by_name_from(md@, name@, i as int) == field_index_by_name(md@, name@),
            forall|j: int| 0 <= j < i ==> md@.fields[j].name != name@,
    {
        if md.fields[i].name == owned {
            return Some(i);
        }
    }
    None
}

/// Finds the position of the field numbered `number`.
pub fn find_field_by_number(md: &crate::descriptor::MessageDescriptor, number: u32) -> (r: Option<
    usize,
>)
    ensures
        match r {
            Some(i) => field_index_by_number(md@, number) == Some(i as int) && i
                < md@.fields.len(),
            None => field_index_by_number(md@, number) is None,
        },
{
    let n = md.fields.len();
    for i in 0..n
        invariant
            n == md.fields.len(),
            field_index_by_number_from(md@, number, i as int) == field_index_by_number(
                md@,
                number,
            ),
            forall|j: int| 0 <= j < i ==> md@.fields[j].number != number,
    {
        if md.fields[i].number == number {
            return Some(i);
        }
    }
    None
}

impl DynamicMessage {
    /// A new, empty message of the pool's message type `msg_index`: no field
    /// explicitly set.
    pub fn new(pool: &DescriptorPool, msg_index: usize) -> (r: DynamicMessage)
        requires
            pool@.wf(),
            msg_index < pool@.messages.len(),
        ensures
            r@ == empty_msg_spec(pool@, msg_index as int),
            msg_wf(pool@, r@),
    {
        let n = pool.messages[msg_index].fields.len();
        let mut slots: Vec<Option<Value>> = Vec::new();
        let mut i: usize = 0;
        while i < n
            invariant
                i <= n,
                slots@.len() == i,
                forall|j: int| 0 <= j < i ==> slots@[j] is None,
            decreases n - i,
        {
            slots.push(None);
            i += 1;
        }
        let r = DynamicMessage { msg: msg_index, slots };
        proof {
            lemma_slots_view(r.slots@);
            assert(pool@.messages[msg_index as int].fields.len() == n);
            assert(r@.slots =~= empty_msg_spec(pool@, msg_index as int).slots);
            assert(r@ =~= empty_msg_spec(pool@, msg_index as int));
            lemma_slots_wf(pool@, pool@.messages[msg_index as int].fields, r@.slots);
        }
        r
    }

    /// The pool index of this message's descriptor.
    pub fn descriptor(&self) -> (r: usize)
        ensures
            r == self@.msg,
    {
        self.msg
    }

    /// Reads the field named `name`: the stored value, or the kind's zero
    /// value while unset.  Fails with `FieldNotFound` exactly when the
    /// descriptor declares no such field, and with `Unsupported` on repeated
    /// fields.
    pub fn get_field_by_name(&self, pool: &DescriptorPool, name: &str) -> (r: Result<Value, Error>)
        requires
            pool@.wf(),
            msg_wf(pool@, self@),
        ensures
            get_by_name_spec(pool@, self@, name@) == (match r {
                Ok(v) => Ok::<SpecValue, Error>(value_view(v)),
                Err(e) => Err::<SpecValue, Error>(e),
            }),
            r matches Ok(v) ==> value_wf(pool@, value_view(v)),
    {
        let md = &pool.messages[self.msg];
        match find_field_by_name(md, name) {
            None => Err(Error::FieldNotFound),
            Some(i) => self.get_at(pool, i),
        }
    }

    /// Reads the field numbered `number`, as [`Self::get_field_by_name`]
    /// does for names.
    pub fn get_field_by_number(&self, pool: &DescriptorPool, number: u32) -> (r: Result<
        Value,
        Error,
    >)
        requires
            pool@.wf(),
            msg_wf(pool@, self@),
        ensures
            get_by_number_spec(pool@, self@, number) == (match r {
                Ok(v) => Ok::<SpecValue, Error>(value_view(v)),
                Err(e) => Err::<SpecValue, Error>(e),
            }),
            r matches Ok(v) ==> value_wf(pool@, value_view(v)),
    {
        let md = &pool.messages[self.msg];
        match find_field_by_number(md, number) {
            None => Err(Error::FieldNotFound),
            Some(i) => self.get_at(pool, i),
        }
    }

    /// Reads the field at declaration position `i`.
    fn get_at(&self, pool: &DescriptorPool, i: usize) -> (r: Result<Value, Error>)
        requires
            pool@.wf(),
            msg_wf(pool@, self@),
            i < pool@.messages[self@.msg].fields.len(),
        ensures
            get_at_spec(pool@, self@, i as int) == (match r {
                Ok(v) => Ok::<SpecValue, Error>(value_view(v)),
                Err(e) => Err::<SpecValue, Error>(e),
            }),
            r matches Ok(v) ==> value_wf(pool@, value_view(v)),
    {
        let md = &pool.messages[self.msg];
        let fd = &md.fields[i];
        if matches!(fd.cardinality, Cardinality::Repeated) {
            return Err(Error::Unsupported);
        }
        proof {
            lemma_slots_view(self.slots@);
            lemma_slots_wf(pool@, pool@.messages[self@.msg].fields, self@.slots);
        }
        match &self.slots[i] {
            Some(v) => Ok(value_clone(v)),
            None => {
                proof {
                    match fd@.kind {
                        Kind::Message(t) => lemma_empty_msg_wf(pool@, t as int),
                        _ => (),
                    }
                }
                Ok(zero_value(pool, fd.kind))
            },
        }
    }

    /// Writes `value` into the field named `name` after validating its kind.
    /// On any failure the message is left unmodified.
    pub fn set_field_by_name(&mut self, pool: &DescriptorPool, name: &str, value: Value) -> (r:
        Result<(), Error>)
        requires
            pool@.wf(),
            msg_wf(pool@, old(self)@),
            value_wf(pool@, value_view(value)),
        ensures
            msg_wf(pool@, final(self)@),
            set_by_name_spec(pool@, old(self)@, name@, value_view(value)) == (match r {
                Ok(()) => Ok::<SpecMsg, Error>(final(self)@),
                Err(e) => Err::<SpecMsg, Error>(e),
            }),
            r is Err ==> final(self)@ == old(self)@,
    {
        let idx = find_field_by_name(&pool.messages[self.msg], name);
        match idx {
            None => Err(Error::FieldNotFound),
            Some(i) => self.set_at(pool, i, value),
        }
    }

    /// Writes `value` into the field numbered `number`, as
    /// [`Self::set_field_by_name`] does for names.
    pub fn set_field_by_number(&mut self, pool: &DescriptorPool, number: u32, value: Value) -> (r:
        Result<(), Error>)
        requires
            pool@.wf(),
            msg_wf(pool@, old(self)@),
            value_wf(pool@, value_view(value)),
        ensures
            msg_wf(pool@, final(self)@),
            set_by_number_spec(pool@, old(self)@, number, value_view(value)) == (match r {
                Ok(()) => Ok::<SpecMsg, Error>(final(self)@),
                Err(e) => Err::<SpecMsg, Error>(e),
            }),
            r is Err ==> final(self)@ == old(self)@,
    {
        let idx = find_field_by_number(&pool.messages[self.msg], number);
        match idx {
            None => Err(Error::FieldNotFound),
            Some(i) => self.set_at(pool, i, value),
        }
    }

    /// Writes `value` into the field at declaration position `i`.
    fn set_at(&mut self, pool: &DescriptorPool, i: usize, value: Value) -> (r: Result<(), Error>)
        requires
            pool@.wf(),
            msg_wf(pool@, old(self)@),
            value_wf(pool@, value_view(value)),
            i < pool@.messages[old(self)@.msg].fields.len(),
        ensures
            msg_wf(pool@, final(self)@),
            set_at_spec(pool@, old(self)@, i as int, value_view(value)) == (match r {
                Ok(()) => Ok::<SpecMsg, Error>(final(self)@),
                Err(e) => Err::<SpecMsg, Error>(e),
            }),
            r is Err ==> final(self)@ == old(self)@,
    {
        let fd = &pool.messages[self.msg].fields[i];
        if matches!(fd.cardinality, Cardinality::Repeated) {
            return Err(Error::Unsupported);
        }
        if !value_matches_kind(fd.kind, &value) {
            return Err(Error::TypeMismatch);
        }
        proof {
            lemma_slots_view(self.slots@);
            lemma_slots_wf(pool@, pool@.messages[self@.msg].fields, self@.slots);
        }
        let ghost old_view = self@;
        let ghost vv = value_view(value);
        self.slots[i] = Some(value);
        proof {
            lemma_slots_view(self.slots@);
            assert(slots_view(self.slots@) =~= old_view.slots.update(i as int, Some(vv)));
            assert(final(self)@ =~= SpecMsg {
                msg: old_view.msg,
                slots: old_view.slots.update(i as int, Some(vv)),
            });
            lemma_slots_wf(pool@, pool@.messages[old_view.msg].fields, final(self)@.slots);
        }
        Ok(())
    }

    /// The declaration-ordered enumeration of the explicitly set fields:
    /// pairs of field descriptor and stored value.  The order is the
    /// descriptor's declaration order, whatever order the fields were set in.
    pub fn fields(&self, pool: &DescriptorPool) -> (r: Vec<(FieldDescriptor, Value)>)
        requires
            pool@.wf(),
            msg_wf(pool@, self@),
        ensures
            ({
                let sf = set_fields_spec(self@);
                &&& r@.len() == sf.len()
                &&& forall|j: int|
                    0 <= j < sf.len() ==> (#[trigger] r@[j]).0@ == pool@.messages[self@.msg].fields[sf[j].0]
                        && value_view(r@[j].1) == sf[j].1
            }),
    {
        let md = &pool.messages[self.msg];
        let n = self.slots.len();
        let mut out: Vec<(FieldDescriptor, Value)> = Vec::new();
        proof {
            lemma_slots_view(self.slots@);
        }
        let mut i: usize = 0;
        while i < n
            invariant
                pool@.wf(),
                msg_wf(pool@, self@),
                n == self.slots.len(),
                md@ == pool@.messages[self@.msg],
                i <= n,
                slots_view(self.slots@).len() == n,
                forall|j: int|
                    0 <= j < n ==> #[trigger] slots_view(self.slots@)[j] == (match self.slots@[j] {
                        None => None,
                        Some(v) => Some(value_view(v)),
                    }),
                ({
                    let sf = set_fields_upto(self@, i as int);
                    &&& out@.len() == sf.len()
                    &&& forall|j: int|
                        0 <= j < sf.len() ==> (#[trigger] out@[j]).0@ == pool@.messages[self@.msg].fields[sf[j].0]
                            && value_view(out@[j].1) == sf[j].1
                }),
            decreases n - i,
        {
            match &self.slots[i] {
                None => {
                    assert(set_fields_upto(self@, i + 1) =~= set_fields_upto(self@, i as int));
                },
                Some(v) => {
                    let fd = md.fields[i].duplicate();
                    let c = value_clone(v);
                    out.push((fd, c));
                    assert(set_fields_upto(self@, i + 1) =~= set_fields_upto(self@, i as int)
                        + seq![(i as int, value_view(self.slots@[i as int]->Some_0))]);
                },
            }
            i += 1;
        }
        proof {
            assert(set_fields_upto(self@, n as int) == set_fields_spec(self@));
        }
        out
    }

    /// Structural equality, as defined for [`msg_eq`].
    pub fn equals(&self, other: &DynamicMessage) -> (r: bool)
        ensures
            r == (self@ == other@),
    {
        msg_eq(self, other)
    }

    /// A deep copy sharing no mutable state with `self`.
    pub fn deep_clone(&self) -> (r: DynamicMessage)
        ensures
            r@ == self@,
    {
        msg_clone(self)
    }
}

/// The view of an entry list handed to batch construction.
pub open spec fn entries_view(s: Seq<(String, Value)>) -> Seq<(Seq<char>, SpecValue)> {
    s.map_values(|p: (String, Value)| (p.0@, value_view(p.1)))
}

/// What a batch of name-value assignments does, applied left to right from
/// position `k`: the message after all of them, or the first failure.
pub open spec fn apply_entries_spec(
    pool: PoolV,
    m: SpecMsg,
    entries: Seq<(Seq<char>, SpecValue)>,
    k: int,
) -> Result<SpecMsg, Error>
    decreases entries.len() - k,
{
    if k < 0 || k >= entries.len() {
        Ok(m)
    } else {
        match set_by_name_spec(pool, m, entries[k].0, entries[k].1) {
            Err(e) => Err(e),
            Ok(m2) => apply_entries_spec(pool, m2, entries, k + 1),
        }
    }
}

impl DynamicMessage {
    /// A new message of type `msg_index` with a batch of name-value
    /// assignments applied in order.  If any assignment fails, the whole
    /// construction fails with that assignment's error.
    pub fn new_with_entries(
        pool: &DescriptorPool,
        msg_index: usize,
        entries: &Vec<(String, Value)>,
    ) -> (r: Result<DynamicMessage, Error>)
        requires
            pool@.wf(),
            msg_index < pool@.messages.len(),
            forall|k: int|
                0 <= k < entries@.len() ==> value_wf(pool@, value_view((#[trigger] entries@[k]).1)),
        ensures
            apply_entries_spec(
                pool@,
                empty_msg_spec(pool@, msg_index as int),
                entries_view(entries@),
                0,
            ) == (match r {
                Ok(m) => Ok::<SpecMsg, Error>(m@),
                Err(e) => Err::<SpecMsg, Error>(e),
            }),
            r matches Ok(m) ==> msg_wf(pool@, m@),
    {
        let mut m = DynamicMessage::new(pool, msg_index);
        let ghost ev = entries_view(entries@);
        let ghost start = m@;
        let n = entries.len();
        let mut k: usize = 0;
        while k < n
            invariant
                pool@.wf(),
                msg_wf(pool@, m@),
                n == entries@.len(),
                ev == entries_view(entries@),
                ev.len() == n,
                forall|t: int|
                    0 <= t < entries@.len() ==> value_wf(pool@, value_view((#[trigger] entries@[t]).1)),
                forall|t: int|
                    0 <= t < n ==> #[trigger] ev[t] == (entries@[t].0@, value_view(entries@[t].1)),
                k <= n,
                start == empty_msg_spec(pool@, msg_index as int),
                apply_entries_spec(pool@, start, ev, 0) == apply_entries_spec(pool@, m@, ev, k as int),
            decreases n - k,
        {
            let name = &entries[k].0;
            let value = value_clone(&entries[k].1);
            let res = m.set_field_by_name(pool, name.as_str(), value);
            match res {
                Ok(()) => (),
                Err(e) => {
                    proof {
                        assert(ev[k as int] == (entries@[k as int].0@, value_view(
                            entries@[k as int].1,
                        )));
                        assert(set_by_name_spec(pool@, m@, ev[k as int].0, ev[k as int].1)
                            == Err::<SpecMsg, Error>(e));
                        assert(apply_entries_spec(pool@, m@, ev, k as int) == Err::<
                            SpecMsg,
                            Error,
                        >(e));
                    }
                    return Err(e);
                },
            }
            k += 1;
        }
        Ok(m)
    }
}

/// A write whose value's tag mismatches the declared kind of an existing
/// singular field always fails with `TypeMismatch`; by the contracts of
/// [`DynamicMessage::set_field_by_name`] and
/// [`DynamicMessage::set_field_by_number`], the failed write leaves the
/// message's prior state unchanged.
pub proof fn lemma_set_type_mismatch(pool: PoolV, m: SpecMsg, name: Seq<char>, v: SpecValue)
    requires
        match field_index_by_name(pool.messages[m.msg], name) {
            Some(i) => pool.messages[m.msg].fields[i].cardinality != Cardinality::Repeated
                && !kind_matches(pool.messages[m.msg].fields[i].kind, v),
            None => false,
        },
    ensures
        set_by_name_spec(pool, m, name, v) == Err::<SpecMsg, Error>(Error::TypeMismatch),
{
}

/// The name scan fails exactly when no declared field carries the name.
pub proof fn lemma_field_index_by_name_none(md: MsgDescV, name: Seq<char>, i: int)
    requires
        0 <= i <= md.fields.len(),
    ensures
        (field_index_by_name_from(md, name, i) is None) <==> (forall|j: int|
            i <= j < md.fields.len() ==> (#[trigger] md.fields[j]).name != name),
    decreases md.fields.len() - i,
{
    if i < md.fields.len() {
        lemma_field_index_by_name_none(md, name, i + 1);
    }
}

/// The number scan fails exactly when no declared field carries the number.
pub proof fn lemma_field_index_by_number_none(md: MsgDescV, number: u32, i: int)
    requires
        0 <= i <= md.fields.len(),
    ensures
        (field_index_by_number_from(md, number, i) is None) <==> (forall|j: int|
            i <= j < md.fields.len() ==> (#[trigger] md.fields[j]).number != number),
    decreases md.fields.len() - i,
{
    if i < md.fields.len() {
        lemma_field_index_by_number_none(md, number, i + 1);
    }
}

/// Reads and writes addressed by a name that no field of the descriptor
/// declares always fail with `FieldNotFound`, for every such name and every
/// value; the failed write leaves the message unchanged by the exec
/// contracts.
pub proof fn lemma_unknown_name_not_found(pool: PoolV, m: SpecMsg, name: Seq<char>, v: SpecValue)
    requires
        forall|j: int|
            0 <= j < pool.messages[m.msg].fields.len()
                ==> (#[trigger] pool.messages[m.msg].fields[j]).name != name,
    ensures
        get_by_name_spec(pool, m, name) == Err::<SpecValue, Error>(Error::FieldNotFound),
        set_by_name_spec(pool, m, name, v) == Err::<SpecMsg, Error>(Error::FieldNotFound),
{
    lemma_field_index_by_name_none(pool.messages[m.msg], name, 0);
}

/// Reads and writes addressed by a number that no field of the descriptor
/// declares always fail with `FieldNotFound`, for every such number and
/// every value.
pub proof fn lemma_unknown_number_not_found(pool: PoolV, m: SpecMsg, number: u32, v: SpecValue)
    requires
        forall|j: int|
            0 <= j < pool.messages[m.msg].fields.len()
                ==> (#[trigger] pool.messages[m.msg].fields[j]).number != number,
    ensures
        get_by_number_spec(pool, m, number) == Err::<SpecValue, Error>(Error::FieldNotFound),
        set_by_number_spec(pool, m, number, v) == Err::<SpecMsg, Error>(Error::FieldNotFound),
{
    lemma_field_index_by_number_none(pool.messages[m.msg], number, 0);
}

/// Field enumeration lists exactly the explicitly set fields, each with its
/// stored value, in strictly increasing declaration order.
pub proof fn lemma_enumeration_declaration_order(m: SpecMsg, n: int)
    requires
        0 <= n <= m.slots.len(),
    ensures
        forall|p: int, q: int|
            0 <= p < q < set_fields_upto(m, n).len()
                ==> (#[trigger] set_fields_upto(m, n)[p]).0 < (#[trigger] set_fields_upto(m, n)[q]).0,
        forall|p: int|
            0 <= p < set_fields_upto(m, n).len()
                ==> 0 <= (#[trigger] set_fields_upto(m, n)[p]).0 < n
                && m.slots[set_fields_upto(m, n)[p].0] == Some(set_fields_upto(m, n)[p].1),
        forall|j: int|
            0 <= j < n && m.slots[j] is Some ==> exists|p: int|
                0 <= p < set_fields_upto(m, n).len() && (#[trigger] set_fields_upto(m, n)[p]).0 == j,
    decreases n,
{
    if n > 0 {
        lemma_enumeration_declaration_order(m, n - 1);
        let prev = set_fields_upto(m, n - 1);
        let cur = set_fields_upto(m, n);
        assert forall|j: int|
            0 <= j < n && m.slots[j] is Some implies exists|p: int|
                0 <= p < cur.len() && (#[trigger] cur[p]).0 == j by {
            if j < n - 1 {
                let p = choose|p: int| 0 <= p < prev.len() && (#[trigger] prev[p]).0 == j;
                assert(cur[p].0 == j);
            } else {
                assert(cur[cur.len() - 1].0 == j);
            }
        }
    }
}

/// Writes to two distinct fields commute: the message — and therefore its
/// field enumeration — is independent of the order in which its fields were
/// set.
pub proof fn lemma_set_order_independent(
    pool: PoolV,
    m: SpecMsg,
    i: int,
    j: int,
    v: SpecValue,
    w: SpecValue,
)
    requires
        i != j,
        0 <= i < m.slots.len(),
        0 <= j < m.slots.len(),
        set_at_spec(pool, m, i, v) is Ok,
        set_at_spec(pool, m, j, w) is Ok,
    ensures
        ({
            let m1 = set_at_spec(pool, m, i, v)->Ok_0;
            let m2 = set_at_spec(pool, m, j, w)->Ok_0;
            &&& set_at_spec(pool, m1, j, w) is Ok
            &&& set_at_spec(pool, m2, i, v) is Ok
            &&& set_at_spec(pool, m1, j, w)->Ok_0 == set_at_spec(pool, m2, i, v)->Ok_0
        }),
{
    let m1 = set_at_spec(pool, m, i, v)->Ok_0;
    let m2 = set_at_spec(pool, m, j, w)->Ok_0;
    assert(set_at_spec(pool, m1, j, w)->Ok_0.slots =~= set_at_spec(pool, m2, i, v)->Ok_0.slots);
    assert(set_at_spec(pool, m1, j, w)->Ok_0 =~= set_at_spec(pool, m2, i, v)->Ok_0);
}

/// The empty message of any pool type is well formed.
pub proof fn lemma_empty_msg_wf(pool: PoolV, t: int)
    requires
        pool.wf(),
        0 <= t < pool.messages.len(),
    ensures
        msg_wf(pool, empty_msg_spec(pool, t)),
{
    let m = empty_msg_spec(pool, t);
    lemma_slots_wf(pool, pool.messages[t].fields, m.slots);
}

} // verus!
