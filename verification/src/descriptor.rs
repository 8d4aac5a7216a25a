//! The descriptor model: immutable views over one compiled schema.
//!
//! A [`DescriptorPool`] owns every message and service declaration of a
//! schema bundle.  Message-typed fields reference their target message by its
//! index in the pool, so mutually recursive message graphs need no recursive
//! ownership and every cross-reference is resolved once, at construction.

use vstd::prelude::*;

use crate::Error;

verus! {

/// Whether a field holds zero-or-one, exactly-one, or many values.
#[derive(Clone, Copy, Debug, PartialEq, Eq, Structural)]
pub enum Cardinality {
    Optional,
    Required,
    Repeated,
}

/// The declared type of a field.  A message-typed field carries the index of
/// its target message in the owning pool.  Enum-typed fields are declared but
/// carry no enum descriptor: enum resolution is an unimplemented gap of the
/// engine, and enum values travel as bare numbers.
#[derive(Clone, Copy, Debug, PartialEq, Eq, Structural)]
pub enum Kind {
    Double,
    Float,
    Int32,
    Int64,
    Uint32,
    Uint64,
    Sint32,
    Sint64,
    Fixed32,
    Fixed64,
    Sfixed32,
    Sfixed64,
    Bool,
    Str,
    Bytes,
    Message(usize),
    Enum,
}

/// One field declaration of a message.
pub struct FieldDescriptor {
    pub name: String,
    pub full_name: String,
    pub json_name: String,
    pub number: u32,
    pub kind: Kind,
    pub cardinality: Cardinality,
}

/// The mathematical model of a field declaration.
#[verifier::ext_equal]
pub struct FieldDescV {
    pub name: Seq<char>,
    pub full_name: Seq<char>,
    pub json_name: Seq<char>,
    pub number: u32,
    pub kind: Kind,
    pub cardinality: Cardinality,
}

impl View for FieldDescriptor {
    type V = FieldDescV;

    open spec fn view(&self) -> FieldDescV {
        FieldDescV {
            name: self.name@,
            full_name: self.full_name@,
            json_name: self.json_name@,
            number: self.number,
            kind: self.kind,
            cardinality: self.cardinality,
        }
    }
}

impl FieldDescriptor {
    /// A copy of this field declaration, modelling the same descriptor.
    pub fn duplicate(&self) -> (r: FieldDescriptor)
        ensures
            r@ == self@,
    {
        FieldDescriptor {
            name: self.name.clone(),
            full_name: self.full_name.clone(),
            json_name: self.json_name.clone(),
            number: self.number,
            kind: self.kind,
            cardinality: self.cardinality,
        }
    }
}

impl FieldDescV {
    /// A well-formed field has a positive number and, if message-typed, a
    /// target index inside the pool.
    pub open spec fn wf(self, n_messages: int) -> bool {
        &&& self.number >= 1
        &&& match self.kind {
            Kind::Message(t) => t < n_messages,
            _ => true,
        }
    }
}

/// One message declaration: its names and its declaration-ordered fields.
/// `wire_order` lists the field positions sorted by ascending field number;
/// the wire codec emits fields in that order.
pub struct MessageDescriptor {
    pub name: String,
    pub full_name: String,
    pub fields: Vec<FieldDescriptor>,
    pub wire_order: Vec<usize>,
}

/// The mathematical model of a message declaration.
#[verifier::ext_equal]
pub struct MsgDescV {
    pub name: Seq<char>,
    pub full_name: Seq<char>,
    pub fields: Seq<FieldDescV>,
    pub wire_order: Seq<usize>,
}

impl View for MessageDescriptor {
    type V = MsgDescV;

    open spec fn view(&self) -> MsgDescV {
        MsgDescV {
            name: self.name@,
            full_name: self.full_name@,
            fields: self.fields@.map_values(|f: FieldDescriptor| f@),
            wire_order: self.wire_order@,
        }
    }
}

impl MsgDescV {
    /// Field numbers unique, field names unique, every field well formed, and
    /// `wire_order` a permutation of the field positions sorted by number.
    pub open spec fn wf(self, n_messages: int) -> bool {
        &&& self.fields.len() <= usize::MAX
        &&& forall|i: int|
            0 <= i < self.fields.len() ==> (#[trigger] self.fields[i]).wf(n_messages)
        &&& forall|i: int, j: int|
            0 <= i < j < self.fields.len() ==> self.fields[i].number != self.fields[j].number
        &&& forall|i: int, j: int|
            0 <= i < j < self.fields.len() ==> self.fields[i].name != self.fields[j].name
        &&& self.wire_order.len() == self.fields.len()
        &&& forall|i: int|
            0 <= i < self.wire_order.len() ==> (#[trigger] self.wire_order[i]) < self.fields.len()
        &&& forall|i: int, j: int|
            0 <= i < j < self.wire_order.len()
                ==> self.fields[self.wire_order[i] as int].number
                < self.fields[self.wire_order[j] as int].number
        &&& forall|k: usize|
            k < self.fields.len() ==> #[trigger] self.wire_order.contains(k)
    }
}

/// One method of a service.  Input and output reference messages of the pool
/// by index.
pub struct MethodDescriptor {
    pub name: String,
    pub full_name: String,
    pub input: usize,
    pub output: usize,
}

/// The mathematical model of a method declaration.
#[verifier::ext_equal]
pub struct MethodDescV {
    pub name: Seq<char>,
    pub full_name: Seq<char>,
    pub input: usize,
    pub output: usize,
}

impl View for MethodDescriptor {
    type V = MethodDescV;

    open spec fn view(&self) -> MethodDescV {
        MethodDescV {
            name: self.name@,
            full_name: self.full_name@,
            input: self.input,
            output: self.output,
        }
    }
}

/// One service declaration and its methods.
pub struct ServiceDescriptor {
    pub name: String,
    pub full_name: String,
    pub methods: Vec<MethodDescriptor>,
}

/// The mathematical model of a service declaration.
#[verifier::ext_equal]
pub struct SvcDescV {
    pub name: Seq<char>,
    pub full_name: Seq<char>,
    pub methods: Seq<MethodDescV>,
}

impl View for ServiceDescriptor {
    type V = SvcDescV;

    open spec fn view(&self) -> SvcDescV {
        SvcDescV {
            name: self.name@,
            full_name: self.full_name@,
            methods: self.methods@.map_values(|m: MethodDescriptor| m@),
        }
    }
}

impl SvcDescV {
    pub open spec fn wf(self, n_messages: int) -> bool {
        &&& forall|i: int|
            0 <= i < self.methods.len()
                ==> (#[trigger] self.methods[i]).input < n_messages
                && self.methods[i].output < n_messages
        &&& forall|i: int, j: int|
            0 <= i < j < self.methods.len() ==> self.methods[i].name != self.methods[j].name
    }
}

/// The schema registry: every message and service of one schema bundle,
/// immutable after construction.
pub struct DescriptorPool {
    pub messages: Vec<MessageDescriptor>,
    pub services: Vec<ServiceDescriptor>,
}

/// The mathematical model of a pool.
#[verifier::ext_equal]
pub struct PoolV {
    pub messages: Seq<MsgDescV>,
    pub services: Seq<SvcDescV>,
}

impl View for DescriptorPool {
    type V = PoolV;

    open spec fn view(&self) -> PoolV {
        PoolV {
            messages: self.messages@.map_values(|m: MessageDescriptor| m@),
            services: self.services@.map_values(|s: ServiceDescriptor| s@),
        }
    }
}

impl PoolV {
    /// Every descriptor well formed and fully-qualified names unique.
    pub open spec fn wf(self) -> bool {
        &&& forall|i: int|
            0 <= i < self.messages.len()
                ==> (#[trigger] self.messages[i]).wf(self.messages.len() as int)
        &&& forall|i: int, j: int|
            0 <= i < j < self.messages.len()
                ==> self.messages[i].full_name != self.messages[j].full_name
        &&& forall|i: int|
            0 <= i < self.services.len()
                ==> (#[trigger] self.services[i]).wf(self.messages.len() as int)
        &&& forall|i: int, j: int|
            0 <= i < j < self.services.len()
                ==> self.services[i].full_name != self.services[j].full_name
    }

    /// The index of the first message whose fully-qualified name is `name`,
    /// scanning from position `i`.
    pub open spec fn msg_index_from(self, name: Seq<char>, i: int) -> Option<int>
        decreases self.messages.len() - i,
    {
        if i < 0 || i >= self.messages.len() {
            None
        } else if self.messages[i].full_name == name {
            Some(i)
        } else {
            self.msg_index_from(name, i + 1)
        }
    }

    /// The index of the message with fully-qualified name `name`, if any.
    pub open spec fn msg_index(self, name: Seq<char>) -> Option<int> {
        self.msg_index_from(name, 0)
    }

    /// The index of the first service whose fully-qualified name is `name`,
    /// scanning from position `i`.
    pub open spec fn svc_index_from(self, name: Seq<char>, i: int) -> Option<int>
        decreases self.services.len() - i,
    {
        if i < 0 || i >= self.services.len() {
            None
        } else if self.services[i].full_name == name {
            Some(i)
        } else {
            self.svc_index_from(name, i + 1)
        }
    }

    /// The index of the service with fully-qualified name `name`, if any.
    pub open spec fn svc_index(self, name: Seq<char>) -> Option<int> {
        self.svc_index_from(name, 0)
    }
}

impl DescriptorPool {
    /// Looks up a message descriptor by fully-qualified dotted name:
    /// case-sensitive, exact match only.  Returns the message's index in the
    /// pool, or [`Error::NotFound`] exactly when no message carries the name.
    pub fn get_message_by_name(&self, name: &str) -> (r: Result<usize, Error>)
        ensures
            match r {
                Ok(i) => self@.msg_index(name@) == Some(i as int) && i < self@.messages.len()
                    && self@.messages[i as int].full_name == name@,
                Err(e) => e == Error::NotFound && self@.msg_index(name@) is None,
            },
    {
        let owned = name.to_owned();
        let n = self.messages.len();
        for i in 0..n
            invariant
                n == self.messages.len(),
                owned@ == name@,
                self@.msg_index_from(name@, i as int) == self@.msg_index(name@),
                forall|j: int| 0 <= j < i ==> self@.messages[j].full_name != name@,
        {
            if self.messages[i].full_name == owned {
                return Ok(i);
            }
        }
        Err(Error::NotFound)
    }

    /// Looks up a service descriptor by fully-qualified dotted name, as
    /// [`Self::get_message_by_name`] does for messages.
    pub fn get_service_by_name(&self, name: &str) -> (r: Result<usize, Error>)
        ensures
            match r {
                Ok(i) => self@.svc_index(name@) == Some(i as int) && i < self@.services.len()
                    && self@.services[i as int].full_name == name@,
                Err(e) => e == Error::NotFound && self@.svc_index(name@) is None,
            },
    {
        let owned = name.to_owned();
        let n = self.services.len();
        for i in 0..n
            invariant
                n == self.services.len(),
                owned@ == name@,
                self@.svc_index_from(name@, i as int) == self@.svc_index(name@),
                forall|j: int| 0 <= j < i ==> self@.services[j].full_name != name@,
        {
            if self.services[i].full_name == owned {
                return Ok(i);
            }
        }
        Err(Error::NotFound)
    }
}


/// Validity of one message's raw field list against a pool of `n_messages`
/// message types: every field well formed, numbers unique, names unique.
pub open spec fn fields_valid(fields: Seq<FieldDescV>, n_messages: int) -> bool {
    &&& forall|i: int| 0 <= i < fields.len() ==> (#[trigger] fields[i]).wf(n_messages)
    &&& forall|i: int, j: int|
        0 <= i < j < fields.len() ==> fields[i].number != fields[j].number
    &&& forall|i: int, j: int| 0 <= i < j < fields.len() ==> fields[i].name != fields[j].name
}

/// Validity of the raw descriptors handed to [`DescriptorPool::assemble`]:
/// per-message field validity, unique message names, well-formed services
/// with unique names.
pub open spec fn input_valid(msgs: Seq<MsgDescV>, svcs: Seq<SvcDescV>) -> bool {
    &&& forall|i: int|
        0 <= i < msgs.len() ==> fields_valid((#[trigger] msgs[i]).fields, msgs.len() as int)
    &&& forall|i: int, j: int|
        0 <= i < j < msgs.len() ==> msgs[i].full_name != msgs[j].full_name
    &&& forall|i: int| 0 <= i < svcs.len() ==> (#[trigger] svcs[i]).wf(msgs.len() as int)
    &&& forall|i: int, j: int|
        0 <= i < j < svcs.len() ==> svcs[i].full_name != svcs[j].full_name
}

/// Checks every per-field condition of one message's field list.
fn check_fields(fields: &Vec<FieldDescriptor>, n: usize) -> (ok: bool)
    ensures
        ok == fields_valid(fields@.map_values(|f: FieldDescriptor| f@), n as int),
{
    let ghost fv = fields@.map_values(|f: FieldDescriptor| f@);
    let len = fields.len();
    for i in 0..len
        invariant
            len == fields@.len(),
            fv == fields@.map_values(|f: FieldDescriptor| f@),
            forall|a: int| 0 <= a < i ==> (#[trigger] fv[a]).wf(n as int),
    {
        if fields[i].number < 1 {
            assert(!fv[i as int].wf(n as int));
            return false;
        }
        match fields[i].kind {
            Kind::Message(t) => {
                if t >= n {
                    assert(!fv[i as int].wf(n as int));
                    return false;
                }
            },
            _ => (),
        }
        assert(fv[i as int].wf(n as int));
    }
    for i in 0..len
        invariant
            len == fields@.len(),
            fv == fields@.map_values(|f: FieldDescriptor| f@),
            forall|a: int| 0 <= a < len ==> (#[trigger] fv[a]).wf(n as int),
            forall|a: int, b: int|
                0 <= a < b < len && a < i ==> fv[a].number != fv[b].number && fv[a].name
                    != fv[b].name,
    {
        let mut j: usize = i + 1;
        while j < len
            invariant
                i < len == fields@.len(),
                i + 1 <= j,
                fv == fields@.map_values(|f: FieldDescriptor| f@),
                forall|a: int, b: int|
                    0 <= a < b < len && a < i ==> fv[a].number != fv[b].number && fv[a].name
                        != fv[b].name,
                forall|b: int| i < b < j ==> fv[i as int].number != fv[b].number
                    && fv[i as int].name != fv[b].name,
            decreases len - j,
        {
            if fields[i].number == fields[j].number {
                assert(fv[i as int].number == fv[j as int].number);
                return false;
            }
            if fields[i].name == fields[j].name {
                assert(fv[i as int].name == fv[j as int].name);
                return false;
            }
            j += 1;
        }
    }
    true
}

/// Builds the field emission order of the wire codec: the field positions
/// sorted by ascending field number.
fn make_wire_order(fields: &Vec<FieldDescriptor>) -> (r: Vec<usize>)
    requires
        forall|i: int, j: int|
            0 <= i < j < fields@.len() ==> (#[trigger] fields@[i])@.number
                != (#[trigger] fields@[j])@.number,
    ensures
        ({
            let fv = fields@.map_values(|f: FieldDescriptor| f@);
            &&& r@.len() == fv.len()
            &&& forall|i: int| 0 <= i < r@.len() ==> (#[trigger] r@[i]) < fv.len()
            &&& forall|i: int, j: int|
                0 <= i < j < r@.len() ==> fv[r@[i] as int].number < fv[r@[j] as int].number
            &&& forall|k: usize| k < fv.len() ==> #[trigger] r@.contains(k)
        }),
{
    let ghost fv = fields@.map_values(|f: FieldDescriptor| f@);
    let len = fields.len();
    let mut order: Vec<usize> = Vec::new();
    for k in 0..len
        invariant
            len == fields@.len(),
            fv == fields@.map_values(|f: FieldDescriptor| f@),
            forall|i: int, j: int| 0 <= i < j < len ==> fv[i].number != fv[j].number,
            order@.len() == k,
            forall|i: int| 0 <= i < order@.len() ==> (#[trigger] order@[i]) < k,
            forall|i: int, j: int|
                0 <= i < j < order@.len() ==> fv[order@[i] as int].number
                    < fv[order@[j] as int].number,
            forall|t: usize| t < k ==> #[trigger] order@.contains(t),
    {
        let num = fields[k].number;
        let mut p: usize = 0;
        while p < order.len() && fields[order[p]].number < num
            invariant
                len == fields@.len(),
                fv == fields@.map_values(|f: FieldDescriptor| f@),
                k < len,
                num == fv[k as int].number,
                p <= order@.len(),
                forall|i: int| 0 <= i < order@.len() ==> (#[trigger] order@[i]) < k,
                forall|i: int| 0 <= i < p ==> fv[order@[i] as int].number < num,
            decreases order@.len() - p,
        {
            p += 1;
        }
        let ghost before = order@;
        order.insert(p, k);
        proof {
            assert(order@ == before.insert(p as int, k as usize));
            assert forall|i: int| 0 <= i < order@.len() implies (#[trigger] order@[i]) < k
                + 1 by {
                if i < p {
                    assert(order@[i] == before[i]);
                } else if i == p {
                    assert(order@[i] == k as usize);
                } else {
                    assert(order@[i] == before[i - 1]);
                }
            }
            assert forall|i: int, j: int|
                0 <= i < j < order@.len() implies fv[order@[i] as int].number
                    < fv[order@[j] as int].number by {
                let a: u32 = fv[order@[i] as int].number;
                let b: u32 = fv[order@[j] as int].number;
                if i < p {
                    assert(order@[i] == before[i]);
                } else if i == p {
                    assert(order@[i] == k as usize);
                } else {
                    assert(order@[i] == before[i - 1]);
                }
                if j < p {
                    assert(order@[j] == before[j]);
                } else if j == p {
                    assert(order@[j] == k as usize);
                } else {
                    assert(order@[j] == before[j - 1]);
                }
                if j == p {
                    assert(a < num);
                } else if i == p {
                    assert(j > p);
                    assert(fv[before[j - 1] as int].number >= num);
                    assert(before[j - 1] != k as usize);
                    assert(fv[before[j - 1] as int].number != num);
                } else {
                }
            }
            assert forall|t: usize| t < k + 1 implies #[trigger] order@.contains(t) by {
                if t < k {
                    assert(before.contains(t));
                    let w = choose|w: int| 0 <= w < before.len() && before[w] == t;
                    if w < p {
                        assert(order@[w] == t);
                    } else {
                        assert(order@[w + 1] == t);
                    }
                } else {
                    assert(order@[p as int] == t);
                }
            }
        }
    }
    order
}

/// Checks that two descriptor full names never coincide.
fn check_unique_names_msgs(messages: &Vec<MessageDescriptor>) -> (ok: bool)
    ensures
        ok == (forall|i: int, j: int|
            0 <= i < j < messages@.len() ==> (#[trigger] messages@[i])@.full_name
                != (#[trigger] messages@[j])@.full_name),
{
    let ghost mv = messages@.map_values(|m: MessageDescriptor| m@);
    let len = messages.len();
    for i in 0..len
        invariant
            len == messages@.len(),
            mv == messages@.map_values(|m: MessageDescriptor| m@),
            forall|a: int, b: int|
                0 <= a < b < len && a < i ==> mv[a].full_name != mv[b].full_name,
    {
        let mut j: usize = i + 1;
        while j < len
            invariant
                i < len == messages@.len(),
                i + 1 <= j,
                mv == messages@.map_values(|m: MessageDescriptor| m@),
                forall|a: int, b: int|
                    0 <= a < b < len && a < i ==> mv[a].full_name != mv[b].full_name,
                forall|b: int| i < b < j ==> mv[i as int].full_name != mv[b].full_name,
            decreases len - j,
        {
            if messages[i].full_name == messages[j].full_name {
                proof {
                    assert(mv[i as int] == messages@[i as int]@);
                    assert(mv[j as int] == messages@[j as int]@);
                }
                return false;
            }
            j += 1;
        }
    }
    assert forall|i: int, j: int|
        0 <= i < j < messages@.len() implies (#[trigger] messages@[i])@.full_name
        != (#[trigger] messages@[j])@.full_name by {
        assert(mv[i] == messages@[i]@);
        assert(mv[j] == messages@[j]@);
    }
    true
}

/// Checks one service: method targets inside the pool, method names unique.
fn check_service(svc: &ServiceDescriptor, n: usize) -> (ok: bool)
    ensures
        ok == svc@.wf(n as int),
{
    let len = svc.methods.len();
    for i in 0..len
        invariant
            len == svc.methods@.len(),
            forall|a: int|
                0 <= a < i ==> (#[trigger] svc@.methods[a]).input < n && svc@.methods[a].output
                    < n,
    {
        if svc.methods[i].input >= n || svc.methods[i].output >= n {
            proof {
                assert(svc@.methods[i as int] == svc.methods@[i as int]@);
                assert(!svc@.wf(n as int));
            }
            return false;
        }
    }
    for i in 0..len
        invariant
            len == svc.methods@.len(),
            forall|a: int|
                0 <= a < len ==> (#[trigger] svc@.methods[a]).input < n && svc@.methods[a].output
                    < n,
            forall|a: int, b: int|
                0 <= a < b < len && a < i ==> svc@.methods[a].name != svc@.methods[b].name,
    {
        let mut j: usize = i + 1;
        while j < len
            invariant
                i < len == svc.methods@.len(),
                i + 1 <= j,
                forall|a: int, b: int|
                    0 <= a < b < len && a < i ==> svc@.methods[a].name != svc@.methods[b].name,
                forall|b: int| i < b < j ==> svc@.methods[i as int].name != svc@.methods[b].name,
            decreases len - j,
        {
            if svc.methods[i].name == svc.methods[j].name {
                proof {
                    assert(svc@.methods[i as int] == svc.methods@[i as int]@);
                    assert(svc@.methods[j as int] == svc.methods@[j as int]@);
                    assert(!svc@.wf(n as int));
                }
                return false;
            }
            j += 1;
        }
    }
    true
}

/// Checks that two service full names never coincide.
fn check_unique_names_svcs(services: &Vec<ServiceDescriptor>) -> (ok: bool)
    ensures
        ok == (forall|i: int, j: int|
            0 <= i < j < services@.len() ==> (#[trigger] services@[i])@.full_name
                != (#[trigger] services@[j])@.full_name),
{
    let ghost sv = services@.map_values(|s: ServiceDescriptor| s@);
    let len = services.len();
    for i in 0..len
        invariant
            len == services@.len(),
            sv == services@.map_values(|s: ServiceDescriptor| s@),
            forall|a: int, b: int|
                0 <= a < b < len && a < i ==> sv[a].full_name != sv[b].full_name,
    {
        let mut j: usize = i + 1;
        while j < len
            invariant
                i < len == services@.len(),
                i + 1 <= j,
                sv == services@.map_values(|s: ServiceDescriptor| s@),
                forall|a: int, b: int|
                    0 <= a < b < len && a < i ==> sv[a].full_name != sv[b].full_name,
                forall|b: int| i < b < j ==> sv[i as int].full_name != sv[b].full_name,
            decreases len - j,
        {
            if services[i].full_name == services[j].full_name {
                proof {
                    assert(sv[i as int] == services@[i as int]@);
                    assert(sv[j as int] == services@[j as int]@);
                }
                return false;
            }
            j += 1;
        }
    }
    assert forall|i: int, j: int|
        0 <= i < j < services@.len() implies (#[trigger] services@[i])@.full_name
        != (#[trigger] services@[j])@.full_name by {
        assert(sv[i] == services@[i]@);
        assert(sv[j] == services@[j]@);
    }
    true
}

impl DescriptorPool {
    /// Validates raw descriptors and assembles the immutable pool, computing
    /// each message's wire emission order.  Succeeds exactly when the input
    /// is valid: field numbers positive and unique per message, field names
    /// unique per message, every cross-reference inside the pool, and
    /// fully-qualified names unique.  The input's `wire_order` fields are
    /// ignored and recomputed.
    pub fn assemble(messages: Vec<MessageDescriptor>, services: Vec<ServiceDescriptor>) -> (r:
        Result<DescriptorPool, Error>)
        ensures
            ({
                let mv = messages@.map_values(|m: MessageDescriptor| m@);
                let sv = services@.map_values(|s: ServiceDescriptor| s@);
                match r {
                    Ok(p) => input_valid(mv, sv) && p@.wf() && p@.messages.len() == mv.len()
                        && p@.services == sv && (forall|i: int|
                        0 <= i < mv.len() ==> (#[trigger] p@.messages[i]).name == mv[i].name
                            && p@.messages[i].full_name == mv[i].full_name
                            && p@.messages[i].fields == mv[i].fields),
                    Err(e) => e == Error::SchemaDecode && !input_valid(mv, sv),
                }
            }),
    {
        let ghost mv = messages@.map_values(|m: MessageDescriptor| m@);
        let ghost sv = services@.map_values(|s: ServiceDescriptor| s@);
        let n = messages.len();
        for i in 0..n
            invariant
                n == messages@.len(),
                mv == messages@.map_values(|m: MessageDescriptor| m@),
                forall|a: int|
                    0 <= a < i ==> fields_valid((#[trigger] mv[a]).fields, n as int),
        {
            if !check_fields(&messages[i].fields, n) {
                assert(!fields_valid(mv[i as int].fields, n as int));
                return Err(Error::SchemaDecode);
            }
        }
        if !check_unique_names_msgs(&messages) {
            proof {
                let (i, j) = choose|i: int, j: int|
                    0 <= i < j < messages@.len() && (messages@[i])@.full_name
                        == (messages@[j])@.full_name;
                assert(mv[i] == messages@[i]@);
                assert(mv[j] == messages@[j]@);
                assert(!input_valid(mv, sv));
            }
            return Err(Error::SchemaDecode);
        }
        let ns = services.len();
        for i in 0..ns
            invariant
                ns == services@.len(),
                n == messages@.len(),
                sv == services@.map_values(|s: ServiceDescriptor| s@),
                forall|a: int| 0 <= a < i ==> (#[trigger] sv[a]).wf(n as int),
        {
            if !check_service(&services[i], n) {
                assert(!sv[i as int].wf(n as int));
                return Err(Error::SchemaDecode);
            }
        }
        if !check_unique_names_svcs(&services) {
            proof {
                let (i, j) = choose|i: int, j: int|
                    0 <= i < j < services@.len() && (services@[i])@.full_name
                        == (services@[j])@.full_name;
                assert(sv[i] == services@[i]@);
                assert(sv[j] == services@[j]@);
                assert(!input_valid(mv, sv));
            }
            return Err(Error::SchemaDecode);
        }
        assert(input_valid(mv, sv));
        let mut rebuilt: Vec<MessageDescriptor> = Vec::new();
        let mut rest = messages;
        let mut i: usize = 0;
        while i < n
            invariant
                n == mv.len(),
                i + rest@.len() == n,
                forall|a: int|
                    0 <= a < rest@.len() ==> #[trigger] rest@[a]@ == mv[a + i],
                forall|a: int|
                    0 <= a < mv.len() ==> fields_valid((#[trigger] mv[a]).fields, n as int),
                rebuilt@.len() == i,
                forall|a: int|
                    0 <= a < i ==> (#[trigger] rebuilt@[a]@).name == mv[a].name && rebuilt@[a]@.full_name
                        == mv[a].full_name && rebuilt@[a]@.fields == mv[a].fields
                        && rebuilt@[a]@.wf(n as int),
            decreases n - i,
        {
            let m = rest.remove(0);
            assert(m@ == mv[i as int]);
            let nf = m.fields.len();
            proof {
                assert(fields_valid(m@.fields, n as int));
                assert forall|a: int, b: int|
                    0 <= a < b < m.fields@.len() implies (#[trigger] m.fields@[a])@.number
                    != (#[trigger] m.fields@[b])@.number by {
                    assert(m@.fields[a] == m.fields@[a]@);
                    assert(m@.fields[b] == m.fields@[b]@);
                }
            }
            let order = make_wire_order(&m.fields);
            let built = MessageDescriptor {
                name: m.name,
                full_name: m.full_name,
                fields: m.fields,
                wire_order: order,
            };
            proof {
                assert(built@.fields == mv[i as int].fields);
                assert(built@.fields.len() == nf as int);
                assert(built@.fields.len() <= usize::MAX);
                assert(built@.wf(n as int));
            }
            rebuilt.push(built);
            i += 1;
        }
        let pool = DescriptorPool { messages: rebuilt, services };
        proof {
            assert(pool@.messages.len() == mv.len());
            assert(pool@.services == sv);
            assert forall|a: int| 0 <= a < mv.len() implies (#[trigger] pool@.messages[a]).wf(
                pool@.messages.len() as int,
            ) by {
                assert(pool@.messages[a] == rebuilt@[a]@);
            }
            assert(pool@.wf());
        }
        Ok(pool)
    }
}


impl Kind {
    /// The schema name of this kind: the scalar kind keywords, the target
    /// message's pool index rendered by callers for message kinds, and
    /// `enum` for the enum gap.
    pub fn label(&self) -> (r: &'static str)
        ensures
            r@ == self.label_spec(),
    {
        match self {
            Kind::Double => "double",
            Kind::Float => "float",
            Kind::Int32 => "int32",
            Kind::Int64 => "int64",
            Kind::Uint32 => "uint32",
            Kind::Uint64 => "uint64",
            Kind::Sint32 => "sint32",
            Kind::Sint64 => "sint64",
            Kind::Fixed32 => "fixed32",
            Kind::Fixed64 => "fixed64",
            Kind::Sfixed32 => "sfixed32",
            Kind::Sfixed64 => "sfixed64",
            Kind::Bool => "bool",
            Kind::Str => "string",
            Kind::Bytes => "bytes",
            Kind::Message(_) => "message",
            Kind::Enum => "enum",
        }
    }

    pub open spec fn label_spec(self) -> Seq<char> {
        match self {
            Kind::Double => "double"@,
            Kind::Float => "float"@,
            Kind::Int32 => "int32"@,
            Kind::Int64 => "int64"@,
            Kind::Uint32 => "uint32"@,
            Kind::Uint64 => "uint64"@,
            Kind::Sint32 => "sint32"@,
            Kind::Sint64 => "sint64"@,
            Kind::Fixed32 => "fixed32"@,
            Kind::Fixed64 => "fixed64"@,
            Kind::Sfixed32 => "sfixed32"@,
            Kind::Sfixed64 => "sfixed64"@,
            Kind::Bool => "bool"@,
            Kind::Str => "string"@,
            Kind::Bytes => "bytes"@,
            Kind::Message(_) => "message"@,
            Kind::Enum => "enum"@,
        }
    }
}

impl Cardinality {
    /// The schema keyword of this cardinality.
    pub fn label(&self) -> (r: &'static str)
        ensures
            r@ == self.label_spec(),
    {
        match self {
            Cardinality::Optional => "optional",
            Cardinality::Required => "required",
            Cardinality::Repeated => "repeated",
        }
    }

    pub open spec fn label_spec(self) -> Seq<char> {
        match self {
            Cardinality::Optional => "optional"@,
            Cardinality::Required => "required"@,
            Cardinality::Repeated => "repeated"@,
        }
    }
}

impl FieldDescriptor {
    pub fn name(&self) -> (r: &String)
        ensures
            r@ == self@.name,
    {
        &self.name
    }

    pub fn full_name(&self) -> (r: &String)
        ensures
            r@ == self@.full_name,
    {
        &self.full_name
    }

    pub fn json_name(&self) -> (r: &String)
        ensures
            r@ == self@.json_name,
    {
        &self.json_name
    }

    pub fn number(&self) -> (r: u32)
        ensures
            r == self@.number,
    {
        self.number
    }

    pub fn kind(&self) -> (r: Kind)
        ensures
            r == self@.kind,
    {
        self.kind
    }

    pub fn cardinality(&self) -> (r: Cardinality)
        ensures
            r == self@.cardinality,
    {
        self.cardinality
    }

    /// What this field's kind prints as: a message-typed field names its
    /// target message, every other kind its keyword.
    pub open spec fn kind_label_spec(self2: FieldDescV, pool: PoolV) -> Seq<char> {
        match self2.kind {
            Kind::Message(t) => pool.messages[t as int].full_name,
            _ => self2.kind.label_spec(),
        }
    }

    /// The display form of this field declaration, as the host bindings show
    /// it.
    pub fn repr(&self, pool: &DescriptorPool) -> (r: String)
        requires
            pool@.wf(),
            match self@.kind {
                Kind::Message(t) => t < pool@.messages.len(),
                _ => true,
            },
        ensures
            r@ == "<FieldDescription(number="@ + crate::json::dec_nat(self@.number as int)
                + ", name='"@ + self@.name + "', kind='"@ + Self::kind_label_spec(self@, pool@)
                + "', carnality='"@ + self@.cardinality.label_spec() + "')>"@,
    {
        let mut out = String::new();
        out.append("<FieldDescription(number=");
        crate::json::push_u64(&mut out, self.number as u64);
        out.append(", name='");
        out.append(self.name.as_str());
        out.append("', kind='");
        match self.kind {
            Kind::Message(t) => {
                out.append(pool.messages[t].full_name.as_str());
            },
            _ => {
                out.append(self.kind.label());
            },
        }
        out.append("', carnality='");
        out.append(self.cardinality.label());
        out.append("')>");
        proof {
            assert(out@ =~= "<FieldDescription(number="@ + crate::json::dec_nat(
                self@.number as int,
            ) + ", name='"@ + self@.name + "', kind='"@ + Self::kind_label_spec(self@, pool@)
                + "', carnality='"@ + self@.cardinality.label_spec() + "')>"@);
        }
        out
    }
}

impl MessageDescriptor {
    pub fn name(&self) -> (r: &String)
        ensures
            r@ == self@.name,
    {
        &self.name
    }

    pub fn full_name(&self) -> (r: &String)
        ensures
            r@ == self@.full_name,
    {
        &self.full_name
    }

    pub fn fields(&self) -> (r: &Vec<FieldDescriptor>)
        ensures
            r@.map_values(|f: FieldDescriptor| f@) == self@.fields,
    {
        &self.fields
    }

    /// The display form of this message declaration.
    pub fn repr(&self) -> (r: String)
        ensures
            r@ == "<MessageDescriptor('"@ + self@.full_name + "')>"@,
    {
        let mut out = String::new();
        out.append("<MessageDescriptor('");
        out.append(self.full_name.as_str());
        out.append("')>");
        proof {
            assert(out@ =~= "<MessageDescriptor('"@ + self@.full_name + "')>"@);
        }
        out
    }
}

impl ServiceDescriptor {
    pub fn name(&self) -> (r: &String)
        ensures
            r@ == self@.name,
    {
        &self.name
    }

    pub fn full_name(&self) -> (r: &String)
        ensures
            r@ == self@.full_name,
    {
        &self.full_name
    }

    pub fn methods(&self) -> (r: &Vec<MethodDescriptor>)
        ensures
            r@.map_values(|m: MethodDescriptor| m@) == self@.methods,
    {
        &self.methods
    }

    /// Looks up a method of this service by name.
    pub fn get_method_by_name(&self, name: &str) -> (r: Result<usize, Error>)
        ensures
            match r {
                Ok(i) => i < self@.methods.len() && self@.methods[i as int].name == name@,
                Err(e) => e == Error::NotFound && (forall|j: int|
                    0 <= j < self@.methods.len() ==> (#[trigger] self@.methods[j]).name != name@),
            },
    {
        let owned = name.to_owned();
        let n = self.methods.len();
        for i in 0..n
            invariant
                n == self.methods@.len(),
                owned@ == name@,
                forall|j: int| 0 <= j < i ==> (#[trigger] self@.methods[j]).name != name@,
        {
            if self.methods[i].name == owned {
                return Ok(i);
            }
        }
        Err(Error::NotFound)
    }

    /// The display form of this service declaration.
    pub fn repr(&self) -> (r: String)
        ensures
            r@ == "<ServiceDescriptor('"@ + self@.full_name + "')>"@,
    {
        let mut out = String::new();
        out.append("<ServiceDescriptor('");
        out.append(self.full_name.as_str());
        out.append("')>");
        proof {
            assert(out@ =~= "<ServiceDescriptor('"@ + self@.full_name + "')>"@);
        }
        out
    }
}

impl MethodDescriptor {
    pub fn name(&self) -> (r: &String)
        ensures
            r@ == self@.name,
    {
        &self.name
    }

    pub fn full_name(&self) -> (r: &String)
        ensures
            r@ == self@.full_name,
    {
        &self.full_name
    }

    /// The pool index of the method's input message type.
    pub fn input_message(&self) -> (r: usize)
        ensures
            r == self@.input,
    {
        self.input
    }

    /// The pool index of the method's output message type.
    pub fn output_message(&self) -> (r: usize)
        ensures
            r == self@.output,
    {
        self.output
    }
}

} // verus!
