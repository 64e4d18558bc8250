use vstd::prelude::*;

use crate::chunk::Chunk;
use crate::table::{Entry, Table};
use crate::value::{GcRef, Value};

verus! {

/// The kinds of object on the collected heap.
#[derive(Debug, Clone, Copy, PartialEq, Eq, Structural)]
pub enum ObjectType {
    Array,
    Function,
    Closure,
    Str,
    Upvalue,
    Class,
    Instance,
    BoundMethod,
    Role,
}

/// The header that every heap object starts with.
#[derive(Debug, Clone, Copy, PartialEq, Eq, Structural)]
pub struct GcObject {
    pub marked: bool,
    pub obj_type: ObjectType,
}

impl GcObject {
    pub fn new(obj_type: ObjectType) -> (h: GcObject)
        ensures
            h == (GcObject { marked: false, obj_type }),
    {
        GcObject { marked: false, obj_type }
    }
}

/// The built-in functions that a program can call.
#[derive(Debug, Clone, Copy, PartialEq, Eq, Structural)]
pub enum Native {
    Clock,
    Panic,
    Push,
    Pop,
    Len,
    Get,
}

/// A built-in function, by the one it calls: two are equal when they call
/// the same built-in.
#[derive(Debug, Clone, Copy, PartialEq, Eq, Structural)]
pub struct NativeFunction(pub Native);

/// The FNV-1a hash of `s`, in the width of `usize`.
pub open spec fn fnv_hash(s: Seq<u8>) -> usize
    decreases s.len(),
{
    if s.len() == 0 {
        2166136261usize
    } else {
        vstd::wrapping::usize_specs::wrapping_mul(fnv_hash(s.drop_last()) ^ (s.last() as usize), 16777619usize)
    }
}

/// A string object.
#[derive(Debug)]
pub struct Str {
    pub header: GcObject,
    pub s: Vec<u8>,
    pub hash: usize,
}

impl Str {
    pub fn from_string(s: Vec<u8>) -> (r: Str)
        ensures
            r.header == (GcObject { marked: false, obj_type: ObjectType::Str }),
            r.s@ == s@,
            r.hash == fnv_hash(s@),
    {
        let hash = Str::hash_string(s.as_slice());
        Str { header: GcObject::new(ObjectType::Str), s, hash }
    }

    /// The FNV-1a hash of the bytes of `s`.
    pub fn hash_string(s: &[u8]) -> (hash: usize)
        ensures
            hash == fnv_hash(s@),
    {
        let mut hash: usize = 2166136261;
        let mut i: usize = 0;
        while i < s.len()
            invariant
                i <= s.len(),
                hash == fnv_hash(s@.subrange(0, i as int)),
            decreases s.len() - i,
        {
            let b = s[i];
            hash = hash ^ (b as usize);
            hash = hash.wrapping_mul(16777619);
            proof {
                assert(s@.subrange(0, i as int + 1).drop_last() =~= s@.subrange(0, i as int));
            }
            i += 1;
        }
        assert(s@.subrange(0, s@.len() as int) =~= s@);
        hash
    }
}

/// An array object.
#[derive(Debug)]
pub struct Array {
    pub header: GcObject,
    pub items: Vec<Value>,
}

impl Array {
    pub fn new(items: Vec<Value>) -> (a: Array)
        ensures
            a.header == (GcObject { marked: false, obj_type: ObjectType::Array }),
            a.items@ == items@,
    {
        Array { header: GcObject::new(ObjectType::Array), items }
    }
}

/// A compile-time description of an upvalue: the slot or upvalue it captures.
#[derive(Debug, Clone, Copy, PartialEq, Eq, Structural)]
pub struct FunctionUpvalue {
    pub index: u8,
    pub is_local: bool,
}

/// A function object: its arity, code and upvalue descriptions.
#[derive(Debug)]
pub struct Function {
    pub header: GcObject,
    pub arity: usize,
    pub chunk: Chunk,
    pub name: GcRef,
    pub upvalues: Vec<FunctionUpvalue>,
}

impl Function {
    pub fn new(name: GcRef) -> (f: Function)
        ensures
            f.header == (GcObject { marked: false, obj_type: ObjectType::Function }),
            f.arity == 0,
            f.chunk.code@.len() == 0,
            f.chunk.lines@.len() == 0,
            f.chunk.constants@.len() == 0,
            f.name == name,
            f.upvalues@.len() == 0,
    {
        Function { header: GcObject::new(ObjectType::Function), arity: 0, chunk: Chunk::new(), name, upvalues: Vec::new() }
    }
}

/// A closure object: a function and the upvalues it captured.
#[derive(Debug)]
pub struct Closure {
    pub header: GcObject,
    pub function: GcRef,
    pub upvalues: Vec<GcRef>,
}

impl Closure {
    pub fn new(function: GcRef) -> (c: Closure)
        ensures
            c.header == (GcObject { marked: false, obj_type: ObjectType::Closure }),
            c.function == function,
            c.upvalues@.len() == 0,
    {
        Closure { header: GcObject::new(ObjectType::Closure), function, upvalues: Vec::new() }
    }
}

/// An upvalue object: a stack slot, or the value once the slot is closed.
#[derive(Debug)]
pub struct Upvalue {
    pub header: GcObject,
    pub location: usize,
    pub closed: Option<Value>,
}

impl Upvalue {
    pub fn new(location: usize) -> (u: Upvalue)
        ensures
            u.header == (GcObject { marked: false, obj_type: ObjectType::Upvalue }),
            u.location == location,
            u.closed == None::<Value>,
    {
        Upvalue { header: GcObject::new(ObjectType::Upvalue), location, closed: None }
    }
}

/// A class object: its name and methods.
#[derive(Debug)]
pub struct Class {
    pub header: GcObject,
    pub name: GcRef,
    pub methods: Table,
}

impl Class {
    pub fn new(name: GcRef) -> (c: Class)
        ensures
            c.header == (GcObject { marked: false, obj_type: ObjectType::Class }),
            c.name == name,
            c.methods.wf(),
            c.methods.entries().len() == 0,
    {
        Class { header: GcObject::new(ObjectType::Class), name, methods: Table::new() }
    }
}

/// An instance object: its class and fields.
#[derive(Debug)]
pub struct Instance {
    pub header: GcObject,
    pub class: GcRef,
    pub fields: Table,
}

impl Instance {
    pub fn new(class: GcRef) -> (i: Instance)
        ensures
            i.header == (GcObject { marked: false, obj_type: ObjectType::Instance }),
            i.class == class,
            i.fields.wf(),
            i.fields.entries().len() == 0,
    {
        Instance { header: GcObject::new(ObjectType::Instance), class, fields: Table::new() }
    }
}

/// A method bound to the receiver it was read from.
#[derive(Debug)]
pub struct BoundMethod {
    pub header: GcObject,
    pub receiver: Value,
    pub method: GcRef,
}

impl BoundMethod {
    pub fn new(receiver: Value, method: GcRef) -> (b: BoundMethod)
        ensures
            b.header == (GcObject { marked: false, obj_type: ObjectType::BoundMethod }),
            b.receiver == receiver,
            b.method == method,
    {
        BoundMethod { header: GcObject::new(ObjectType::BoundMethod), receiver, method }
    }
}

/// The implementation of a trait (a role) for a class.
#[derive(Debug)]
pub struct RoleImpl {
    pub header: GcObject,
    pub name: GcRef,
    pub class: GcRef,
    pub methods: Table,
}

impl RoleImpl {
    pub fn new(name: GcRef, class: GcRef) -> (r: RoleImpl)
        ensures
            r.header == (GcObject { marked: false, obj_type: ObjectType::Role }),
            r.name == name,
            r.class == class,
            r.methods.wf(),
            r.methods.entries().len() == 0,
    {
        RoleImpl { header: GcObject::new(ObjectType::Role), name, class, methods: Table::new() }
    }
}

/// An object on the collected heap.
#[derive(Debug)]
pub enum Object {
    Array(Array),
    Function(Function),
    Closure(Closure),
    Str(Str),
    Upvalue(Upvalue),
    Class(Class),
    Instance(Instance),
    BoundMethod(BoundMethod),
    Role(RoleImpl),
}

/// The objects that a sequence of values refers to.
pub open spec fn value_refs(vs: Seq<Value>) -> Seq<GcRef>
    decreases vs.len(),
{
    if vs.len() == 0 {
        Seq::empty()
    } else {
        value_refs(vs.drop_last()) + match vs.last().object() {
            Some(r) => seq![r],
            None => Seq::empty(),
        }
    }
}

/// The objects that the entries of a table refer to: each key, then its value's object.
pub open spec fn entry_refs(es: Seq<Entry>) -> Seq<GcRef>
    decreases es.len(),
{
    if es.len() == 0 {
        Seq::empty()
    } else {
        entry_refs(es.drop_last()) + seq![es.last().key] + match es.last().value.object() {
            Some(r) => seq![r],
            None => Seq::empty(),
        }
    }
}

impl Object {
    pub open spec fn header(&self) -> GcObject {
        match self {
            Object::Array(o) => o.header,
            Object::Function(o) => o.header,
            Object::Closure(o) => o.header,
            Object::Str(o) => o.header,
            Object::Upvalue(o) => o.header,
            Object::Class(o) => o.header,
            Object::Instance(o) => o.header,
            Object::BoundMethod(o) => o.header,
            Object::Role(o) => o.header,
        }
    }

    /// The objects that the collector traces from this one.
    pub open spec fn children(&self) -> Seq<GcRef> {
        match self {
            Object::Array(_) => Seq::empty(),
            Object::Function(f) => seq![f.name] + value_refs(f.chunk.constants@),
            Object::Closure(c) => seq![c.function] + c.upvalues@,
            Object::Str(_) => Seq::empty(),
            Object::Upvalue(u) => match u.closed {
                Some(v) => match v.object() {
                    Some(r) => seq![r],
                    None => Seq::empty(),
                },
                None => Seq::empty(),
            },
            Object::Class(c) => seq![c.name] + entry_refs(c.methods.entries()),
            Object::Instance(i) => seq![i.class] + entry_refs(i.fields.entries()),
            Object::BoundMethod(b) => match b.receiver.object() {
                Some(r) => seq![r, b.method],
                None => seq![b.method],
            },
            Object::Role(r) => seq![r.class] + entry_refs(r.methods.entries()),
        }
    }

    /// Whether the object is marked.
    pub fn is_marked(&self) -> (m: bool)
        ensures
            m == self.header().marked,
    {
        match self {
            Object::Array(o) => o.header.marked,
            Object::Function(o) => o.header.marked,
            Object::Closure(o) => o.header.marked,
            Object::Str(o) => o.header.marked,
            Object::Upvalue(o) => o.header.marked,
            Object::Class(o) => o.header.marked,
            Object::Instance(o) => o.header.marked,
            Object::BoundMethod(o) => o.header.marked,
            Object::Role(o) => o.header.marked,
        }
    }

    /// The same object with its mark set to `m`.
    pub open spec fn with_mark(self, m: bool) -> Object {
        match self {
            Object::Array(o) => Object::Array(Array { header: GcObject { marked: m, ..o.header }, ..o }),
            Object::Function(o) => Object::Function(Function { header: GcObject { marked: m, ..o.header }, ..o }),
            Object::Closure(o) => Object::Closure(Closure { header: GcObject { marked: m, ..o.header }, ..o }),
            Object::Str(o) => Object::Str(Str { header: GcObject { marked: m, ..o.header }, ..o }),
            Object::Upvalue(o) => Object::Upvalue(Upvalue { header: GcObject { marked: m, ..o.header }, ..o }),
            Object::Class(o) => Object::Class(Class { header: GcObject { marked: m, ..o.header }, ..o }),
            Object::Instance(o) => Object::Instance(Instance { header: GcObject { marked: m, ..o.header }, ..o }),
            Object::BoundMethod(o) => Object::BoundMethod(BoundMethod { header: GcObject { marked: m, ..o.header }, ..o }),
            Object::Role(o) => Object::Role(RoleImpl { header: GcObject { marked: m, ..o.header }, ..o }),
        }
    }

    /// Sets the mark of the object; nothing else changes.
    pub fn set_marked(&mut self, marked: bool)
        ensures
            *final(self) == old(self).with_mark(marked),
    {
        match self {
            Object::Array(o) => o.header.marked = marked,
            Object::Function(o) => o.header.marked = marked,
            Object::Closure(o) => o.header.marked = marked,
            Object::Str(o) => o.header.marked = marked,
            Object::Upvalue(o) => o.header.marked = marked,
            Object::Class(o) => o.header.marked = marked,
            Object::Instance(o) => o.header.marked = marked,
            Object::BoundMethod(o) => o.header.marked = marked,
            Object::Role(o) => o.header.marked = marked,
        }
    }
}

/// Setting a mark changes the mark alone: the kind, the children and the
/// contents of a string stay; a second mark overrides the first.
pub proof fn lemma_with_mark(o: Object, m: bool, n: bool)
    ensures
        o.with_mark(m).header().marked == m,
        o.with_mark(m).header().obj_type == o.header().obj_type,
        o.with_mark(m).children() == o.children(),
        o.with_mark(m).with_mark(n) == o.with_mark(n),
        o.header().marked == m ==> o.with_mark(m) == o,
        (o.with_mark(m) is Str) == (o is Str),
        o is Str ==> o.with_mark(m)->Str_0.s == o->Str_0.s && o.with_mark(m)->Str_0.hash == o->Str_0.hash,
{
}


/// Every entry of a table is found in the references of its entries: its
/// key, and the object its value names.
pub proof fn lemma_entry_refs_hold(es: Seq<Entry>, k: int)
    requires
        0 <= k < es.len(),
    ensures
        entry_refs(es).contains(es[k].key),
        es[k].value.object() matches Some(r) ==> entry_refs(es).contains(r),
    decreases es.len(),
{
    let rest = entry_refs(es.drop_last());
    let tail = seq![es.last().key] + match es.last().value.object() {
        Some(r) => seq![r],
        None => Seq::empty(),
    };
    assert(entry_refs(es) == rest + tail);
    if k < es.len() - 1 {
        lemma_entry_refs_hold(es.drop_last(), k);
        assert(es.drop_last()[k] == es[k]);
        let j = choose|j: int| 0 <= j < rest.len() && rest[j] == es[k].key;
        assert((rest + tail)[j] == es[k].key);
        if let Some(r) = es[k].value.object() {
            let j2 = choose|j2: int| 0 <= j2 < rest.len() && rest[j2] == r;
            assert((rest + tail)[j2] == r);
        }
    } else {
        assert((rest + tail)[rest.len() as int] == es[k].key);
        if let Some(r) = es[k].value.object() {
            assert((rest + tail)[rest.len() as int + 1] == r);
        }
    }
}

/// Every value of a list that names an object is found in its references.
pub proof fn lemma_value_refs_hold(vs: Seq<Value>, k: int)
    requires
        0 <= k < vs.len(),
    ensures
        vs[k].object() matches Some(r) ==> value_refs(vs).contains(r),
    decreases vs.len(),
{
    let rest = value_refs(vs.drop_last());
    let tail = match vs.last().object() {
        Some(r) => seq![r],
        None => Seq::<GcRef>::empty(),
    };
    assert(value_refs(vs) == rest + tail);
    if let Some(r) = vs[k].object() {
        if k < vs.len() - 1 {
            lemma_value_refs_hold(vs.drop_last(), k);
            assert(vs.drop_last()[k] == vs[k]);
            let j = choose|j: int| 0 <= j < rest.len() && rest[j] == r;
            assert((rest + tail)[j] == r);
        } else {
            assert((rest + tail)[rest.len() as int] == r);
        }
    }
}

/// The collector traces, from each object, every object that it refers to:
/// a function's name and the objects its constants name; a closure's
/// function and upvalues; the object a closed upvalue holds; a class's name
/// and the keys and method objects of its methods table; an instance's
/// class and the keys and value objects of its fields table; a bound
/// method's method and the object its receiver names; a role's class and
/// the keys and method objects of its methods table.
pub proof fn lemma_children_cover(o: Object)
    ensures
        match o {
            Object::Function(f) => o.children().contains(f.name) && forall|k: int|
                0 <= k < f.chunk.constants@.len() && (#[trigger] f.chunk.constants@[k]).object() is Some
                    ==> o.children().contains(f.chunk.constants@[k].object()->0),
            Object::Closure(c) => o.children().contains(c.function) && forall|k: int|
                0 <= k < c.upvalues@.len() ==> o.children().contains(#[trigger] c.upvalues@[k]),
            Object::Upvalue(u) => (u.closed matches Some(v) ==> (v.object() matches Some(r) ==> o.children().contains(r))),
            Object::Class(c) => o.children().contains(c.name) && forall|k: GcRef, v: Value|
                #[trigger] c.methods.has(k, v) ==> o.children().contains(k) && (v.object() matches Some(r)
                    ==> o.children().contains(r)),
            Object::Instance(i) => o.children().contains(i.class) && forall|k: GcRef, v: Value|
                #[trigger] i.fields.has(k, v) ==> o.children().contains(k) && (v.object() matches Some(r)
                    ==> o.children().contains(r)),
            Object::BoundMethod(b) => o.children().contains(b.method) && (b.receiver.object() matches Some(r)
                ==> o.children().contains(r)),
            Object::Role(r) => o.children().contains(r.class) && forall|k: GcRef, v: Value|
                #[trigger] r.methods.has(k, v) ==> o.children().contains(k) && (v.object() matches Some(x)
                    ==> o.children().contains(x)),
            _ => true,
        },
{
    match o {
        Object::Function(f) => {
            let rest = value_refs(f.chunk.constants@);
            assert(o.children() == seq![f.name] + rest);
            assert(o.children()[0] == f.name);
            assert forall|k: int|
                0 <= k < f.chunk.constants@.len() && (#[trigger] f.chunk.constants@[k]).object() is Some
                    implies o.children().contains(f.chunk.constants@[k].object()->0) by {
                lemma_value_refs_hold(f.chunk.constants@, k);
                let j = choose|j: int| 0 <= j < rest.len() && rest[j] == f.chunk.constants@[k].object()->0;
                assert(o.children()[j + 1] == rest[j]);
            }
        },
        Object::Closure(c) => {
            assert(o.children()[0] == c.function);
            assert forall|k: int| 0 <= k < c.upvalues@.len() implies o.children().contains(#[trigger] c.upvalues@[k]) by {
                assert(o.children()[k + 1] == c.upvalues@[k]);
            }
        },
        Object::Upvalue(u) => {
            if let Some(v) = u.closed {
                if let Some(r) = v.object() {
                    assert(o.children()[0] == r);
                }
            }
        },
        Object::Class(c) => {
            let rest = entry_refs(c.methods.entries());
            assert(o.children() == seq![c.name] + rest);
            assert(o.children()[0] == c.name);
            assert forall|k: GcRef, v: Value| #[trigger] c.methods.has(k, v) implies o.children().contains(k) && (
            v.object() matches Some(r) ==> o.children().contains(r)) by {
                let e = choose|e: int| 0 <= e < c.methods.entries().len() && c.methods.entries()[e] == (Entry { key: k, value: v });
                lemma_entry_refs_hold(c.methods.entries(), e);
                let j = choose|j: int| 0 <= j < rest.len() && rest[j] == k;
                assert(o.children()[j + 1] == k);
                if let Some(r) = v.object() {
                    let j2 = choose|j2: int| 0 <= j2 < rest.len() && rest[j2] == r;
                    assert(o.children()[j2 + 1] == r);
                }
            }
        },
        Object::Instance(i) => {
            let rest = entry_refs(i.fields.entries());
            assert(o.children() == seq![i.class] + rest);
            assert(o.children()[0] == i.class);
            assert forall|k: GcRef, v: Value| #[trigger] i.fields.has(k, v) implies o.children().contains(k) && (
            v.object() matches Some(r) ==> o.children().contains(r)) by {
                let e = choose|e: int| 0 <= e < i.fields.entries().len() && i.fields.entries()[e] == (Entry { key: k, value: v });
                lemma_entry_refs_hold(i.fields.entries(), e);
                let j = choose|j: int| 0 <= j < rest.len() && rest[j] == k;
                assert(o.children()[j + 1] == k);
                if let Some(r) = v.object() {
                    let j2 = choose|j2: int| 0 <= j2 < rest.len() && rest[j2] == r;
                    assert(o.children()[j2 + 1] == r);
                }
            }
        },
        Object::BoundMethod(b) => {
            match b.receiver.object() {
                Some(r) => {
                    assert(o.children()[0] == r);
                    assert(o.children()[1] == b.method);
                },
                None => {
                    assert(o.children()[0] == b.method);
                },
            }
        },
        Object::Role(r) => {
            let rest = entry_refs(r.methods.entries());
            assert(o.children() == seq![r.class] + rest);
            assert(o.children()[0] == r.class);
            assert forall|k: GcRef, v: Value| #[trigger] r.methods.has(k, v) implies o.children().contains(k) && (
            v.object() matches Some(x) ==> o.children().contains(x)) by {
                let e = choose|e: int| 0 <= e < r.methods.entries().len() && r.methods.entries()[e] == (Entry { key: k, value: v });
                lemma_entry_refs_hold(r.methods.entries(), e);
                let j = choose|j: int| 0 <= j < rest.len() && rest[j] == k;
                assert(o.children()[j + 1] == k);
                if let Some(x) = v.object() {
                    let j2 = choose|j2: int| 0 <= j2 < rest.len() && rest[j2] == x;
                    assert(o.children()[j2 + 1] == x);
                }
            }
        },
        _ => {},
    }
}

} // verus!
