use vstd::prelude::*;

verus! {

/// A reference to an object on the collected heap: the object's slot.
#[derive(Debug, Clone, Copy, PartialEq, Eq, Structural, Hash)]
pub struct GcRef {
    pub index: usize,
}

impl GcRef {
    /// A reference that names no object yet.
    pub fn dangling() -> (r: GcRef)
        ensures
            r.index == usize::MAX,
    {
        GcRef { index: usize::MAX }
    }
}

/// A value of the language. A float is held as the number of its literal in
/// the collector's table of float literals, by which it is found again.
#[derive(Debug, Clone, Copy, PartialEq, Eq, Structural)]
pub enum Value {
    Nil,
    Bool(bool),
    Int(i32),
    Float(usize),
    String(GcRef),
    Array(GcRef),
    BoundMethod(GcRef),
    Class(GcRef),
    Closure(GcRef),
    Function(GcRef),
    Instance(GcRef),
}

impl Value {
    /// The object that the value refers to, if any.
    pub open spec fn object(self) -> Option<GcRef> {
        match self {
            Value::String(r) => Some(r),
            Value::Array(r) => Some(r),
            Value::BoundMethod(r) => Some(r),
            Value::Class(r) => Some(r),
            Value::Closure(r) => Some(r),
            Value::Function(r) => Some(r),
            Value::Instance(r) => Some(r),
            _ => None,
        }
    }

    /// The object that the value refers to, if any.
    pub fn object_ref(&self) -> (r: Option<GcRef>)
        ensures
            r == self.object(),
    {
        match self {
            Value::String(r) => Some(*r),
            Value::Array(r) => Some(*r),
            Value::BoundMethod(r) => Some(*r),
            Value::Class(r) => Some(*r),
            Value::Closure(r) => Some(*r),
            Value::Function(r) => Some(*r),
            Value::Instance(r) => Some(*r),
            _ => None,
        }
    }

    pub fn is_nil(&self) -> (r: bool)
        ensures
            r == (*self == Value::Nil),
    {
        match self {
            Value::Nil => true,
            _ => false,
        }
    }
}

/// Every value that holds a heap reference names that object, so the
/// collector keeps it: a string, array, bound method, class, closure,
/// function or instance; `none`, booleans, integers and floats name none.
pub proof fn lemma_value_names_its_object(v: Value)
    ensures
        v is String ==> v.object() == Some(v->String_0),
        v is Array ==> v.object() == Some(v->Array_0),
        v is BoundMethod ==> v.object() == Some(v->BoundMethod_0),
        v is Class ==> v.object() == Some(v->Class_0),
        v is Closure ==> v.object() == Some(v->Closure_0),
        v is Function ==> v.object() == Some(v->Function_0),
        v is Instance ==> v.object() == Some(v->Instance_0),
        v is Nil || v is Bool || v is Int || v is Float ==> v.object() is None,
{
}

} // verus!
