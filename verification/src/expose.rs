use vstd::prelude::*;

use crate::gc::Gc;
use crate::value::{GcRef, Value};

verus! {

/// The array that the first argument names, if it names one.
pub open spec fn array_arg(gc: Gc, args: Seq<Value>) -> Option<GcRef> {
    if args.len() > 0 && args[0] is Array && gc.is_array(args[0]->Array_0) {
        Some(args[0]->Array_0)
    } else {
        None
    }
}

/// `push(array, value)`: appends `value` to `array`; returns nil.
pub fn cupid_push(gc: &mut Gc, args: &[Value]) -> (v: Value)
    requires
        old(gc).wf(),
        args@.len() >= 2,
        array_arg(*old(gc), args@) is Some,
    ensures
        v == Value::Nil,
        final(gc).wf(),
        ({
            let r = array_arg(*old(gc), args@)->Some_0;
            old(gc).with_array_items(final(gc), r, old(gc).array_items(r).push(args@[1]))
        }),
{
    match args[0] {
        Value::Array(array) => {
            gc.array_push(array, args[1]);
            Value::Nil
        },
        _ => vstd::pervasive::unreached(),
    }
}

/// `pop(array)`: takes the last item off `array` and returns it, or nil when it is empty.
pub fn cupid_pop(gc: &mut Gc, args: &[Value]) -> (v: Value)
    requires
        old(gc).wf(),
        array_arg(*old(gc), args@) is Some,
    ensures
        final(gc).wf(),
        ({
            let r = array_arg(*old(gc), args@)->Some_0;
            let items = old(gc).array_items(r);
            &&& items.len() == 0 ==> v == Value::Nil && old(gc).with_array_items(final(gc), r, items)
            &&& items.len() > 0 ==> v == items.last() && old(gc).with_array_items(final(gc), r, items.drop_last())
        }),
{
    match args[0] {
        Value::Array(array) => match gc.array_pop(array) {
            Some(v) => v,
            None => Value::Nil,
        },
        _ => vstd::pervasive::unreached(),
    }
}

/// `len(array)`: the number of items of `array`, as an integer.
pub fn cupid_len(gc: &Gc, args: &[Value]) -> (v: Value)
    requires
        array_arg(*gc, args@) is Some,
    ensures
        v == Value::Int(gc.array_items(array_arg(*gc, args@)->Some_0).len() as i32),
{
    match args[0] {
        Value::Array(array) => Value::Int(gc.array_len(array) as i32),
        _ => vstd::pervasive::unreached(),
    }
}

/// `get(array, index)`: the item of `array` at `index`.
pub fn cupid_get(gc: &Gc, args: &[Value]) -> (v: Value)
    requires
        args@.len() >= 2,
        array_arg(*gc, args@) is Some,
        args@[1] is Int,
        0 <= args@[1]->Int_0 < gc.array_items(array_arg(*gc, args@)->Some_0).len(),
    ensures
        v == gc.array_items(array_arg(*gc, args@)->Some_0)[args@[1]->Int_0 as int],
{
    match (args[0], args[1]) {
        (Value::Array(array), Value::Int(i)) => gc.array_get(array, i as usize),
        _ => vstd::pervasive::unreached(),
    }
}

} // verus!
