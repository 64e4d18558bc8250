use cupid::expose::{cupid_get, cupid_len, cupid_pop, cupid_push};
use cupid::gc::Gc;
use cupid::objects::{Array, Native, NativeFunction, Object};
use cupid::value::Value;

#[test]
fn array_natives() {
    let mut gc = Gc::new();
    let arr = gc.alloc_object(Object::Array(Array::new(Vec::new())));
    let a = Value::Array(arr);
    assert_eq!(cupid_push(&mut gc, &[a, Value::Int(5)]), Value::Nil);
    assert_eq!(cupid_push(&mut gc, &[a, Value::Int(6)]), Value::Nil);
    assert_eq!(cupid_len(&gc, &[a]), Value::Int(2));
    assert_eq!(cupid_get(&gc, &[a, Value::Int(0)]), Value::Int(5));
    assert_eq!(cupid_pop(&mut gc, &[a]), Value::Int(6));
    assert_eq!(cupid_pop(&mut gc, &[a]), Value::Int(5));
    assert_eq!(cupid_pop(&mut gc, &[a]), Value::Nil);
    assert_eq!(cupid_len(&gc, &[a]), Value::Int(0));
}

#[test]
fn natives_are_equal_when_they_call_the_same_builtin() {
    assert_eq!(NativeFunction(Native::Push), NativeFunction(Native::Push));
    assert_ne!(NativeFunction(Native::Push), NativeFunction(Native::Pop));
}
