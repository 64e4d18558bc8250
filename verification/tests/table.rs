use cupid::table::Table;
use cupid::value::{GcRef, Value};

#[test]
fn set_then_get() {
    let mut t = Table::new();
    let k = GcRef { index: 3 };
    assert!(t.set(k, Value::Int(1)));
    assert!(!t.set(k, Value::Int(2)));
    assert_eq!(t.get(k), Some(Value::Int(2)));
    assert_eq!(t.len(), 1);
}

#[test]
fn delete_removes_the_key() {
    let mut t = Table::new();
    let a = GcRef { index: 1 };
    let b = GcRef { index: 2 };
    t.set(a, Value::Bool(true));
    t.set(b, Value::Nil);
    assert!(t.delete(a));
    assert!(!t.delete(a));
    assert_eq!(t.get(a), None);
    assert_eq!(t.get(b), Some(Value::Nil));
}
