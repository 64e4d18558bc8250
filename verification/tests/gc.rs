use cupid::gc::Gc;
use cupid::objects::{Array, Class, Instance, Object, ObjectType, Str};
use cupid::table::Table;
use cupid::value::{GcRef, Value};

#[test]
fn interning_gives_one_object_per_text() {
    let mut gc = Gc::new();
    let a = gc.intern(b"hello".to_vec());
    let b = gc.intern(b"hello".to_vec());
    let c = gc.intern(b"world".to_vec());
    assert_eq!(a, b);
    assert_ne!(a, c);
    assert!(gc.is_interned(a));
    assert_eq!(gc.object_count(), 2);
}

#[test]
fn fnv_hash_of_strings() {
    assert_eq!(Str::hash_string(b""), 2166136261usize);
    let s = Str::from_string(b"a".to_vec());
    let expected = (2166136261usize ^ 97usize).wrapping_mul(16777619usize);
    assert_eq!(s.hash, expected);
}

#[test]
fn collection_frees_what_is_not_marked() {
    let mut gc = Gc::new();
    let kept = gc.alloc_object(Object::Array(Array::new(Vec::new())));
    let dropped = gc.alloc_object(Object::Array(Array::new(Vec::new())));
    gc.mark_object(kept);
    assert!(gc.marked(kept));
    gc.collect_garbage(1000);
    assert!(gc.is_live(kept));
    assert!(!gc.is_live(dropped));
    assert!(!gc.marked(kept));
    assert_eq!(gc.object_count(), 1);
}

#[test]
fn collection_traces_from_marked_objects() {
    let mut gc = Gc::new();
    let name = gc.intern(b"Point".to_vec());
    let class = gc.alloc_object(Object::Class(Class::new(name)));
    let instance = gc.alloc_object(Object::Instance(Instance::new(class)));
    let other = gc.intern(b"unused".to_vec());
    gc.mark_value(Value::Instance(instance));
    gc.collect_garbage(10);
    assert!(gc.is_live(instance));
    assert!(gc.is_live(class));
    assert!(gc.is_live(name));
    assert!(!gc.is_live(other));
    assert!(gc.is_interned(name));
    assert!(!gc.is_interned(other));
}

#[test]
fn threshold_doubles_what_is_allocated() {
    let mut gc = Gc::new();
    assert!(!gc.should_gc(1024 * 1024));
    assert!(gc.should_gc(1024 * 1024 + 1));
    gc.collect_garbage(100);
    assert!(!gc.should_gc(200));
    assert!(gc.should_gc(201));
}

#[test]
fn marking_a_table_marks_keys_and_values() {
    let mut gc = Gc::new();
    let key = gc.intern(b"k".to_vec());
    let arr = gc.alloc_object(Object::Array(Array::new(Vec::new())));
    let mut table = Table::new();
    table.set(key, Value::Array(arr));
    gc.mark_table(&table);
    assert!(gc.marked(key));
    assert!(gc.marked(arr));
}

#[test]
fn mark_value_ignores_plain_values() {
    let mut gc = Gc::new();
    let arr = gc.alloc_object(Object::Array(Array::new(Vec::new())));
    gc.mark_value(Value::Int(3));
    gc.mark_value(Value::Nil);
    assert!(!gc.marked(arr));
}

#[test]
fn float_literals_are_numbered() {
    let mut gc = Gc::new();
    assert_eq!(gc.add_float(b"1.5".to_vec()), 0);
    assert_eq!(gc.add_float(b"2.0".to_vec()), 1);
    assert_eq!(gc.float_literal(1), b"2.0");
}

#[test]
fn headers_start_unmarked() {
    let h = cupid::objects::GcObject::new(ObjectType::Closure);
    assert!(!h.marked);
    assert_eq!(h.obj_type, ObjectType::Closure);
    assert_eq!(GcRef::dangling().index, usize::MAX);
}

#[test]
fn the_threshold_is_twice_the_bytes_in_use() {
    let mut gc = Gc::new();
    gc.set_threshold(100);
    assert!(!gc.should_gc(200));
    assert!(gc.should_gc(201));
}

#[test]
fn ranks_settle_on_a_heap_without_cycles() {
    let mut gc = Gc::new();
    let name = gc.intern(b"Point".to_vec());
    let class = gc.alloc_object(Object::Class(Class::new(name)));
    let instance = gc.alloc_object(Object::Instance(Instance::new(class)));
    let ranks = gc.heap_ranks();
    assert_eq!(ranks.len(), 3);
    assert!(ranks[instance.index] > ranks[class.index]);
    assert!(ranks[class.index] > ranks[name.index]);
    assert!(gc.ranks_fit(&ranks));
    assert!(!gc.ranks_fit(&vec![0, 0, 0]));
    assert!(!gc.ranks_fit(&vec![0, 1]));
    gc.mark_object(instance);
    gc.mark_object(instance);
    gc.collect_garbage(10);
    assert_eq!(gc.object_count(), 3);
}
