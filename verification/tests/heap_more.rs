use lox::heap::ObjectHeap;
use lox::object::{Function, Object};
use std::rc::Rc;

#[test]
fn adding_the_same_string_interns_it() {
    let mut heap = ObjectHeap::new();
    let a = heap.add(Object::String("test".into()));
    let b = heap.add(Object::String("test".into()));
    assert!(Rc::ptr_eq(&a, &b));
    let c = heap.add(Object::String("other".into()));
    assert!(!Rc::ptr_eq(&a, &c));
    assert_eq!(c.to_string(), "other");
}

#[test]
fn collect_garbage_keeps_objects_in_use() {
    let mut heap = ObjectHeap::new();
    let kept = heap.add(Object::String("kept".into()));
    heap.add(Object::String("dropped".into()));
    heap.collect_garbage();
    // The object still in use is interned again, not copied.
    let again = heap.add(Object::String("kept".into()));
    assert!(Rc::ptr_eq(&kept, &again));
    // Dropping the last object from the list leaves it in the table.
    heap.collect_garbage_with(&vec![2]);
    let once_more = heap.add(Object::String("kept".into()));
    assert!(Rc::ptr_eq(&kept, &once_more));
}

#[test]
fn objects_compare_by_content() {
    let a = Object::String("x".into());
    let b = Object::String("x".into());
    let c = Object::String("y".into());
    assert!(a == b);
    assert!(a != c);
    assert_eq!(a.clone().to_string(), "x");
}

#[test]
fn new_function() {
    let f = Function::new();
    assert_eq!(f.arity, 0);
    assert_eq!(f.upvalue_count, 0);
    assert!(f.chunks.is_empty());
    assert_eq!(f.name, "<no name>");
}
