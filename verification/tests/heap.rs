use lox::heap::ObjectHeap;
use lox::object::Object;

#[test]
fn garbage_collection() {
    let mut heap = ObjectHeap::new();
    for _ in 0..100 {
        heap.add(Object::String("test".into()));
    }
}
