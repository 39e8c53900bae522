use lox::fixed_vec::{FixedVec, FixedVecErr};

#[test]
fn push_until_full() {
    let mut v: FixedVec<u32, 2> = FixedVec::new();
    assert_eq!(v.capacity(), 2);
    assert_eq!(v.push(1), Ok(()));
    assert_eq!(v.push(2), Ok(()));
    assert_eq!(v.push(3), Err(FixedVecErr::AlreadyFull));
    assert_eq!(v.len(), 2);
    assert_eq!(v.iter(), &[1, 2]);
    assert_eq!(v.get(1), Some(&2));
    assert_eq!(v.get(2), None);
    assert_eq!(*v.index(0), 1);
    v.set(0, 9);
    assert_eq!(v.pop(), Some(2));
    assert_eq!(v.pop(), Some(9));
    assert_eq!(v.pop(), None);
    assert_eq!(v.len(), 0);
}

#[test]
fn push_then_pop_gives_back() {
    let mut v: FixedVec<u8, 4> = FixedVec::new();
    v.push(5).unwrap();
    v.push(6).unwrap();
    assert_eq!(v.pop(), Some(6));
    assert_eq!(v.into_vec(), vec![5]);
}
