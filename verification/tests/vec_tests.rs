use rust_dsa::BoundsError;
use rust_dsa::my_vec::MyVec;

#[test]
fn vec_works() {
    let _ = std::mem::size_of::<MyVec<i8>>();
    let _ = std::mem::size_of::<MyVec<i64>>();
    let _ = std::mem::align_of::<MyVec<i8>>();
    let _ = std::mem::align_of::<MyVec<i64>>();
    let _ = std::mem::size_of::<MyVec<i128>>();
    assert!(true);
}

#[test]
fn my_vec_push_pop_works() {
    let mut v = MyVec::<i32>::new();
    assert_eq!(0, v.capacity());
    v.push(10);
    v.push(20);
    v.push(30);
    assert_eq!(3, v.len());
    assert_eq!(4, v.capacity());
    assert_eq!(Some(30), v.pop());
    assert_eq!(Some(20), v.pop());
    assert_eq!(Some(10), v.pop());
    assert_eq!(None, v.pop());
    assert_eq!(None, v.pop());
    assert_eq!(4, v.capacity());
}

#[test]
fn my_vec_insert_remove_works() {
    let mut v = MyVec::<i32>::new();
    v.push(1);
    v.push(3);
    assert_eq!(Ok(()), v.insert(1, 2));
    assert_eq!(Ok(()), v.insert(3, 4));
    assert_eq!(4, v.len());
    assert_eq!(Some(&2), v.get(1));
    assert_eq!(None, v.get(4));
    assert_eq!(Ok(2), v.remove(1));
    assert_eq!(Ok(1), v.remove(0));
    assert_eq!(2, v.len());
    assert_eq!(Err(BoundsError), v.remove(2));
    assert_eq!(Err(BoundsError), v.insert(3, 9));
    assert_eq!(Some(4), v.pop());
    assert_eq!(Some(3), v.pop());
    assert_eq!(None, v.pop());
}

#[test]
fn my_vec_into_iter_works() {
    let mut v = MyVec::<i32>::new();
    for n in [1, 2, 3, 4, 5] {
        v.push(n);
    }
    let mut it = v.into_iter();
    assert_eq!((5, Some(5)), it.size_hint());
    assert_eq!(Some(1), it.next());
    assert_eq!(Some(5), it.next_back());
    assert_eq!(Some(2), it.next());
    assert_eq!(Some(4), it.next_back());
    assert_eq!((1, Some(1)), it.size_hint());
    assert_eq!(Some(3), it.next());
    assert_eq!(None, it.next());
    assert_eq!(None, it.next_back());
}

#[test]
fn my_vec_into_iter_partial_consumption_is_safe() {
    let mut v = MyVec::<String>::new();
    v.push("a".to_string());
    v.push("b".to_string());
    v.push("c".to_string());
    let mut it = v.into_iter();
    assert_eq!(Some("a".to_string()), it.next());
    // The two unyielded elements are destructed when `it` leaves scope.
}
