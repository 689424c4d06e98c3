use rust_dsa::BoundsError;
use rust_dsa::array_list::ArrayList;

#[test]
fn array_list_works() {
    let mut l = ArrayList::<i32>::new();
    l.append(1);
    l.append(2);
    l.append(3);
    l.append(4);
    l.append(5);
    l.append(-1);
    assert_eq!(Some(&5), l.get(4));
    let item = l.pop();
    assert_eq!(Some(-1), item);
    assert_eq!(5, l.len());
    assert_eq!(Some(&3), l.get(2));
    assert_eq!(None, l.get(l.len()));
    l.prepend(1000);
    assert_eq!(Some(&1000), l.get(0));
    assert_eq!(Some(&1), l.get(1));
    assert_eq!(Some(&2), l.get(2));
    assert_eq!(Some(&5), l.get(l.len() - 1));
    assert_eq!(6, l.len());
    assert_eq!(Ok(()), l.insert_at(1, 2000));
    assert_eq!(Some(&2000), l.get(1));
    assert_eq!(Some(2000), l.remove_at(1));
    assert_eq!(6, l.len());
    assert_eq!(Some(&5), l.get(l.len() - 1));
    assert_eq!(Some(3), l.remove(&3));
    assert_eq!(None, l.remove(&500));
    assert_eq!(5, l.len());
}

#[test]
fn array_list_pop_empty_is_idempotent() {
    let mut l = ArrayList::<i32>::new();
    assert_eq!(None, l.pop());
    assert_eq!(None, l.pop());
    assert_eq!(None, l.pop());
    assert_eq!(0, l.len());
    assert_eq!(0, l.capacity());
}

#[test]
fn array_list_insert_out_of_bounds_is_an_error() {
    let mut l = ArrayList::<i32>::new();
    l.append(7);
    assert_eq!(Err(BoundsError), l.insert_at(2, 9));
    assert_eq!(None, l.remove_at(1));
    assert_eq!(1, l.len());
    assert_eq!(Some(&7), l.get(0));
}

#[test]
fn array_list_capacity_doubles_from_zero() {
    let mut l = ArrayList::<i32>::new();
    assert_eq!(0, l.capacity());
    let mut seen = Vec::new();
    for n in 0..9 {
        l.append(n);
        seen.push(l.capacity());
    }
    assert_eq!(vec![1, 2, 4, 4, 8, 8, 8, 8, 16], seen);
}
