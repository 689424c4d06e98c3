use rust_dsa::linked_list::LinkedList;

#[test]
fn linked_list_works() {
    let mut l = LinkedList::<isize>::new();
    assert_eq!(0, l.len());
    assert_eq!(None, l.pop_front());
    l.push_front(200);
    l.push_front(-2);
    l.push_front(4123);
    assert_eq!(3, l.len());
    assert_eq!(Some(&200), l.get(2));
    assert_eq!(Some(&-2), l.get(1));
    assert_eq!(Some(&4123), l.get(0));
    assert_eq!(Some(4123), l.pop_front());
    assert_eq!(Some(-2), l.pop_front());
    assert_eq!(Some(200), l.pop_front());
    assert_eq!(None, l.pop_front());
}
