use rust_dsa::stack::Stack;

#[test]
fn stack_works() {
    let mut s = Stack::<usize>::new();
    assert_eq!(None, s.pop());
    assert_eq!(0, s.len());
    s.push(5);
    assert_eq!(1, s.len());
    assert_eq!(Some(5), s.pop());
    s.push(4);
    assert_eq!(1, s.capacity());
    s.push(10);
    assert_eq!(2, s.len());
    for n in 1..=1000 {
        s.push(n);
    }
    for _ in 1..=10 {
        s.pop();
    }
}

#[test]
fn stack_thousand_pushes_then_ten_pops() {
    let mut s = Stack::<usize>::new();
    for n in 1..=1000 {
        s.push(n);
    }
    for _ in 1..=10 {
        s.pop();
    }
    assert_eq!(990, s.len());
    assert_eq!(1024, s.capacity());
}

#[test]
fn stack_returns_reverse_insertion_order() {
    let mut s = Stack::<i32>::new();
    for n in [3, 1, 4, 1, 5, 9, 2, 6] {
        s.push(n);
    }
    let mut popped = Vec::new();
    while let Some(v) = s.pop() {
        popped.push(v);
    }
    assert_eq!(vec![6, 2, 9, 5, 1, 4, 1, 3], popped);
    assert_eq!(None, s.pop());
}
