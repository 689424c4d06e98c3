use rust_dsa::queue::Queue;

#[test]
fn queue_works() {
    let mut q = Queue::<isize>::new();
    q.deque();
    assert_eq!(0, q.size());
    assert_eq!(None, q.peek());
    q.queue(-34);
    assert_eq!(1, q.size());
    assert_eq!(Some(-34), q.peek());
    q.queue(45);
    q.queue(3049);
    assert_eq!(3, q.size());
    assert_eq!(Some(-34), q.deque());
    assert_eq!(Some(45), q.peek());
    assert_eq!(Some(45), q.deque());
    assert_eq!(Some(3049), q.peek());
    assert_eq!(Some(3049), q.deque());
    assert_eq!(0, q.size());
    assert_eq!(None, q.deque());
    assert_eq!(0, q.size());
}
