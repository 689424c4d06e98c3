use rust_dsa::priority_queue::PriorityQueue;

#[test]
fn pq_works() {
    let mut pq = PriorityQueue::new();
    assert_eq!(None, pq.peak());
    assert_eq!(None, pq.pop());
    pq.push(50);
    assert_eq!(Some(&50), pq.peak());
    pq.push(75);
    pq.push(100);
    assert_eq!(Some(&50), pq.peak());
    pq.push(30);
    assert_eq!(Some(&30), pq.peak());
    assert_eq!(Some(30), pq.pop());
    assert_eq!(Some(50), pq.pop());
    assert_eq!(Some(75), pq.pop());
    assert_eq!(Some(100), pq.pop());
    assert_eq!(None, pq.pop());
}

#[test]
fn pq_handles_duplicates_and_negatives() {
    let mut pq = PriorityQueue::new();
    pq.push(5);
    pq.push(-7);
    pq.push(5);
    pq.push(0);
    pq.push(-7);
    assert_eq!(5, pq.len());
    assert_eq!(Some(-7), pq.pop());
    assert_eq!(Some(-7), pq.pop());
    assert_eq!(Some(0), pq.pop());
    assert_eq!(Some(5), pq.pop());
    assert_eq!(Some(5), pq.pop());
    assert_eq!(None, pq.pop());
    assert_eq!(0, pq.len());
}
