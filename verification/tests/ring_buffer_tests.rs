use rust_dsa::ring_buffer::RingBuffer;

#[test]
fn ring_buffer_works() {
    let mut r = RingBuffer::<isize>::new(5);

    r.push_front(15);
    assert_eq!(15, *r.get(0).unwrap());
    r.push_front(10);
    r.push_front(7);
    r.push_front(-5);
    r.push_front(75);
    r.push_front(-2340);
    assert_eq!(-2340, *r.get(0).unwrap());
    assert_eq!(10, *r.get(4).unwrap());
    assert_eq!(7, *r.get(3).unwrap());
    assert_eq!(Some(10), r.pop_back());
    assert_eq!(Some(7), r.pop_back());
    r.push_front(-3498);
    r.push_front(8383);
    assert_eq!(Some(-5), r.pop_back());
    assert_eq!(Some(75), r.pop_back());
    assert_eq!(Some(-2340), r.pop_back());
    assert_eq!(Some(-3498), r.pop_back());
    assert_eq!(Some(8383), r.pop_back());
    assert_eq!(None, r.pop_back());
}

#[test]
fn index_mut_works() {
    let mut r = RingBuffer::<isize>::new(5);
    r.push_front(24);
    r.push_front(-20);
    r.push_front(-245);
    assert_eq!(24, *r.get(2).unwrap());
    assert_eq!(Ok(()), r.set(2, -45));
    assert_eq!(-45, *r.get(2).unwrap());
    assert_eq!(Some(-45), r.pop_back());
    for i in 0..r.len() {
        assert!(r.get(i).is_ok());
    }
}

#[test]
fn box_rb_works() {
    let mut r = RingBuffer::<Box<String>>::new(5);
    r.push_front(Box::new("hello".to_string()));
    r.push_front(Box::new("hey".to_string()));
    r.push_front(Box::new("hola".to_string()));
    r.push_front(Box::new("gutentag".to_string()));
    r.push_front(Box::new("ohaiyo".to_string()));
    r.push_front(Box::new("sup".to_string()));
    assert_eq!(Some("hey".to_string()), r.pop_back().map(|b| *b));
    assert_eq!(Box::new("gutentag".to_string()), r.get(2).unwrap().clone());
}

#[test]
fn iter_tests() {
    let mut r = RingBuffer::<f64>::new(5);
    r.push_front(5.5);
    r.push_front(8.2);
    r.push_front(9.1);
    r.push_front(6.3);
    r.push_front(1.5436);

    let mut i = 0;
    let mut walk = r.iter();
    while walk.next().is_some() {
        i += 1;
    }
    assert_eq!(i, r.len());

    let mut iter = r.iter();
    let mut nth = None;
    for _ in 0..5 {
        nth = iter.next();
    }
    assert_eq!(Some(&5.5), nth);

    let mut sum = 0f64;
    let mut adder = r.iter();
    while let Some(e) = adder.next() {
        sum += *e;
    }
    assert!(sum > 0f64);
}

#[test]
fn ring_buffer_round_trip_restores_empty() {
    let mut r = RingBuffer::<i32>::new(5);
    r.push_front(42);
    assert_eq!(1, r.len());
    assert_eq!(Some(42), r.pop_back());
    assert_eq!(0, r.len());
    assert_eq!(None, r.pop_back());
    assert_eq!(None, r.pop_back());
}

#[test]
fn ring_buffer_full_push_evicts_oldest() {
    let mut r = RingBuffer::<i32>::new(3);
    r.push_front(1);
    r.push_front(2);
    r.push_front(3);
    assert_eq!(3, r.len());
    r.push_front(4);
    assert_eq!(3, r.len());
    assert_eq!(4, *r.get(0).unwrap());
    assert_eq!(3, *r.get(1).unwrap());
    assert_eq!(2, *r.get(2).unwrap());
    assert_eq!(Some(2), r.pop_back());
}

#[test]
fn ring_buffer_out_of_range_access_is_an_error() {
    let mut r = RingBuffer::<i32>::new(2);
    assert!(r.get(0).is_err());
    r.push_front(1);
    assert!(r.get(0).is_ok());
    assert!(r.get(1).is_err());
    assert!(r.get(5).is_err());
    assert!(r.set(1, 9).is_err());
    assert_eq!(1, r.len());
    assert_eq!(1, *r.get(0).unwrap());
}
