use myaku::ring_buffer::RingBuffer;

#[test]
fn new_buffer_is_empty() {
    let rb: RingBuffer<f32> = RingBuffer::new(10);
    assert!(rb.is_empty());
    assert_eq!(rb.len(), 0);
    assert_eq!(rb.capacity(), 10);
    assert!(rb.latest().is_none());
}

#[test]
fn push_and_read() {
    let mut rb = RingBuffer::new(5);
    rb.push(1.0f32);
    rb.push(2.0);
    rb.push(3.0);
    assert_eq!(rb.len(), 3);
    assert_eq!(rb.values(), vec![1.0, 2.0, 3.0]);
    assert_eq!(rb.latest(), Some(3.0));
}

#[test]
fn wraps_around() {
    let mut rb = RingBuffer::new(3);
    rb.push(1.0f32);
    rb.push(2.0);
    rb.push(3.0);
    rb.push(4.0); // overwrites 1.0
    assert_eq!(rb.len(), 3);
    assert_eq!(rb.values(), vec![2.0, 3.0, 4.0]);
    assert_eq!(rb.latest(), Some(4.0));
}

#[test]
fn clear_resets() {
    let mut rb = RingBuffer::new(5);
    rb.push(1.0f32);
    rb.push(2.0);
    rb.clear();
    assert!(rb.is_empty());
    assert_eq!(rb.len(), 0);
}

#[test]
fn clear_then_push_starts_over() {
    let mut rb = RingBuffer::new(3);
    for v in [1u64, 2, 3, 4, 5] {
        rb.push(v);
    }
    rb.clear();
    assert_eq!(rb.capacity(), 3);
    rb.push(9);
    assert_eq!(rb.values(), vec![9]);
    assert_eq!(rb.latest(), Some(9));
}

#[test]
fn long_run_keeps_last_window() {
    let mut rb = RingBuffer::new(4);
    for v in 0u64..11 {
        rb.push(v);
        assert_eq!(rb.latest(), Some(v));
        assert!(rb.len() <= rb.capacity());
    }
    assert_eq!(rb.values(), vec![7, 8, 9, 10]);
}

#[test]
fn capacity_one_holds_latest() {
    let mut rb = RingBuffer::new(1);
    rb.push(5i32);
    rb.push(6);
    assert_eq!(rb.values(), vec![6]);
    assert_eq!(rb.len(), 1);
}
