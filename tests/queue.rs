use aba_protection::{HazardPointers, ImmediateReclaimer, LockFreeQueue, QueueError};

#[test]
fn main_test_queue_basic_operations() {
    let mut queue = LockFreeQueue::new();
    queue.enqueue(1).unwrap();
    queue.enqueue(2).unwrap();
    queue.enqueue(3).unwrap();

    assert_eq!(queue.dequeue(), Ok(1));
    assert_eq!(queue.dequeue(), Ok(2));
    assert_eq!(queue.dequeue(), Ok(3));
    assert_eq!(queue.dequeue(), Err(QueueError::Empty));
}

#[test]
fn queue_test_queue_basic_operations() {
    let mut queue = LockFreeQueue::new();
    queue.enqueue(1).unwrap();
    queue.enqueue(2).unwrap();
    queue.enqueue(3).unwrap();

    assert_eq!(queue.dequeue(), Ok(1));
    assert_eq!(queue.dequeue(), Ok(2));
    assert_eq!(queue.dequeue(), Ok(3));
    assert_eq!(queue.dequeue(), Err(QueueError::Empty));
}

#[test]
fn test_empty_queue() {
    let mut queue: LockFreeQueue<i32, _> = LockFreeQueue::new();
    assert!(queue.is_empty());
    assert_eq!(queue.dequeue(), Err(QueueError::Empty));
    assert_eq!(queue.peek(), Err(QueueError::Empty));
}

#[test]
fn test_peek() {
    let mut queue = LockFreeQueue::new();
    queue.enqueue(42).unwrap();
    assert_eq!(*queue.peek().unwrap(), 42);
    assert_eq!(queue.dequeue(), Ok(42));
    assert_eq!(queue.peek(), Err(QueueError::Empty));
}

#[test]
fn fifo_drain_keeps_enqueue_order() {
    let mut queue = LockFreeQueue::with_reclaimer(HazardPointers::new());
    for v in ["a", "b", "c", "d"] {
        queue.enqueue(v.to_string()).unwrap();
    }
    let mut out = Vec::new();
    while let Ok(v) = queue.dequeue() {
        out.push(v);
    }
    assert_eq!(out, vec!["a", "b", "c", "d"]);
    assert!(queue.is_empty());
}

#[test]
fn queue_reuses_slots_and_stays_in_order() {
    let mut queue = LockFreeQueue::with_reclaimer(ImmediateReclaimer);
    for round in 0..5 {
        queue.enqueue(round * 2).unwrap();
        queue.enqueue(round * 2 + 1).unwrap();
        assert_eq!(queue.dequeue(), Ok(round * 2));
        assert_eq!(queue.peek(), Ok(&(round * 2 + 1)));
        assert_eq!(queue.dequeue(), Ok(round * 2 + 1));
        assert!(queue.is_empty());
    }
}

#[test]
fn fresh_queue_is_empty() {
    let mut queue: LockFreeQueue<u64, _> = LockFreeQueue::new();
    assert!(queue.is_empty());
    assert_eq!(queue.dequeue(), Err(QueueError::Empty));
    queue.enqueue(9).unwrap();
    assert!(!queue.is_empty());
}

// All producers finish before the consumers start.
#[test]
fn test_queue_concurrent_operations() {
    let mut queue = LockFreeQueue::new();
    let num_producers = 5;
    let num_items_per_producer = 100;
    let total_items = num_producers * num_items_per_producer;
    for i in 0..num_producers {
        for j in 0..num_items_per_producer {
            queue.enqueue(i * num_items_per_producer + j).unwrap();
        }
    }
    let mut total_received = Vec::new();
    while let Ok(value) = queue.dequeue() {
        total_received.push(value);
    }
    total_received.sort_unstable();
    total_received.dedup();
    assert_eq!(total_received.len(), total_items);
    let expected: Vec<_> = (0..total_items).collect();
    assert_eq!(total_received, expected);
    assert!(queue.is_empty());
}
