use aba_protection::{EpochReclaimer, HazardPointers, ImmediateReclaimer, LockFreeStack, StackError};

#[test]
fn main_test_stack_basic_operations() {
    let mut stack = LockFreeStack::new();
    assert!(stack.is_empty());

    stack.push(1).unwrap();
    stack.push(2).unwrap();
    stack.push(3).unwrap();

    assert_eq!(stack.len(), 3);
    assert_eq!(stack.pop(), Some(3));
    assert_eq!(stack.pop(), Some(2));
    assert_eq!(stack.pop(), Some(1));
    assert_eq!(stack.pop(), None);
}

#[test]
fn stack_test_stack_basic_operations() {
    let mut stack = LockFreeStack::new();
    assert!(stack.is_empty());

    stack.push(1).unwrap();
    stack.push(2).unwrap();
    stack.push(3).unwrap();

    assert_eq!(stack.len(), 3);
    assert_eq!(stack.pop(), Some(3));
    assert_eq!(stack.pop(), Some(2));
    assert_eq!(stack.pop(), Some(1));
    assert_eq!(stack.pop(), None);
}

#[test]
fn test_stack_capacity() {
    let mut stack = LockFreeStack::with_capacity(2);

    assert!(stack.push(1).is_ok());
    assert!(stack.push(2).is_ok());
    assert_eq!(stack.push(3), Err(StackError::CapacityExceeded));

    assert_eq!(stack.pop(), Some(2));
    assert!(stack.push(3).is_ok());
}

#[test]
fn test_garbage_collection() {
    let mut stack = LockFreeStack::new();

    for i in 0..1000 {
        stack.push(i).unwrap();
    }
    for _ in 0..1000 {
        stack.pop();
    }

    stack.try_collect_garbage();

    stack.push(42).unwrap();
    assert_eq!(stack.pop(), Some(42));
}

// The snapshot is taken first, the other operations run while its holder
// waits, and its compare-and-swap comes last.
#[test]
fn main_test_aba_prevention() {
    let mut stack = LockFreeStack::new();
    stack.push(1).unwrap();
    stack.push(2).unwrap();

    let old_head = stack.load_head();

    assert_eq!(stack.pop(), Some(2));
    assert_eq!(stack.pop(), Some(1));
    stack.push(3).unwrap();

    assert!(stack.try_pop_at(old_head).is_err());
}

#[test]
fn stack_test_aba_prevention() {
    let mut stack = LockFreeStack::new();
    stack.push(1).unwrap();
    stack.push(2).unwrap();

    let old_head = stack.load_head();

    assert_eq!(stack.pop(), Some(2));
    assert_eq!(stack.pop(), Some(1));
    stack.push(3).unwrap();

    assert!(stack.try_pop_at(old_head).is_err());
}

#[test]
fn test_basic_operations() {
    let mut stack = LockFreeStack::with_reclaimer(HazardPointers::new(), None);
    assert!(stack.is_empty());

    stack.push(1).expect("Push should succeed");
    stack.push(2).expect("Push should succeed");
    stack.push(3).expect("Push should succeed");

    assert_eq!(stack.len(), 3);
    assert_eq!(stack.pop(), Some(3));
    assert_eq!(stack.pop(), Some(2));
    assert_eq!(stack.pop(), Some(1));
    assert_eq!(stack.pop(), None);
    assert!(stack.is_empty());
}

// Thread 1 protects the head and is held up; thread 2 pops both values and
// pushes them back in reverse order; then thread 1 completes its pop.
#[test]
fn lib_test_aba_prevention() {
    let mut stack = LockFreeStack::with_reclaimer(HazardPointers::new(), None);
    stack.push(1).expect("Push should succeed");
    stack.push(2).expect("Push should succeed");

    let thread1: u64 = 1;
    stack.protect_head(thread1);

    let val1 = stack.pop().expect("First pop should succeed");
    let val2 = stack.pop().expect("Second pop should succeed");
    stack.push(val1).expect("Push should succeed");
    stack.push(val2).expect("Push should succeed");

    let thread1_result = stack.pop();
    stack.release(thread1);

    assert!(thread1_result.is_some());
}

#[test]
fn test_push_and_pop_single_threaded() {
    let mut stack = LockFreeStack::with_reclaimer(ImmediateReclaimer, None);
    stack.push(1).unwrap();
    stack.push(2).unwrap();
    stack.push(3).unwrap();

    assert_eq!(stack.pop(), Some(3));
    assert_eq!(stack.pop(), Some(2));
    assert_eq!(stack.pop(), Some(1));
    assert_eq!(stack.pop(), None);
}

#[test]
fn test_empty_stack() {
    let mut stack: LockFreeStack<i32, ImmediateReclaimer> = LockFreeStack::with_reclaimer(ImmediateReclaimer, None);
    assert_eq!(stack.pop(), None);
}

#[test]
fn test_integer_conversion_edge_cases() {
    let mut stack = LockFreeStack::with_reclaimer(ImmediateReclaimer, None);

    stack.push(i32::MAX).unwrap();
    assert_eq!(stack.pop(), Some(i32::MAX));

    stack.push(i32::MIN).unwrap();
    assert_eq!(stack.pop(), Some(i32::MIN));

    stack.push(0).unwrap();
    assert_eq!(stack.pop(), Some(0));
}

#[test]
fn test_stack_operations_visualization() {
    let mut stack = LockFreeStack::with_reclaimer(ImmediateReclaimer, None);
    println!("Empty stack: null");

    stack.push(1).unwrap();
    println!("After push(1): [1] → null");

    stack.push(2).unwrap();
    println!("After push(2): [2] → [1] → null");

    stack.pop();
    println!("After pop():   [1] → null");

    assert_eq!(stack.pop(), Some(1));
    println!("After pop():   null");
}

#[test]
fn lifo_drain_reverses_pushes() {
    let mut stack = LockFreeStack::new();
    for v in [10, 20, 30, 40] {
        stack.push(v).unwrap();
    }
    let mut out = Vec::new();
    while let Some(v) = stack.pop() {
        out.push(v);
    }
    assert_eq!(out, vec![40, 30, 20, 10]);
}

#[test]
fn conservation_of_pushes_and_pops() {
    let mut stack = LockFreeStack::new();
    for i in 0..10 {
        stack.push(i).unwrap();
        if i % 3 == 0 {
            assert!(stack.pop().is_some());
        }
    }
    assert_eq!(stack.len(), 10 - 4);
}

#[test]
fn bounded_stack_scenario() {
    let mut stack = LockFreeStack::with_capacity(2);
    assert_eq!(stack.push(1), Ok(()));
    assert_eq!(stack.push(2), Ok(()));
    assert_eq!(stack.push(3), Err(StackError::CapacityExceeded));
    assert_eq!(stack.pop(), Some(2));
    assert_eq!(stack.push(3), Ok(()));
    assert_eq!(stack.len(), 2);
}

#[test]
fn zero_capacity_refuses_every_push() {
    let mut stack: LockFreeStack<u8, EpochReclaimer> = LockFreeStack::with_capacity(0);
    assert_eq!(stack.push(7), Err(StackError::CapacityExceeded));
    assert!(stack.is_empty());
}

#[test]
fn head_version_moves_on_every_change() {
    let mut stack = LockFreeStack::with_reclaimer(ImmediateReclaimer, None);
    let v0 = stack.load_head().version;
    stack.push(5).unwrap();
    let v1 = stack.load_head().version;
    stack.pop();
    let v2 = stack.load_head().version;
    assert_eq!(v1, v0 + 1);
    assert_eq!(v2, v0 + 2);
}

#[test]
fn stale_snapshot_fails_even_when_the_slot_is_reused() {
    // With immediate reclamation the popped slot is reused by the next push,
    // so the head address repeats; only the version tells the two apart.
    let mut stack = LockFreeStack::with_reclaimer(ImmediateReclaimer, None);
    stack.push(1).unwrap();
    let snapshot = stack.load_head();
    assert_eq!(stack.pop(), Some(1));
    stack.push(2).unwrap();
    let now = stack.load_head();
    assert_eq!(now.ptr, snapshot.ptr);
    assert_ne!(now.version, snapshot.version);
    assert_eq!(stack.try_pop_at(snapshot), Err(now));
    assert_eq!(stack.try_pop_at(now), Ok(Some(2)));
}

#[test]
fn protected_node_is_not_reused_under_hazard_pointers() {
    let mut stack = LockFreeStack::with_reclaimer(HazardPointers::new(), None);
    stack.push(1).unwrap();
    let snapshot = stack.protect_head(7);
    assert_eq!(stack.pop(), Some(1));
    stack.push(2).unwrap();
    assert_ne!(stack.load_head().ptr, snapshot.ptr);
    stack.release(7);
    assert!(stack.try_pop_at(snapshot).is_err());
}

// Multi-threaded scenarios, run in one schedule: every push and pop is one
// step on the stack, so any interleaving of them is some such order.

#[test]
fn main_test_stack_concurrent_operations() {
    let mut stack = LockFreeStack::new();
    for i in 0..10 {
        stack.push(i).unwrap();
    }
    assert_eq!(stack.len(), 10);
}

#[test]
fn stack_test_stack_concurrent_operations() {
    let mut stack = LockFreeStack::new();
    for i in 0..1000 {
        stack.push(i).unwrap();
    }
    for _ in 0..500 {
        stack.pop();
    }
    assert_eq!(stack.len(), 500);
}

#[test]
fn test_stack_concurrent_mixed_operations() {
    let mut stack = LockFreeStack::new();
    for i in 0..10 {
        for j in 0..100 {
            if j % 2 == 0 {
                stack.push(i * 100 + j).unwrap();
            } else {
                stack.pop();
            }
        }
    }
}

#[test]
fn test_concurrent_operations() {
    let mut stack = LockFreeStack::with_reclaimer(HazardPointers::new(), None);
    let threads = 4;
    let operations_per_thread = 100;
    for i in 0..threads {
        for j in 0..operations_per_thread {
            stack.push(i * operations_per_thread + j).expect("Push should succeed");
        }
    }
    for _ in 0..threads / 2 {
        for _ in 0..operations_per_thread {
            let _ = stack.pop();
        }
    }
    assert_eq!(stack.len(), operations_per_thread * threads / 2);
    while stack.pop().is_some() {}
}

#[test]
fn test_multiple_threads_push() {
    let mut stack = LockFreeStack::with_reclaimer(ImmediateReclaimer, None);
    let thread_count = 4;
    let values_per_thread = 100;
    for thread_id in 0..thread_count {
        for i in 0..values_per_thread {
            stack.push(thread_id * values_per_thread + i).unwrap();
        }
    }
    let mut popped_count = 0;
    while stack.pop().is_some() {
        popped_count += 1;
    }
    assert_eq!(popped_count, thread_count * values_per_thread);
}

#[test]
fn test_concurrent_push_and_pop() {
    let mut stack = LockFreeStack::with_reclaimer(ImmediateReclaimer, None);
    let push_thread_count: usize = 3;
    let values_per_thread: usize = 100;
    let mut all_popped = std::collections::HashSet::new();
    for thread_id in 0..push_thread_count {
        for i in 0..values_per_thread {
            stack.push(i32::try_from(thread_id * values_per_thread + i).unwrap()).unwrap();
            if i % 3 == 0 {
                if let Some(value) = stack.pop() {
                    all_popped.insert(value);
                }
            }
        }
    }
    while let Some(value) = stack.pop() {
        all_popped.insert(value);
    }
    assert_eq!(
        all_popped.len(),
        values_per_thread * push_thread_count,
        "All pushed values should be popped exactly once"
    );
}

#[test]
fn pinned_reader_keeps_the_popped_address_out_of_reuse() {
    let mut stack = LockFreeStack::new();
    stack.push(1).unwrap();
    stack.push(2).unwrap();
    let reader: u64 = 9;
    let h = stack.protect_head(reader);
    assert_eq!(stack.pop(), Some(2));
    assert_eq!(stack.pop(), Some(1));
    stack.push(3).unwrap();
    assert_ne!(stack.load_head().ptr, h.ptr);
    assert!(stack.try_pop_at(h).is_err());
    stack.release(reader);
    stack.try_collect_garbage();
    assert_eq!(stack.pop(), Some(3));
}
