use priority_blocking_queue::{Error, PriorityBlockingQueue};

#[test]
fn it_should_create_new_queue() {
    let q = PriorityBlockingQueue::<i32>::new(10);
    assert_eq!(q.len(), 0);
}

#[test]
fn it_should_push_and_pop_elements_from_the_queue() {
    let mut q = PriorityBlockingQueue::new(10);
    let _ = q.push(3);
    let _ = q.push(4);
    let _ = q.push(2);

    assert_eq!(q.pop(), 4);
    assert_eq!(q.pop(), 3);
    assert_eq!(q.pop(), 2);
}

#[test]
fn it_should_return_error_on_push_when_capcity_reached() {
    let mut q = PriorityBlockingQueue::new(2);
    assert!(q.push(1).is_ok());
    assert!(q.push(2).is_ok());
    assert!(q.push(3).is_err());
    assert_eq!(q.pop(), 2);
    assert!(q.push(3).is_ok());
}

#[test]
fn it_should_handle_boxed_values() {
    let mut q = PriorityBlockingQueue::new(10);
    let _ = q.push(Box::new(2));
    let _ = q.push(Box::new(1));
    let _ = q.push(Box::new(3));
    assert_eq!(*q.pop(), 3);
    assert_eq!(*q.pop(), 2);
    assert_eq!(*q.pop(), 1);
}

#[test]
fn three_pushes_leave_in_descending_order_and_empty_the_queue() {
    let mut q = PriorityBlockingQueue::new(10);
    assert_eq!(q.push(3), Ok(()));
    assert_eq!(q.push(4), Ok(()));
    assert_eq!(q.push(2), Ok(()));
    assert_eq!(q.len(), 3);
    assert_eq!(q.pop(), 4);
    assert_eq!(q.pop(), 3);
    assert_eq!(q.pop(), 2);
    assert_eq!(q.len(), 0);
}

#[test]
fn a_pop_from_a_full_queue_lets_the_refused_value_in() {
    let mut q = PriorityBlockingQueue::new(2);
    assert_eq!(q.push(1), Ok(()));
    assert_eq!(q.push(2), Ok(()));
    assert_eq!(q.push(3), Err(Error::QueueCapacityReached));
    assert_eq!(q.pop(), 2);
    assert_eq!(q.push(3), Ok(()));
    assert_eq!(q.len(), 2);
    assert_eq!(q.pop(), 3);
    assert_eq!(q.pop(), 1);
}

#[test]
fn a_full_queue_names_the_reason_it_turns_a_push_away() {
    let mut q = PriorityBlockingQueue::new(1);
    assert_eq!(q.push(7u64), Ok(()));
    assert_eq!(q.push(8u64), Err(Error::QueueCapacityReached));
    assert_eq!(q.len(), 1);
    assert_eq!(q.pop(), 7);
}

#[test]
fn a_queue_fills_up_at_its_capacity_and_a_refused_push_changes_nothing() {
    for capacity in [0usize, 1, 2, 5, 33] {
        let mut q = PriorityBlockingQueue::new(capacity);
        for i in 0..capacity {
            assert_eq!(q.push(i), Ok(()));
            assert_eq!(q.len(), i + 1);
        }
        assert_eq!(q.push(capacity), Err(Error::QueueCapacityReached));
        assert_eq!(q.len(), capacity);
        assert_eq!(q.push(0), Err(Error::QueueCapacityReached));
        assert_eq!(q.len(), capacity);
        let mut left: Vec<usize> = Vec::new();
        while let Some(highest) = q.try_pop() {
            left.push(highest);
        }
        let expected: Vec<usize> = (0..capacity).rev().collect();
        assert_eq!(left, expected);
    }
}

#[test]
fn a_pop_makes_room_for_exactly_one_push() {
    let mut q = PriorityBlockingQueue::new(3);
    assert_eq!(q.push(10), Ok(()));
    assert_eq!(q.push(30), Ok(()));
    assert_eq!(q.push(20), Ok(()));
    assert_eq!(q.push(40), Err(Error::QueueCapacityReached));
    assert_eq!(q.pop(), 30);
    assert_eq!(q.len(), 2);
    assert_eq!(q.push(40), Ok(()));
    assert_eq!(q.push(50), Err(Error::QueueCapacityReached));
    assert_eq!(q.len(), 3);
    assert_eq!(q.pop(), 40);
    assert_eq!(q.pop(), 20);
    assert_eq!(q.pop(), 10);
    assert_eq!(q.len(), 0);
}

#[test]
fn a_queue_without_capacity_accepts_nothing() {
    let mut q = PriorityBlockingQueue::new(0);
    assert_eq!(q.len(), 0);
    assert_eq!(q.push(1), Err(Error::QueueCapacityReached));
    assert_eq!(q.len(), 0);
    assert_eq!(q.try_pop(), None);
    assert_eq!(q.len(), 0);
}

#[test]
fn a_very_large_capacity_can_be_asked_for() {
    let mut q = PriorityBlockingQueue::new(usize::MAX);
    assert_eq!(q.len(), 0);
    assert_eq!(q.push(5u64), Ok(()));
    assert_eq!(q.push(9u64), Ok(()));
    assert_eq!(q.pop(), 9);
    assert_eq!(q.len(), 1);
}

#[test]
fn try_pop_says_when_there_is_nothing_to_take() {
    let mut q = PriorityBlockingQueue::new(4);
    assert_eq!(q.try_pop(), None);
    assert_eq!(q.len(), 0);
    assert_eq!(q.push(-5), Ok(()));
    assert_eq!(q.push(8), Ok(()));
    assert_eq!(q.try_pop(), Some(8));
    assert_eq!(q.len(), 1);
    assert_eq!(q.try_pop(), Some(-5));
    assert_eq!(q.try_pop(), None);
    assert_eq!(q.len(), 0);
}

#[test]
fn a_single_element_comes_back_as_it_went_in() {
    let mut q = PriorityBlockingQueue::new(10);
    assert_eq!(q.push(1), Ok(()));
    assert_eq!(q.pop(), 1);
    assert_eq!(q.len(), 0);
}

#[test]
fn equal_values_all_come_out() {
    let mut q = PriorityBlockingQueue::new(8);
    for value in [5, 1, 5, 5, 3, 1, 3, 5] {
        assert_eq!(q.push(value), Ok(()));
    }
    let mut out: Vec<i32> = Vec::new();
    while let Some(highest) = q.try_pop() {
        out.push(highest);
    }
    assert_eq!(out, vec![5, 5, 5, 5, 3, 3, 1, 1]);
}

#[test]
fn elements_that_are_not_copied_keep_their_order() {
    let mut q = PriorityBlockingQueue::new(5);
    for word in ["pear", "apple", "quince", "fig", "plum"] {
        assert_eq!(q.push(String::from(word)), Ok(()));
    }
    assert_eq!(q.push(String::from("kiwi")), Err(Error::QueueCapacityReached));
    let mut out: Vec<String> = Vec::new();
    while let Some(highest) = q.try_pop() {
        out.push(highest);
    }
    assert_eq!(out, vec!["quince", "plum", "pear", "fig", "apple"]);
}

#[test]
fn many_values_leave_sorted_from_highest_to_lowest() {
    let count: usize = 2000;
    let mut q = PriorityBlockingQueue::new(count);
    let mut pushed: Vec<u64> = Vec::new();
    let mut seed: u64 = 0x2545_f491_4f6c_dd1d;
    for _ in 0..count {
        seed = seed.wrapping_mul(6364136223846793005).wrapping_add(1442695040888963407);
        let value = (seed >> 33) % 500;
        pushed.push(value);
        assert_eq!(q.push(value), Ok(()));
    }
    assert_eq!(q.len(), count);
    let mut popped: Vec<u64> = Vec::new();
    for remaining in (0..count).rev() {
        popped.push(q.pop());
        assert_eq!(q.len(), remaining);
    }
    for pair in popped.windows(2) {
        assert!(pair[0] >= pair[1]);
    }
    pushed.sort();
    pushed.reverse();
    assert_eq!(popped, pushed);
}

#[test]
fn pushes_and_pops_in_turn_hand_each_element_out_once() {
    let mut q = PriorityBlockingQueue::new(16);
    let mut pushed: Vec<u32> = Vec::new();
    let mut popped: Vec<u32> = Vec::new();
    let mut seed: u32 = 12345;
    for round in 0..400u32 {
        seed = seed.wrapping_mul(1664525).wrapping_add(1013904223);
        if (seed >> 16) % 3 != 0 {
            let value = (seed >> 8) % 50;
            let was = q.len();
            match q.push(value) {
                Ok(()) => {
                    assert!(was < 16);
                    assert_eq!(q.len(), was + 1);
                    pushed.push(value);
                }
                Err(Error::QueueCapacityReached) => {
                    assert_eq!(was, 16);
                    assert_eq!(q.len(), 16);
                }
            }
        } else {
            let was = q.len();
            match q.try_pop() {
                Some(highest) => {
                    assert_eq!(q.len(), was - 1);
                    popped.push(highest);
                }
                None => assert_eq!(was, 0),
            }
        }
        assert!(q.len() <= 16, "round {}", round);
    }
    let mut tail: Vec<u32> = Vec::new();
    while let Some(highest) = q.try_pop() {
        tail.push(highest);
    }
    for pair in tail.windows(2) {
        assert!(pair[0] >= pair[1]);
    }
    popped.extend(tail);
    pushed.sort();
    popped.sort();
    assert_eq!(popped, pushed);
}

#[test]
fn the_value_handed_out_is_the_highest_of_those_waiting() {
    let mut q = PriorityBlockingQueue::new(256);
    let mut waiting: Vec<i64> = Vec::new();
    let mut seed: i64 = 99;
    for step in 0..300 {
        seed = seed.wrapping_mul(6364136223846793005).wrapping_add(1442695040888963407);
        let value = (seed >> 40) % 1000;
        if step % 4 == 3 {
            let highest = *waiting.iter().max().unwrap();
            assert_eq!(q.pop(), highest);
            let at = waiting.iter().position(|v| *v == highest).unwrap();
            waiting.remove(at);
        } else {
            assert_eq!(q.push(value), Ok(()));
            waiting.push(value);
        }
        assert_eq!(q.len(), waiting.len());
    }
}
