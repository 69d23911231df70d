use lunabot_core::queue::UnorderedQueue;

#[test]
fn queue_starts_with_given_items() {
    let q = UnorderedQueue::new(vec![0u32; 4]);
    assert_eq!(q.capacity(), 4);
    assert_eq!(q.items, vec![0, 0, 0, 0]);
    assert_eq!(q.next, 0);
}

#[test]
fn queue_overwrites_oldest() {
    let mut q = UnorderedQueue::new(vec![0u32; 3]);
    for v in 1..=5u32 {
        q.push(v);
    }
    let mut held = q.items.clone();
    held.sort();
    assert_eq!(held, vec![3, 4, 5]);
    assert_eq!(q.items, vec![4, 5, 3]);
    assert_eq!(q.next, 2);
}

#[test]
fn queue_partly_filled_keeps_initial_values() {
    let mut q = UnorderedQueue::new(vec![7u32; 4]);
    q.push(1);
    q.push(2);
    assert_eq!(q.items, vec![1, 2, 7, 7]);
}
