use instancer::expiry::ExpiryQueue;
use instancer::models::TimeSinceEpoch;

fn push(q: &mut ExpiryQueue, u: &str, c: &str, t: u64) {
    q.push(u.to_string(), c.to_string(), TimeSinceEpoch(t));
}

#[test]
fn empty_queue_has_nothing() {
    let mut q = ExpiryQueue::new();
    assert!(q.peek().is_none());
    assert!(q.pop().is_none());
    assert!(q.take_due(TimeSinceEpoch(u64::MAX)).is_empty());
}

#[test]
fn pops_earliest_first() {
    let mut q = ExpiryQueue::new();
    push(&mut q, "u1", "c1", 300);
    push(&mut q, "u1", "c2", 100);
    push(&mut q, "u2", "c1", 200);
    assert_eq!(q.peek().unwrap().stop_time, TimeSinceEpoch(100));
    let order: Vec<u64> = std::iter::from_fn(|| q.pop()).map(|e| e.stop_time.0).collect();
    assert_eq!(order, vec![100, 200, 300]);
}

#[test]
fn push_replaces_the_key() {
    let mut q = ExpiryQueue::new();
    push(&mut q, "u1", "c1", 100);
    push(&mut q, "u1", "c1", 500);
    let e = q.pop().unwrap();
    assert_eq!((e.user_id.as_str(), e.challenge_id.as_str(), e.stop_time.0), ("u1", "c1", 500));
    assert!(q.pop().is_none());
}

#[test]
fn pop_key_removes_only_that_key() {
    let mut q = ExpiryQueue::new();
    push(&mut q, "u1", "c1", 100);
    push(&mut q, "u1", "c2", 200);
    q.pop_key("u1", "c1");
    q.pop_key("u9", "c9");
    let e = q.pop().unwrap();
    assert_eq!(e.challenge_id, "c2");
    assert!(q.pop().is_none());
}

#[test]
fn take_due_splits_at_now() {
    let mut q = ExpiryQueue::new();
    push(&mut q, "u1", "c1", 300);
    push(&mut q, "u1", "c2", 100);
    push(&mut q, "u2", "c1", 200);
    let due: Vec<u64> = q.take_due(TimeSinceEpoch(200)).into_iter().map(|e| e.stop_time.0).collect();
    assert_eq!(due, vec![100, 200]);
    assert_eq!(q.peek().unwrap().stop_time, TimeSinceEpoch(300));
}
