use follower_notifier::identity::Identity;
use follower_notifier::queue::{EventQueue, TestQueue};

fn ident(id: &str) -> Identity {
    Identity {
        id_hash: id.to_string(),
        display_name: "someone".to_string(),
        avatar_url: None,
        followed_since: "2024-01-01 00:00:00".to_string(),
    }
}

fn ids(list: &[Identity]) -> Vec<String> {
    list.iter().map(|x| x.id_hash.clone()).collect()
}

#[test]
fn enqueue_then_snapshot_includes_entry() {
    let mut q = EventQueue::new();
    q.enqueue(ident("a"), 1_000);
    assert_eq!(ids(&q.snapshot()), vec!["a".to_string()]);
}

#[test]
fn entry_retained_just_inside_window() {
    let mut q = EventQueue::new();
    q.enqueue(ident("a"), 1_000);
    q.evict_expired(1_000 + 29_999);
    assert_eq!(ids(&q.snapshot()), vec!["a".to_string()]);
    // At exactly the window boundary the age does not yet exceed it.
    q.evict_expired(1_000 + 30_000);
    assert_eq!(ids(&q.snapshot()), vec!["a".to_string()]);
}

#[test]
fn entry_evicted_just_past_window() {
    let mut q = EventQueue::new();
    q.enqueue(ident("a"), 1_000);
    q.evict_expired(1_000 + 30_001);
    assert!(q.snapshot().is_empty());
}

#[test]
fn eviction_stops_at_first_survivor() {
    let mut q = EventQueue::new();
    q.enqueue(ident("old"), 1_000);
    q.enqueue(ident("young"), 20_000);
    q.evict_expired(32_000);
    assert_eq!(ids(&q.snapshot()), vec!["young".to_string()]);
}

#[test]
fn test_queue_uses_embedded_timestamp() {
    let mut q = TestQueue::new();
    q.enqueue(ident("test_1000_token"));
    q.evict_expired(30_999);
    assert_eq!(ids(&q.snapshot()), vec!["test_1000_token".to_string()]);
    q.evict_expired(31_001);
    assert!(q.snapshot().is_empty());
}

#[test]
fn malformed_test_entry_counts_as_expired() {
    let mut q = TestQueue::new();
    // No embedded timestamp parses out of this key: it is treated as
    // already expired and cannot block the entries behind it.
    q.enqueue(ident("not_a_test_token"));
    q.enqueue(ident("test_50000_token"));
    q.evict_expired(60_000);
    assert_eq!(ids(&q.snapshot()), vec!["test_50000_token".to_string()]);
}
