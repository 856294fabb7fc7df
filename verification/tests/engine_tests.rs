use follower_notifier::engine::FollowerEngine;
use follower_notifier::identity::Identity;
use follower_notifier::token::parse_test_millis;

fn ident(id: &str) -> Identity {
    Identity {
        id_hash: id.to_string(),
        display_name: format!("user {}", id),
        avatar_url: None,
        followed_since: "2024-01-01 00:00:00".to_string(),
    }
}

fn ids(list: &[Identity]) -> Vec<String> {
    list.iter().map(|x| x.id_hash.clone()).collect()
}

#[test]
fn first_poll_reports_all_followers() {
    let mut engine = FollowerEngine::new();
    let poll = vec![ident("a"), ident("b")];
    let snap = engine.get_snapshot(Some(poll), 1_000);
    assert_eq!(ids(&snap), vec!["a".to_string(), "b".to_string()]);
}

#[test]
fn poll_turnover_keeps_unexpired_entries() {
    let mut engine = FollowerEngine::new();
    let snap1 = engine.get_snapshot(Some(vec![ident("a"), ident("b")]), 1_000);
    assert_eq!(ids(&snap1), vec!["a".to_string(), "b".to_string()]);
    // b stays, a is gone upstream, c is new: a is still queued (unexpired),
    // so the merged feed shows a, b, c in queue order.
    let snap2 = engine.get_snapshot(Some(vec![ident("b"), ident("c")]), 2_000);
    assert_eq!(
        ids(&snap2),
        vec!["a".to_string(), "b".to_string(), "c".to_string()]
    );
}

#[test]
fn failed_fetch_still_serves_queued_entry() {
    let mut engine = FollowerEngine::new();
    let snap1 = engine.get_snapshot(Some(vec![ident("a")]), 1_000);
    assert_eq!(ids(&snap1), vec!["a".to_string()]);
    // Upstream fetch failed: the queued, unexpired entry is still served.
    let snap2 = engine.get_snapshot(None, 2_000);
    assert_eq!(ids(&snap2), vec!["a".to_string()]);
}

#[test]
fn injected_event_shows_first_then_expires() {
    let mut engine = FollowerEngine::new();
    let injected = engine.inject_test_event(0);
    assert_eq!(parse_test_millis(&injected.id_hash), Some(0));

    // Ten seconds in: the test event is present and ordered first, ahead of
    // a freshly detected real follower.
    let snap = engine.get_snapshot(Some(vec![ident("a")]), 10_000);
    assert_eq!(
        ids(&snap),
        vec![injected.id_hash.clone(), "a".to_string()]
    );

    // Thirty-one seconds in: the test event has expired.
    let snap2 = engine.get_snapshot(None, 31_000);
    assert!(!ids(&snap2).contains(&injected.id_hash));
}

#[test]
fn injected_identity_embeds_time_and_random_token() {
    let mut engine = FollowerEngine::new();
    let injected = engine.inject_test_event(5);
    assert!(injected.id_hash.starts_with("test_5_"));
    // "test_" + "5" + "_" + a 36-character random token.
    assert_eq!(injected.id_hash.chars().count(), 5 + 1 + 1 + 36);
    assert_eq!(parse_test_millis(&injected.id_hash), Some(5));
    let other = engine.inject_test_event(5);
    assert_ne!(injected.id_hash, other.id_hash);
}

#[test]
fn empty_poll_drops_known_keys() {
    let mut engine = FollowerEngine::new();
    let snap1 = engine.get_snapshot(Some(vec![ident("b")]), 0);
    assert_eq!(ids(&snap1), vec!["b".to_string()]);
    // The upstream reports zero followers: a successful empty result is
    // reconciled, so b's key is dropped from the known set.
    engine.get_snapshot(Some(Vec::new()), 1_000);
    // b re-follows: counted as new again and re-enqueued, stamped 2000.
    let snap3 = engine.get_snapshot(Some(vec![ident("b")]), 2_000);
    assert_eq!(ids(&snap3), vec!["b".to_string()]);
    // At 31s the stamp from t=0 is expired but the re-enqueued one is not:
    // b is still served, which only happens if the re-follow was enqueued.
    let snap4 = engine.get_snapshot(None, 31_000);
    assert_eq!(ids(&snap4), vec!["b".to_string()]);
}

#[test]
fn failed_fetch_keeps_known_keys() {
    let mut engine = FollowerEngine::new();
    let snap1 = engine.get_snapshot(Some(vec![ident("a")]), 0);
    assert_eq!(ids(&snap1), vec!["a".to_string()]);
    // A failed fetch leaves the known set untouched...
    engine.get_snapshot(None, 1_000);
    // ...so a's unchanged presence upstream is not counted as new again,
    // and nothing is re-enqueued.
    let snap3 = engine.get_snapshot(Some(vec![ident("a")]), 2_000);
    assert_eq!(ids(&snap3), vec!["a".to_string()]);
    // At 31s the only stamp (t=0) is expired and the empty-handed poll
    // serves nothing.
    let snap4 = engine.get_snapshot(None, 31_000);
    assert!(snap4.is_empty());
}

#[test]
fn injected_identity_carries_placeholder_fields() {
    let mut engine = FollowerEngine::new();
    let injected = engine.inject_test_event(123);
    assert_eq!(injected.display_name, "Test User");
    assert!(injected.avatar_url.is_none());
    assert!(injected.id_hash.starts_with("test_123_"));
}

#[test]
fn real_entry_expires_after_window() {
    let mut engine = FollowerEngine::new();
    let snap1 = engine.get_snapshot(Some(vec![ident("a")]), 1_000);
    assert_eq!(ids(&snap1), vec!["a".to_string()]);
    // 29999 ms later the entry is within the window; the upstream no longer
    // reports the follower and nothing new arrives.
    let snap2 = engine.get_snapshot(None, 30_999);
    assert_eq!(ids(&snap2), vec!["a".to_string()]);
    // 30001 ms after detection the entry is evicted.
    let snap3 = engine.get_snapshot(None, 31_001);
    assert!(snap3.is_empty());
}
