use follower_notifier::identity::Identity;
use follower_notifier::known::KnownFollowerSet;

fn ident(id: &str) -> Identity {
    Identity {
        id_hash: id.to_string(),
        display_name: format!("user {}", id),
        avatar_url: Some(format!("https://example.invalid/{}.png", id)),
        followed_since: "2024-01-01 00:00:00".to_string(),
    }
}

fn keys(list: &[Identity]) -> Vec<String> {
    list.iter().map(|x| x.id_hash.clone()).collect()
}

#[test]
fn reconcile_tracks_exactly_the_poll_result() {
    let mut known = KnownFollowerSet::new();
    let newly = known.reconcile(&vec![ident("a"), ident("b")]);
    assert_eq!(keys(&newly), vec!["a".to_string(), "b".to_string()]);
    assert!(known.contains(&"a".to_string()));
    assert!(known.contains(&"b".to_string()));
    assert!(!known.contains(&"c".to_string()));
}

#[test]
fn repoll_unchanged_reports_nothing_new() {
    let mut known = KnownFollowerSet::new();
    let poll = vec![ident("a"), ident("b")];
    let first = known.reconcile(&poll);
    assert_eq!(first.len(), 2);
    let second = known.reconcile(&poll);
    assert!(second.is_empty());
}

#[test]
fn unfollow_drops_key_and_refollow_counts_again() {
    let mut known = KnownFollowerSet::new();
    let first = known.reconcile(&vec![ident("a"), ident("b")]);
    assert_eq!(keys(&first), vec!["a".to_string(), "b".to_string()]);

    // a disappears upstream: dropped from the set, nothing new.
    let second = known.reconcile(&vec![ident("b"), ident("c")]);
    assert_eq!(keys(&second), vec!["c".to_string()]);
    assert!(!known.contains(&"a".to_string()));
    assert!(known.contains(&"b".to_string()));
    assert!(known.contains(&"c".to_string()));

    // a re-follows: reported as new a second time.
    let third = known.reconcile(&vec![ident("a"), ident("b"), ident("c")]);
    assert_eq!(keys(&third), vec!["a".to_string()]);
}

#[test]
fn absent_then_present_is_reported_exactly_twice() {
    let mut known = KnownFollowerSet::new();
    let seen1 = known.reconcile(&vec![ident("x")]);
    assert_eq!(keys(&seen1), vec!["x".to_string()]);
    let seen2 = known.reconcile(&Vec::new());
    assert!(seen2.is_empty());
    let seen3 = known.reconcile(&vec![ident("x")]);
    assert_eq!(keys(&seen3), vec!["x".to_string()]);
}

#[test]
fn duplicate_keys_in_one_poll_count_once() {
    let mut known = KnownFollowerSet::new();
    let newly = known.reconcile(&vec![ident("a"), ident("a"), ident("b")]);
    assert_eq!(keys(&newly), vec!["a".to_string(), "b".to_string()]);
}
