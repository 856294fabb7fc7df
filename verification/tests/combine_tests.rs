use follower_notifier::combine::combine;
use follower_notifier::identity::Identity;

fn ident(id: &str) -> Identity {
    Identity {
        id_hash: id.to_string(),
        display_name: "someone".to_string(),
        avatar_url: None,
        followed_since: "2024-01-01 00:00:00".to_string(),
    }
}

fn ids(list: &[Identity]) -> Vec<String> {
    list.iter().map(|x| x.id_hash.clone()).collect()
}

#[test]
fn combiner_orders_test_then_real_then_poll() {
    let merged = combine(
        &vec![ident("t1")],
        &vec![ident("r1"), ident("r2")],
        &vec![ident("p1")],
    );
    assert_eq!(
        ids(&merged),
        vec![
            "t1".to_string(),
            "r1".to_string(),
            "r2".to_string(),
            "p1".to_string()
        ]
    );
}

#[test]
fn combiner_never_emits_a_key_twice() {
    // The same key appears in all three sources and twice in one of them:
    // only its first occurrence survives.
    let merged = combine(
        &vec![ident("dup"), ident("t2"), ident("dup")],
        &vec![ident("dup"), ident("r1")],
        &vec![ident("dup"), ident("p1")],
    );
    assert_eq!(
        ids(&merged),
        vec![
            "dup".to_string(),
            "t2".to_string(),
            "r1".to_string(),
            "p1".to_string()
        ]
    );
}

#[test]
fn combiner_keeps_poll_leftovers_once() {
    // A follower still reported upstream but present in neither queue is
    // appended as a best-effort leftover.
    let merged = combine(&Vec::new(), &vec![ident("r1")], &vec![ident("r1"), ident("p1")]);
    assert_eq!(ids(&merged), vec!["r1".to_string(), "p1".to_string()]);
}

#[test]
fn combiner_of_empty_sources_is_empty() {
    let merged = combine(&Vec::new(), &Vec::new(), &Vec::new());
    assert!(merged.is_empty());
}
