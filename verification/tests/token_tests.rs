use follower_notifier::token::{make_test_id, parse_test_millis};

#[test]
fn parse_reads_embedded_millis() {
    assert_eq!(parse_test_millis("test_123_abc"), Some(123));
    assert_eq!(parse_test_millis("test_0_x"), Some(0));
    assert_eq!(
        parse_test_millis("test_18446744073709551615_x"),
        Some(u64::MAX)
    );
}

#[test]
fn parse_rejects_wrong_shapes() {
    assert_eq!(parse_test_millis(""), None);
    assert_eq!(parse_test_millis("test_"), None);
    assert_eq!(parse_test_millis("toast_1_x"), None);
    // Digits but no separator behind them.
    assert_eq!(parse_test_millis("test_123"), None);
    // No digits at all.
    assert_eq!(parse_test_millis("test__x"), None);
    assert_eq!(parse_test_millis("test_abc_x"), None);
    // A real follower key.
    assert_eq!(parse_test_millis("9f86d081884c7d65"), None);
}

#[test]
fn parse_rejects_oversized_numbers() {
    // One past u64::MAX.
    assert_eq!(parse_test_millis("test_18446744073709551616_x"), None);
    assert_eq!(
        parse_test_millis("test_99999999999999999999999999_x"),
        None
    );
}

#[test]
fn rendered_keys_parse_back() {
    assert_eq!(make_test_id(42, "abc"), "test_42_abc");
    assert_eq!(make_test_id(0, ""), "test_0_");
    for millis in [0u64, 1, 9, 10, 30_000, 1_700_000_000_000, u64::MAX] {
        let id = make_test_id(millis, "deadbeef");
        assert_eq!(parse_test_millis(&id), Some(millis));
    }
}

#[test]
fn parse_handles_multibyte_text() {
    assert_eq!(parse_test_millis("test_77_유저"), Some(77));
    assert_eq!(parse_test_millis("테스트"), None);
}
