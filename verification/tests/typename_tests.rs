use firedbg_rust_debugger::typename::wildcard_match;

#[test]
fn test_wildcard_0() {
    assert!(wildcard_match("abc", "abc"));
    assert!(!wildcard_match("abc", "abcd"));
    assert!(!wildcard_match("abcd", "abc"));
}

#[test]
fn test_wildcard_1() {
    assert!(wildcard_match("abc..", "abcdefg"));
    assert!(!wildcard_match("abc..", "abc"));
    assert!(wildcard_match("..efg", "abcdefg"));
    assert!(!wildcard_match("..efg", "efg"));
    assert!(wildcard_match("ab..c", "ab____c"));
    assert!(wildcard_match("ab..c", "ab!c"));
    assert!(!wildcard_match("ab..c", "a___bc"));
    assert!(!wildcard_match("ab..c", "ab____cd"));
    assert!(wildcard_match("(..)", "({})"));
    assert!(wildcard_match("(..)", "(())"));
}

#[test]
fn test_wildcard_2() {
    assert!(wildcard_match("hello..world..!", "hello world !"));
    assert!(!wildcard_match("hello..world..!", "helloworld!"));
    assert!(wildcard_match("hello..world..!", "hello 100 worlds!"));
    assert!(!wildcard_match("hello..world..!", "hello world"));
    assert!(!wildcard_match("hello..world..!", "hello worlds"));
    assert!(wildcard_match("hello..world..", "hello world~~~"));
    assert!(wildcard_match("..hello..world", "happy hello world"));
    assert!(wildcard_match(
        "..hello..world..",
        "happy hello world forever"
    ));
    assert!(!wildcard_match("..hello..world..", "hello world"));
}

#[test]
fn wildcard_gaps_are_never_empty() {
    assert!(!wildcard_match("ab..c", "abc"));
    assert!(wildcard_match("ab..c", "abxc"));
    assert!(!wildcard_match("..x", "x"));
    assert!(!wildcard_match("..x", ""));
    assert!(!wildcard_match("..", ""));
    assert!(wildcard_match("..", "é"));
    assert!(wildcard_match("..x", "éx"));
    assert!(!wildcard_match("a....b", "a_b"));
    assert!(wildcard_match("a....b", "a__b"));
}

#[test]
fn wildcard_parts_need_not_come_first() {
    // the first `b` follows no gap, a later one does
    assert!(wildcard_match("a..b..c", "abxbyc"));
    assert!(wildcard_match("a..b..c", "axbyc"));
    assert!(!wildcard_match("a..b..c", "axbc"));
}
