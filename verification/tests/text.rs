//! The string primitives the supervisor's decisions are made with.

use tome::strutil::{str_contains, str_eq, str_starts_with};

#[test]
fn equality_is_by_characters() {
    assert!(str_eq("npx", "npx"));
    assert!(!str_eq("npx", "uvx"));
    assert!(!str_eq("npx", "npxx"));
    assert!(str_eq("", ""));
}

#[test]
fn prefix_test() {
    assert!(str_starts_with("data: {}", "data: "));
    assert!(!str_starts_with("data:", "data: "));
    assert!(!str_starts_with("xdata: y", "data: "));
    assert!(str_starts_with("anything", ""));
}

#[test]
fn substring_search() {
    assert!(str_contains("tome://apps/import", "tome://"));
    assert!(!str_contains("tome:mcp/install", "tome://"));
    assert!(str_contains("/usr/bin/npx", "npx"));
    assert!(!str_contains("node", "npx"));
    assert!(str_contains("abc", ""));
    assert!(!str_contains("ab", "abc"));
}
