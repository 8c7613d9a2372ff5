//! Tests for the prefix tree.

use passmgr::trie::Trie;

#[test]
fn test_insert_and_contains() {
    let mut trie = Trie::new();

    trie.insert("hello");
    trie.insert("world");
    trie.insert("help");

    assert!(trie.contains("hello"));
    assert!(trie.contains("world"));
    assert!(trie.contains("help"));
    assert!(!trie.contains("hel"));
    assert!(!trie.contains("unknown"));
}

#[test]
fn test_empty_string() {
    let mut trie = Trie::new();

    trie.insert("");
    assert!(!trie.contains(""));
    assert_eq!(trie.len(), 0);
}

#[test]
fn test_remove() {
    let mut trie = Trie::new();

    trie.insert("hello");
    trie.insert("help");
    assert_eq!(trie.len(), 2);

    assert!(trie.remove("hello"));
    assert!(!trie.contains("hello"));
    assert!(trie.contains("help"));
    assert_eq!(trie.len(), 1);

    assert!(!trie.remove("hello"));
    assert!(!trie.remove("unknown"));
}

#[test]
fn test_completions() {
    let mut trie = Trie::new();

    trie.insert("add");
    trie.insert("admin");
    trie.insert("administrator");
    trie.insert("get");
    trie.insert("help");

    let completions = trie.completions("ad");
    assert_eq!(completions, vec!["add".to_string(), "admin".to_string(), "administrator".to_string()]);

    let completions = trie.completions("adm");
    assert_eq!(completions, vec!["admin".to_string(), "administrator".to_string()]);

    let completions = trie.completions("g");
    assert_eq!(completions, vec!["get".to_string()]);

    let completions = trie.completions("xyz");
    assert!(completions.is_empty());
}

#[test]
fn test_completions_empty_prefix() {
    let mut trie = Trie::new();

    trie.insert("cat");
    trie.insert("add");
    trie.insert("banana");

    let all = trie.completions("");
    assert_eq!(all, vec!["add".to_string(), "banana".to_string(), "cat".to_string()]);
}

#[test]
fn test_all_words() {
    let mut trie = Trie::new();

    trie.insert("zebra");
    trie.insert("apple");
    trie.insert("mango");

    let all = trie.all_words();
    assert_eq!(all, vec!["apple".to_string(), "mango".to_string(), "zebra".to_string()]);
}

#[test]
fn test_duplicate_insert() {
    let mut trie = Trie::new();

    trie.insert("test");
    trie.insert("test");
    trie.insert("test");

    assert_eq!(trie.len(), 1);
    assert!(trie.contains("test"));
}

#[test]
fn test_special_characters() {
    let mut trie = Trie::new();

    trie.insert("user@email.com");
    trie.insert("api-key-123");
    trie.insert("my_password");

    assert!(trie.contains("user@email.com"));
    assert!(trie.contains("api-key-123"));
    assert!(trie.contains("my_password"));

    let completions = trie.completions("api");
    assert_eq!(completions, vec!["api-key-123".to_string()]);
}

#[test]
fn test_unicode() {
    let mut trie = Trie::new();

    trie.insert("café");
    trie.insert("naïve");
    trie.insert("日本語");

    assert!(trie.contains("café"));
    assert!(trie.contains("naïve"));
    assert!(trie.contains("日本語"));

    let completions = trie.completions("caf");
    assert_eq!(completions, vec!["café".to_string()]);
}

#[test]
fn test_clear() {
    let mut trie = Trie::new();

    trie.insert("one");
    trie.insert("two");
    trie.insert("three");
    assert_eq!(trie.len(), 3);

    trie.clear();
    assert!(trie.is_empty());
    assert_eq!(trie.len(), 0);
    assert!(!trie.contains("one"));
}

#[test]
fn test_prefix_is_also_word() {
    let mut trie = Trie::new();

    trie.insert("help");
    trie.insert("helper");
    trie.insert("helping");

    assert!(trie.contains("help"));
    assert!(trie.contains("helper"));
    assert!(trie.contains("helping"));

    let completions = trie.completions("help");
    assert_eq!(completions, vec!["help".to_string(), "helper".to_string(), "helping".to_string()]);

    trie.remove("help");
    assert!(!trie.contains("help"));
    assert!(trie.contains("helper"));
    assert!(trie.contains("helping"));

    let completions = trie.completions("help");
    assert_eq!(completions, vec!["helper".to_string(), "helping".to_string()]);
}
