use logic_engine::utils::{join_text, same_text, split_lr};

#[test]
fn test_split_lr() {
    let (l, r) = split_lr("var:name", ":");
    assert!(l == "var" && r == "name");
    let (l, r) = split_lr(":name", ":");
    assert!(l == "" && r == "name");
    let (l, r) = split_lr("a===b", "===");
    assert!(l == "a" && r == "b");
    let (l, r) = split_lr("var---", "---");
    assert!(l == "var" && r == "");
    let (l, r) = split_lr("var:name", "??");
    assert!(l == "" && r == "var:name");
    let (l, r) = split_lr("str : text", ":");
    assert!(l == "str " && r == " text");
}

#[test]
fn split_lr_takes_the_first_separator() {
    let (l, r) = split_lr("a=b=c", "=");
    assert_eq!(l, "a");
    assert_eq!(r, "b=c");
}

#[test]
fn split_lr_with_empty_separator_splits_at_the_start() {
    let (l, r) = split_lr("abc", "");
    assert_eq!(l, "");
    assert_eq!(r, "abc");
}

#[test]
fn split_lr_on_empty_source() {
    let (l, r) = split_lr("", ":");
    assert_eq!(l, "");
    assert_eq!(r, "");
}

#[test]
fn split_lr_separator_longer_than_source() {
    let (l, r) = split_lr("ab", "abc");
    assert_eq!(l, "");
    assert_eq!(r, "ab");
}

#[test]
fn split_lr_counts_characters_not_bytes() {
    let (l, r) = split_lr("变量:名称", ":");
    assert_eq!(l, "变量");
    assert_eq!(r, "名称");
    let (l, r) = split_lr("é→ü→", "→");
    assert_eq!(l, "é");
    assert_eq!(r, "ü→");
}

#[test]
fn split_lr_overlapping_candidates() {
    let (l, r) = split_lr("aaab", "aab");
    assert_eq!(l, "a");
    assert_eq!(r, "");
}

#[test]
fn same_text_compares_characters() {
    assert!(same_text("var", "var"));
    assert!(!same_text("var", "Var"));
    assert!(!same_text("var", "va"));
    assert!(same_text("", ""));
}

#[test]
fn join_text_keeps_the_order() {
    assert_eq!(join_text("int:", "42"), "int:42".to_string());
    assert_eq!(join_text("", ""), "".to_string());
}
