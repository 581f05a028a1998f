use gengo::bytes::{
    basename_of, bytes_eq, contains_bytes, copy_bytes, ends_with_bytes, join_path, normalize_name,
    starts_with_bytes, take_prefix,
};

fn v(s: &[u8]) -> Vec<u8> {
    s.to_vec()
}

#[test]
fn basenames_follow_the_last_slash() {
    assert!(basename_of(&v(b"a/b/c.txt")) == v(b"c.txt"));
    assert!(basename_of(&v(b"c.txt")) == v(b"c.txt"));
    assert!(basename_of(&v(b"a/b/")) == v(b""));
    assert!(basename_of(&v(b"")) == v(b""));
}

#[test]
fn join_path_uses_a_slash_only_under_a_prefix() {
    assert!(join_path(&v(b""), &v(b"lib/foo.c")) == v(b"lib/foo.c"));
    assert!(join_path(&v(b"vendor/pkg"), &v(b"lib/foo.c")) == v(b"vendor/pkg/lib/foo.c"));
}

#[test]
fn normalization_replaces_hyphens_with_spaces() {
    assert!(normalize_name(&v(b"Common-Lisp")) == v(b"Common Lisp"));
    assert!(normalize_name(&v(b"plain")) == v(b"plain"));
}

#[test]
fn substring_search_finds_inner_occurrences() {
    assert!(contains_bytes(&v(b"#include <stdio.h>"), &v(b"<stdio")));
    assert!(!contains_bytes(&v(b"short"), &v(b"longer needle")));
    assert!(contains_bytes(&v(b"anything"), &v(b"")));
}

#[test]
fn prefix_and_suffix_tests_are_exact() {
    assert!(starts_with_bytes(&v(b"README.md"), &v(b"README")));
    assert!(!starts_with_bytes(&v(b"readme.md"), &v(b"README")));
    assert!(ends_with_bytes(&v(b"app.min.js"), &v(b".min.js")));
    assert!(!ends_with_bytes(&v(b"app.js"), &v(b".min.js")));
}

#[test]
fn copies_and_windows_preserve_bytes() {
    let s = v(b"0123456789");
    assert!(bytes_eq(&copy_bytes(&s), &s));
    assert!(take_prefix(&s, 4) == v(b"0123"));
    assert!(take_prefix(&s, 40) == s);
}
