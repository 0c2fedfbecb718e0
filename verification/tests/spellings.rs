//! Spelling utilities: stripping and adding the leading marker.

use syr::names::{mark_spelling, strip_markers};

#[test]
fn strip_removes_every_leading_marker() {
    assert_eq!(strip_markers("x"), "x");
    assert_eq!(strip_markers("_x"), "x");
    assert_eq!(strip_markers("__ab"), "ab");
    assert_eq!(strip_markers("___"), "");
    assert_eq!(strip_markers(""), "");
}

#[test]
fn strip_leaves_inner_markers_alone() {
    assert_eq!(strip_markers("_a_b"), "a_b");
    assert_eq!(strip_markers("snake_case"), "snake_case");
}

#[test]
fn mark_adds_exactly_one_marker() {
    assert_eq!(mark_spelling("x"), "_x");
    assert_eq!(mark_spelling("ab"), "_ab");
    assert_eq!(mark_spelling(""), "_");
}
