//! The decision engine and the site-level rewrite, on concrete files.

use syr::analysis::SinglesAnalysis;
use syr::counter::BlockVarCounter;
use syr::sites::{analyze_sites, collect_sites, rewrite_sites, Site};

fn s(text: &str) -> String {
    text.to_string()
}

fn analysis_of(sites: &[Site]) -> SinglesAnalysis {
    analyze_sites(&sites.to_vec())
}

#[test]
fn scenario_unused_binding_gets_marked() {
    // One declaration of `x`, never referenced: the declaration site
    // becomes the marked spelling.
    let input = vec![Site::Binding(s("x")), Site::Opaque];
    let out = rewrite_sites(&input);
    assert_eq!(out, vec![Site::Binding(s("_x")), Site::Opaque]);
}

#[test]
fn scenario_marked_but_referenced_family_unmarked() {
    // The marked spelling `_z` is declared and later referenced with the
    // same marked spelling: the whole family becomes `z` everywhere.
    let input = vec![Site::Binding(s("_z")), Site::Reference(s("_z"))];
    let out = rewrite_sites(&input);
    assert_eq!(out, vec![Site::Binding(s("z")), Site::Reference(s("z"))]);
}

#[test]
fn scenario_two_blocks_one_reference_unified() {
    // Two declarations of the same base name in different blocks, one
    // marked and one not, and a single reference anywhere: the whole-file
    // aggregate wins and every occurrence becomes the bare spelling.
    let mut c = BlockVarCounter::new();
    c.push_block();
    c.record_decl(&s("_y"));
    c.pop_block();
    c.push_block();
    c.record_decl(&s("y"));
    c.record_use(&s("y"));
    c.pop_block();
    let a = c.analyze();
    assert_eq!(a.rename_spelling(&s("_y")), "y");
    assert_eq!(a.rename_spelling(&s("y")), "y");
}

#[test]
fn inconsistent_unused_family_collapses_to_one_marker() {
    // Declared as `__w` and `w`, never referenced: both sites end as `_w`.
    let input = vec![Site::Binding(s("__w")), Site::Binding(s("w"))];
    let out = rewrite_sites(&input);
    assert_eq!(out, vec![Site::Binding(s("_w")), Site::Binding(s("_w"))]);
}

#[test]
fn undeclared_reference_left_alone() {
    // A reference without any declaration anywhere has no disposition.
    let input = vec![Site::Reference(s("free"))];
    let out = rewrite_sites(&input);
    assert_eq!(out, vec![Site::Reference(s("free"))]);
}

#[test]
fn rewrite_is_idempotent_on_a_mixed_file() {
    let input = vec![
        Site::Binding(s("_a")),
        Site::Reference(s("a")),
        Site::Binding(s("b")),
        Site::Opaque,
        Site::Binding(s("__c")),
        Site::Reference(s("d")),
    ];
    let once = rewrite_sites(&input);
    let twice = rewrite_sites(&once);
    assert_eq!(twice, once);
    assert_eq!(
        once,
        vec![
            Site::Binding(s("a")),
            Site::Reference(s("a")),
            Site::Binding(s("_b")),
            Site::Opaque,
            Site::Binding(s("_c")),
            Site::Reference(s("d")),
        ]
    );
}

#[test]
fn analyze_sites_partitions_base_names() {
    let a = analysis_of(&[
        Site::Binding(s("used")),
        Site::Reference(s("used")),
        Site::Binding(s("dead")),
    ]);
    assert_eq!(a.to_plain, vec![s("used")]);
    assert_eq!(a.to_single, vec![s("dead")]);
}

#[test]
fn decision_groups_by_base_name_not_spelling() {
    // `_n` declared, `n` referenced: same family, so the declaration is
    // unmarked.
    let a = analysis_of(&[Site::Binding(s("_n")), Site::Reference(s("n"))]);
    assert_eq!(a.rename_spelling(&s("_n")), "n");
}

#[test]
fn collector_counts_only_tracked_sites() {
    let c = collect_sites(&vec![
        Site::Opaque,
        Site::Binding(s("x")),
        Site::Opaque,
        Site::Reference(s("x")),
    ]);
    assert_eq!(c.decls, vec![s("x")]);
    assert_eq!(c.uses, vec![s("x")]);
}

#[test]
fn block_depth_tracks_descent_and_never_goes_negative() {
    let mut c = BlockVarCounter::new();
    assert_eq!(c.depth, 0);
    c.push_block();
    c.push_block();
    assert_eq!(c.depth, 2);
    c.pop_block();
    assert_eq!(c.depth, 1);
    c.pop_block();
    c.pop_block();
    assert_eq!(c.depth, 0);
}
