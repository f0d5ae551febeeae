//! Checking paths against include/exclude filters.

use rjrssync::filters::{all_have_kind_prefix, apply_filters, compile_filters, FilterKind, FilterResult, Filters};
use rjrssync::root_relative_path::RootRelativePath;

/// A relative path, given with forward slashes.
fn path(p: &str) -> RootRelativePath {
    let comps: Vec<Option<String>> = p.split('/').filter(|c| !c.is_empty()).map(|c| Some(c.to_string())).collect();
    RootRelativePath::from_components(false, &comps).unwrap()
}

fn filters(patterns: &[&str], kinds: Vec<FilterKind>) -> Filters {
    Filters::new(patterns.iter().map(|p| p.to_string()).collect(), kinds).unwrap()
}

#[test]
fn test_apply_filters_root() {
    // Filters specify to exclude everything
    let f = filters(&["^.*$"], vec![FilterKind::Exclude]);
    assert_eq!(apply_filters(&path("will be excluded"), &f), FilterResult::Exclude);
    // But the root is always included anyway
    assert_eq!(apply_filters(&RootRelativePath::root(), &f), FilterResult::Include);
}

#[test]
fn test_apply_filters_no_filters() {
    let f = filters(&[], vec![]);
    assert_eq!(apply_filters(&path("yes"), &f), FilterResult::Include);
    assert_eq!(apply_filters(&path("no"), &f), FilterResult::Include);
}

#[test]
fn test_apply_filters_single_include() {
    let f = filters(&["^yes$"], vec![FilterKind::Include]);
    assert_eq!(apply_filters(&path("yes"), &f), FilterResult::Include);
    assert_eq!(apply_filters(&path("no"), &f), FilterResult::Exclude);
}

#[test]
fn test_apply_filters_single_exclude() {
    let f = filters(&["^no$"], vec![FilterKind::Exclude]);
    assert_eq!(apply_filters(&path("yes"), &f), FilterResult::Include);
    assert_eq!(apply_filters(&path("no"), &f), FilterResult::Exclude);
}

#[test]
fn test_apply_filters_complex() {
    let f = filters(
        &["^.*$", "^build/.*$", "^git/.*$", "^build/output.exe$", "^src/build/.*$"],
        vec![FilterKind::Include, FilterKind::Exclude, FilterKind::Exclude, FilterKind::Include, FilterKind::Exclude],
    );
    assert_eq!(apply_filters(&path("README"), &f), FilterResult::Include);
    assert_eq!(apply_filters(&path("build/file.o"), &f), FilterResult::Exclude);
    assert_eq!(apply_filters(&path("git/hash"), &f), FilterResult::Exclude);
    assert_eq!(apply_filters(&path("build/rob"), &f), FilterResult::Exclude);
    assert_eq!(apply_filters(&path("build/output.exe"), &f), FilterResult::Include);
    assert_eq!(apply_filters(&path("src/build/file.o"), &f), FilterResult::Exclude);
    assert_eq!(apply_filters(&path("src/source.cpp"), &f), FilterResult::Include);
}

#[test]
fn compiled_user_filters_are_anchored() {
    let f = compile_filters(&vec!["+a.*".to_string(), "-ab".to_string()]).unwrap();
    assert_eq!(f.pattern_list(), &vec!["^a.*$".to_string(), "^ab$".to_string()]);
    assert_eq!(f.kinds_list(), &vec![FilterKind::Include, FilterKind::Exclude]);
    // The first filter is an include, so what matches nothing is excluded.
    assert_eq!(apply_filters(&path("b"), &f), FilterResult::Exclude);
    assert_eq!(apply_filters(&path("abc"), &f), FilterResult::Include);
    // The last matching filter decides.
    assert_eq!(apply_filters(&path("ab"), &f), FilterResult::Exclude);
    // Anchored: "xab" matches neither.
    assert_eq!(apply_filters(&path("xab"), &f), FilterResult::Exclude);
}

#[test]
fn invalid_filter_prefix_is_reported() {
    let e = compile_filters(&vec!["+ok".to_string(), "BLARG".to_string(), "nope".to_string()]).err().unwrap();
    assert_eq!(e, "Invalid filter 'BLARG': Must start with a '+' or '-'");
}

#[test]
fn invalid_filter_regex_is_reported() {
    let e = compile_filters(&vec!["+[[INVALID REGEX".to_string()]).err().unwrap();
    assert!(e.starts_with("Invalid filter: "), "{}", e);
    assert!(e.contains("regex parse error"), "{}", e);
}

#[test]
fn invalid_patterns_are_refused_when_building_filters() {
    assert!(Filters::new(vec!["(".to_string()], vec![FilterKind::Include]).is_err());
}

#[test]
fn a_bad_prefix_is_told_apart_from_a_bad_regex() {
    assert!(!all_have_kind_prefix(&vec!["+ok".to_string(), "BLARG".to_string()]));
    assert!(!all_have_kind_prefix(&vec!["".to_string()]));
    assert!(all_have_kind_prefix(&vec!["+[[INVALID REGEX".to_string(), "-x".to_string()]));
    assert!(all_have_kind_prefix(&vec![]));
}
