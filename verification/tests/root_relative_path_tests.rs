use std::path::{Component, Path};

use rjrssync::root_relative_path::RootRelativePath;

/// Splits a path into what `from_components` takes: whether it is absolute, and each normal
/// component (`None` where it is not valid Unicode).
fn normalize(p: &Path) -> Result<RootRelativePath, String> {
    let components: Vec<Option<String>> = p
        .components()
        .filter(|c| !matches!(c, Component::RootDir | Component::Prefix(_)))
        .map(|c| c.as_os_str().to_str().map(|s| s.to_string()))
        .collect();
    RootRelativePath::from_components(p.is_absolute(), &components)
}

#[test]
fn test_normalize_path_is_root() {
    let x = normalize(Path::new(""));
    assert_eq!(x, Ok(RootRelativePath::root()));
    assert_eq!(x.unwrap().is_root(), true);
}

#[test]
fn test_normalize_path_absolute() {
    assert_eq!(normalize(Path::new("/etc/hello")), Err("Must be relative".to_string()));
}

#[test]
fn test_normalize_path_slashes_in_component() {
    assert_eq!(normalize(Path::new("a path with\\backslashes/adsa")), Err("Illegal characters in path".to_string()));
}

#[test]
fn test_normalize_path_multiple_components() {
    let p = normalize(Path::new("one/two/three")).unwrap();
    assert_eq!(p.as_str(), "one/two/three");
}

#[test]
fn platform_path_and_display() {
    let p = normalize(Path::new("one/two")).unwrap();
    assert_eq!(p.to_platform_path('\\'), "one\\two");
    assert_eq!(p.to_platform_path('/'), "one/two");
    assert_eq!(p.display_string(), "one/two");
    assert_eq!(RootRelativePath::root().display_string(), "<ROOT>");
    assert!(!p.is_root());
}

#[test]
fn unconvertible_component_is_refused() {
    let r = RootRelativePath::from_components(false, &vec![Some("a".to_string()), None]);
    assert_eq!(r, Err("Can't convert path component".to_string()));
}

#[test]
fn the_first_refused_component_decides_the_error() {
    let r = RootRelativePath::from_components(false, &vec![Some("a\\b".to_string()), None]);
    assert_eq!(r, Err("Illegal characters in path".to_string()));
    let r = RootRelativePath::from_components(false, &vec![Some("a".to_string()), None, Some("b/c".to_string())]);
    assert_eq!(r, Err("Can't convert path component".to_string()));
}

#[test]
fn full_paths_join_the_root_and_the_path() {
    let p = normalize(Path::new("one/two")).unwrap();
    assert_eq!(RootRelativePath::root().get_full_path("/tmp/root"), "/tmp/root");
    assert_eq!(p.get_full_path("/tmp/root"), "/tmp/root/one/two");
    assert_eq!(p.get_full_path("/tmp/root/"), "/tmp/root/one/two");
    assert_eq!(p.to_platform_path('\\'), "one\\two");
}

#[test]
fn separators_can_be_swapped_back_and_forth() {
    let p = normalize(Path::new("one/two/three")).unwrap();
    let backslashed = p.to_platform_path('\\');
    assert_eq!(backslashed, "one\\two\\three");
    assert_eq!(backslashed.replace('\\', "/"), p.to_platform_path('/'));
    assert_eq!(p.to_platform_path('/').replace('/', ":"), p.to_platform_path(':'));
}
