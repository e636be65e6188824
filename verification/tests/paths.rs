use render_md::paths::{clean_path, include_path, join_path, path_components, path_starts_with, PathComponent};

#[test]
fn clean_path_resolves_dots() {
    assert_eq!(clean_path("/a/b/../c/./d"), "/a/c/d");
    assert_eq!(clean_path("a//b/"), "a/b");
    assert_eq!(clean_path("../x"), "x");
    assert_eq!(clean_path("/.."), "/");
    assert_eq!(clean_path(""), "");
    assert_eq!(clean_path("./"), "");
}

#[test]
fn clean_path_is_idempotent_on_examples() {
    for p in ["/a/../b/./c", "x/y/../../..", "//a//b", "./q"] {
        let once = clean_path(p);
        assert_eq!(clean_path(&once), once);
    }
}

#[test]
fn components_follow_path_rules() {
    assert_eq!(
        path_components("/a/./b/.."),
        vec![
            PathComponent::Root,
            PathComponent::Normal("a".to_string()),
            PathComponent::Normal("b".to_string()),
            PathComponent::Parent
        ]
    );
    assert_eq!(path_components("./a"), vec![PathComponent::Cur, PathComponent::Normal("a".to_string())]);
    assert!(path_components("").is_empty());
}

#[test]
fn prefix_is_by_components() {
    assert!(path_starts_with("/site/src/pages/a.md", "/site/src/pages"));
    assert!(path_starts_with("/site/src/pages", "/site/src/pages/"));
    assert!(!path_starts_with("/site/src/pages2/a.md", "/site/src/pages"));
    assert!(!path_starts_with("/site", "/site/src"));
}

#[test]
fn join_follows_pathbuf_rules() {
    assert_eq!(join_path("/a", "b"), "/a/b");
    assert_eq!(join_path("/a/", "b"), "/a/b");
    assert_eq!(join_path("", "b"), "b");
    assert_eq!(join_path("/a", "/b"), "/b");
}

#[test]
fn include_targets_are_relative_to_the_current_file() {
    assert_eq!(include_path("/s", "/s/docs/index.md", "../nav.md"), "/s/nav.md");
    assert_eq!(include_path("/s", "/s/index.md", "../../etc/passwd"), "/etc/passwd");
    assert_eq!(include_path("/s", "/s/index.md", "/abs/x.md"), "/abs/x.md");
    assert_eq!(include_path("/s", "", "p.md"), "/s/p.md");
}
