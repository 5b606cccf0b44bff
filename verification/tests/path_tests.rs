use agt::pathutil::{has_dotgit_component, path_for_tree, path_is_within};

#[test]
fn tree_paths_use_forward_slash() {
    let components = vec!["dir".to_string(), "sub".to_string(), "file.txt".to_string()];
    assert_eq!(path_for_tree(&components), "dir/sub/file.txt");
}

#[test]
fn tree_path_of_single_component() {
    let components = vec!["file.txt".to_string()];
    assert_eq!(path_for_tree(&components), "file.txt");
}

#[test]
fn tree_path_of_no_components_is_empty() {
    let components: Vec<String> = vec![];
    assert_eq!(path_for_tree(&components), "");
}

#[test]
fn tree_path_introduces_no_backslash() {
    let components = vec!["a".to_string(), "b".to_string()];
    let joined = path_for_tree(&components);
    assert!(!joined.contains('\\'));
    assert_eq!(joined, "a/b");
}

#[test]
fn dotgit_component_detection() {
    assert!(has_dotgit_component(".git"));
    assert!(has_dotgit_component("a/.git/b"));
    assert!(has_dotgit_component("sandbox/.git"));
    assert!(!has_dotgit_component("a/b"));
    assert!(!has_dotgit_component(".gitignore"));
    assert!(!has_dotgit_component("a/.gitmodules"));
}

#[test]
fn path_within_compares_whole_components() {
    assert!(path_is_within("/a/b/c", "/a/b"));
    assert!(path_is_within("/a/b", "/a/b"));
    assert!(!path_is_within("/a/bc", "/a/b"));
    assert!(!path_is_within("/a", "/a/b"));
}
