use makercode::{build_tree, is_ignored, FileNode, RawEntry};

fn file(name: &str) -> RawEntry {
    RawEntry { name: name.to_string(), is_directory: false, listing: None }
}

fn dir(name: &str, entries: Vec<RawEntry>) -> RawEntry {
    RawEntry { name: name.to_string(), is_directory: true, listing: Some(entries) }
}

fn unreadable_dir(name: &str) -> RawEntry {
    RawEntry { name: name.to_string(), is_directory: true, listing: None }
}

fn names(nodes: &[FileNode]) -> Vec<String> {
    nodes.iter().map(|n| n.name.clone()).collect()
}

#[test]
fn example_project_tree() {
    // root contains src/ (a.ts, B.ts), node_modules/ (anything), readme.md
    let entries = vec![
        file("readme.md"),
        dir("src", vec![file("a.ts"), file("B.ts")]),
        dir("node_modules", vec![dir("left-pad", vec![file("index.js")])]),
    ];
    let nodes = build_tree(&entries, "");
    assert_eq!(names(&nodes), vec!["node_modules", "src", "readme.md"]);

    let node_modules = &nodes[0];
    assert!(node_modules.is_directory);
    assert_eq!(node_modules.path, "/node_modules");
    assert_eq!(node_modules.children.as_ref().unwrap().len(), 0);

    let src = &nodes[1];
    assert!(src.is_directory);
    assert_eq!(src.path, "/src");
    // ordinal comparison: 'B' (0x42) sorts before 'a' (0x61)
    let src_children = src.children.as_ref().unwrap();
    assert_eq!(names(src_children), vec!["B.ts", "a.ts"]);
    assert_eq!(src_children[0].path, "/src/B.ts");
    assert_eq!(src_children[1].path, "/src/a.ts");

    let readme = &nodes[2];
    assert!(!readme.is_directory);
    assert_eq!(readme.path, "/readme.md");
    assert!(readme.children.is_none());
}

#[test]
fn directories_before_files() {
    let entries = vec![
        file("aaa.txt"),
        dir("zzz", vec![]),
        file("mmm.txt"),
        dir("bbb", vec![]),
    ];
    let nodes = build_tree(&entries, "");
    assert_eq!(names(&nodes), vec!["bbb", "zzz", "aaa.txt", "mmm.txt"]);
    assert!(nodes[0].is_directory);
    assert!(nodes[1].is_directory);
    assert!(!nodes[2].is_directory);
    assert!(!nodes[3].is_directory);
}

#[test]
fn names_ascending_within_kind() {
    let entries = vec![
        file("delta"),
        file("alpha"),
        file("charlie"),
        file("bravo"),
    ];
    let nodes = build_tree(&entries, "");
    assert_eq!(names(&nodes), vec!["alpha", "bravo", "charlie", "delta"]);
}

#[test]
fn ordinal_uppercase_sorts_before_lowercase() {
    let entries = vec![file("apple"), file("Banana"), file("cherry"), file("Apricot")];
    let nodes = build_tree(&entries, "");
    assert_eq!(names(&nodes), vec!["Apricot", "Banana", "apple", "cherry"]);
}

#[test]
fn paths_are_root_relative() {
    let entries = vec![dir("a", vec![dir("b", vec![file("c.txt")])])];
    let nodes = build_tree(&entries, "");
    let a = &nodes[0];
    assert_eq!(a.path, "/a");
    let b = &a.children.as_ref().unwrap()[0];
    assert_eq!(b.path, "/a/b");
    let c = &b.children.as_ref().unwrap()[0];
    assert_eq!(c.path, "/a/b/c.txt");
    assert_eq!(c.name, "c.txt");
}

#[test]
fn every_path_starts_with_slash() {
    let entries = vec![
        file("top.txt"),
        dir("pkg", vec![file("inner.txt"), dir("deep", vec![file("leaf")])]),
    ];
    let nodes = build_tree(&entries, "");
    fn check(nodes: &[FileNode]) {
        for n in nodes {
            assert!(n.path.starts_with('/'));
            if let Some(children) = &n.children {
                check(children);
            }
        }
    }
    check(&nodes);
}

#[test]
fn ignored_directories_are_sealed() {
    let ignored = [
        "node_modules",
        ".git",
        "target",
        "dist",
        "build",
        ".maker",
        "__pycache__",
        "venv",
        ".vscode",
    ];
    for name in ignored {
        let entries = vec![dir(name, vec![file("payload.txt"), dir(".git", vec![file("x")])])];
        let nodes = build_tree(&entries, "");
        assert_eq!(nodes.len(), 1);
        assert!(nodes[0].is_directory);
        assert_eq!(nodes[0].children.as_ref().unwrap().len(), 0, "{name} must stay sealed");
    }
}

#[test]
fn ignore_list_applies_to_directories_only() {
    // a *file* named like an ignored directory is an ordinary file
    let entries = vec![file("target"), dir("src", vec![])];
    let nodes = build_tree(&entries, "");
    assert_eq!(names(&nodes), vec!["src", "target"]);
    assert!(nodes[1].children.is_none());
}

#[test]
fn non_ignored_directory_children_present() {
    let entries = vec![dir("empty", vec![]), dir("full", vec![file("x")])];
    let nodes = build_tree(&entries, "");
    assert_eq!(nodes[0].name, "empty");
    assert_eq!(nodes[0].children.as_ref().unwrap().len(), 0);
    assert_eq!(nodes[1].name, "full");
    assert_eq!(names(nodes[1].children.as_ref().unwrap()), vec!["x"]);
}

#[test]
fn unreadable_directory_degrades_to_empty() {
    let entries = vec![
        unreadable_dir("secret"),
        dir("open", vec![file("data.txt")]),
        file("note.md"),
    ];
    let nodes = build_tree(&entries, "");
    assert_eq!(names(&nodes), vec!["open", "secret", "note.md"]);
    // just the unreadable subtree is empty; the sibling still populates
    assert_eq!(nodes[1].children.as_ref().unwrap().len(), 0);
    assert_eq!(names(nodes[0].children.as_ref().unwrap()), vec!["data.txt"]);
}

#[test]
fn empty_root_gives_empty_tree() {
    let entries: Vec<RawEntry> = Vec::new();
    let nodes = build_tree(&entries, "");
    assert!(nodes.is_empty());
}

#[test]
fn duplicate_names_all_surface() {
    let entries = vec![file("same.txt"), file("same.txt"), dir("same.txt", vec![])];
    let nodes = build_tree(&entries, "");
    assert_eq!(names(&nodes), vec!["same.txt", "same.txt", "same.txt"]);
    assert!(nodes[0].is_directory);
    assert!(!nodes[1].is_directory);
    assert!(!nodes[2].is_directory);
}

#[test]
fn is_ignored_matches_the_fixed_set() {
    for name in [
        "node_modules",
        ".git",
        "target",
        "dist",
        "build",
        ".maker",
        "__pycache__",
        "venv",
        ".vscode",
    ] {
        assert!(is_ignored(name), "{name} should be ignored");
    }
    for name in ["src", "Target", "node_module", "git", ".gitignore", "", "venv2"] {
        assert!(!is_ignored(name), "{name} should not be ignored");
    }
}
