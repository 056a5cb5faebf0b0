use makercode::{build_node, sort_nodes, str_eq, str_le, FileNode, RawEntry};

#[test]
fn str_le_is_ordinal() {
    assert!(str_le("", ""));
    assert!(str_le("", "a"));
    assert!(!str_le("a", ""));
    assert!(str_le("abc", "abd"));
    assert!(!str_le("abd", "abc"));
    assert!(str_le("ab", "abc"));
    assert!(!str_le("abc", "ab"));
    assert!(str_le("same", "same"));
    // 'B' (0x42) sorts before 'a' (0x61): ordinal, not case-folded
    assert!(str_le("B.ts", "a.ts"));
    assert!(!str_le("a.ts", "B.ts"));
}

#[test]
fn str_eq_is_exact() {
    assert!(str_eq("", ""));
    assert!(str_eq("abc", "abc"));
    assert!(!str_eq("abc", "abd"));
    assert!(!str_eq("abc", "ab"));
    assert!(!str_eq("Target", "target"));
}

#[test]
fn build_node_classifies_files_and_directories() {
    let f = RawEntry { name: "note.txt".to_string(), is_directory: false, listing: None };
    let n = build_node(&f, "/docs");
    assert_eq!(n.name, "note.txt");
    assert_eq!(n.path, "/docs/note.txt");
    assert!(!n.is_directory);
    assert!(n.children.is_none());

    let d = RawEntry { name: "docs".to_string(), is_directory: true, listing: Some(vec![f]) };
    let n = build_node(&d, "");
    assert_eq!(n.path, "/docs");
    assert!(n.is_directory);
    let children = n.children.as_ref().unwrap();
    assert_eq!(children.len(), 1);
    assert_eq!(children[0].path, "/docs/note.txt");
}

#[test]
fn sort_nodes_applies_the_two_key_order() {
    fn leaf(name: &str, is_directory: bool) -> FileNode {
        FileNode {
            name: name.to_string(),
            path: format!("/{name}"),
            is_directory,
            children: if is_directory { Some(Vec::new()) } else { None },
        }
    }
    let nodes = vec![
        leaf("zebra.txt", false),
        leaf("apps", true),
        leaf("Alpha.txt", false),
        leaf("zoo", true),
    ];
    let sorted = sort_nodes(nodes);
    let got: Vec<String> = sorted.iter().map(|n| n.name.clone()).collect();
    assert_eq!(got, vec!["apps", "zoo", "Alpha.txt", "zebra.txt"]);
}
