use smarttree::config::Config;
use smarttree::model::{Format, Lens, NodeKind};
use smarttree::render::render;
use smarttree::walk::{display_root_name, error_message, single_file_tree, TreeBuilder, WalkEntry};

fn entry(path: &[&str], kind: NodeKind) -> WalkEntry {
    WalkEntry {
        name: path.last().unwrap().to_string(),
        rel_path: path.iter().map(|s| s.to_string()).collect(),
        kind,
        error: None,
    }
}

fn config(max_items: usize) -> Config {
    Config {
        root: "/tmp/five".to_string(),
        lens: Lens::Files,
        format: Format::Text,
        depth: 4,
        max_items,
        max_children: 200,
        respect_gitignore: true,
        hidden: false,
        unicode: false,
        ignore: vec![],
        overrides: vec![],
        key_dirs: vec![],
    }
}

#[test]
fn max_items_one_over_five_files() {
    let mut builder = TreeBuilder::new("/tmp/five".to_string(), "five".to_string(), 1);
    let mut taken = 0;
    for name in ["a", "b", "c", "d", "e"] {
        if !builder.add_entry(entry(&[name], NodeKind::File)) {
            break;
        }
        taken += 1;
    }
    assert_eq!(taken, 1);
    let tree = builder.finish();
    assert!(tree.truncated);
    assert_eq!(tree.truncated_at, 1);
    assert_eq!(tree.nodes.len(), 2);
    let out = render(&tree, None, &config(1));
    assert_eq!(out, "five/\n`-- a\n... (truncated after reaching max-items=1)\n");
}

#[test]
fn walk_within_budget_is_not_truncated() {
    let mut builder = TreeBuilder::new("/r".to_string(), "r".to_string(), 5);
    assert!(builder.add_entry(entry(&["src"], NodeKind::Dir)));
    assert!(builder.add_entry(entry(&["src", "lib.rs"], NodeKind::File)));
    assert!(builder.add_entry(entry(&["docs"], NodeKind::Dir)));
    assert!(builder.add_entry(entry(&["src", "late.rs"], NodeKind::File)));
    let tree = builder.finish();
    assert!(!tree.truncated);
    assert_eq!(tree.truncated_at, 4);
    assert_eq!(tree.nodes[0].children, vec![1, 3]);
    assert_eq!(tree.nodes[1].children, vec![2, 4]);
    assert!(tree.nodes[3].children.is_empty());
}

#[test]
fn entry_with_unknown_parent_goes_under_root() {
    let mut builder = TreeBuilder::new("/r".to_string(), "r".to_string(), 10);
    assert!(builder.add_entry(entry(&["missing", "x"], NodeKind::File)));
    let tree = builder.finish();
    assert_eq!(tree.nodes[0].children, vec![1]);
}

#[test]
fn unreadable_directory_becomes_error_entry_and_siblings_continue() {
    let mut builder = TreeBuilder::new("/r".to_string(), "r".to_string(), 10);
    assert!(builder.add_entry(entry(&["a.txt"], NodeKind::File)));
    assert!(builder.add_entry(WalkEntry {
        name: "secret".to_string(),
        rel_path: vec!["secret".to_string()],
        kind: NodeKind::Error,
        error: Some("permission denied".to_string()),
    }));
    assert!(builder.add_entry(entry(&["z.txt"], NodeKind::File)));
    let tree = builder.finish();
    let errors: Vec<_> = tree.nodes.iter().filter(|n| n.kind == NodeKind::Error).collect();
    assert_eq!(errors.len(), 1);
    let out = render(&tree, None, &config(10));
    assert_eq!(out, "r/\n|-- a.txt\n|-- secret (permission denied)\n`-- z.txt\n");
}

#[test]
fn root_names_and_single_file_trees() {
    assert_eq!(display_root_name("/home/me/proj"), "proj");
    assert_eq!(display_root_name("proj/"), "proj");
    assert_eq!(display_root_name("/"), "/");
    assert_eq!(display_root_name(".."), "..");
    let tree = single_file_tree("/tmp/notes.md");
    assert_eq!(tree.nodes.len(), 1);
    assert_eq!(tree.nodes[0].name, "notes.md");
    assert_eq!(tree.nodes[0].kind, NodeKind::File);
    assert_eq!(tree.truncated_at, 1);
    assert!(!tree.truncated);
    assert_eq!(render(&tree, None, &config(10)), "notes.md\n");
}

#[test]
fn zero_budget_refuses_the_first_entry() {
    let mut builder = TreeBuilder::new("/r".to_string(), "r".to_string(), 0);
    assert!(!builder.add_entry(entry(&["a"], NodeKind::File)));
    let tree = builder.finish();
    assert!(tree.truncated);
    assert_eq!(tree.truncated_at, 0);
    assert_eq!(tree.nodes.len(), 1);
}

#[test]
fn error_entries_count_toward_the_budget() {
    let mut builder = TreeBuilder::new("/r".to_string(), "r".to_string(), 2);
    assert!(builder.add_entry(WalkEntry {
        name: "loop".to_string(),
        rel_path: vec!["loop".to_string()],
        kind: NodeKind::Error,
        error: Some("symlink loop".to_string()),
    }));
    assert!(builder.add_entry(entry(&["b"], NodeKind::File)));
    assert!(!builder.add_entry(entry(&["c"], NodeKind::File)));
    let tree = builder.finish();
    assert_eq!(tree.truncated_at, 2);
    assert!(tree.truncated);
}

#[test]
fn traversal_error_messages() {
    assert_eq!(error_message(Some((true, "Permission denied (os error 13)".to_string())), "walk".to_string()), "permission denied");
    assert_eq!(error_message(Some((false, "No such file".to_string())), "walk".to_string()), "No such file");
    assert_eq!(error_message(None, "File system loop found".to_string()), "File system loop found");
}
