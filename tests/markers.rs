use smarttree::markers::{annotate_modules, collect_module_candidates, should_annotate};
use smarttree::model::{ModuleKind, Node, NodeKind, Tree, WorkspaceKind, WorkspaceResolved};

fn node(name: &str, path: &[&str], kind: NodeKind, children: Vec<usize>) -> Node {
    Node {
        name: name.to_string(),
        rel_path: path.iter().map(|s| s.to_string()).collect(),
        kind,
        children,
        module: None,
        error: None,
    }
}

#[test]
fn detects_node_module_marker() {
    let root = Node {
        name: "root".to_string(),
        rel_path: Vec::new(),
        kind: NodeKind::Dir,
        children: vec![1],
        module: None,
        error: None,
    };
    let pkg = Node {
        name: "package.json".to_string(),
        rel_path: vec!["package.json".to_string()],
        kind: NodeKind::File,
        children: vec![],
        module: None,
        error: None,
    };
    let tree = Tree {
        root_path: String::new(),
        root: 0,
        nodes: vec![root, pkg],
        truncated: false,
        truncated_at: 0,
    };

    let candidates = collect_module_candidates(&tree);
    assert_eq!(candidates.len(), 1);
    assert_eq!(candidates[0].kind, ModuleKind::Node);
    assert_eq!(candidates[0].markers, vec!["package.json".to_string()]);
}

#[test]
fn node_wins_over_python_whatever_the_order() {
    let tree = Tree {
        root_path: String::new(),
        root: 0,
        nodes: vec![
            node("root", &[], NodeKind::Dir, vec![1, 2, 3]),
            node("pyproject.toml", &["pyproject.toml"], NodeKind::File, vec![]),
            node("Cargo.toml", &["Cargo.toml"], NodeKind::File, vec![]),
            node("package.json", &["package.json"], NodeKind::File, vec![]),
        ],
        truncated: false,
        truncated_at: 3,
    };
    let candidates = collect_module_candidates(&tree);
    assert_eq!(candidates.len(), 1);
    assert_eq!(candidates[0].kind, ModuleKind::Node);
    assert_eq!(
        candidates[0].markers,
        vec!["pyproject.toml".to_string(), "Cargo.toml".to_string(), "package.json".to_string()]
    );
}

#[test]
fn every_manifest_kind_is_recognised() {
    let cases = [
        ("setup.py", ModuleKind::Python),
        ("setup.cfg", ModuleKind::Python),
        ("Cargo.toml", ModuleKind::Rust),
        ("go.mod", ModuleKind::Go),
        ("pom.xml", ModuleKind::Java),
        ("build.gradle", ModuleKind::Java),
        ("build.gradle.kts", ModuleKind::Java),
        ("App.csproj", ModuleKind::DotNet),
    ];
    for (name, kind) in cases {
        let tree = Tree {
            root_path: String::new(),
            root: 0,
            nodes: vec![
                node("root", &[], NodeKind::Dir, vec![1]),
                node(name, &[name], NodeKind::File, vec![]),
            ],
            truncated: false,
            truncated_at: 1,
        };
        let candidates = collect_module_candidates(&tree);
        assert_eq!(candidates.len(), 1, "{name}");
        assert_eq!(candidates[0].kind, kind, "{name}");
    }
}

#[test]
fn directories_named_like_manifests_are_not_markers() {
    let tree = Tree {
        root_path: String::new(),
        root: 0,
        nodes: vec![
            node("root", &[], NodeKind::Dir, vec![1, 2]),
            node("package.json", &["package.json"], NodeKind::Dir, vec![]),
            node("notes.txt", &["notes.txt"], NodeKind::File, vec![]),
        ],
        truncated: false,
        truncated_at: 2,
    };
    assert!(collect_module_candidates(&tree).is_empty());
}

fn workspace_tree() -> Tree {
    Tree {
        root_path: "/repo".to_string(),
        root: 0,
        nodes: vec![
            node("repo", &[], NodeKind::Dir, vec![1, 2, 4]),
            node("package.json", &["package.json"], NodeKind::File, vec![]),
            node("apps", &["apps"], NodeKind::Dir, vec![3]),
            node("web", &["apps", "web"], NodeKind::Dir, vec![5]),
            node("vendor", &["vendor"], NodeKind::Dir, vec![6]),
            node("package.json", &["apps", "web", "package.json"], NodeKind::File, vec![]),
            node("package.json", &["vendor", "package.json"], NodeKind::File, vec![]),
        ],
        truncated: false,
        truncated_at: 6,
    }
}

#[test]
fn annotation_is_scoped_to_package_roots() {
    let mut tree = workspace_tree();
    let candidates = collect_module_candidates(&tree);
    let ids: Vec<usize> = candidates.iter().map(|c| c.node_id).collect();
    assert_eq!(ids, vec![0, 3, 4]);
    let ws = WorkspaceResolved {
        kind: WorkspaceKind::Npm,
        package_roots: vec![vec!["apps".to_string(), "web".to_string()]],
    };
    let allowed: Vec<bool> = ids.iter().map(|id| should_annotate(&tree, *id, Some(&ws))).collect();
    assert_eq!(allowed, vec![true, true, false]);
    let summaries = vec![Some("root".to_string()), None, Some("vendored".to_string())];
    annotate_modules(&mut tree, &candidates, Some(&ws), &summaries);
    assert_eq!(tree.nodes[0].module.as_ref().unwrap().summary.as_deref(), Some("root"));
    assert_eq!(tree.nodes[3].module.as_ref().unwrap().kind, ModuleKind::Node);
    assert!(tree.nodes[3].module.as_ref().unwrap().summary.is_none());
    assert!(tree.nodes[4].module.is_none());
}

#[test]
fn without_package_roots_every_candidate_is_annotated() {
    let mut tree = workspace_tree();
    let candidates = collect_module_candidates(&tree);
    let summaries = vec![None, None, None];
    annotate_modules(&mut tree, &candidates, None, &summaries);
    assert!(tree.nodes[0].module.is_some());
    assert!(tree.nodes[3].module.is_some());
    assert!(tree.nodes[4].module.is_some());
    assert_eq!(tree.nodes[4].module.as_ref().unwrap().markers, vec!["package.json".to_string()]);
}

#[test]
fn error_entries_are_never_markers() {
    let mut err = node("package.json", &["package.json"], NodeKind::Error, vec![]);
    err.error = Some("permission denied".to_string());
    let tree = Tree {
        root_path: String::new(),
        root: 0,
        nodes: vec![node("root", &[], NodeKind::Dir, vec![1]), err],
        truncated: false,
        truncated_at: 1,
    };
    assert!(collect_module_candidates(&tree).is_empty());
}
