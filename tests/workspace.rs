use smarttree::doc::Doc;
use smarttree::error::SmarttreeError;
use smarttree::markers::{collect_module_candidates, ModuleCandidate};
use smarttree::model::{ModuleKind, Node, NodeKind, Tree, WorkspaceInfo, WorkspaceKind};
use smarttree::workspace::{
    detect_workspace, heuristic_package_roots, normalize_pattern, parse_cargo_workspace,
    parse_go_work, parse_lerna_packages, parse_package_json_workspaces, path_to_slash,
    resolve_package_roots, RootManifests,
};

fn s(x: &str) -> Doc {
    Doc::Str(x.to_string())
}

fn table(entries: Vec<(&str, Doc)>) -> Doc {
    Doc::Table(entries.into_iter().map(|(k, v)| (k.to_string(), v)).collect())
}

fn node(name: &str, path: &[&str], kind: NodeKind, children: Vec<usize>) -> Node {
    Node {
        name: name.to_string(),
        rel_path: path.iter().map(|s| s.to_string()).collect(),
        kind,
        children,
        module: None,
        error: None,
    }
}

fn no_manifests() -> RootManifests {
    RootManifests {
        pnpm_packages: None,
        package_json: None,
        lerna_json: None,
        cargo_toml: None,
        go_work: None,
        turbo_json: false,
        nx_json: false,
    }
}

fn paths(roots: &[Vec<String>]) -> Vec<String> {
    let mut v: Vec<String> = roots.iter().map(|r| r.join("/")).collect();
    v.sort();
    v
}

#[test]
fn parse_package_json_workspaces_array() {
    // { "workspaces": ["apps/*", "packages/*"] }
    let value = table(vec![("workspaces", Doc::List(vec![s("apps/*"), s("packages/*")]))]);
    let patterns = parse_package_json_workspaces(&value).expect("patterns");
    assert_eq!(patterns, vec!["apps/*", "packages/*"]);
}

#[test]
fn parse_package_json_workspaces_object() {
    // { "workspaces": { "packages": ["libs/*"] } }
    let value = table(vec![("workspaces", table(vec![("packages", Doc::List(vec![s("libs/*")]))]))]);
    let patterns = parse_package_json_workspaces(&value).expect("patterns");
    assert_eq!(patterns, vec!["libs/*"]);
}

#[test]
fn parse_go_work_use_block() {
    let patterns = parse_go_work("go 1.20\nuse (\n    ./module-a\n    ./module-b\n)\n");
    assert_eq!(patterns, vec!["./module-a", "./module-b"]);
}

#[test]
fn go_work_single_line_and_comments() {
    let patterns = parse_go_work("go 1.21\r\nuse ./tools\r\nuse (\r\n  // generated\r\n\r\n  ./svc\r\n)\r\n./outside\n");
    assert_eq!(patterns, vec!["./tools", "./svc"]);
}

#[test]
fn package_json_without_workspaces_is_no_workspace() {
    let value = table(vec![("name", s("x")), ("workspaces", s("apps/*"))]);
    assert!(parse_package_json_workspaces(&value).is_none());
    assert!(parse_package_json_workspaces(&table(vec![("name", s("x"))])).is_none());
}

#[test]
fn lerna_and_cargo_members() {
    let lerna = table(vec![("packages", Doc::List(vec![s("modules/*"), Doc::Other]))]);
    assert_eq!(parse_lerna_packages(&lerna), Some(vec!["modules/*".to_string()]));
    let cargo = table(vec![("workspace", table(vec![("members", Doc::List(vec![s("crates/*")]))]))]);
    assert_eq!(parse_cargo_workspace(&cargo), Some(vec!["crates/*".to_string()]));
    let bare = table(vec![("workspace", table(vec![]))]);
    assert_eq!(parse_cargo_workspace(&bare), Some(vec![]));
    let package = table(vec![("package", table(vec![("name", s("a"))]))]);
    assert_eq!(parse_cargo_workspace(&package), None);
}

#[test]
fn detection_priority_first_match_wins() {
    let mut m = no_manifests();
    assert!(detect_workspace(&m).is_none());
    m.nx_json = true;
    assert_eq!(detect_workspace(&m).unwrap().kind, WorkspaceKind::Nx);
    m.turbo_json = true;
    assert_eq!(detect_workspace(&m).unwrap().kind, WorkspaceKind::Turbo);
    m.go_work = Some("use ./a\n".to_string());
    let info = detect_workspace(&m).unwrap();
    assert_eq!(info.kind, WorkspaceKind::Go);
    assert_eq!(info.patterns, vec!["./a"]);
    m.package_json = Some(table(vec![("name", s("no-workspaces"))]));
    assert_eq!(detect_workspace(&m).unwrap().kind, WorkspaceKind::Go);
    m.package_json = Some(table(vec![("workspaces", Doc::List(vec![s("apps/*")]))]));
    assert_eq!(detect_workspace(&m).unwrap().kind, WorkspaceKind::Npm);
    m.pnpm_packages = Some(vec!["packages/*".to_string()]);
    let info = detect_workspace(&m).unwrap();
    assert_eq!(info.kind, WorkspaceKind::Pnpm);
    assert_eq!(info.patterns, vec!["packages/*"]);
}

#[test]
fn patterns_are_normalised() {
    assert_eq!(normalize_pattern("  ././apps/*  "), "apps/*");
    assert_eq!(normalize_pattern("//libs/*"), "libs/*");
    assert_eq!(normalize_pattern("pkg"), "pkg");
    assert_eq!(path_to_slash(&vec!["a".to_string(), "b".to_string()]), "a/b");
    assert_eq!(path_to_slash(&vec![]), "");
}

fn monorepo() -> Tree {
    Tree {
        root_path: "/repo".to_string(),
        root: 0,
        nodes: vec![
            node("repo", &[], NodeKind::Dir, vec![1, 2]),
            node("pnpm-workspace.yaml", &["pnpm-workspace.yaml"], NodeKind::File, vec![]),
            node("apps", &["apps"], NodeKind::Dir, vec![3, 4]),
            node("web", &["apps", "web"], NodeKind::Dir, vec![5]),
            node("api", &["apps", "api"], NodeKind::Dir, vec![6, 7]),
            node("package.json", &["apps", "web", "package.json"], NodeKind::File, vec![]),
            node("Cargo.toml", &["apps", "api", "Cargo.toml"], NodeKind::File, vec![]),
            node("nested", &["apps", "api", "nested"], NodeKind::Dir, vec![8]),
            node("go.mod", &["apps", "api", "nested", "go.mod"], NodeKind::File, vec![]),
        ],
        truncated: false,
        truncated_at: 8,
    }
}

#[test]
fn globs_select_directories_and_parents_of_files() {
    let tree = monorepo();
    let candidates = collect_module_candidates(&tree);
    let info = WorkspaceInfo { kind: WorkspaceKind::Pnpm, patterns: vec!["./apps/*".to_string()] };
    let roots = resolve_package_roots(&tree, &info, &candidates).expect("roots");
    // `*` crosses `/` by default, so deeper entries match too.
    assert_eq!(paths(&roots), vec!["apps/api", "apps/api/nested", "apps/web"]);
    let info = WorkspaceInfo {
        kind: WorkspaceKind::Npm,
        patterns: vec!["apps/*/package.json".to_string(), "apps/web".to_string()],
    };
    let roots = resolve_package_roots(&tree, &info, &candidates).expect("roots");
    assert_eq!(paths(&roots), vec!["apps/web"]);
}

#[test]
fn heuristic_fallback_when_patterns_select_nothing() {
    let tree = monorepo();
    let candidates = collect_module_candidates(&tree);
    let info = WorkspaceInfo { kind: WorkspaceKind::Pnpm, patterns: vec!["services/*".to_string()] };
    let roots = resolve_package_roots(&tree, &info, &candidates).expect("roots");
    assert_eq!(paths(&roots), vec!["apps/api", "apps/web"]);
    let info = WorkspaceInfo { kind: WorkspaceKind::Turbo, patterns: vec![] };
    let roots = resolve_package_roots(&tree, &info, &candidates).expect("roots");
    assert_eq!(paths(&roots), vec!["apps/api", "apps/web"]);
}

#[test]
fn heuristic_takes_second_level_directory() {
    let tree = monorepo();
    let candidates = vec![
        ModuleCandidate { node_id: 7, kind: ModuleKind::Go, markers: vec!["go.mod".to_string()] },
        ModuleCandidate { node_id: 0, kind: ModuleKind::Node, markers: vec![] },
        ModuleCandidate { node_id: 2, kind: ModuleKind::Node, markers: vec![] },
    ];
    let roots = heuristic_package_roots(&tree, &candidates);
    assert_eq!(paths(&roots), vec!["apps/api"]);
}

#[test]
fn invalid_glob_is_a_typed_error() {
    let tree = monorepo();
    let candidates = collect_module_candidates(&tree);
    let info = WorkspaceInfo {
        kind: WorkspaceKind::Npm,
        patterns: vec!["apps/*".to_string(), " ./apps/[".to_string()],
    };
    match resolve_package_roots(&tree, &info, &candidates) {
        Err(SmarttreeError::InvalidPattern { pattern, .. }) => assert_eq!(pattern, "apps/["),
        other => panic!("expected an invalid pattern, got {other:?}"),
    }
}
