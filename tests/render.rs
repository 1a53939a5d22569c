use smarttree::config::Config;
use smarttree::doc::Doc;
use smarttree::markers::{annotate_modules, collect_module_candidates, should_annotate};
use smarttree::model::{
    Format, Lens, ModuleInfo, ModuleKind, Node, NodeKind, Tree, WorkspaceKind, WorkspaceResolved,
};
use smarttree::render::{render, render_md, render_text};
use smarttree::summary::{read_summary, ModuleFiles};
use smarttree::workspace::{detect_workspace, resolve_package_roots, RootManifests};

fn node(name: &str, path: &[&str], kind: NodeKind, children: Vec<usize>) -> Node {
    Node {
        name: name.to_string(),
        rel_path: path.iter().map(|s| s.to_string()).collect(),
        kind,
        children,
        module: None,
        error: None,
    }
}

fn config(lens: Lens) -> Config {
    Config {
        root: ".".to_string(),
        lens,
        format: Format::Text,
        depth: 4,
        max_items: 20000,
        max_children: 200,
        respect_gitignore: true,
        hidden: false,
        unicode: false,
        ignore: vec![],
        overrides: vec![],
        key_dirs: vec!["src".to_string(), "tests".to_string()],
    }
}

fn no_files() -> ModuleFiles {
    ModuleFiles {
        package_json: None,
        cargo_toml: None,
        pyproject_toml: None,
        setup_cfg: None,
        go_mod: None,
        readmes: vec![],
    }
}

fn str_doc(x: &str) -> Doc {
    Doc::Str(x.to_string())
}

fn flat(names: &[(&str, NodeKind)]) -> Tree {
    let mut nodes = vec![node("proj", &[], NodeKind::Dir, (1..=names.len()).collect())];
    for (name, kind) in names {
        nodes.push(node(name, &[name], *kind, vec![]));
    }
    Tree { root_path: "/tmp/proj".to_string(), root: 0, nodes, truncated: false, truncated_at: names.len() }
}

#[test]
fn siblings_sorted_directories_first_then_case_insensitive() {
    let tree = flat(&[
        ("b.txt", NodeKind::File),
        ("Zeta", NodeKind::Dir),
        ("A.md", NodeKind::File),
        ("alpha", NodeKind::Dir),
        ("a.md", NodeKind::File),
    ]);
    let text = render_text(&tree, None, &config(Lens::Files));
    assert_eq!(text, "proj/\n|-- alpha/\n|-- Zeta/\n|-- A.md\n|-- a.md\n`-- b.txt");
}

#[test]
fn per_directory_cap_appends_more_line() {
    let tree = flat(&[
        ("e", NodeKind::File),
        ("d", NodeKind::File),
        ("c", NodeKind::File),
        ("b", NodeKind::File),
        ("a", NodeKind::File),
    ]);
    let mut cfg = config(Lens::Files);
    cfg.max_children = 2;
    let text = render_text(&tree, None, &cfg);
    assert_eq!(text, "proj/\n|-- a\n|-- b\n`-- ... (3 more)");
    cfg.max_children = 5;
    let text = render_text(&tree, None, &cfg);
    assert_eq!(text, "proj/\n|-- a\n|-- b\n|-- c\n|-- d\n`-- e");
}

#[test]
fn nested_prefixes_and_unicode_connectors() {
    let tree = Tree {
        root_path: "/p".to_string(),
        root: 0,
        nodes: vec![
            node("p", &[], NodeKind::Dir, vec![1, 2]),
            node("src", &["src"], NodeKind::Dir, vec![3, 4]),
            node("z.txt", &["z.txt"], NodeKind::File, vec![]),
            node("lib.rs", &["src", "lib.rs"], NodeKind::File, vec![]),
            node("main.rs", &["src", "main.rs"], NodeKind::File, vec![]),
        ],
        truncated: false,
        truncated_at: 4,
    };
    let ascii = render_text(&tree, None, &config(Lens::Files));
    assert_eq!(ascii, "p/\n|-- src/\n|   |-- lib.rs\n|   `-- main.rs\n`-- z.txt");
    let mut cfg = config(Lens::Files);
    cfg.unicode = true;
    let uni = render_text(&tree, None, &cfg);
    assert_eq!(
        uni,
        "p/\n\u{251C}\u{2500}\u{2500} src/\n\u{2502}   \u{251C}\u{2500}\u{2500} lib.rs\n\u{2502}   \u{2514}\u{2500}\u{2500} main.rs\n\u{2514}\u{2500}\u{2500} z.txt"
    );
    for line in uni.lines().skip(1) {
        let depth = if line.contains("src/") || line.contains("z.txt") { 1 } else { 2 };
        let name_at = line.char_indices().nth(4 * depth).unwrap().0;
        assert!(line[name_at..].chars().next().unwrap().is_alphanumeric(), "{line}");
    }
}

#[test]
fn module_lens_hides_plain_files_and_files_lens_shows_all() {
    let mut tree = Tree {
        root_path: "/p".to_string(),
        root: 0,
        nodes: vec![
            node("p", &[], NodeKind::Dir, vec![1, 2, 3, 4]),
            node("package.json", &["package.json"], NodeKind::File, vec![]),
            node("notes.txt", &["notes.txt"], NodeKind::File, vec![]),
            node("src", &["src"], NodeKind::Dir, vec![5]),
            node("misc", &["misc"], NodeKind::Dir, vec![]),
            node("index.js", &["src", "index.js"], NodeKind::File, vec![]),
        ],
        truncated: false,
        truncated_at: 5,
    };
    let candidates = collect_module_candidates(&tree);
    annotate_modules(&mut tree, &candidates, None, &vec![None]);
    let module = render_text(&tree, None, &config(Lens::Module));
    assert_eq!(module, "p/  [node]\n|-- src/\n`-- package.json");
    let files = render_text(&tree, None, &config(Lens::Files));
    assert_eq!(files, "p/  [node]\n|-- misc/\n|-- src/\n|   `-- index.js\n|-- notes.txt\n`-- package.json");
}

#[test]
fn rendering_twice_is_identical() {
    let tree = flat(&[("b", NodeKind::File), ("a", NodeKind::Dir), ("c", NodeKind::Error)]);
    let cfg = config(Lens::Files);
    let first = render(&tree, None, &cfg);
    let second = render(&tree, None, &cfg);
    assert_eq!(first, second);
    assert!(first.ends_with('\n') && !first.ends_with("\n\n"));
}

#[test]
fn markdown_wraps_text_in_a_fence() {
    assert_eq!(render_md("a/\n`-- b"), "```text\na/\n`-- b\n```");
    let tree = flat(&[("x", NodeKind::File)]);
    let mut cfg = config(Lens::Files);
    cfg.format = Format::Md;
    assert_eq!(render(&tree, None, &cfg), "```text\nproj/\n`-- x\n```\n");
}

#[test]
fn node_root_with_summary_and_no_workspace() {
    let mut tree = flat(&[("package.json", NodeKind::File)]);
    let manifests = RootManifests {
        pnpm_packages: None,
        package_json: Some(Doc::Table(vec![
            ("name".to_string(), str_doc("x")),
            ("description".to_string(), str_doc("y")),
        ])),
        lerna_json: None,
        cargo_toml: None,
        go_work: None,
        turbo_json: false,
        nx_json: false,
    };
    assert!(detect_workspace(&manifests).is_none());
    let candidates = collect_module_candidates(&tree);
    let mut files = no_files();
    files.package_json = manifests.package_json;
    let summaries = vec![read_summary(candidates[0].kind, &files)];
    annotate_modules(&mut tree, &candidates, None, &summaries);
    let out = render(&tree, None, &config(Lens::Module));
    let root_line = out.lines().next().unwrap();
    assert_eq!(root_line, "proj/  [node]  x - y");
    assert!(!out.contains("[workspace:"));
}

#[test]
fn pnpm_workspace_annotates_both_apps() {
    let mut tree = Tree {
        root_path: "/repo".to_string(),
        root: 0,
        nodes: vec![
            node("repo", &[], NodeKind::Dir, vec![1, 2]),
            node("pnpm-workspace.yaml", &["pnpm-workspace.yaml"], NodeKind::File, vec![]),
            node("apps", &["apps"], NodeKind::Dir, vec![3, 4]),
            node("web", &["apps", "web"], NodeKind::Dir, vec![5]),
            node("api", &["apps", "api"], NodeKind::Dir, vec![6]),
            node("package.json", &["apps", "web", "package.json"], NodeKind::File, vec![]),
            node("pyproject.toml", &["apps", "api", "pyproject.toml"], NodeKind::File, vec![]),
        ],
        truncated: false,
        truncated_at: 6,
    };
    let mut manifests = RootManifests {
        pnpm_packages: Some(vec!["apps/*".to_string()]),
        package_json: None,
        lerna_json: None,
        cargo_toml: None,
        go_work: None,
        turbo_json: false,
        nx_json: false,
    };
    manifests.turbo_json = true;
    let info = detect_workspace(&manifests).unwrap();
    assert_eq!(info.kind, WorkspaceKind::Pnpm);
    let candidates = collect_module_candidates(&tree);
    let roots = resolve_package_roots(&tree, &info, &candidates).unwrap();
    let ws = WorkspaceResolved { kind: info.kind, package_roots: roots };
    assert!(candidates.iter().all(|c| should_annotate(&tree, c.node_id, Some(&ws))));
    let summaries: Vec<Option<String>> = vec![None; candidates.len()];
    annotate_modules(&mut tree, &candidates, Some(&ws), &summaries);
    let out = render(&tree, Some(&ws), &config(Lens::Module));
    assert_eq!(
        out,
        "repo/  [workspace: pnpm]\n`-- apps/\n    |-- api/  [py]\n    |   `-- pyproject.toml\n    `-- web/  [node]\n        `-- package.json\n"
    );
}

#[test]
fn error_entry_shows_its_message() {
    let mut tree = flat(&[("locked", NodeKind::Error), ("ok.txt", NodeKind::File)]);
    tree.nodes[1].error = Some("permission denied".to_string());
    let text = render_text(&tree, None, &config(Lens::Files));
    assert_eq!(text, "proj/\n|-- locked (permission denied)\n`-- ok.txt");
}

#[test]
fn module_annotation_shows_tag_and_summary_on_children() {
    let mut tree = flat(&[("lib", NodeKind::Dir)]);
    tree.nodes[1].module = Some(ModuleInfo {
        kind: ModuleKind::Rust,
        summary: Some("core - the core".to_string()),
        markers: vec!["Cargo.toml".to_string()],
    });
    let text = render_text(&tree, None, &config(Lens::Module));
    assert_eq!(text, "proj/\n`-- lib/  [rs]  core - the core");
    let tags: Vec<&str> = [
        ModuleKind::Node,
        ModuleKind::Python,
        ModuleKind::Rust,
        ModuleKind::Go,
        ModuleKind::Java,
        ModuleKind::DotNet,
        ModuleKind::Unknown,
    ]
    .iter()
    .map(|k| k.tag())
    .collect();
    assert_eq!(tags, vec!["[node]", "[py]", "[rs]", "[go]", "[java]", "[dotnet]", "[module]"]);
    assert_eq!(WorkspaceKind::Cargo.label(), "cargo");
}

#[test]
fn truncation_notice_is_the_last_line() {
    let mut tree = flat(&[("a", NodeKind::File)]);
    tree.truncated = true;
    let mut cfg = config(Lens::Files);
    cfg.max_items = 1;
    let out = render(&tree, None, &cfg);
    assert_eq!(out, "proj/\n`-- a\n... (truncated after reaching max-items=1)\n");
}

#[test]
fn empty_directory_and_zero_cap() {
    let tree = flat(&[]);
    assert_eq!(render(&tree, None, &config(Lens::Files)), "proj/\n");
    let tree = flat(&[("a", NodeKind::File), ("b", NodeKind::File)]);
    let mut cfg = config(Lens::Files);
    cfg.max_children = 0;
    assert_eq!(render_text(&tree, None, &cfg), "proj/\n`-- ... (2 more)");
}

#[test]
fn equal_names_keep_their_walk_order() {
    let mut tree = flat(&[("same", NodeKind::File), ("same", NodeKind::File)]);
    tree.nodes[1].error = Some("first".to_string());
    tree.nodes[1].kind = NodeKind::Error;
    let text = render_text(&tree, None, &config(Lens::Files));
    assert_eq!(text, "proj/\n|-- same (first)\n`-- same");
}

#[test]
fn well_formedness_is_checked() {
    let tree = flat(&[("a", NodeKind::File)]);
    assert!(tree.well_formed());
    let mut bad = flat(&[("a", NodeKind::File)]);
    bad.nodes[1].children = vec![0];
    assert!(!bad.well_formed());
    let mut out_of_range = flat(&[("a", NodeKind::File)]);
    out_of_range.nodes[0].children.push(9);
    assert!(!out_of_range.well_formed());
}

#[test]
fn output_ends_with_exactly_one_newline() {
    let tree = flat(&[("odd\n\n", NodeKind::File)]);
    let out = render(&tree, None, &config(Lens::Files));
    assert_eq!(out, "proj/\n`-- odd\n");
    let mut cfg = config(Lens::Files);
    cfg.format = Format::Md;
    assert!(render(&tree, None, &cfg).ends_with("```\n"));
}
