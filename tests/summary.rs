use smarttree::doc::Doc;
use smarttree::model::ModuleKind;
use smarttree::summary::{
    read_cargo_toml, read_first_line, read_go_mod, read_package_json, read_pyproject,
    read_readme_line, read_setup_cfg, read_summary, readme_candidates, ModuleFiles,
};

fn s(x: &str) -> Doc {
    Doc::Str(x.to_string())
}

fn table(entries: Vec<(&str, Doc)>) -> Doc {
    Doc::Table(entries.into_iter().map(|(k, v)| (k.to_string(), v)).collect())
}

fn files() -> ModuleFiles {
    ModuleFiles {
        package_json: None,
        cargo_toml: None,
        pyproject_toml: None,
        setup_cfg: None,
        go_mod: None,
        readmes: vec![],
    }
}

#[test]
fn package_json_fallback_chain() {
    let both = table(vec![("name", s("x")), ("description", s("y"))]);
    assert_eq!(read_package_json(&both).as_deref(), Some("x - y"));
    assert_eq!(read_package_json(&table(vec![("name", s("x"))])).as_deref(), Some("x"));
    assert_eq!(read_package_json(&table(vec![("description", s("y"))])).as_deref(), Some("y"));
    assert_eq!(read_package_json(&table(vec![("main", s("index.js"))])).as_deref(), Some("main: index.js"));
    assert_eq!(read_package_json(&table(vec![("bin", s("cli.js"))])).as_deref(), Some("bin: cli.js"));
    let bin_obj = table(vec![("bin", table(vec![("tool", s("t.js")), ("other", s("o.js"))]))]);
    assert_eq!(read_package_json(&bin_obj).as_deref(), Some("bin: tool"));
    assert_eq!(read_package_json(&table(vec![("name", Doc::Other)])), None);
}

#[test]
fn cargo_and_pyproject_tables() {
    let cargo = table(vec![("package", table(vec![("name", s("core")), ("description", s("the core"))]))]);
    assert_eq!(read_cargo_toml(&cargo).as_deref(), Some("core - the core"));
    assert_eq!(read_cargo_toml(&table(vec![("package", s("x"))])), None);
    let project = table(vec![("project", table(vec![("name", s("app"))]))]);
    assert_eq!(read_pyproject(&project).as_deref(), Some("app"));
    let poetry = table(vec![("tool", table(vec![("poetry", table(vec![("description", s("d"))]))]))]);
    assert_eq!(read_pyproject(&poetry).as_deref(), Some("d"));
    let empty_project = table(vec![("project", table(vec![])), ("tool", table(vec![("poetry", table(vec![("name", s("p"))]))]))]);
    assert_eq!(read_pyproject(&empty_project).as_deref(), Some("p"));
    assert_eq!(read_pyproject(&table(vec![("project", table(vec![]))])), None);
}

#[test]
fn setup_cfg_metadata_section() {
    let cfg = "[options]\nname = wrong\n\n[METADATA]\n# comment\nName = \"pkg\"\ndescription='A thing'\n[other]\ndescription = no\n";
    assert_eq!(read_setup_cfg(cfg).as_deref(), Some("pkg - A thing"));
    assert_eq!(read_setup_cfg("[metadata]\nversion = 1\n"), None);
}

#[test]
fn go_mod_module_line() {
    assert_eq!(read_go_mod("// x\n  module example.com/m  \ngo 1.21\n").as_deref(), Some("module example.com/m"));
    assert_eq!(read_go_mod("go 1.21\n"), None);
}

#[test]
fn readme_candidates_are_filtered_and_sorted() {
    let names = vec!["src".to_string(), "README.md".to_string(), "Readme.txt".to_string(), "readme".to_string(), "notes".to_string()];
    assert_eq!(readme_candidates(&names), vec!["README.md", "Readme.txt", "readme"]);
    assert_eq!(read_first_line("\n   \n  # Title  \nmore").as_deref(), Some("# Title"));
    let readmes = vec![None, Some("  \n".to_string()), Some("hello\n".to_string())];
    assert_eq!(read_readme_line(&readmes).as_deref(), Some("hello"));
}

#[test]
fn summary_falls_back_to_readme() {
    let mut f = files();
    f.readmes = vec![Some("Project notes\n".to_string())];
    assert_eq!(read_summary(ModuleKind::Java, &f).as_deref(), Some("Project notes"));
    f.go_mod = Some("module m\n".to_string());
    assert_eq!(read_summary(ModuleKind::Go, &f).as_deref(), Some("module m"));
    f.setup_cfg = Some("[metadata]\nname=py\n".to_string());
    assert_eq!(read_summary(ModuleKind::Python, &f).as_deref(), Some("py"));
    f.pyproject_toml = Some(table(vec![("project", table(vec![("name", s("proj"))]))]));
    assert_eq!(read_summary(ModuleKind::Python, &f).as_deref(), Some("proj"));
    assert_eq!(read_summary(ModuleKind::Node, &f).as_deref(), Some("Project notes"));
    assert_eq!(read_summary(ModuleKind::DotNet, &files()), None);
}
