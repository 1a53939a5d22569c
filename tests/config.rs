use smarttree::config::{config_file_names, config_source, load, override_globs, Cli, ConfigFile, ConfigSource};
use smarttree::model::{Format, Lens};

fn cli() -> Cli {
    Cli {
        path: ".".to_string(),
        lens: None,
        format: None,
        depth: None,
        max_items: None,
        max_children: None,
        respect_gitignore: false,
        no_respect_gitignore: false,
        config: None,
        no_config: false,
        init: false,
        ignore: vec![],
        overrides: vec![],
        hidden: false,
        unicode: false,
        ascii: false,
    }
}

#[test]
fn defaults_when_nothing_is_set() {
    let c = load(&cli(), &ConfigFile::empty());
    assert_eq!(c.lens, Lens::Module);
    assert_eq!(c.format, Format::Text);
    assert_eq!(c.depth, 4);
    assert_eq!(c.max_items, 20000);
    assert_eq!(c.max_children, 200);
    assert!(c.respect_gitignore);
    assert!(!c.hidden);
    assert!(!c.unicode);
    assert_eq!(c.ignore.len(), 21);
    assert_eq!(c.ignore[0], ".git");
    assert_eq!(c.key_dirs.len(), 10);
    assert!(c.overrides.is_empty());
}

#[test]
fn flags_override_file_and_lists_accumulate() {
    let mut flags = cli();
    flags.lens = Some(Lens::Files);
    flags.max_children = Some(60);
    flags.no_respect_gitignore = true;
    flags.ascii = true;
    flags.ignore = vec!["tmp".to_string()];
    flags.overrides = vec!["keep".to_string()];
    let mut file = ConfigFile::empty();
    file.lens = Some(Lens::Module);
    file.depth = Some(2);
    file.respect_gitignore = Some(true);
    file.unicode = Some(true);
    file.hidden = Some(true);
    file.ignore = Some(vec!["logs".to_string()]);
    file.overrides = Some(vec!["dist/keep".to_string()]);
    file.key_dirs = Some(vec!["lib".to_string()]);
    let c = load(&flags, &file);
    assert_eq!(c.lens, Lens::Files);
    assert_eq!(c.depth, 2);
    assert_eq!(c.max_children, 60);
    assert!(!c.respect_gitignore);
    assert!(!c.unicode);
    assert!(c.hidden);
    assert_eq!(&c.ignore[21..], &["logs".to_string(), "tmp".to_string()]);
    assert_eq!(c.overrides, vec!["dist/keep", "keep"]);
    assert_eq!(c.key_dirs, vec!["lib"]);
    let globs = override_globs(&c);
    assert_eq!(globs[0], "!.git");
    assert_eq!(&globs[globs.len() - 2..], &["dist/keep".to_string(), "keep".to_string()]);
}

#[test]
fn config_file_selection() {
    let mut flags = cli();
    assert!(matches!(config_source(&flags), ConfigSource::Search));
    flags.config = Some("my.yml".to_string());
    assert!(matches!(config_source(&flags), ConfigSource::Explicit(p) if p == "my.yml"));
    flags.no_config = true;
    assert!(matches!(config_source(&flags), ConfigSource::Disabled));
    assert_eq!(config_file_names(), vec![".smarttree.yaml", ".smarttree.yml", "smarttree.yaml"]);
}
