//! The resolved configuration record, and the merge of command-line flags
//! with a configuration file.

use vstd::prelude::*;

use vstd::string::*;

use crate::charseq::{clone_strings, texts};
use crate::model::{Format, Lens};

verus! {

/// The resolved configuration that drives the walk and the renderer.
#[derive(Clone, Debug)]
pub struct Config {
    pub root: String,
    pub lens: Lens,
    pub format: Format,
    pub depth: usize,
    pub max_items: usize,
    pub max_children: usize,
    pub respect_gitignore: bool,
    pub hidden: bool,
    pub unicode: bool,
    pub ignore: Vec<String>,
    pub overrides: Vec<String>,
    pub key_dirs: Vec<String>,
}

pub const DEFAULT_DEPTH: usize = 4;

pub const DEFAULT_MAX_ITEMS: usize = 20000;

pub const DEFAULT_MAX_CHILDREN: usize = 200;

pub const DEFAULT_RESPECT_GITIGNORE: bool = true;

pub const DEFAULT_HIDDEN: bool = false;

pub const DEFAULT_UNICODE: bool = false;

/// Directory names that the module lens shows under an annotated module.
pub open spec fn default_key_dirs() -> Seq<Seq<char>> {
    seq![
        "src"@,
        "tests"@,
        "test"@,
        "docs"@,
        "examples"@,
        "scripts"@,
        "public"@,
        "include"@,
        "cmd"@,
        "bin"@,
    ]
}

/// Patterns ignored by default.
pub open spec fn default_ignore() -> Seq<Seq<char>> {
    seq![
        ".git"@,
        "node_modules"@,
        "dist"@,
        "build"@,
        "out"@,
        ".next"@,
        ".turbo"@,
        ".cache"@,
        ".pnpm-store"@,
        "coverage"@,
        ".venv"@,
        "venv"@,
        "__pycache__"@,
        ".pytest_cache"@,
        ".mypy_cache"@,
        ".ruff_cache"@,
        "target"@,
        ".idea"@,
        ".vscode"@,
        ".DS_Store"@,
        "Thumbs.db"@,
    ]
}

fn push_text(v: &mut Vec<String>, s: &str)
    ensures
        texts(final(v)@) == texts(old(v)@).push(s@),
{
    v.push(s.to_owned());
    assert(texts(final(v)@) =~= texts(old(v)@).push(s@));
}

fn default_key_dir_list() -> (r: Vec<String>)
    ensures
        texts(r@) == default_key_dirs(),
{
    let mut v: Vec<String> = Vec::new();
    push_text(&mut v, "src");
    push_text(&mut v, "tests");
    push_text(&mut v, "test");
    push_text(&mut v, "docs");
    push_text(&mut v, "examples");
    push_text(&mut v, "scripts");
    push_text(&mut v, "public");
    push_text(&mut v, "include");
    push_text(&mut v, "cmd");
    push_text(&mut v, "bin");
    assert(texts(v@) =~= default_key_dirs());
    v
}

fn default_ignore_list() -> (r: Vec<String>)
    ensures
        texts(r@) == default_ignore(),
{
    let mut v: Vec<String> = Vec::new();
    push_text(&mut v, ".git");
    push_text(&mut v, "node_modules");
    push_text(&mut v, "dist");
    push_text(&mut v, "build");
    push_text(&mut v, "out");
    push_text(&mut v, ".next");
    push_text(&mut v, ".turbo");
    push_text(&mut v, ".cache");
    push_text(&mut v, ".pnpm-store");
    push_text(&mut v, "coverage");
    push_text(&mut v, ".venv");
    push_text(&mut v, "venv");
    push_text(&mut v, "__pycache__");
    push_text(&mut v, ".pytest_cache");
    push_text(&mut v, ".mypy_cache");
    push_text(&mut v, ".ruff_cache");
    push_text(&mut v, "target");
    push_text(&mut v, ".idea");
    push_text(&mut v, ".vscode");
    push_text(&mut v, ".DS_Store");
    push_text(&mut v, "Thumbs.db");
    assert(texts(v@) =~= default_ignore());
    v
}

/// Command-line flags, as parsed by the caller.
#[derive(Clone, Debug)]
pub struct Cli {
    pub path: String,
    pub lens: Option<Lens>,
    pub format: Option<Format>,
    pub depth: Option<usize>,
    pub max_items: Option<usize>,
    pub max_children: Option<usize>,
    pub respect_gitignore: bool,
    pub no_respect_gitignore: bool,
    pub config: Option<String>,
    pub no_config: bool,
    pub init: bool,
    pub ignore: Vec<String>,
    pub overrides: Vec<String>,
    pub hidden: bool,
    pub unicode: bool,
    pub ascii: bool,
}

/// The settings of a configuration file; each may be absent.
#[derive(Clone, Debug)]
pub struct ConfigFile {
    pub lens: Option<Lens>,
    pub format: Option<Format>,
    pub depth: Option<usize>,
    pub max_items: Option<usize>,
    pub max_children: Option<usize>,
    pub respect_gitignore: Option<bool>,
    pub hidden: Option<bool>,
    pub unicode: Option<bool>,
    pub ignore: Option<Vec<String>>,
    pub overrides: Option<Vec<String>>,
    pub key_dirs: Option<Vec<String>>,
}

impl ConfigFile {
    /// A file that sets nothing.
    pub fn empty() -> (r: ConfigFile)
        ensures
            r.lens is None && r.format is None && r.depth is None && r.max_items is None
                && r.max_children is None && r.respect_gitignore is None && r.hidden is None
                && r.unicode is None && r.ignore is None && r.overrides is None && r.key_dirs is None,
    {
        ConfigFile {
            lens: None,
            format: None,
            depth: None,
            max_items: None,
            max_children: None,
            respect_gitignore: None,
            hidden: None,
            unicode: None,
            ignore: None,
            overrides: None,
            key_dirs: None,
        }
    }
}

/// Where the configuration file comes from.
#[derive(Clone, Debug)]
pub enum ConfigSource {
    /// Loading is switched off.
    Disabled,
    /// The path given on the command line.
    Explicit(String),
    /// The first of `config_file_names` that is a file in the scan root.
    Search,
}

/// Which configuration file a run reads.
pub fn config_source(cli: &Cli) -> (r: ConfigSource)
    ensures
        cli.no_config ==> r is Disabled,
        !cli.no_config && cli.config is Some ==> r is Explicit && r->Explicit_0@
            == cli.config->Some_0@,
        !cli.no_config && cli.config is None ==> r is Search,
{
    if cli.no_config {
        ConfigSource::Disabled
    } else {
        match &cli.config {
            Some(path) => ConfigSource::Explicit(path.clone()),
            None => ConfigSource::Search,
        }
    }
}

/// The configuration file names searched in the scan root, in order.
pub fn config_file_names() -> (r: Vec<String>)
    ensures
        texts(r@) == seq![".smarttree.yaml"@, ".smarttree.yml"@, "smarttree.yaml"@],
{
    let mut v: Vec<String> = Vec::new();
    push_text(&mut v, ".smarttree.yaml");
    push_text(&mut v, ".smarttree.yml");
    push_text(&mut v, "smarttree.yaml");
    assert(texts(v@) =~= seq![".smarttree.yaml"@, ".smarttree.yml"@, "smarttree.yaml"@]);
    v
}

/// The command-line value, else the file's, else the default.
pub open spec fn pick<T>(a: Option<T>, b: Option<T>, d: T) -> T {
    match a {
        Some(x) => x,
        None => match b {
            Some(y) => y,
            None => d,
        },
    }
}

pub open spec fn list_or_empty(v: Option<Vec<String>>) -> Seq<Seq<char>> {
    match v {
        Some(x) => texts(x@),
        None => Seq::empty(),
    }
}

fn append_all(dst: &mut Vec<String>, src: &Vec<String>)
    ensures
        texts(final(dst)@) == texts(old(dst)@) + texts(src@),
{
    let mut i: usize = 0;
    while i < src.len()
        invariant
            i <= src.len(),
            texts(dst@) == texts(old(dst)@) + texts(src@).take(i as int),
        decreases src.len() - i,
    {
        let ghost prev = texts(dst@);
        dst.push(src[i].clone());
        assert(texts(dst@) =~= prev.push(src@[i as int]@));
        assert(texts(src@).take(i as int + 1) =~= texts(src@).take(i as int).push(src@[i as int]@));
        i = i + 1;
    }
    assert(texts(src@).take(i as int) =~= texts(src@));
}

/// Merges command-line flags over a configuration file over the defaults.
/// Flags win; ignore patterns accumulate (defaults, file, flags), as do
/// override patterns (file, flags); key directories come from the file or
/// the defaults.
pub fn load(cli: &Cli, file: &ConfigFile) -> (r: Config)
    ensures
        r.root@ == cli.path@,
        r.lens == pick(cli.lens, file.lens, Lens::Module),
        r.format == pick(cli.format, file.format, Format::Text),
        r.depth == pick(cli.depth, file.depth, DEFAULT_DEPTH),
        r.max_items == pick(cli.max_items, file.max_items, DEFAULT_MAX_ITEMS),
        r.max_children == pick(cli.max_children, file.max_children, DEFAULT_MAX_CHILDREN),
        r.respect_gitignore == if cli.no_respect_gitignore {
            false
        } else if cli.respect_gitignore {
            true
        } else {
            pick(None, file.respect_gitignore, DEFAULT_RESPECT_GITIGNORE)
        },
        r.hidden == (cli.hidden || pick(None, file.hidden, DEFAULT_HIDDEN)),
        r.unicode == if cli.ascii {
            false
        } else if cli.unicode {
            true
        } else {
            pick(None, file.unicode, DEFAULT_UNICODE)
        },
        texts(r.ignore@) == default_ignore() + list_or_empty(file.ignore) + texts(cli.ignore@),
        texts(r.overrides@) == list_or_empty(file.overrides) + texts(cli.overrides@),
        texts(r.key_dirs@) == match file.key_dirs {
            Some(k) => texts(k@),
            None => default_key_dirs(),
        },
{
    let lens = match cli.lens {
        Some(l) => l,
        None => match file.lens {
            Some(l) => l,
            None => Lens::Module,
        },
    };
    let format = match cli.format {
        Some(f) => f,
        None => match file.format {
            Some(f) => f,
            None => Format::Text,
        },
    };
    let depth = match cli.depth {
        Some(d) => d,
        None => match file.depth {
            Some(d) => d,
            None => DEFAULT_DEPTH,
        },
    };
    let max_items = match cli.max_items {
        Some(n) => n,
        None => match file.max_items {
            Some(n) => n,
            None => DEFAULT_MAX_ITEMS,
        },
    };
    let max_children = match cli.max_children {
        Some(n) => n,
        None => match file.max_children {
            Some(n) => n,
            None => DEFAULT_MAX_CHILDREN,
        },
    };
    let respect_gitignore = if cli.no_respect_gitignore {
        false
    } else if cli.respect_gitignore {
        true
    } else {
        match file.respect_gitignore {
            Some(b) => b,
            None => DEFAULT_RESPECT_GITIGNORE,
        }
    };
    let hidden = if cli.hidden {
        true
    } else {
        match file.hidden {
            Some(b) => b,
            None => DEFAULT_HIDDEN,
        }
    };
    let unicode = if cli.ascii {
        false
    } else if cli.unicode {
        true
    } else {
        match file.unicode {
            Some(b) => b,
            None => DEFAULT_UNICODE,
        }
    };
    let mut ignore = default_ignore_list();
    if let Some(extra) = &file.ignore {
        append_all(&mut ignore, extra);
    }
    append_all(&mut ignore, &cli.ignore);
    let mut overrides: Vec<String> = Vec::new();
    if let Some(extra) = &file.overrides {
        append_all(&mut overrides, extra);
    }
    append_all(&mut overrides, &cli.overrides);
    let key_dirs = match &file.key_dirs {
        Some(list) => clone_strings(list),
        None => default_key_dir_list(),
    };
    proof {
        assert(texts(Seq::<String>::empty()) =~= Seq::<Seq<char>>::empty());
        assert(list_or_empty(file.ignore) + Seq::<Seq<char>>::empty() =~= list_or_empty(file.ignore));
        assert(default_ignore() + Seq::<Seq<char>>::empty() =~= default_ignore());
        assert(Seq::<Seq<char>>::empty() + list_or_empty(file.overrides) =~= list_or_empty(file.overrides));
    }
    Config {
        root: cli.path.clone(),
        lens,
        format,
        depth,
        max_items,
        max_children,
        respect_gitignore,
        hidden,
        unicode,
        ignore,
        overrides,
        key_dirs,
    }
}

/// The walker's override globs: every ignore pattern negated with `!`,
/// then every override pattern as given.
pub open spec fn override_globs_of(c: Config) -> Seq<Seq<char>> {
    texts(c.ignore@).map_values(|p: Seq<char>| "!"@ + p) + texts(c.overrides@)
}

pub fn override_globs(config: &Config) -> (r: Vec<String>)
    ensures
        texts(r@) == override_globs_of(*config),
{
    let mut out: Vec<String> = Vec::new();
    let mut i: usize = 0;
    while i < config.ignore.len()
        invariant
            i <= config.ignore.len(),
            texts(out@) == texts(config.ignore@).take(i as int).map_values(|p: Seq<char>| "!"@ + p),
        decreases config.ignore.len() - i,
    {
        let mut g = String::new();
        g.append("!");
        g.append(config.ignore[i].as_str());
        let ghost prev = texts(out@);
        out.push(g);
        assert(texts(out@) =~= prev.push("!"@ + config.ignore@[i as int]@));
        assert(texts(config.ignore@).take(i as int + 1).map_values(|p: Seq<char>| "!"@ + p)
            =~= texts(config.ignore@).take(i as int).map_values(|p: Seq<char>| "!"@ + p).push(
            "!"@ + config.ignore@[i as int]@,
        ));
        i = i + 1;
    }
    assert(texts(config.ignore@).take(i as int) =~= texts(config.ignore@));
    append_all(&mut out, &config.overrides);
    out
}

} // verus!
