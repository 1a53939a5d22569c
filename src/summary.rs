//! One-line module summaries: ecosystem-specific manifest fields first,
//! then the first line of a README. Every missing or unreadable source
//! simply yields no summary.

use vstd::prelude::*;
use vstd::string::*;

use crate::charseq::{
    ends_with, eq_ignore_ascii_case, find_char, find_char_index, has_prefix, has_suffix, lex_less,
    lex_lt, lines_of, lower_of, lowercase, opt_text, same_text, split_lines, starts_with,
    strip_char, strip_char_text, substring, text_eq_ignore_ascii_case, texts, to_chars, trim,
    trim_text,
};
use crate::doc::{as_text, field, get, get_opt, opt_ref, text_of_doc, Doc};
use crate::model::ModuleKind;

verus! {

/// What the caller read from a module directory. A manifest that is
/// absent, or that does not read or parse, is `None`.
#[derive(Debug)]
pub struct ModuleFiles {
    /// `package.json`, parsed.
    pub package_json: Option<Doc>,
    /// `Cargo.toml`, parsed.
    pub cargo_toml: Option<Doc>,
    /// `pyproject.toml`, parsed.
    pub pyproject_toml: Option<Doc>,
    /// The text of `setup.cfg`.
    pub setup_cfg: Option<String>,
    /// The text of `go.mod`.
    pub go_mod: Option<String>,
    /// For each README file in the order of `readme_candidates`, the text of
    /// its first 4096 bytes, or `None` when it does not read.
    pub readmes: Vec<Option<String>>,
}

/// `name - description`, or whichever of the two is present.
pub open spec fn name_desc(name: Option<Seq<char>>, desc: Option<Seq<char>>) -> Option<Seq<char>> {
    match (name, desc) {
        (Some(n), Some(d)) => Some(n + " - "@ + d),
        (Some(n), None) => Some(n),
        (None, Some(d)) => Some(d),
        (None, None) => None,
    }
}

/// The `name`/`description` summary of a table.
pub open spec fn table_summary(t: Doc) -> Option<Seq<char>> {
    name_desc(text_of_doc(field(t, "name"@)), text_of_doc(field(t, "description"@)))
}

/// Summary of a `package.json`: name and description, else its `main`,
/// else its `bin` (a string, or the first key of an object).
pub open spec fn package_json_summary(d: Doc) -> Option<Seq<char>> {
    let main = text_of_doc(field(d, "main"@));
    if table_summary(d) is Some {
        table_summary(d)
    } else if main is Some {
        Some("main: "@ + main->Some_0)
    } else {
        match field(d, "bin"@) {
            Some(Doc::Str(s)) => Some("bin: "@ + s@),
            Some(Doc::Table(entries)) => if entries@.len() > 0 {
                Some("bin: "@ + entries@[0].0@)
            } else {
                None
            },
            _ => None,
        }
    }
}

/// Summary of a `Cargo.toml`: from its `package` table.
pub open spec fn cargo_summary(d: Doc) -> Option<Seq<char>> {
    match field(d, "package"@) {
        Some(Doc::Table(e)) => table_summary(Doc::Table(e)),
        _ => None,
    }
}

/// Summary of a `pyproject.toml`: from its `project` table, else (when that
/// is missing or yields nothing) from its `tool.poetry` table.
pub open spec fn pyproject_summary(d: Doc) -> Option<Seq<char>> {
    let project = match field(d, "project"@) {
        Some(Doc::Table(e)) => table_summary(Doc::Table(e)),
        _ => None,
    };
    if project is Some {
        project
    } else {
        match crate::doc::field_of(field(d, "tool"@), "poetry"@) {
            Some(Doc::Table(e)) => table_summary(Doc::Table(e)),
            _ => None,
        }
    }
}

fn join_name_desc(name: Option<String>, desc: Option<String>) -> (r: Option<String>)
    ensures
        opt_text(r) == name_desc(opt_text(name), opt_text(desc)),
{
    match (name, desc) {
        (Some(n), Some(d)) => {
            let mut s = n;
            s.append(" - ");
            s.append(d.as_str());
            Some(s)
        },
        (Some(n), None) => Some(n),
        (None, Some(d)) => Some(d),
        (None, None) => None,
    }
}

fn doc_text_opt(d: Option<&Doc>) -> (r: Option<String>)
    ensures
        opt_text(r) == text_of_doc(opt_ref(d)),
{
    as_text(d)
}

fn summary_of_table(t: &Doc) -> (r: Option<String>)
    ensures
        opt_text(r) == table_summary(*t),
{
    join_name_desc(doc_text_opt(get(t, "name")), doc_text_opt(get(t, "description")))
}

/// The summary of a parsed `package.json`.
pub fn read_package_json(value: &Doc) -> (r: Option<String>)
    ensures
        opt_text(r) == package_json_summary(*value),
{
    let named = summary_of_table(value);
    if named.is_some() {
        return named;
    }
    if let Some(main) = doc_text_opt(get(value, "main")) {
        let mut s = String::new();
        s.append("main: ");
        s.append(main.as_str());
        return Some(s);
    }
    match get(value, "bin") {
        Some(Doc::Str(bin)) => {
            let mut s = String::new();
            s.append("bin: ");
            s.append(bin.as_str());
            Some(s)
        },
        Some(Doc::Table(entries)) => {
            if entries.len() > 0 {
                let mut s = String::new();
                s.append("bin: ");
                s.append(entries[0].0.as_str());
                Some(s)
            } else {
                None
            }
        },
        _ => None,
    }
}

/// The summary of a parsed `Cargo.toml`.
pub fn read_cargo_toml(value: &Doc) -> (r: Option<String>)
    ensures
        opt_text(r) == cargo_summary(*value),
{
    match get(value, "package") {
        Some(t) => match t {
            Doc::Table(_) => summary_of_table(t),
            _ => None,
        },
        None => None,
    }
}

/// The summary of a parsed `pyproject.toml`.
pub fn read_pyproject(value: &Doc) -> (r: Option<String>)
    ensures
        opt_text(r) == pyproject_summary(*value),
{
    let project = match get(value, "project") {
        Some(t) => match t {
            Doc::Table(_) => summary_of_table(t),
            _ => None,
        },
        None => None,
    };
    if project.is_some() {
        return project;
    }
    match get_opt(get(value, "tool"), "poetry") {
        Some(t) => match t {
            Doc::Table(_) => summary_of_table(t),
            _ => None,
        },
        None => None,
    }
}

/// Parser state over `setup.cfg`: inside `[metadata]`, name, description.
pub type CfgState = (bool, Option<Seq<char>>, Option<Seq<char>>);

/// One line of `setup.cfg` applied to the state: section headers switch
/// `[metadata]` on or off (ASCII case-insensitively); inside it, `key =
/// value` lines set `name` or `description` (keys compared lower-cased,
/// values trimmed of quotes); blank and comment lines are skipped.
pub open spec fn cfg_step(st: CfgState, line: Seq<char>) -> CfgState {
    let t = trim(line);
    if has_prefix(t, "["@) && has_suffix(t, "]"@) {
        (eq_ignore_ascii_case(t, "[metadata]"@), st.1, st.2)
    } else if !st.0 || t.len() == 0 || has_prefix(t, "#"@) || has_prefix(t, ";"@) {
        st
    } else {
        let k = find_char(t, '=', 0);
        if k >= t.len() {
            st
        } else {
            let key = lower_of(trim(t.take(k)));
            let value = strip_char(strip_char(trim(t.skip(k + 1)), '"'), '\'');
            if key == "name"@ && value.len() > 0 {
                (st.0, Some(value), st.2)
            } else if key == "description"@ && value.len() > 0 {
                (st.0, st.1, Some(value))
            } else {
                st
            }
        }
    }
}

pub open spec fn cfg_fold(lines: Seq<Seq<char>>) -> CfgState
    decreases lines.len(),
{
    if lines.len() == 0 {
        (false, None, None)
    } else {
        cfg_step(cfg_fold(lines.drop_last()), lines.last())
    }
}

/// Summary of a `setup.cfg` text: name and description of `[metadata]`.
pub open spec fn setup_cfg_summary(content: Seq<char>) -> Option<Seq<char>> {
    let st = cfg_fold(lines_of(content));
    name_desc(st.1, st.2)
}

/// The summary of a `setup.cfg` text.
pub fn read_setup_cfg(content: &str) -> (r: Option<String>)
    ensures
        opt_text(r) == setup_cfg_summary(content@),
{
    let lines = split_lines(content);
    let mut in_metadata = false;
    let mut name: Option<String> = None;
    let mut desc: Option<String> = None;
    let mut i: usize = 0;
    while i < lines.len()
        invariant
            i <= lines.len(),
            texts(lines@) == lines_of(content@),
            (in_metadata, opt_text(name), opt_text(desc)) == cfg_fold(texts(lines@).take(i as int)),
        decreases lines.len() - i,
    {
        proof {
            assert(texts(lines@).take(i as int + 1).drop_last() =~= texts(lines@).take(i as int));
            assert(texts(lines@).take(i as int + 1).last() == lines@[i as int]@);
        }
        let trimmed = trim_text(lines[i].as_str());
        let t = trimmed.as_str();
        if starts_with(t, "[") && ends_with(t, "]") {
            in_metadata = text_eq_ignore_ascii_case(t, "[metadata]");
        } else if !in_metadata || t.is_empty() || starts_with(t, "#") || starts_with(t, ";") {
        } else {
            let k = find_char_index(t, '=');
            if k < t.unicode_len() {
                let key = lowercase(trim_text(substring(t, 0, k).as_str()).as_str());
                let raw = trim_text(substring(t, k + 1, t.unicode_len()).as_str());
                let value = strip_char_text(strip_char_text(raw.as_str(), '"').as_str(), '\'');
                if same_text(key.as_str(), "name") && !value.as_str().is_empty() {
                    name = Some(value);
                } else if same_text(key.as_str(), "description") && !value.as_str().is_empty() {
                    desc = Some(value);
                }
                proof {
                    assert(t@.take(k as int) =~= t@.subrange(0, k as int));
                    assert(t@.skip(k + 1) =~= t@.subrange(k + 1, t@.len() as int));
                }
            }
        }
        i = i + 1;
    }
    assert(texts(lines@).take(lines.len() as int) =~= texts(lines@));
    join_name_desc(name, desc)
}

/// The first line that, trimmed, begins with `module `, trimmed.
pub open spec fn first_module_line(lines: Seq<Seq<char>>) -> Option<Seq<char>>
    decreases lines.len(),
{
    if lines.len() == 0 {
        None
    } else if has_prefix(trim(lines[0]), "module "@) {
        Some(trim(lines[0]))
    } else {
        first_module_line(lines.drop_first())
    }
}

/// The summary of a `go.mod` text: its `module` line.
pub fn read_go_mod(content: &str) -> (r: Option<String>)
    ensures
        opt_text(r) == first_module_line(lines_of(content@)),
{
    let lines = split_lines(content);
    let mut i: usize = 0;
    assert(texts(lines@).skip(0) =~= texts(lines@));
    while i < lines.len()
        invariant
            i <= lines.len(),
            texts(lines@) == lines_of(content@),
            first_module_line(texts(lines@).skip(i as int)) == first_module_line(lines_of(content@)),
        decreases lines.len() - i,
    {
        assert(texts(lines@).skip(i as int).drop_first() =~= texts(lines@).skip(i + 1));
        assert(texts(lines@).skip(i as int)[0] == lines@[i as int]@);
        let trimmed = trim_text(lines[i].as_str());
        if starts_with(trimmed.as_str(), "module ") {
            return Some(trimmed);
        }
        i = i + 1;
    }
    None
}

/// The first non-blank line, trimmed.
pub open spec fn first_nonblank(lines: Seq<Seq<char>>) -> Option<Seq<char>>
    decreases lines.len(),
{
    if lines.len() == 0 {
        None
    } else if trim(lines[0]).len() > 0 {
        Some(trim(lines[0]))
    } else {
        first_nonblank(lines.drop_first())
    }
}

/// The first non-blank line of a text, trimmed.
pub fn read_first_line(content: &str) -> (r: Option<String>)
    ensures
        opt_text(r) == first_nonblank(lines_of(content@)),
{
    let lines = split_lines(content);
    let mut i: usize = 0;
    assert(texts(lines@).skip(0) =~= texts(lines@));
    while i < lines.len()
        invariant
            i <= lines.len(),
            texts(lines@) == lines_of(content@),
            first_nonblank(texts(lines@).skip(i as int)) == first_nonblank(lines_of(content@)),
        decreases lines.len() - i,
    {
        assert(texts(lines@).skip(i as int).drop_first() =~= texts(lines@).skip(i + 1));
        assert(texts(lines@).skip(i as int)[0] == lines@[i as int]@);
        let trimmed = trim_text(lines[i].as_str());
        if !trimmed.as_str().is_empty() {
            return Some(trimmed);
        }
        i = i + 1;
    }
    None
}

pub open spec fn readme_texts(rs: Seq<Option<String>>) -> Seq<Option<Seq<char>>> {
    rs.map_values(|r: Option<String>| opt_text(r))
}

/// The first line found in the README texts, in order.
pub open spec fn first_readme_line(rs: Seq<Option<Seq<char>>>) -> Option<Seq<char>>
    decreases rs.len(),
{
    if rs.len() == 0 {
        None
    } else {
        let here = match rs[0] {
            Some(t) => first_nonblank(lines_of(t)),
            None => None,
        };
        if here is Some {
            here
        } else {
            first_readme_line(rs.drop_first())
        }
    }
}

/// The first non-blank line of the first README that has one.
pub fn read_readme_line(readmes: &Vec<Option<String>>) -> (r: Option<String>)
    ensures
        opt_text(r) == first_readme_line(readme_texts(readmes@)),
{
    let ghost rs = readme_texts(readmes@);
    let mut i: usize = 0;
    assert(rs.skip(0) =~= rs);
    while i < readmes.len()
        invariant
            rs == readme_texts(readmes@),
            i <= readmes.len(),
            first_readme_line(rs.skip(i as int)) == first_readme_line(rs),
        decreases readmes.len() - i,
    {
        assert(rs.skip(i as int).drop_first() =~= rs.skip(i + 1));
        assert(rs.skip(i as int)[0] == opt_text(readmes@[i as int]));
        if let Some(text) = &readmes[i] {
            let line = read_first_line(text.as_str());
            if line.is_some() {
                return line;
            }
        }
        i = i + 1;
    }
    None
}

/// Whether a directory entry is a README: its lower-cased name begins with
/// `readme`.
pub open spec fn is_readme(name: Seq<char>) -> bool {
    has_prefix(lower_of(name), "readme"@)
}

pub open spec fn readme_names(names: Seq<Seq<char>>) -> Seq<Seq<char>>
    decreases names.len(),
{
    if names.len() == 0 {
        Seq::empty()
    } else {
        let rest = readme_names(names.drop_last());
        if is_readme(names.last()) {
            rest.push(names.last())
        } else {
            rest
        }
    }
}

/// `x` inserted before the first element that it precedes.
pub open spec fn insert_text(x: Seq<char>, s: Seq<Seq<char>>) -> Seq<Seq<char>>
    decreases s.len(),
{
    if s.len() == 0 {
        seq![x]
    } else if lex_lt(x, s[0]) {
        seq![x] + s
    } else {
        seq![s[0]] + insert_text(x, s.drop_first())
    }
}

/// Texts in ascending lexicographic order.
pub open spec fn sort_texts(s: Seq<Seq<char>>) -> Seq<Seq<char>>
    decreases s.len(),
{
    if s.len() == 0 {
        s
    } else {
        insert_text(s.last(), sort_texts(s.drop_last()))
    }
}

proof fn lemma_insert_text_at(x: Seq<char>, s: Seq<Seq<char>>, p: int)
    requires
        0 <= p <= s.len(),
        forall|q: int| 0 <= q < p ==> !lex_lt(x, #[trigger] s[q]),
        p == s.len() || lex_lt(x, s[p]),
    ensures
        insert_text(x, s) == s.insert(p, x),
    decreases s.len(),
{
    if s.len() == 0 {
        assert(s.insert(p, x) =~= seq![x]);
    } else if p == 0 {
        assert(s.insert(p, x) =~= seq![x] + s);
    } else {
        let rest = s.drop_first();
        assert forall|q: int| 0 <= q < p - 1 implies !lex_lt(x, #[trigger] rest[q]) by {
            assert(rest[q] == s[q + 1]);
        }
        lemma_insert_text_at(x, rest, p - 1);
        assert(s.insert(p, x) =~= seq![s[0]] + rest.insert(p - 1, x));
    }
}

/// The README entries among a directory's entry names, sorted.
pub fn readme_candidates(names: &Vec<String>) -> (r: Vec<String>)
    ensures
        texts(r@) == sort_texts(readme_names(texts(names@))),
{
    let mut out: Vec<String> = Vec::new();
    let mut keys: Vec<Vec<char>> = Vec::new();
    let mut i: usize = 0;
    while i < names.len()
        invariant
            i <= names.len(),
            keys.len() == out.len(),
            forall|q: int| 0 <= q < keys.len() ==> (#[trigger] keys@[q])@ == out@[q]@,
            texts(out@) == sort_texts(readme_names(texts(names@).take(i as int))),
        decreases names.len() - i,
    {
        proof {
            assert(texts(names@).take(i as int + 1).drop_last() =~= texts(names@).take(i as int));
            assert(texts(names@).take(i as int + 1).last() == names@[i as int]@);
        }
        let name = &names[i];
        let lower = lowercase(name.as_str());
        if starts_with(lower.as_str(), "readme") {
            let key = to_chars(name.as_str());
            let mut p: usize = 0;
            while p < out.len() && !lex_less(&key, &keys[p])
                invariant
                    p <= out.len(),
                    keys.len() == out.len(),
                    key@ == name@,
                    forall|q: int| 0 <= q < keys.len() ==> (#[trigger] keys@[q])@ == out@[q]@,
                    forall|q: int| 0 <= q < p ==> !lex_lt(name@, #[trigger] texts(out@)[q]),
                decreases out.len() - p,
            {
                p = p + 1;
            }
            let ghost before = texts(out@);
            proof {
                lemma_insert_text_at(name@, before, p as int);
            }
            out.insert(p, name.clone());
            keys.insert(p, key);
            assert(texts(out@) =~= before.insert(p as int, name@));
            proof {
                let rn = readme_names(texts(names@).take(i as int));
                assert(rn.push(name@).drop_last() =~= rn);
                assert(rn.push(name@).last() == name@);
                assert(sort_texts(rn.push(name@)) == insert_text(name@, sort_texts(rn)));
            }
            assert forall|q: int| 0 <= q < keys.len() implies (#[trigger] keys@[q])@ == out@[q]@ by {
                if q < p {
                } else if q > p {
                }
            }
        }
        i = i + 1;
    }
    assert(texts(names@).take(names.len() as int) =~= texts(names@));
    out
}

/// The summary of a module of kind `kind`, from what its directory holds.
pub open spec fn summary_of(kind: ModuleKind, f: ModuleFiles) -> Option<Seq<char>> {
    let specific = match kind {
        ModuleKind::Node => match f.package_json {
            Some(d) => package_json_summary(d),
            None => None,
        },
        ModuleKind::Rust => match f.cargo_toml {
            Some(d) => cargo_summary(d),
            None => None,
        },
        ModuleKind::Python => {
            let p = match f.pyproject_toml {
                Some(d) => pyproject_summary(d),
                None => None,
            };
            if p is Some {
                p
            } else {
                match f.setup_cfg {
                    Some(t) => setup_cfg_summary(t@),
                    None => None,
                }
            }
        },
        ModuleKind::Go => match f.go_mod {
            Some(t) => first_module_line(lines_of(t@)),
            None => None,
        },
        _ => None,
    };
    if specific is Some {
        specific
    } else {
        first_readme_line(readme_texts(f.readmes@))
    }
}

/// The best-effort one-line summary of a module.
pub fn read_summary(kind: ModuleKind, files: &ModuleFiles) -> (r: Option<String>)
    ensures
        opt_text(r) == summary_of(kind, *files),
{
    let summary = match kind {
        ModuleKind::Node => match &files.package_json {
            Some(d) => read_package_json(d),
            None => None,
        },
        ModuleKind::Rust => match &files.cargo_toml {
            Some(d) => read_cargo_toml(d),
            None => None,
        },
        ModuleKind::Python => {
            let p = match &files.pyproject_toml {
                Some(d) => read_pyproject(d),
                None => None,
            };
            if p.is_some() {
                p
            } else {
                match &files.setup_cfg {
                    Some(t) => read_setup_cfg(t.as_str()),
                    None => None,
                }
            }
        },
        ModuleKind::Go => match &files.go_mod {
            Some(t) => read_go_mod(t.as_str()),
            None => None,
        },
        _ => None,
    };
    if summary.is_some() {
        summary
    } else {
        read_readme_line(&files.readmes)
    }
}

} // verus!
